//! Placeholder substitution: every occurrence of `{{ name }}` inside a step
//! string is replaced by the variable set's value for `name`, once, at
//! load time. A placeholder is two literal open braces, optional spaces, a
//! word of ASCII alphanumeric or underscore characters, optional spaces and
//! two literal close braces; scanning is left to right and a substituted
//! value is not rescanned. A reference to an undefined variable is a fatal
//! load-time condition.

use vstd::prelude::*;
use vstd::string::StrSliceExecFns;
use vstd::string::StringExecFns;
use crate::errors::TaruError;
use crate::vars::VarTable;

verus! {

/// A character a placeholder's word may consist of: ASCII alphanumeric or
/// underscore.
pub open spec fn word_char(c: char) -> bool {
    ((('a' as u32) <= (c as u32)) && ((c as u32) <= ('z' as u32)))
    || ((('A' as u32) <= (c as u32)) && ((c as u32) <= ('Z' as u32)))
    || ((('0' as u32) <= (c as u32)) && ((c as u32) <= ('9' as u32)))
    || c == '_'
}

/// The first position at or after `i` that does not hold a space.
pub open spec fn skip_spaces(s: Seq<char>, i: int) -> int
    decreases s.len() - i,
{
    if 0 <= i < s.len() && s[i] == ' ' {
        skip_spaces(s, i + 1)
    } else {
        i
    }
}

/// The first position at or after `i` that does not hold a word character.
pub open spec fn skip_word(s: Seq<char>, i: int) -> int
    decreases s.len() - i,
{
    if 0 <= i < s.len() && word_char(s[i]) {
        skip_word(s, i + 1)
    } else {
        i
    }
}

pub proof fn lemma_skip_spaces_bounds(s: Seq<char>, i: int)
    requires
        0 <= i <= s.len(),
    ensures
        i <= skip_spaces(s, i) <= s.len(),
    decreases s.len() - i,
{
    if i < s.len() && s[i] == ' ' {
        lemma_skip_spaces_bounds(s, i + 1);
    }
}

pub proof fn lemma_skip_word_bounds(s: Seq<char>, i: int)
    requires
        0 <= i <= s.len(),
    ensures
        i <= skip_word(s, i) <= s.len(),
    decreases s.len() - i,
{
    if i < s.len() && word_char(s[i]) {
        lemma_skip_word_bounds(s, i + 1);
    }
}

/// The placeholder that begins at position `i`, if any: its variable name and
/// the position just past its closing braces.
pub open spec fn placeholder_at(s: Seq<char>, i: int) -> Option<(Seq<char>, int)> {
    if i + 2 <= s.len() && s[i] == '{' && s[i + 1] == '{' {
        let a = skip_spaces(s, i + 2);
        let b = skip_word(s, a);
        if b > a {
            let c = skip_spaces(s, b);
            if c + 2 <= s.len() && s[c] == '}' && s[c + 1] == '}' {
                Some((s.subrange(a, b), c + 2))
            } else {
                None
            }
        } else {
            None
        }
    } else {
        None
    }
}

/// A placeholder found at `i` ends after it and within the string.
pub proof fn lemma_placeholder_at_bounds(s: Seq<char>, i: int)
    requires
        0 <= i <= s.len(),
        placeholder_at(s, i) is Some,
    ensures
        i < placeholder_at(s, i)->Some_0.1 <= s.len(),
{
    lemma_skip_spaces_bounds(s, i + 2);
    let a = skip_spaces(s, i + 2);
    lemma_skip_word_bounds(s, a);
    let b = skip_word(s, a);
    lemma_skip_spaces_bounds(s, b);
}

/// The substitution of every placeholder from position `i` on: `None` when
/// some placeholder names a variable the set does not define, otherwise the
/// substituted remainder of the string.
pub open spec fn subst_from(s: Seq<char>, vars: Map<Seq<char>, Seq<char>>, i: int) -> Option<
    Seq<char>,
>
    decreases s.len() - i,
    via subst_from_decreases
{
    if i < 0 || i >= s.len() {
        Some(Seq::empty())
    } else {
        match placeholder_at(s, i) {
            Some(ph) => {
                if vars.contains_key(ph.0) {
                    match subst_from(s, vars, ph.1) {
                        Some(rest) => Some(vars[ph.0] + rest),
                        None => None,
                    }
                } else {
                    None
                }
            },
            None => {
                match subst_from(s, vars, i + 1) {
                    Some(rest) => Some(seq![s[i]] + rest),
                    None => None,
                }
            },
        }
    }
}

#[via_fn]
proof fn subst_from_decreases(s: Seq<char>, vars: Map<Seq<char>, Seq<char>>, i: int) {
    if 0 <= i < s.len() {
        if placeholder_at(s, i) is Some {
            lemma_placeholder_at_bounds(s, i);
        }
    }
}

/// The substitution of a whole step string.
pub open spec fn spec_substitute(s: Seq<char>, vars: Map<Seq<char>, Seq<char>>) -> Option<
    Seq<char>,
> {
    subst_from(s, vars, 0)
}

fn word_char_exec(c: char) -> (r: bool)
    ensures
        r == word_char(c),
{
    let u = c as u32;
    (97 <= u && u <= 122) || (65 <= u && u <= 90) || (48 <= u && u <= 57) || c == '_'
}

fn skip_spaces_exec(s: &str, i: usize) -> (r: usize)
    requires
        i <= s@.len(),
    ensures
        r == skip_spaces(s@, i as int),
        i <= r <= s@.len(),
{
    let n = s.unicode_len();
    let mut j = i;
    while j < n && s.get_char(j) == ' '
        invariant
            i <= j <= n,
            n == s@.len(),
            skip_spaces(s@, i as int) == skip_spaces(s@, j as int),
        decreases n - j,
    {
        j = j + 1;
    }
    j
}

fn skip_word_exec(s: &str, i: usize) -> (r: usize)
    requires
        i <= s@.len(),
    ensures
        r == skip_word(s@, i as int),
        i <= r <= s@.len(),
{
    let n = s.unicode_len();
    let mut j = i;
    while j < n && word_char_exec(s.get_char(j))
        invariant
            i <= j <= n,
            n == s@.len(),
            skip_word(s@, i as int) == skip_word(s@, j as int),
        decreases n - j,
    {
        j = j + 1;
    }
    j
}

/// The placeholder that begins at position `i`, as executable scanning: the
/// variable name it references and the position just past it.
fn placeholder_at_exec(s: &str, i: usize) -> (r: Option<(String, usize)>)
    requires
        i < s@.len(),
    ensures
        match r {
            Some(p) => {
                &&& placeholder_at(s@, i as int) == Some((p.0@, p.1 as int))
                &&& i < p.1 <= s@.len()
            },
            None => placeholder_at(s@, i as int) is None,
        },
{
    let n = s.unicode_len();
    if n - i < 2 || s.get_char(i) != '{' || s.get_char(i + 1) != '{' {
        return None;
    }
    let a = skip_spaces_exec(s, i + 2);
    let b = skip_word_exec(s, a);
    if b == a {
        return None;
    }
    let c = skip_spaces_exec(s, b);
    if n - c < 2 || s.get_char(c) != '}' || s.get_char(c + 1) != '}' {
        return None;
    }
    let name = s.substring_char(a, b).to_owned();
    Some((name, c + 2))
}

/// Replaces every placeholder in `step` with its value from `vars`. A
/// reference to a variable the set does not define aborts the load with
/// `ParseError`; no partial substitution is returned.
pub fn substitute_step(step: &str, vars: &VarTable) -> (r: Result<String, TaruError>)
    ensures
        match r {
            Ok(out) => spec_substitute(step@, vars.as_map()) == Some(out@),
            Err(e) => {
                &&& e == TaruError::ParseError
                &&& spec_substitute(step@, vars.as_map()) is None
            },
        },
{
    let n = step.unicode_len();
    let mut out = String::new();
    let mut i: usize = 0;
    while i < n
        invariant
            0 <= i <= n,
            n == step@.len(),
            match subst_from(step@, vars.as_map(), i as int) {
                Some(rest) => subst_from(step@, vars.as_map(), 0) == Some(out@ + rest),
                None => subst_from(step@, vars.as_map(), 0) is None,
            },
        decreases n - i,
    {
        let ghost pre_out = out@;
        match placeholder_at_exec(step, i) {
            Some(ph) => {
                match vars.get(ph.0.as_str()) {
                    Some(value) => {
                        out.append(value.as_str());
                        proof {
                            let vm = vars.as_map();
                            let rest = subst_from(step@, vm, ph.1 as int);
                            if rest is Some {
                                assert(subst_from(step@, vm, i as int)
                                    == Some(vm[ph.0@] + rest->Some_0));
                                assert(pre_out + (vm[ph.0@] + rest->Some_0)
                                    =~= out@ + rest->Some_0);
                            }
                        }
                        i = ph.1;
                    },
                    None => {
                        proof {
                            assert(subst_from(step@, vars.as_map(), i as int) is None);
                        }
                        return Err(TaruError::ParseError);
                    },
                }
            },
            None => {
                let piece = step.substring_char(i, i + 1);
                out.append(piece);
                proof {
                    let vm = vars.as_map();
                    assert(piece@ =~= seq![step@[i as int]]);
                    let rest = subst_from(step@, vm, i as int + 1);
                    if rest is Some {
                        assert(subst_from(step@, vm, i as int)
                            == Some(seq![step@[i as int]] + rest->Some_0));
                        assert(pre_out + (seq![step@[i as int]] + rest->Some_0)
                            =~= out@ + rest->Some_0);
                    }
                }
                i = i + 1;
            },
        }
    }
    proof {
        assert(subst_from(step@, vars.as_map(), n as int) == Some(Seq::<char>::empty()));
        assert(out@ + Seq::<char>::empty() =~= out@);
    }
    Ok(out)
}

} // verus!

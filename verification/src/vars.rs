//! The variable set: named string values taken from the configuration, with
//! the `env.` marker convention resolved before any placeholder substitution.
//!
//! A raw value that begins with the marker `env.` names an environment
//! variable; the caller looks that name up in the process environment and
//! hands the outcome in, so resolution itself is deterministic and verified.
//! When the environment variable is absent or empty, the marker-stripped
//! name itself is the fallback value.

use vstd::prelude::*;
use vstd::string::StrSliceExecFns;

verus! {

/// True when `s` begins with the four marker characters `env.`.
pub open spec fn has_env_marker(s: Seq<char>) -> bool {
    s.len() >= 4 && s[0] == 'e' && s[1] == 'n' && s[2] == 'v' && s[3] == '.'
}

/// The value with every leading repetition of the `env.` marker removed.
pub open spec fn strip_env_prefix(s: Seq<char>) -> Seq<char>
    decreases s.len(),
{
    if has_env_marker(s) {
        strip_env_prefix(s.skip(4))
    } else {
        s
    }
}

/// What a raw variable value resolves to, given the environment's value for
/// the marker-stripped name (`None` when the environment variable is unset).
/// A value without the marker stands as it is; with the marker, the
/// environment's value is taken, falling back to the stripped name itself
/// when the environment variable is absent or empty.
pub open spec fn resolved_value(raw: Seq<char>, env: Option<Seq<char>>) -> Seq<char> {
    if has_env_marker(raw) {
        match env {
            Some(e) => if e.len() > 0 {
                e
            } else {
                strip_env_prefix(raw)
            },
            None => strip_env_prefix(raw),
        }
    } else {
        raw
    }
}

/// The name of the environment variable that `value` refers to, or `None`
/// when `value` carries no `env.` marker. The caller looks the returned name
/// up in the process environment and hands the outcome to
/// [`resolve_variable_value`].
pub fn env_reference(value: &str) -> (r: Option<String>)
    ensures
        match r {
            Some(n) => has_env_marker(value@) && n@ == strip_env_prefix(value@),
            None => !has_env_marker(value@),
        },
{
    let n = value.unicode_len();
    let mut i: usize = 0;
    proof {
        assert(value@.skip(0) =~= value@);
    }
    while n - i >= 4 && value.get_char(i) == 'e' && value.get_char(i + 1) == 'n'
        && value.get_char(i + 2) == 'v' && value.get_char(i + 3) == '.'
        invariant
            0 <= i <= n,
            n == value@.len(),
            strip_env_prefix(value@) == strip_env_prefix(value@.skip(i as int)),
            i > 0 ==> has_env_marker(value@),
        decreases n - i,
    {
        proof {
            let s = value@.skip(i as int);
            assert(s[0] == value@[i as int]);
            assert(s[1] == value@[i as int + 1]);
            assert(s[2] == value@[i as int + 2]);
            assert(s[3] == value@[i as int + 3]);
            assert(has_env_marker(s));
            assert(s.skip(4) =~= value@.skip(i as int + 4));
            if i == 0 {
                assert(value@.skip(0) =~= value@);
            }
        }
        i = i + 4;
    }
    proof {
        let s = value@.skip(i as int);
        if s.len() >= 4 {
            assert(s[0] == value@[i as int]);
            assert(s[1] == value@[i as int + 1]);
            assert(s[2] == value@[i as int + 2]);
            assert(s[3] == value@[i as int + 3]);
        }
        assert(!has_env_marker(s));
    }
    if i == 0 {
        proof {
            assert(value@.skip(0) =~= value@);
        }
        None
    } else {
        let stripped = value.substring_char(i, n);
        proof {
            assert(value@.subrange(i as int, n as int) =~= value@.skip(i as int));
        }
        Some(stripped.to_owned())
    }
}

/// The resolved form of one raw variable value. `env` is the environment's
/// value for the name [`env_reference`] gives, or `None` when the value has
/// no marker or the environment variable is unset.
pub fn resolve_variable_value(raw: &str, env: &Option<String>) -> (r: String)
    ensures
        r@ == resolved_value(raw@, env.deep_view()),
{
    match env_reference(raw) {
        None => raw.to_owned(),
        Some(stripped) => match env {
            Some(e) => {
                if e.as_str().unicode_len() > 0 {
                    e.clone()
                } else {
                    stripped
                }
            },
            None => stripped,
        },
    }
}

/// One variable as the caller hands it in: its name, its raw value, and the
/// environment's value for the marker-stripped name when the raw value
/// carries the `env.` marker (`None` otherwise, or when unset).
pub struct RawVar {
    pub name: String,
    pub value: String,
    pub env: Option<String>,
}

/// One resolved variable.
pub struct VarEntry {
    pub name: String,
    pub value: String,
}

/// The mapping a sequence of entries stands for; a later entry with the same
/// name overrides an earlier one.
pub open spec fn table_map(es: Seq<VarEntry>) -> Map<Seq<char>, Seq<char>>
    decreases es.len(),
{
    if es.len() == 0 {
        Map::empty()
    } else {
        table_map(es.drop_last()).insert(es.last().name@, es.last().value@)
    }
}

/// The variable set that a sequence of raw variables resolves to.
pub open spec fn vars_spec_map(rs: Seq<RawVar>) -> Map<Seq<char>, Seq<char>>
    decreases rs.len(),
{
    if rs.len() == 0 {
        Map::empty()
    } else {
        vars_spec_map(rs.drop_last()).insert(
            rs.last().name@,
            resolved_value(rs.last().value@, rs.last().env.deep_view()),
        )
    }
}

/// The finalized variable set: a mapping from variable name to resolved
/// string value, immutable after resolution.
pub struct VarTable {
    entries: Vec<VarEntry>,
}

impl VarTable {
    /// The mapping this table holds.
    pub closed spec fn as_map(&self) -> Map<Seq<char>, Seq<char>> {
        table_map(self.entries@)
    }

    /// The value bound to `name`, or `None` when the table has no such
    /// variable.
    pub fn get(&self, name: &str) -> (r: Option<String>)
        ensures
            match r {
                Some(v) => self.as_map().contains_key(name@) && self.as_map()[name@] == v@,
                None => !self.as_map().contains_key(name@),
            },
    {
        let key: String = name.to_owned();
        let n = self.entries.len();
        let mut idx: usize = n;
        while idx > 0
            invariant
                0 <= idx <= n,
                n == self.entries@.len(),
                key@ == name@,
                forall|j: int| idx <= j < n ==> self.entries@[j].name@ != name@,
            decreases idx,
        {
            idx = idx - 1;
            if self.entries[idx].name == key {
                proof {
                    lemma_table_map_found(self.entries@, name@, idx as int);
                }
                return Some(self.entries[idx].value.clone());
            }
        }
        proof {
            lemma_table_map_absent(self.entries@, name@);
        }
        None
    }
}

/// When `es[idx]` bears the name and no later entry does, the mapping binds
/// the name to that entry's value.
proof fn lemma_table_map_found(es: Seq<VarEntry>, key: Seq<char>, idx: int)
    requires
        0 <= idx < es.len(),
        es[idx].name@ == key,
        forall|j: int| idx < j < es.len() ==> es[j].name@ != key,
    ensures
        table_map(es).contains_key(key),
        table_map(es)[key] == es[idx].value@,
    decreases es.len(),
{
    if idx == es.len() - 1 {
    } else {
        assert(es.drop_last()[idx] == es[idx]);
        lemma_table_map_found(es.drop_last(), key, idx);
        assert(es.last().name@ != key);
    }
}

/// When no entry bears the name, the mapping has no binding for it.
proof fn lemma_table_map_absent(es: Seq<VarEntry>, key: Seq<char>)
    requires
        forall|j: int| 0 <= j < es.len() ==> es[j].name@ != key,
    ensures
        !table_map(es).contains_key(key),
    decreases es.len(),
{
    if es.len() > 0 {
        assert(forall|j: int| 0 <= j < es.drop_last().len() ==> es.drop_last()[j] == es[j]);
        lemma_table_map_absent(es.drop_last(), key);
    }
}

/// Builds the finalized variable set from the raw variables: each value has
/// its `env.` marker applied, in order; a later variable with the same name
/// overrides an earlier one.
pub fn resolve_variables(raw: &Vec<RawVar>) -> (r: VarTable)
    ensures
        r.as_map() == vars_spec_map(raw@),
{
    let mut entries: Vec<VarEntry> = Vec::new();
    let mut i: usize = 0;
    while i < raw.len()
        invariant
            0 <= i <= raw@.len(),
            table_map(entries@) == vars_spec_map(raw@.take(i as int)),
        decreases raw@.len() - i,
    {
        let rv = &raw[i];
        let value = resolve_variable_value(rv.value.as_str(), &rv.env);
        let entry = VarEntry { name: rv.name.clone(), value };
        let ghost pre = entries@;
        entries.push(entry);
        proof {
            assert(entries@.drop_last() =~= pre);
            assert(raw@.take(i as int + 1).drop_last() =~= raw@.take(i as int));
            assert(raw@.take(i as int + 1).last() == raw@[i as int]);
        }
        i = i + 1;
    }
    proof {
        assert(raw@.take(raw@.len() as int) =~= raw@);
    }
    VarTable { entries }
}

} // verus!

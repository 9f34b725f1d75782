//! Jobs and the job set: a job is an ordered sequence of step strings and a
//! list of prerequisite job names; the job set maps each job name to its
//! job, built once per invocation and immutable thereafter.

use vstd::prelude::*;

verus! {

/// One job: its shell command lines, order-significant, and the names of the
/// jobs that must run before it, in the order they were declared.
pub struct Job {
    pub steps: Vec<String>,
    pub prerequisites: Vec<String>,
}

/// The mathematical shape of a job.
pub struct JobView {
    pub steps: Seq<Seq<char>>,
    pub prerequisites: Seq<Seq<char>>,
}

impl View for Job {
    type V = JobView;

    open spec fn view(&self) -> JobView {
        JobView { steps: self.steps.deep_view(), prerequisites: self.prerequisites.deep_view() }
    }
}

/// One named job inside a job set.
pub struct JobEntry {
    pub name: String,
    pub job: Job,
}

/// The mapping a sequence of entries stands for; a later entry with the same
/// name overrides an earlier one.
pub open spec fn entries_map(es: Seq<JobEntry>) -> Map<Seq<char>, JobView>
    decreases es.len(),
{
    if es.len() == 0 {
        Map::empty()
    } else {
        entries_map(es.drop_last()).insert(es.last().name@, es.last().job@)
    }
}

/// The finalized job set: job name to job definition.
pub struct JobSet {
    entries: Vec<JobEntry>,
}

impl JobSet {
    /// The mapping this set holds.
    pub closed spec fn as_map(&self) -> Map<Seq<char>, JobView> {
        entries_map(self.entries@)
    }

    /// The names of the jobs, in the order they were added.
    pub closed spec fn names(&self) -> Seq<Seq<char>> {
        self.entries@.map_values(|e: JobEntry| e.name@)
    }

    /// An empty job set.
    pub fn new() -> (r: JobSet)
        ensures
            r.as_map() == Map::<Seq<char>, JobView>::empty(),
            r.names() == Seq::<Seq<char>>::empty(),
    {
        let r = JobSet { entries: Vec::new() };
        proof {
            assert(r.names() =~= Seq::<Seq<char>>::empty());
        }
        r
    }

    /// The number of jobs added.
    pub fn len(&self) -> (r: usize)
        ensures
            r == self.names().len(),
    {
        self.entries.len()
    }

    /// Adds a job under a name; a later job with the same name overrides an
    /// earlier one.
    pub fn insert(&mut self, name: String, job: Job)
        ensures
            final(self).as_map() == old(self).as_map().insert(name@, job@),
            final(self).names() == old(self).names().push(name@),
    {
        let ghost pre = self.entries@;
        let ghost jv = job@;
        self.entries.push(JobEntry { name, job });
        proof {
            assert(self.entries@.drop_last() =~= pre);
            assert(self.entries@.last().job@ == jv);
            assert(final(self).names() =~= old(self).names().push(self.entries@.last().name@));
        }
    }

    /// The job bound to `name`, or `None` when the set has no such job.
    pub fn get(&self, name: &str) -> (r: Option<&Job>)
        ensures
            match r {
                Some(j) => self.as_map().contains_key(name@) && self.as_map()[name@] == j@,
                None => !self.as_map().contains_key(name@),
            },
    {
        let key: String = name.to_owned();
        let n = self.entries.len();
        let mut idx: usize = n;
        while idx > 0
            invariant
                0 <= idx <= n,
                n == self.entries@.len(),
                key@ == name@,
                forall|j: int| idx <= j < n ==> self.entries@[j].name@ != name@,
            decreases idx,
        {
            idx = idx - 1;
            if self.entries[idx].name == key {
                proof {
                    lemma_entries_map_found(self.entries@, name@, idx as int);
                }
                return Some(&self.entries[idx].job);
            }
        }
        proof {
            lemma_entries_map_absent(self.entries@, name@);
        }
        None
    }

    /// The job names, in the order they were added.
    pub fn name_list(&self) -> (r: Vec<String>)
        ensures
            r.deep_view() == self.names(),
    {
        let mut r: Vec<String> = Vec::new();
        let mut i: usize = 0;
        while i < self.entries.len()
            invariant
                0 <= i <= self.entries@.len(),
                r.deep_view() =~= self.names().take(i as int),
            decreases self.entries@.len() - i,
        {
            let ghost pre = r.deep_view();
            r.push(self.entries[i].name.clone());
            proof {
                assert(r.deep_view() =~= pre.push(self.entries@[i as int].name@));
                assert(
                    self.names().take(i as int + 1)
                    =~= self.names().take(i as int).push(self.names()[i as int])
                );
            }
            i = i + 1;
        }
        proof {
            assert(r.deep_view() =~= self.names());
        }
        r
    }
}

/// When `es[idx]` bears the name and no later entry does, the mapping binds
/// the name to that entry's job.
proof fn lemma_entries_map_found(es: Seq<JobEntry>, key: Seq<char>, idx: int)
    requires
        0 <= idx < es.len(),
        es[idx].name@ == key,
        forall|j: int| idx < j < es.len() ==> es[j].name@ != key,
    ensures
        entries_map(es).contains_key(key),
        entries_map(es)[key] == es[idx].job@,
    decreases es.len(),
{
    if idx == es.len() - 1 {
    } else {
        assert(es.drop_last()[idx] == es[idx]);
        lemma_entries_map_found(es.drop_last(), key, idx);
        assert(es.last().name@ != key);
    }
}

/// When no entry bears the name, the mapping has no binding for it.
proof fn lemma_entries_map_absent(es: Seq<JobEntry>, key: Seq<char>)
    requires
        forall|j: int| 0 <= j < es.len() ==> es[j].name@ != key,
    ensures
        !entries_map(es).contains_key(key),
    decreases es.len(),
{
    if es.len() > 0 {
        assert(forall|j: int| 0 <= j < es.drop_last().len() ==> es.drop_last()[j] == es[j]);
        lemma_entries_map_absent(es.drop_last(), key);
    }
}

} // verus!

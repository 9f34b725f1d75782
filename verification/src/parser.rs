//! The config resolver: the raw job definitions and raw variables that the
//! caller parsed out of the configuration document are finalized here —
//! variables have their `env.` markers applied, every placeholder in every
//! step is substituted, and the result is the finalized job set. A step
//! that references an undefined variable aborts the whole load with
//! `ParseError`; no partial substitution is returned.

use vstd::prelude::*;
use crate::errors::TaruError;
use crate::jobs::Job;
use crate::jobs::JobSet;
use crate::jobs::JobView;
use crate::subst::spec_substitute;
use crate::subst::substitute_step;
use crate::vars::RawVar;
use crate::vars::resolve_variables;
use crate::vars::vars_spec_map;

verus! {

/// One job definition as the caller hands it in, before substitution: its
/// name, its raw step strings and its prerequisite names. A job declared
/// without prerequisites carries an empty list.
pub struct RawJob {
    pub name: String,
    pub steps: Vec<String>,
    pub prerequisites: Vec<String>,
}

/// The substituted form of one step, where defined.
pub open spec fn resolved_step(s: Seq<char>, vm: Map<Seq<char>, Seq<char>>) -> Seq<char> {
    match spec_substitute(s, vm) {
        Some(t) => t,
        None => Seq::empty(),
    }
}

/// True when every step of the job substitutes under the variable set.
pub open spec fn job_resolves(j: RawJob, vm: Map<Seq<char>, Seq<char>>) -> bool {
    forall|k: int| 0 <= k < j.steps@.len() ==> spec_substitute(j.steps@[k]@, vm) is Some
}

/// True when every step of every job substitutes under the variable set.
pub open spec fn jobs_resolve(raws: Seq<RawJob>, vm: Map<Seq<char>, Seq<char>>) -> bool {
    forall|i: int| 0 <= i < raws.len() ==> job_resolves(raws[i], vm)
}

/// The finalized form of one raw job.
pub open spec fn resolved_job(j: RawJob, vm: Map<Seq<char>, Seq<char>>) -> JobView {
    JobView {
        steps: j.steps@.map_values(|s: String| resolved_step(s@, vm)),
        prerequisites: j.prerequisites.deep_view(),
    }
}

/// The finalized job set a sequence of raw jobs stands for; a later job
/// with the same name overrides an earlier one.
pub open spec fn resolved_jobs_map(
    raws: Seq<RawJob>,
    vm: Map<Seq<char>, Seq<char>>,
) -> Map<Seq<char>, JobView>
    decreases raws.len(),
{
    if raws.len() == 0 {
        Map::empty()
    } else {
        resolved_jobs_map(raws.drop_last(), vm).insert(
            raws.last().name@,
            resolved_job(raws.last(), vm),
        )
    }
}

/// Builds the finalized job set: resolves the variables, then substitutes
/// every placeholder in every step of every job. A step referencing an
/// undefined variable fails the whole load with `ParseError` and no job set
/// is returned.
pub fn resolve_jobs(raw_jobs: &Vec<RawJob>, raw_vars: &Vec<RawVar>) -> (r: Result<
    JobSet,
    TaruError,
>)
    ensures
        ({
            let vm = vars_spec_map(raw_vars@);
            match r {
                Ok(js) => {
                    &&& jobs_resolve(raw_jobs@, vm)
                    &&& js.as_map() == resolved_jobs_map(raw_jobs@, vm)
                    &&& js.names() == raw_jobs@.map_values(|rj: RawJob| rj.name@)
                },
                Err(e) => {
                    &&& e == TaruError::ParseError
                    &&& !jobs_resolve(raw_jobs@, vm)
                },
            }
        }),
{
    let vars = resolve_variables(raw_vars);
    let ghost vm = vars_spec_map(raw_vars@);
    let mut js = JobSet::new();
    let mut i: usize = 0;
    while i < raw_jobs.len()
        invariant
            0 <= i <= raw_jobs@.len(),
            vars.as_map() == vm,
            vm == vars_spec_map(raw_vars@),
            js.as_map() == resolved_jobs_map(raw_jobs@.take(i as int), vm),
            js.names() == raw_jobs@.take(i as int).map_values(|rj: RawJob| rj.name@),
            jobs_resolve(raw_jobs@.take(i as int), vm),
        decreases raw_jobs@.len() - i,
    {
        let rj = &raw_jobs[i];
        let mut new_steps: Vec<String> = Vec::new();
        let mut k: usize = 0;
        while k < rj.steps.len()
            invariant
                0 <= k <= rj.steps@.len(),
                *rj == raw_jobs@[i as int],
                0 <= i < raw_jobs@.len(),
                vars.as_map() == vm,
                vm == vars_spec_map(raw_vars@),
                new_steps@.len() == k,
                forall|t: int|
                    0 <= t < k ==> spec_substitute(rj.steps@[t]@, vm) is Some,
                forall|t: int|
                    0 <= t < k ==> new_steps@[t]@ == resolved_step(rj.steps@[t]@, vm),
            decreases rj.steps@.len() - k,
        {
            match substitute_step(rj.steps[k].as_str(), &vars) {
                Ok(s) => {
                    new_steps.push(s);
                },
                Err(_) => {
                    proof {
                        assert(spec_substitute(raw_jobs@[i as int].steps@[k as int]@, vm)
                            is None);
                        assert(!job_resolves(raw_jobs@[i as int], vm));
                        assert(!jobs_resolve(raw_jobs@, vm));
                    }
                    return Err(TaruError::ParseError);
                },
            }
            k = k + 1;
        }
        let prerequisites = clone_strings(&rj.prerequisites);
        let job = Job { steps: new_steps, prerequisites };
        proof {
            assert(job@.steps =~= raw_jobs@[i as int].steps@.map_values(
                |s: String| resolved_step(s@, vm),
            ));
            assert(job@.prerequisites =~= raw_jobs@[i as int].prerequisites.deep_view());
            assert(job@ == resolved_job(raw_jobs@[i as int], vm));
        }
        js.insert(rj.name.clone(), job);
        proof {
            assert(raw_jobs@.take(i as int + 1).drop_last() =~= raw_jobs@.take(i as int));
            assert(raw_jobs@.take(i as int + 1).last() == raw_jobs@[i as int]);
            assert(jobs_resolve(raw_jobs@.take(i as int + 1), vm));
            assert(raw_jobs@.take(i as int + 1).map_values(|rj: RawJob| rj.name@)
                =~= raw_jobs@.take(i as int).map_values(|rj: RawJob| rj.name@).push(
                raw_jobs@[i as int].name@,
            ));
        }
        i = i + 1;
    }
    proof {
        assert(raw_jobs@.take(raw_jobs@.len() as int) =~= raw_jobs@);
    }
    Ok(js)
}

/// A copy of a vector of strings with the same contents.
fn clone_strings(v: &Vec<String>) -> (r: Vec<String>)
    ensures
        r@ == v@,
{
    let r = v.clone();
    proof {
        assert forall|k: int| 0 <= k < r@.len() implies r@[k] == v@[k] by {
            assert(cloned::<String>(v@[k], r@[k]));
        }
        assert(r@ =~= v@);
    }
    r
}

} // verus!

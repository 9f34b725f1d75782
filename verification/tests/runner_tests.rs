use taru::Action;
use taru::Job;
use taru::JobRun;
use taru::JobSet;
use taru::TaruError;
use taru::get_job_names;
use taru::run_job;

/// Drives a run to completion, reporting success for every step, and
/// returns the step strings that were executed (not merely validated).
fn drive_all_success(run: &mut JobRun) -> Vec<String> {
    let mut executed = Vec::new();
    loop {
        match run.next_action() {
            Action::Validate(_) => run.report(true),
            Action::Execute(s) => {
                executed.push(s);
                run.report(true);
            }
            Action::Finished => break,
        }
    }
    executed
}

fn job(steps: &[&str], prerequisites: &[&str]) -> Job {
    Job {
        steps: steps.iter().map(|s| s.to_string()).collect(),
        prerequisites: prerequisites.iter().map(|s| s.to_string()).collect(),
    }
}

#[test]
fn run_job_valid_does_not_error() {
    let steps = vec!["ls".to_string(), "pwd".to_string(), "whoami".to_string()];
    let job = Job {
        steps,
        prerequisites: vec![],
    };
    let mut jobs = JobSet::new();
    jobs.insert("job_one".to_owned(), job);
    let res = run_job("job_one", &jobs);
    assert!(res.is_ok())
}

#[test]
fn run_non_existing_job_does_error() {
    let steps = vec!["ls".to_string(), "pwd".to_string(), "whoami".to_string()];
    let job = Job {
        steps,
        prerequisites: vec![],
    };
    let mut jobs = JobSet::new();
    jobs.insert("job_one".to_owned(), job);
    let res = run_job("invalid_job_name", &jobs);
    assert!(res.is_err())
}

#[test]
fn missing_root_job_is_invalid_job() {
    let jobs = JobSet::new();
    match run_job("anything", &jobs) {
        Err(TaruError::InvalidJob) => {}
        _ => panic!("expected InvalidJob"),
    }
}

#[test]
fn empty_steps_job_is_trivially_successful() {
    let mut jobs = JobSet::new();
    jobs.insert("quiet".to_owned(), job(&[], &[]));
    let run = run_job("quiet", &jobs).unwrap();
    assert!(run.is_finished());
    assert_eq!(run.result(), Ok(()));
}

#[test]
fn all_successful_steps_complete_the_run() {
    let mut jobs = JobSet::new();
    jobs.insert("build".to_owned(), job(&["step one", "step two", "step three"], &[]));
    let mut run = run_job("build", &jobs).unwrap();
    let executed = drive_all_success(&mut run);
    assert_eq!(run.result(), Ok(()));
    assert_eq!(executed, vec!["step one", "step two", "step three"]);
}

#[test]
fn validation_failure_executes_nothing() {
    let mut jobs = JobSet::new();
    jobs.insert("bad".to_owned(), job(&["first", "second"], &[]));
    let mut run = run_job("bad", &jobs).unwrap();
    let mut executed: Vec<String> = Vec::new();
    loop {
        match run.next_action() {
            Action::Validate(_) => run.report(false),
            Action::Execute(s) => {
                executed.push(s);
                run.report(true);
            }
            Action::Finished => break,
        }
    }
    assert_eq!(run.result(), Err(TaruError::RuntimeError));
    assert!(executed.is_empty());
}

#[test]
fn step_failure_stops_later_steps() {
    let mut jobs = JobSet::new();
    jobs.insert("flaky".to_owned(), job(&["one", "two", "three"], &[]));
    let mut run = run_job("flaky", &jobs).unwrap();
    let mut executed: Vec<String> = Vec::new();
    loop {
        match run.next_action() {
            Action::Validate(_) => run.report(true),
            Action::Execute(s) => {
                let ok = s != "two";
                executed.push(s);
                run.report(ok);
            }
            Action::Finished => break,
        }
    }
    assert_eq!(run.result(), Err(TaruError::RuntimeError));
    assert_eq!(executed, vec!["one", "two"]);
}

#[test]
fn prerequisites_run_before_dependent_steps() {
    let mut jobs = JobSet::new();
    jobs.insert("A".to_owned(), job(&["a first", "a second"], &[]));
    jobs.insert("B".to_owned(), job(&["b only"], &["A"]));
    let mut run = run_job("B", &jobs).unwrap();
    let executed = drive_all_success(&mut run);
    assert_eq!(run.result(), Ok(()));
    assert_eq!(executed, vec!["a first", "a second", "b only"]);
}

#[test]
fn nested_prerequisites_run_depth_first() {
    let mut jobs = JobSet::new();
    jobs.insert("A".to_owned(), job(&["a step"], &[]));
    jobs.insert("B".to_owned(), job(&["b step"], &["A"]));
    jobs.insert("C".to_owned(), job(&["c step"], &["B"]));
    let mut run = run_job("C", &jobs).unwrap();
    let executed = drive_all_success(&mut run);
    assert_eq!(run.result(), Ok(()));
    assert_eq!(executed, vec!["a step", "b step", "c step"]);
}

#[test]
fn missing_prerequisite_fails_before_any_step() {
    let mut jobs = JobSet::new();
    jobs.insert("B".to_owned(), job(&["b step"], &["Z"]));
    match run_job("B", &jobs) {
        Err(TaruError::InvalidJob) => {}
        _ => panic!("expected InvalidJob"),
    }
}

#[test]
fn missing_later_prerequisite_reported_after_earlier_jobs() {
    let mut jobs = JobSet::new();
    jobs.insert("A".to_owned(), job(&["a step"], &[]));
    jobs.insert("B".to_owned(), job(&["b step"], &["A", "Z"]));
    let mut run = run_job("B", &jobs).unwrap();
    let executed = drive_all_success(&mut run);
    assert_eq!(executed, vec!["a step"]);
    assert_eq!(run.result(), Err(TaruError::InvalidJob));
}

#[test]
fn cyclic_prerequisites_are_reported() {
    let mut jobs = JobSet::new();
    jobs.insert("loopy".to_owned(), job(&["never runs"], &["loopy"]));
    match run_job("loopy", &jobs) {
        Err(TaruError::RuntimeError) => {}
        _ => panic!("expected RuntimeError"),
    }
}

#[test]
fn validation_pass_precedes_execution_within_a_job() {
    let mut jobs = JobSet::new();
    jobs.insert("two".to_owned(), job(&["x", "y"], &[]));
    let mut run = run_job("two", &jobs).unwrap();
    let mut log: Vec<String> = Vec::new();
    loop {
        match run.next_action() {
            Action::Validate(s) => {
                log.push(format!("v:{}", s));
                run.report(true);
            }
            Action::Execute(s) => {
                log.push(format!("e:{}", s));
                run.report(true);
            }
            Action::Finished => break,
        }
    }
    assert_eq!(log, vec!["v:x", "v:y", "e:x", "e:y"]);
}

#[test]
fn each_job_validates_only_after_earlier_jobs_executed() {
    let mut jobs = JobSet::new();
    jobs.insert("A".to_owned(), job(&["a"], &[]));
    jobs.insert("B".to_owned(), job(&["b"], &["A"]));
    let mut run = run_job("B", &jobs).unwrap();
    let mut log: Vec<String> = Vec::new();
    loop {
        match run.next_action() {
            Action::Validate(s) => {
                log.push(format!("v:{}", s));
                run.report(true);
            }
            Action::Execute(s) => {
                log.push(format!("e:{}", s));
                run.report(true);
            }
            Action::Finished => break,
        }
    }
    assert_eq!(log, vec!["v:a", "e:a", "v:b", "e:b"]);
}

#[test]
fn duplicate_prerequisites_run_twice() {
    let mut jobs = JobSet::new();
    jobs.insert("A".to_owned(), job(&["a"], &[]));
    jobs.insert("B".to_owned(), job(&["b"], &["A", "A"]));
    let mut run = run_job("B", &jobs).unwrap();
    let executed = drive_all_success(&mut run);
    assert_eq!(run.result(), Ok(()));
    assert_eq!(executed, vec!["a", "a", "b"]);
}

#[test]
fn direct_run_over_step_blocks() {
    let blocks = vec![vec!["ls".to_string()]];
    let mut run = JobRun::new(blocks);
    let executed = drive_all_success(&mut run);
    assert_eq!(run.result(), Ok(()));
    assert_eq!(executed, vec!["ls"]);
}

#[test]
fn get_job_names_lists_jobs_in_insertion_order() {
    let mut jobs = JobSet::new();
    jobs.insert("first".to_owned(), job(&[], &[]));
    jobs.insert("second".to_owned(), job(&[], &[]));
    let names = get_job_names(&jobs);
    assert_eq!(names, vec!["first".to_string(), "second".to_string()]);
}

#[test]
fn error_messages_name_each_kind() {
    assert_eq!(TaruError::InvalidJob.message(), "Invalid job");
    assert_eq!(TaruError::ParseError.message(), "Parse Error");
    assert_eq!(TaruError::RuntimeError.message(), "Runtime Error");
}

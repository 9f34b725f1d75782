use taru::Action;
use taru::RawJob;
use taru::RawVar;
use taru::TaruError;
use taru::env_reference;
use taru::get_run_config;
use taru::get_yaml_path;
use taru::process_job;
use taru::resolve_jobs;
use taru::resolve_variable_value;
use taru::resolve_variables;
use taru::substitute_step;

fn var(name: &str, value: &str) -> RawVar {
    RawVar {
        name: name.to_string(),
        value: value.to_string(),
        env: None,
    }
}

#[test]
fn variable_substitution_round_trip() {
    let vars = resolve_variables(&vec![var("tmp_dir", "/tmp")]);
    let resolved = substitute_step("ls {{tmp_dir}}", &vars).unwrap();
    assert_eq!(resolved, "ls /tmp");
}

#[test]
fn placeholder_allows_surrounding_spaces() {
    let vars = resolve_variables(&vec![var("a", "1"), var("b", "2")]);
    assert_eq!(substitute_step("{{ a }}x{{b}}", &vars).unwrap(), "1x2");
}

#[test]
fn malformed_placeholders_stay_literal() {
    let vars = resolve_variables(&vec![var("a", "1")]);
    assert_eq!(substitute_step("{{a", &vars).unwrap(), "{{a");
    assert_eq!(substitute_step("{{a b}}", &vars).unwrap(), "{{a b}}");
    assert_eq!(substitute_step("{{ }}", &vars).unwrap(), "{{ }}");
    assert_eq!(substitute_step("no braces at all", &vars).unwrap(), "no braces at all");
}

#[test]
fn substituted_values_are_not_rescanned() {
    let vars = resolve_variables(&vec![var("a", "{{b}}"), var("b", "2")]);
    assert_eq!(substitute_step("{{a}}", &vars).unwrap(), "{{b}}");
}

#[test]
fn undefined_variable_is_a_parse_error() {
    let vars = resolve_variables(&vec![var("known", "v")]);
    match substitute_step("echo {{unknown}}", &vars) {
        Err(TaruError::ParseError) => {}
        _ => panic!("expected ParseError"),
    }
}

#[test]
fn env_marker_takes_the_environment_value() {
    let resolved = resolve_variable_value("env.SHELL", &Some("/bin/zsh".to_string()));
    assert_eq!(resolved, "/bin/zsh");
}

#[test]
fn env_marker_falls_back_to_stripped_name_when_unset() {
    assert_eq!(resolve_variable_value("env.FOO", &None), "FOO");
}

#[test]
fn env_marker_falls_back_when_environment_value_is_empty() {
    assert_eq!(resolve_variable_value("env.FOO", &Some(String::new())), "FOO");
}

#[test]
fn values_without_marker_stand_unchanged() {
    assert_eq!(resolve_variable_value("plain", &Some("ignored".to_string())), "plain");
}

#[test]
fn env_reference_strips_every_leading_marker() {
    assert_eq!(env_reference("env.SHELL"), Some("SHELL".to_string()));
    assert_eq!(env_reference("env.env.FOO"), Some("FOO".to_string()));
    assert_eq!(env_reference("plain"), None);
}

#[test]
fn resolve_jobs_substitutes_every_step() {
    let raw_jobs = vec![RawJob {
        name: "list".to_string(),
        steps: vec!["ls {{dir}}".to_string(), "echo done".to_string()],
        prerequisites: vec![],
    }];
    let raw_vars = vec![var("dir", "/tmp")];
    let jobs = resolve_jobs(&raw_jobs, &raw_vars).unwrap();
    let found = jobs.get("list").unwrap();
    assert_eq!(found.steps, vec!["ls /tmp".to_string(), "echo done".to_string()]);
    assert!(found.prerequisites.is_empty());
}

#[test]
fn resolve_jobs_fails_whole_load_on_undefined_variable() {
    let raw_jobs = vec![RawJob {
        name: "broken".to_string(),
        steps: vec!["echo {{missing}}".to_string()],
        prerequisites: vec![],
    }];
    match resolve_jobs(&raw_jobs, &vec![]) {
        Err(TaruError::ParseError) => {}
        _ => panic!("expected ParseError"),
    }
}

#[test]
fn process_job_resolves_and_schedules() {
    let raw_jobs = vec![
        RawJob {
            name: "prep".to_string(),
            steps: vec!["mkdir {{dir}}".to_string()],
            prerequisites: vec![],
        },
        RawJob {
            name: "main".to_string(),
            steps: vec!["ls {{dir}}".to_string()],
            prerequisites: vec!["prep".to_string()],
        },
    ];
    let raw_vars = vec![var("dir", "/tmp/work")];
    let mut run = process_job("main", &raw_jobs, &raw_vars).unwrap();
    let mut executed: Vec<String> = Vec::new();
    loop {
        match run.next_action() {
            Action::Validate(_) => run.report(true),
            Action::Execute(s) => {
                executed.push(s);
                run.report(true);
            }
            Action::Finished => break,
        }
    }
    assert_eq!(run.result(), Ok(()));
    assert_eq!(executed, vec!["mkdir /tmp/work", "ls /tmp/work"]);
}

#[test]
fn process_job_on_missing_name_is_invalid_job() {
    match process_job("absent", &vec![], &vec![]) {
        Err(TaruError::InvalidJob) => {}
        _ => panic!("expected InvalidJob"),
    }
}

#[test]
fn later_variable_with_same_name_overrides_earlier() {
    let vars = resolve_variables(&vec![var("x", "old"), var("x", "new")]);
    assert_eq!(substitute_step("{{x}}", &vars).unwrap(), "new");
}

#[test]
fn env_marker_resolves_through_the_whole_load() {
    let raw_jobs = vec![RawJob {
        name: "show".to_string(),
        steps: vec!["echo {{shell}}".to_string()],
        prerequisites: vec![],
    }];
    let raw_vars = vec![RawVar {
        name: "shell".to_string(),
        value: "env.SHELL".to_string(),
        env: Some("/bin/zsh".to_string()),
    }];
    let jobs = resolve_jobs(&raw_jobs, &raw_vars).unwrap();
    assert_eq!(jobs.get("show").unwrap().steps, vec!["echo /bin/zsh".to_string()]);
}

#[test]
fn yaml_path_defaults_when_unspecified() {
    assert_eq!(get_yaml_path(None), "taru-config.yaml");
    assert_eq!(get_yaml_path(Some("other.yaml".to_string())), "other.yaml");
}

#[test]
fn run_config_carries_path_and_quiet_flag() {
    let config = get_run_config(Some("custom.yaml".to_string()), true);
    assert_eq!(config.file_path, "custom.yaml");
    assert!(config.quiet_mode);
    let config = get_run_config(None, false);
    assert_eq!(config.file_path, "taru-config.yaml");
    assert!(!config.quiet_mode);
}

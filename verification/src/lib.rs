//! A minimal local task runner: a declarative job configuration is resolved
//! into a set of named jobs, prerequisite jobs are scheduled recursively, and
//! each job's steps run as shell commands in order, with a validation pass
//! before the execution pass.
//!
//! This crate holds the verified core: variable resolution, placeholder
//! substitution, the job set, prerequisite scheduling and the step-run state
//! machine. Reading the configuration file, parsing its YAML, looking up
//! environment variables and spawning the shell happen in the surrounding
//! binary, which hands this library plain values.

pub mod config;
pub mod errors;
pub mod jobs;
pub mod parser;
pub mod runner;
pub mod subst;
pub mod vars;

pub use config::Config;
pub use config::get_run_config;
pub use config::get_yaml_path;
pub use errors::TaruError;
pub use jobs::Job;
pub use jobs::JobSet;
pub use parser::RawJob;
pub use parser::resolve_jobs;
pub use runner::Action;
pub use runner::JobRun;
pub use runner::get_job_names;
pub use runner::process_job;
pub use runner::run_job;
pub use subst::substitute_step;
pub use vars::RawVar;
pub use vars::VarTable;
pub use vars::env_reference;
pub use vars::resolve_variable_value;
pub use vars::resolve_variables;

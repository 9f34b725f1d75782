//! The run configuration handed down from the command line: where the
//! configuration file lies and whether informational output is suppressed.

use vstd::prelude::*;

verus! {

/// The parameters a run is invoked with.
pub struct Config {
    pub file_path: String,
    pub quiet_mode: bool,
}

/// The configuration path to use: the given one, or the default
/// `taru-config.yaml` in the current working directory when none was given.
pub fn get_yaml_path(file_path: Option<String>) -> (r: String)
    ensures
        match file_path {
            Some(p) => r@ == p@,
            None => r@ == "taru-config.yaml"@,
        },
{
    match file_path {
        Some(p) => p,
        None => "taru-config.yaml".to_owned(),
    }
}

/// The configuration a run-job invocation resolves to.
pub fn get_run_config(file_path: Option<String>, quiet_mode: bool) -> (r: Config)
    ensures
        match file_path {
            Some(p) => r.file_path@ == p@,
            None => r.file_path@ == "taru-config.yaml"@,
        },
        r.quiet_mode == quiet_mode,
{
    let path = get_yaml_path(file_path);
    Config { file_path: path, quiet_mode }
}

} // verus!

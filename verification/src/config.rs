use vstd::prelude::*;

use crate::common::{expand_path, file_exists, tilde_expansion_of};

verus! {

/// The settings read from the configuration file.
pub struct FocusConfig {
    pub version: String,
    pub hosts_file: String,
    pub socket_file: String,
    pub pid_file: String,
    pub blocked: Vec<String>,
}

/// Why the configuration could not be had.
#[derive(Debug, Clone, Copy, PartialEq, Eq, Structural)]
pub enum FocusConfigError {
    ConfigMissing,
    ConfigInvalid,
}

/// Finds the configuration file: the given path with a leading `~` expanded, or
/// `ConfigMissing` when no file exists there.
pub fn locate_config(configfile: &String) -> (located: Result<String, FocusConfigError>)
    ensures
        located matches Ok(path) ==> tilde_expansion_of(configfile@, path@),
        located matches Err(e) ==> e == FocusConfigError::ConfigMissing,
{
    let config_path = expand_path(configfile);
    if !file_exists(&config_path) {
        return Err(FocusConfigError::ConfigMissing);
    }
    Ok(config_path)
}

} // verus!

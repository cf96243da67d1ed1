//! Settings shared by the HTTP API handlers.

use vstd::prelude::*;
use std::path::PathBuf;

verus! {

/// A filesystem path, held as the server hands it on.
#[verifier::external_type_specification]
#[verifier::external_body]
pub struct ExPathBuf(PathBuf);

/// A copy of a path (`<PathBuf as Clone>::clone`): the copy is the same path.
pub assume_specification[ <PathBuf as Clone>::clone ](p: &PathBuf) -> (res: PathBuf)
    ensures
        res == *p,
;

/// The server's run-time settings, given by `main`.
pub struct ServerConfig {
    /// The MaaCore runtime directory, which the updater replaces.
    pub core_dir: PathBuf,
    /// The directory of the built web front end.
    pub web_dir: PathBuf,
}

impl Clone for ServerConfig {
    fn clone(&self) -> (res: Self)
        ensures
            res == *self,
    {
        ServerConfig { core_dir: self.core_dir.clone(), web_dir: self.web_dir.clone() }
    }
}

/// The connection configuration used when a connect request names none.
pub fn default_config() -> (res: String)
    ensures
        res@ == "General"@,
{
    "General".to_string()
}

} // verus!

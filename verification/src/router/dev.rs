//! Detection of Topcoat's development tooling.
//!
//! The `topcoat` CLI runs an application as a child process and passes the
//! address of its own local server through the `TOPCOAT_DEV_URL` environment
//! variable. Its presence is what tells a running application that it is
//! being driven by the tooling rather than serving production traffic, and
//! it gates every development-only behavior the framework adds.
//!
//! Reading the environment is the caller's part: the functions here take
//! what it held.

use vstd::prelude::*;

verus! {

/// The environment variable the `topcoat` CLI sets on the applications it
/// starts, holding the HTTP base URL of the CLI's local server.
pub const DEV_URL_ENV: &'static str = "TOPCOAT_DEV_URL";

/// Whether Topcoat's development-only tooling is enabled for a process whose
/// `TOPCOAT_DEV_URL` holds `server_url` (`None` when it is not set).
///
/// True exactly when the application runs under the `topcoat` CLI, which is
/// never the case for a deployed application.
pub fn tooling_enabled(server_url: Option<&str>) -> (r: bool)
    ensures
        r == server_url is Some,
{
    server_url.is_some()
}

} // verus!

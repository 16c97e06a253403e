//! Build and version metadata.

use vstd::prelude::*;

use crate::text::{chars_of, string_of};

verus! {

/// Build and version metadata returned by the version endpoint.
#[derive(Clone, Debug, PartialEq, Eq)]
pub struct VersionInfo {
    pub version: String,
    pub build_time: String,
    /// The compiler version and channel, comma-separated.
    pub build_env: String,
}

/// The version metadata of a build.
pub fn version_info(version: &str, build_time: &str, rust_version: &str, rust_channel: &str) -> (r:
    VersionInfo)
    ensures
        r.version@ == version@,
        r.build_time@ == build_time@,
        r.build_env@ == rust_version@ + seq![','] + rust_channel@,
{
    let mut env = chars_of(rust_version);
    env.push(',');
    let mut tail = chars_of(rust_channel);
    env.append(&mut tail);
    assert(env@ =~= rust_version@ + seq![','] + rust_channel@);
    VersionInfo {
        version: version.to_owned(),
        build_time: build_time.to_owned(),
        build_env: string_of(&env),
    }
}

} // verus!

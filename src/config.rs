//! Project configuration values that the library itself reads.

use vstd::prelude::*;
use std::path::PathBuf;

verus! {

#[verifier::external_type_specification]
#[verifier::external_body]
pub struct ExPathBuf(std::path::PathBuf);

/// Where the tests of the rules live.
pub struct TestConfig {
    pub test_dir: PathBuf,
    /// The directory of snapshots, relative to `test_dir`.
    pub snapshot_dir: Option<PathBuf>,
}

impl From<PathBuf> for TestConfig {
    fn from(path: PathBuf) -> (r: TestConfig)
        ensures
            r.test_dir == path,
            r.snapshot_dir is None,
    {
        TestConfig { test_dir: path, snapshot_dir: None }
    }
}

impl vstd::std_specs::convert::FromSpecImpl<PathBuf> for TestConfig {
    open spec fn obeys_from_spec() -> bool {
        true
    }

    open spec fn from_spec(path: PathBuf) -> TestConfig {
        TestConfig { test_dir: path, snapshot_dir: None }
    }
}

} // verus!

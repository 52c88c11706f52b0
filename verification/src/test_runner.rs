//! The automated test runner behind the scripted oracle. Running a test in a
//! virtual machine is a paid feature; this build only records the configured
//! command and refuses to run.

use vstd::prelude::*;

use crate::errors::TraceError;

verus! {

/// Runs a configured test command to answer a bisection step automatically.
#[derive(Debug)]
pub struct TestRunner {
    test_command: Option<String>,
}

impl TestRunner {
    /// The configured test command, if any.
    pub closed spec fn spec_command(&self) -> Option<String> {
        self.test_command
    }

    pub fn new(test_command: Option<String>) -> (r: Self)
        ensures
            r.spec_command() == test_command,
    {
        TestRunner { test_command }
    }

    /// Would boot a test environment, run the command and report whether the
    /// regression showed; in this build it always refuses, as automated
    /// testing needs a paid license.
    pub fn run_test(&self) -> (r: Result<bool, TraceError>)
        ensures
            r == Result::<bool, TraceError>::Err(TraceError::PremiumRequired),
    {
        Err(TraceError::PremiumRequired)
    }
}

} // verus!

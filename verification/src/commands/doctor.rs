//! Diagnostics: counting what is in order and what is not.

use vstd::prelude::*;

verus! {

/// What the diagnostics saw.
#[derive(Debug, Clone, Copy, PartialEq, Eq, Structural)]
pub struct Observations {
    /// Whether the persisted state could be read.
    pub config_valid: bool,
    /// Whether the home variable is set and, where it is, whether it points at a valid
    /// installation.
    pub java_home_valid: Option<bool>,
    /// Whether the launcher on the search path could be run and succeeded.
    pub java_runs: bool,
    /// How many tracked installations are not valid.
    pub invalid_installations: usize,
    /// Whether the installation directory exists.
    pub installation_dir_exists: bool,
}

/// The outcome of the diagnostics.
#[derive(Debug, Clone, Copy, PartialEq, Eq, Structural)]
pub struct Diagnosis {
    pub checks_passed: u32,
    pub issues_found: u32,
}

/// One if `b` holds, zero otherwise.
pub open spec fn one_if(b: bool) -> int {
    if b {
        1
    } else {
        0
    }
}

/// The number of the five checks that pass.
pub open spec fn passed_checks(seen: Observations) -> int {
    one_if(seen.config_valid) + one_if(seen.java_home_valid == Some(true)) + one_if(seen.java_runs)
        + one_if(seen.invalid_installations == 0) + one_if(seen.installation_dir_exists)
}

/// Unit type that gathers the decisions of the doctor command.
pub struct DoctorCommand;

impl DoctorCommand {
    /// The number of the five checks that pass, and the number that do not: the state
    /// can be read; the home variable points at a valid installation; the launcher
    /// runs; every tracked installation is valid; the installation directory exists.
    pub fn diagnose(seen: &Observations) -> (r: Diagnosis)
        ensures
            r.checks_passed == passed_checks(*seen),
            r.checks_passed + r.issues_found == 5,
    {
        let mut passed: u32 = 0;
        if seen.config_valid {
            passed += 1;
        }
        match seen.java_home_valid {
            Some(true) => {
                passed += 1;
            },
            _ => {},
        }
        if seen.java_runs {
            passed += 1;
        }
        if seen.invalid_installations == 0 {
            passed += 1;
        }
        if seen.installation_dir_exists {
            passed += 1;
        }
        Diagnosis { checks_passed: passed, issues_found: 5 - passed }
    }
}

} // verus!

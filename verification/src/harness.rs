use vstd::prelude::*;
use crate::num::{decimal, decimal_string};
use crate::text::{concat2, concat3};

verus! {

/// Counts the checks of a test run that passed and that failed.
pub struct Runner {
    passed: u32,
    failed: u32,
}

impl Runner {
    /// The number of checks that passed.
    pub closed spec fn passed_count(&self) -> u32 {
        self.passed
    }

    /// The number of checks that failed.
    pub closed spec fn failed_count(&self) -> u32 {
        self.failed
    }

    /// A runner that has counted nothing.
    pub fn new() -> (r: Self)
        ensures
            r.passed_count() == 0,
            r.failed_count() == 0,
    {
        Runner { passed: 0, failed: 0 }
    }

    /// The number of checks that passed.
    pub fn passed(&self) -> (n: u32)
        ensures
            n == self.passed_count(),
    {
        self.passed
    }

    /// The number of checks that failed.
    pub fn failed(&self) -> (n: u32)
        ensures
            n == self.failed_count(),
    {
        self.failed
    }

    /// Counts the outcome of the check `name` and gives the line that reports it.
    pub fn check(&mut self, name: &str, result: Result<(), String>) -> (line: String)
        requires
            result is Ok ==> old(self).passed_count() < u32::MAX,
            result is Err ==> old(self).failed_count() < u32::MAX,
        ensures
            match result {
                Ok(()) => {
                    &&& final(self).passed_count() == old(self).passed_count() + 1
                    &&& final(self).failed_count() == old(self).failed_count()
                    &&& line@ == "  PASS  "@ + name@
                },
                Err(e) => {
                    &&& final(self).failed_count() == old(self).failed_count() + 1
                    &&& final(self).passed_count() == old(self).passed_count()
                    &&& line@ == "  FAIL  "@ + name@ + " — "@ + e@
                },
            },
    {
        match result {
            Ok(()) => {
                self.passed = self.passed + 1;
                concat2("  PASS  ", name)
            },
            Err(e) => {
                self.failed = self.failed + 1;
                let head = concat3("  FAIL  ", name, " — ");
                concat2(head.as_str(), e.as_str())
            },
        }
    }

    /// The line that totals the run.
    pub fn totals(&self) -> (line: String)
        ensures
            line@ == decimal(self.passed_count() as nat) + " passed, "@ + decimal(self.failed_count() as nat)
                + " failed"@,
    {
        let p = decimal_string(self.passed as u64);
        let f = decimal_string(self.failed as u64);
        let head = concat3(p.as_str(), " passed, ", f.as_str());
        concat2(head.as_str(), " failed")
    }

    /// The exit status of the run: 1 when a check failed, else 0.
    pub fn summary(self) -> (code: i32)
        ensures
            code == if self.failed_count() > 0 {
                1i32
            } else {
                0i32
            },
    {
        if self.failed > 0 {
            1
        } else {
            0
        }
    }
}

} // verus!

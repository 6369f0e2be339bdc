//! What a command run reported.
//!
//! Running commands is the application's job: argv arrays only, never a
//! shell, and every call time-boxed. The library only reads the result.
use crate::text::{chars_of, trim, trimmed};
use vstd::prelude::*;

verus! {

#[derive(Debug, Clone)]
pub struct ExecResult {
    pub ok: bool,
    pub stdout: String,
    pub stderr: String,
    /// Killed by the timeout. Some probes (a fixed-window mDNS browse) expect this.
    pub timed_out: bool,
    /// The binary does not exist on this system.
    pub missing: bool,
}

impl ExecResult {
    /// True when the command produced usable output, even if it was killed by the
    /// timeout — a fixed-window browse is the normal case for that.
    pub fn has_output(&self) -> (b: bool)
        ensures
            b == (trim(self.stdout@).len() > 0),
    {
        let c = chars_of(self.stdout.as_str());
        let t = trimmed(&c);
        t.len() > 0
    }
}

} // verus!

//! The experimental use of the Neural Engine: whether it is allowed, and how
//! many more programs can be compiled for it.

use crate::text;
use vstd::prelude::*;

verus! {

/// How many programs one process can compile.
pub const COMPILE_LIMIT: u32 = 119;

/// Whether this build can use the Neural Engine.
pub const BUILT_WITH_ANE: bool = false;

/// The state of the Neural Engine in this process.
#[derive(Clone)]
pub struct AneState {
    pub enabled: bool,
    pub available: bool,
    pub compile_count: u32,
}

impl AneState {
    /// The state at the start: it is available where it is enabled and the
    /// build can use it.
    pub fn new(enabled: bool) -> (r: AneState)
        ensures
            r.enabled == enabled,
            r.available == (enabled && BUILT_WITH_ANE),
            r.compile_count == 0,
    {
        AneState { enabled, available: enabled && BUILT_WITH_ANE, compile_count: 0 }
    }

    /// How many more programs can be compiled.
    pub fn compile_budget_remaining(&self) -> (r: u32)
        ensures
            r == (if self.compile_count < COMPILE_LIMIT {
                COMPILE_LIMIT - self.compile_count
            } else {
                0
            }),
    {
        if self.compile_count < COMPILE_LIMIT {
            COMPILE_LIMIT - self.compile_count
        } else {
            0
        }
    }

    /// Why a request to evaluate a program is refused: the status code of the
    /// answer and what it says.
    pub fn eval_refusal(&self) -> (r: (u16, String))
        ensures
            if !self.enabled {
                r.0 == 503 && r.1@
                    == "ANE compute not enabled. Start daemon with --experimental-ane"@
            } else if !BUILT_WITH_ANE {
                r.0 == 503 && r.1@
                    == "Binary not built with ANE support. Rebuild with: cargo build --features ane"@
            } else if self.compile_count >= COMPILE_LIMIT {
                r.0 == 503 && r.1@
                    == "ANE compile budget exhausted (~119 per process). Restart daemon to reset."@
            } else {
                r.0 == 501 && r.1@
                    == "ANE eval endpoint is scaffolded but not yet implemented. See /ane/compute for subsystem status."@
            },
    {
        if !self.enabled {
            (503, text::own("ANE compute not enabled. Start daemon with --experimental-ane"))
        } else if !BUILT_WITH_ANE {
            (
                503,
                text::own(
                    "Binary not built with ANE support. Rebuild with: cargo build --features ane",
                ),
            )
        } else if self.compile_budget_remaining() == 0 {
            (
                503,
                text::own(
                    "ANE compile budget exhausted (~119 per process). Restart daemon to reset.",
                ),
            )
        } else {
            (
                501,
                text::own(
                    "ANE eval endpoint is scaffolded but not yet implemented. See /ane/compute for subsystem status.",
                ),
            )
        }
    }

    /// Why a request to probe the memory is refused, if it is.
    pub fn probe_refusal(&self) -> (r: Option<String>)
        ensures
            r.deep_view() == (if !self.enabled {
                Some("ANE compute not enabled. Start daemon with --experimental-ane"@)
            } else if !BUILT_WITH_ANE {
                Some(
                    "Binary not built with ANE support. Rebuild with: cargo build --features ane"@,
                )
            } else {
                None
            }),
    {
        if !self.enabled {
            Some(text::own("ANE compute not enabled. Start daemon with --experimental-ane"))
        } else if !BUILT_WITH_ANE {
            Some(
                text::own(
                    "Binary not built with ANE support. Rebuild with: cargo build --features ane",
                ),
            )
        } else {
            None
        }
    }
}

/// The budget falls with every program that is compiled, down to zero.
pub proof fn budget_falls(a: AneState, b: AneState)
    requires
        b.compile_count > a.compile_count,
    ensures
        a.compile_count < COMPILE_LIMIT ==> COMPILE_LIMIT - b.compile_count < COMPILE_LIMIT
            - a.compile_count,
        a.compile_count >= COMPILE_LIMIT ==> b.compile_count >= COMPILE_LIMIT,
{
}

} // verus!

//! Explicit opt-in for the per-window performance HUD. The flag is
//! session-only and off by default; a command-line switch or the
//! environment seeds newly opened windows, which then toggle on their own.

use vstd::prelude::*;

use crate::strings::{chars_eq_str, chars_of};

verus! {

/// Whether newly opened windows start with the HUD shown.
#[derive(Debug)]
pub struct StartFlag {
    enabled: bool,
}

impl StartFlag {
    /// The flag's value.
    pub closed spec fn value(&self) -> bool {
        self.enabled
    }

    /// Off, as at startup.
    pub fn new() -> (r: StartFlag)
        ensures
            !r.value(),
    {
        StartFlag { enabled: false }
    }
}

/// Seed newly opened windows with the HUD shown or hidden.
pub fn set_start_enabled(flag: &mut StartFlag, enabled: bool)
    ensures
        final(flag).value() == enabled,
{
    flag.enabled = enabled;
}

/// Whether newly opened windows start with the HUD shown.
pub fn start_enabled(flag: &StartFlag) -> (r: bool)
    ensures
        r == flag.value(),
{
    flag.enabled
}

/// Whether an environment switch's value turns the HUD on: set, not
/// empty, and not `0`.
pub fn env_flag_enabled(value: Option<&str>) -> (r: bool)
    ensures
        r == (value matches Some(v) && v@.len() > 0 && v@ != "0"@),
{
    match value {
        Some(v) => {
            let c = chars_of(v);
            c.len() > 0 && !chars_eq_str(&c, "0")
        },
        None => false,
    }
}

} // verus!

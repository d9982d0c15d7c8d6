//! The persisted choice of current theme and variant.

use vstd::prelude::*;
use crate::text::owned;

verus! {

/// The current theme and variant, and when they were last applied.
#[derive(Debug, Clone)]
pub struct State {
    pub current_theme: String,
    pub current_variant: String,
    pub last_applied: Option<String>,
}

impl State {
    /// The state used when none has been saved: `aikido`, `dark`, never applied.
    pub fn initial() -> (r: State)
        ensures
            r.current_theme@ == "aikido"@,
            r.current_variant@ == "dark"@,
            r.last_applied is None,
    {
        State { current_theme: owned("aikido"), current_variant: owned("dark"), last_applied: None }
    }
}

} // verus!

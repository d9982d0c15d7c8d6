//! Naming of the per-variant directories that the current-theme link
//! points at.

use vstd::prelude::*;
use crate::text::{owned, push_text};

verus! {

/// Switches the current-theme link.
pub struct SymlinkManager;

impl SymlinkManager {
    pub fn new() -> (r: SymlinkManager) {
        SymlinkManager
    }

    /// The name of a theme variant's directory, `{theme}-{variant}`, which is
    /// also the link's relative target.
    pub fn theme_variant_name(&self, theme: &str, variant: &str) -> (r: String)
        ensures
            r@ == theme@ + "-"@ + variant@,
    {
        let mut r = owned(theme);
        push_text(&mut r, "-");
        push_text(&mut r, variant);
        r
    }
}

impl Default for SymlinkManager {
    fn default() -> (r: SymlinkManager) {
        SymlinkManager::new()
    }
}

} // verus!

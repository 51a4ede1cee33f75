//! The top-level pages the application can show.

use vstd::prelude::*;

verus! {

/// Which page of the application is selected.
#[derive(PartialEq, Eq, Structural, Clone, Copy, Debug)]
pub enum Page {
    People,
    Wheel,
    About,
}

impl Default for Page {
    /// A fresh application starts on the about page.
    fn default() -> (r: Self)
        ensures
            r == Page::About,
    {
        Page::About
    }
}

} // verus!

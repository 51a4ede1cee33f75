//! A small engine for drawing gift-exchange assignments.
//!
//! Each member of a roster gives a gift to exactly one other member. Pairs are
//! drawn one at a time, at random, subject to an exclusion rule (by default,
//! giver and receiver must not share a sub-group), and every committed draw
//! keeps a complete valid assignment of the remaining participants possible.

use vstd::prelude::*;

pub mod hat;
pub mod page;

verus! {

use crate::hat::Person;

/// The default exclusion rule: a pairing is allowed exactly when the two
/// participants belong to different sub-groups.
pub fn valid_pair(a: &Person, b: &Person) -> (r: bool)
    ensures
        r == (a.group@ != b.group@),
{
    !(a.group == b.group)
}

} // verus!

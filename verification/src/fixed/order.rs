//! The order of fixed-point numbers.

use super::Fixed;
use core::cmp::Ordering;
use vstd::prelude::*;

verus! {

impl PartialOrd for Fixed {
    /// Compares two numbers by their values.
    fn partial_cmp(&self, other: &Fixed) -> (r: Option<Ordering>)
        ensures
            r == Some(
                if self@ < other@ {
                    Ordering::Less
                } else if self@ == other@ {
                    Ordering::Equal
                } else {
                    Ordering::Greater
                },
            ),
    {
        let (a, b) = (self.raw(), other.raw());
        if a < b {
            Some(Ordering::Less)
        } else if a > b {
            Some(Ordering::Greater)
        } else {
            Some(Ordering::Equal)
        }
    }
}

impl vstd::std_specs::cmp::PartialOrdSpecImpl for Fixed {
    open spec fn obeys_partial_cmp_spec() -> bool {
        true
    }

    open spec fn partial_cmp_spec(&self, other: &Fixed) -> Option<Ordering> {
        Some(
            if self@ < other@ {
                Ordering::Less
            } else if self@ == other@ {
                Ordering::Equal
            } else {
                Ordering::Greater
            },
        )
    }
}

} // verus!

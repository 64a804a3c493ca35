//! Counts that are never zero.
use vstd::prelude::*;

verus! {

/// A 16-bit count that is not zero.
#[derive(Clone, Copy, Debug, PartialEq, Eq, Hash)]
pub struct NonZeroU16 {
    value: u16,
}

impl NonZeroU16 {
    #[verifier::type_invariant]
    spec fn not_zero(self) -> bool {
        self.value > 0
    }

    /// The count as a plain number.
    pub closed spec fn value(self) -> u16 {
        self.value
    }

    /// A count, where the number is not zero.
    pub fn new(value: u16) -> (r: Option<NonZeroU16>)
        ensures
            match r {
                Some(n) => n.value() == value && value > 0,
                None => value == 0,
            },
    {
        if value == 0 {
            None
        } else {
            Some(NonZeroU16 { value })
        }
    }

    /// The count as a plain number.
    pub fn get(self) -> (r: u16)
        ensures
            r == self.value(),
            r > 0,
    {
        proof {
            use_type_invariant(&self);
        }
        self.value
    }
}

} // verus!

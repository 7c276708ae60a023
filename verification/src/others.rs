use vstd::prelude::*;

verus! {

/// A `u32` slot that is either empty or holds an index below `u32::MAX`.
///
/// The empty slot is stored as `u32::MAX`, so the type is as small as a `u32`.
#[derive(Clone, Copy, Debug, PartialEq, Eq, Structural)]
pub struct OptionU32(pub u32);

impl OptionU32 {
    /// The empty slot.
    #[inline]
    pub fn none() -> (r: Self)
        ensures
            r@.is_none(),
            r == Self::spec_none(),
    {
        OptionU32(u32::MAX)
    }

    /// The empty slot, in specifications.
    pub open spec fn spec_none() -> Self {
        OptionU32(u32::MAX)
    }

    /// What the slot holds: `None` for the empty slot, else the index.
    pub open spec fn view(&self) -> Option<u32> {
        if self.0 == u32::MAX {
            None
        } else {
            Some(self.0)
        }
    }

    #[inline]
    pub fn some(v: u32) -> (r: Self)
        ensures
            r.0 == v,
            v != u32::MAX ==> r@ == Some(v),
            v == u32::MAX ==> r@.is_none(),
    {
        OptionU32(v)
    }

    #[inline]
    pub fn is_some(&self) -> (r: bool)
        ensures
            r == self@.is_some(),
    {
        self.0 != u32::MAX
    }

    #[inline]
    pub fn is_none(&self) -> (r: bool)
        ensures
            r == self@.is_none(),
    {
        self.0 == u32::MAX
    }
}

impl Default for OptionU32 {
    #[inline]
    fn default() -> (r: Self)
        ensures
            r@.is_none(),
            r == Self::spec_none(),
    {
        OptionU32(u32::MAX)
    }
}

} // verus!

use std::ops::Deref;
use std::rc::Rc;
use vstd::prelude::*;

verus! {

/// `Rc::strong_count` on the pointer: how many owners share the allocation now.
/// The number depends on who else holds a clone, so nothing is claimed of it.
#[verifier::external_body]
fn strong_count<T>(rc: &Rc<T>) -> usize {
    Rc::strong_count(rc)
}

/// `Rc::ptr_eq`: whether both pointers share one allocation. Two owners of
/// one allocation see one value; the converse does not hold.
#[verifier::external_body]
fn same_allocation<T>(a: &Rc<T>, b: &Rc<T>) -> (r: bool)
    ensures
        r ==> *a == *b,
{
    Rc::ptr_eq(a, b)
}

/// A shared, immutable, single-threaded owner of a `T`.
///
/// Its view is the value it points to. Clones share the value; nothing
/// reachable from here can change it.
#[derive(Debug)]
pub struct Grc<T> {
    rc: Rc<T>,
}

impl<T> View for Grc<T> {
    type V = T;

    closed spec fn view(&self) -> T {
        *self.rc
    }
}

impl<T> Grc<T> {
    #[inline]
    pub fn new(v: T) -> (r: Self)
        ensures
            r@ == v,
    {
        Grc { rc: Rc::new(v) }
    }

    /// The number of owners that share this value at the moment of the call.
    #[inline]
    pub fn count(&self) -> usize {
        strong_count(&self.rc)
    }

    /// Whether `self` and `other` are clones of one another. Clones hold the
    /// same value; owners of equal values need not be clones.
    #[inline]
    pub fn ptr_eq(&self, other: &Self) -> (r: bool)
        ensures
            r ==> self@ == other@,
    {
        same_allocation(&self.rc, &other.rc)
    }
}

impl<T> Deref for Grc<T> {
    type Target = T;

    #[inline]
    fn deref(&self) -> (r: &T)
        ensures
            *r == self@,
    {
        &self.rc
    }
}

impl<T> Clone for Grc<T> {
    #[inline]
    fn clone(&self) -> (r: Self)
        ensures
            r@ == self@,
    {
        Grc { rc: self.rc.clone() }
    }
}

impl<T: Default> Default for Grc<T> {
    #[inline]
    fn default() -> (r: Self)
        ensures
            T::default.ensures((), r@),
    {
        Grc { rc: Rc::new(T::default()) }
    }
}

impl<T> vstd::std_specs::cmp::PartialEqSpecImpl for Grc<T> {
    open spec fn obeys_eq_spec() -> bool {
        false
    }

    open spec fn eq_spec(&self, other: &Grc<T>) -> bool {
        arbitrary()
    }
}

impl<T> PartialEq for Grc<T> {
    /// Whether both are clones of one another: identity, not equality of
    /// the values. Which owners are clones is not a matter of values, so
    /// the result is only known to imply that the values are the same.
    #[inline]
    fn eq(&self, other: &Grc<T>) -> (r: bool)
        ensures
            r ==> self@ == other@,
    {
        same_allocation(&self.rc, &other.rc)
    }
}

impl<T> Eq for Grc<T> {

}

} // verus!

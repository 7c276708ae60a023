use rand::Rng;
use std::ops::Deref;
use std::ops::DerefMut;
use std::ops::Index;
use std::ops::IndexMut;
use vstd::prelude::*;

verus! {

/// `rand::rngs::StdRng`, the generator that random words are drawn from.
/// Its state is of no concern to the contracts, so it is declared opaque.
#[verifier::external_type_specification]
#[verifier::external_body]
pub struct ExStdRng(rand::rngs::StdRng);

/// `rand::Rng::random::<u64>` on a `StdRng`: draws the next 64-bit word.
/// Nothing is claimed of the word: it depends on the generator's state.
#[verifier::external_body]
fn random_word(rng: &mut rand::rngs::StdRng) -> u64 {
    rng.random()
}

/// A growable vector that can be indexed by `u32` as well as by `usize`.
///
/// Its view is the sequence of its elements. Every method of `Vec` is
/// reachable through `Deref`.
#[derive(Debug, Hash)]
pub struct Gvec<T> {
    data: Vec<T>,
}

impl<T> View for Gvec<T> {
    type V = Seq<T>;

    closed spec fn view(&self) -> Seq<T> {
        self.data@
    }
}

impl<T> Gvec<T> {
    #[inline]
    pub fn new() -> (r: Self)
        ensures
            r@ == Seq::<T>::empty(),
    {
        Gvec { data: Vec::new() }
    }

    #[inline]
    pub fn len(&self) -> (r: usize)
        ensures
            r == self@.len(),
    {
        self.data.len()
    }

    /// Exchanges the elements at `x` and `y`.
    #[inline]
    pub fn swap(&mut self, x: u32, y: u32)
        requires
            x < old(self)@.len(),
            y < old(self)@.len(),
        ensures
            final(self)@ == old(self)@.update(x as int, old(self)@[y as int]).update(
                y as int,
                old(self)@[x as int],
            ),
    {
        if x == y {
            return ;
        }
        let lo: usize = if x < y {
            x as usize
        } else {
            y as usize
        };
        let hi: usize = if x < y {
            y as usize
        } else {
            x as usize
        };
        let ghost before = self.data@;
        let (head, tail) = self.data.as_mut_slice().split_at_mut(hi);
        let a = &mut head[lo];
        let b = &mut tail[0];
        std::mem::swap(a, b);
        assert(self.data@ =~= before.update(x as int, before[y as int]).update(
            y as int,
            before[x as int],
        ));
    }
}

impl<T: Copy> Gvec<T> {
    /// Overwrites the element at `index` with the last one and drops the last slot.
    #[inline]
    pub fn swap_remove(&mut self, index: usize)
        requires
            index < old(self)@.len(),
        ensures
            final(self)@ == old(self)@.update(index as int, old(self)@.last()).drop_last(),
    {
        let len: usize = self.data.len() - 1;
        let last: T = self.data[len];
        self.data[index] = last;
        self.data.pop();
    }
}

impl<T: Default> Gvec<T> {
    /// Grows the vector to `size` elements where it is shorter, filling the new
    /// slots with `T::default()`; a vector longer than `size` is left as it is.
    #[inline]
    pub fn reserve(&mut self, size: usize)
        ensures
            final(self)@.len() == if old(self)@.len() <= size {
                size as nat
            } else {
                old(self)@.len()
            },
            forall|i: int| 0 <= i < old(self)@.len() ==> final(self)@[i] == old(self)@[i],
            forall|i: int|
                old(self)@.len() <= i < final(self)@.len() ==> T::default.ensures(
                    (),
                    #[trigger] final(self)@[i],
                ),
    {
        while self.data.len() < size
            invariant
                old(self)@.len() <= self.data@.len(),
                self.data@.len() <= size || self.data@.len() == old(self)@.len(),
                forall|i: int| 0 <= i < old(self)@.len() ==> self.data@[i] == old(self)@[i],
                forall|i: int|
                    old(self)@.len() <= i < self.data@.len() ==> T::default.ensures(
                        (),
                        #[trigger] self.data@[i],
                    ),
            decreases size - self.data@.len(),
        {
            self.data.push(T::default());
        }
    }
}

impl Gvec<u64> {
    /// A vector of `len` words drawn from `rng`.
    #[inline]
    pub fn new_rand(len: usize, rng: &mut rand::rngs::StdRng) -> (r: Self)
        ensures
            r@.len() == len,
    {
        let mut data: Vec<u64> = Vec::with_capacity(len);
        let mut i: usize = 0;
        while i < len
            invariant
                i <= len,
                data@.len() == i,
            decreases len - i,
        {
            data.push(random_word(rng));
            i += 1;
        }
        Gvec { data }
    }
}

impl<T> Default for Gvec<T> {
    #[inline]
    fn default() -> (r: Self)
        ensures
            r@ == Seq::<T>::empty(),
    {
        Gvec { data: Vec::new() }
    }
}

impl<T: Clone> Clone for Gvec<T> {
    #[inline]
    fn clone(&self) -> (r: Self)
        ensures
            r@.len() == self@.len(),
            forall|i: int| 0 <= i < self@.len() ==> cloned::<T>(self@[i], #[trigger] r@[i]),
    {
        Gvec { data: self.data.clone() }
    }
}

impl<T> Deref for Gvec<T> {
    type Target = Vec<T>;

    #[inline]
    fn deref(&self) -> (r: &Vec<T>)
        ensures
            r@ == self@,
    {
        &self.data
    }
}

impl<T> DerefMut for Gvec<T> {
    #[inline]
    fn deref_mut(&mut self) -> (r: &mut Vec<T>)
        ensures
            r@ == old(self)@,
            final(self)@ == final(r)@,
    {
        &mut self.data
    }
}

impl<T> vstd::std_specs::core::IndexSpecImpl<u32> for Gvec<T> {
    open spec fn index_req(&self, index: &u32) -> bool {
        *index < self@.len()
    }
}

impl<T> Index<u32> for Gvec<T> {
    type Output = T;

    #[inline]
    fn index(&self, index: u32) -> (r: &T)
        ensures
            *r == self@[index as int],
    {
        &self.data[index as usize]
    }
}

impl<T> IndexMut<u32> for Gvec<T> {
    #[inline]
    fn index_mut(&mut self, index: u32) -> (r: &mut T)
        requires
            index < old(self)@.len(),
        ensures
            *r == old(self)@[index as int],
            final(self)@ == old(self)@.update(index as int, *final(r)),
    {
        &mut self.data[index as usize]
    }
}

impl<T> vstd::std_specs::core::IndexSpecImpl<usize> for Gvec<T> {
    open spec fn index_req(&self, index: &usize) -> bool {
        *index < self@.len()
    }
}

impl<T> Index<usize> for Gvec<T> {
    type Output = T;

    #[inline]
    fn index(&self, index: usize) -> (r: &T)
        ensures
            *r == self@[index as int],
    {
        &self.data[index]
    }
}

impl<T> IndexMut<usize> for Gvec<T> {
    #[inline]
    fn index_mut(&mut self, index: usize) -> (r: &mut T)
        requires
            index < old(self)@.len(),
        ensures
            *r == old(self)@[index as int],
            final(self)@ == old(self)@.update(index as int, *final(r)),
    {
        &mut self.data[index]
    }
}

impl<T> vstd::std_specs::convert::FromSpecImpl<Vec<T>> for Gvec<T> {
    open spec fn obeys_from_spec() -> bool {
        true
    }

    closed spec fn from_spec(data: Vec<T>) -> Self {
        Gvec { data }
    }
}

impl<T> From<Vec<T>> for Gvec<T> {
    #[inline]
    fn from(data: Vec<T>) -> (r: Self)
        ensures
            r@ == data@,
    {
        Gvec { data }
    }
}

impl<T> Gvec<T> {
    /// Gives the elements back as a plain `Vec`, in order.
    #[inline]
    pub fn into_vec(self) -> (r: Vec<T>)
        ensures
            r@ == self@,
    {
        self.data
    }
}

impl<T> IntoIterator for Gvec<T> {
    type Item = T;

    type IntoIter = std::vec::IntoIter<T>;

    /// The elements in order, as `Vec` hands them out.
    #[inline]
    fn into_iter(self) -> (r: std::vec::IntoIter<T>)
        ensures
            vstd::std_specs::iter::IteratorSpec::remaining(&r) == self@,
    {
        self.data.into_iter()
    }
}

} // verus!

use crate::gvec::Gvec;
use crate::hash::GHashMap;
use std::ops::Deref;
use std::ops::DerefMut;
use std::ops::Index;
use std::ops::IndexMut;
use vstd::prelude::*;

verus! {

/// What one slot of the store holds, as specifications see it.
pub struct Slot<T> {
    pub value: T,
    pub removed: bool,
}

/// One slot of a `Gallocator`: a payload and its tombstone flag.
pub struct GallocElem<T> {
    e: T,
    removed: bool,
}

impl<T> View for GallocElem<T> {
    type V = Slot<T>;

    closed spec fn view(&self) -> Slot<T> {
        Slot { value: self.e, removed: self.removed }
    }
}

impl<T> GallocElem<T> {
    #[inline]
    pub fn new(e: T) -> (r: Self)
        ensures
            r@ == (Slot { value: e, removed: false }),
    {
        Self { e, removed: false }
    }

    #[inline]
    pub fn take(self) -> (r: T)
        ensures
            r == self@.value,
    {
        self.e
    }

    #[inline]
    pub fn is_removed(&self) -> (r: bool)
        ensures
            r == self@.removed,
    {
        self.removed
    }
}

impl<T> Deref for GallocElem<T> {
    type Target = T;

    #[inline]
    fn deref(&self) -> (r: &T)
        ensures
            *r == self@.value,
    {
        &self.e
    }
}

impl<T> DerefMut for GallocElem<T> {
    #[inline]
    fn deref_mut(&mut self) -> (r: &mut T)
        ensures
            *r == old(self)@.value,
            final(self)@ == (Slot { value: *final(r), removed: old(self)@.removed }),
    {
        &mut self.e
    }
}

/// The slots that are not tombstoned, in their order.
pub open spec fn live_slots<T>(s: Seq<Slot<T>>) -> Seq<Slot<T>> {
    s.filter(|x: Slot<T>| !x.removed)
}

/// The number of slots before `h` that are not tombstoned: the handle that
/// slot `h` gets when the store is compacted.
pub open spec fn rank<T>(s: Seq<Slot<T>>, h: int) -> nat {
    live_slots(s.take(h)).len()
}

/// Why a handle was refused.
#[derive(Clone, Copy, Debug, PartialEq, Eq, Structural)]
pub enum HandleError {
    /// The handle is at or beyond the number of slots.
    IndexOutOfRange,
    /// The slot of the handle was deallocated.
    StaleHandleUse,
}

/// A slab of values addressed by the handle each got when it was stored.
///
/// Its view is the sequence of its slots. Handles stay valid until `gc`
/// renumbers the live slots.
pub struct Gallocator<T> {
    data: Gvec<GallocElem<T>>,
}

impl<T> View for Gallocator<T> {
    type V = Seq<Slot<T>>;

    closed spec fn view(&self) -> Seq<Slot<T>> {
        self.data@.map_values(|e: GallocElem<T>| e@)
    }
}

impl<T> Gallocator<T> {
    /// Handle `h` names a slot that has not been deallocated.
    pub open spec fn is_live(&self, h: int) -> bool {
        0 <= h < self@.len() && !self@[h].removed
    }

    pub fn new() -> (r: Self)
        ensures
            r@ == Seq::<Slot<T>>::empty(),
    {
        Gallocator { data: Gvec::new() }
    }

    /// The number of slots, tombstoned ones included.
    #[inline]
    pub fn slots(&self) -> (r: usize)
        ensures
            r == self@.len(),
    {
        self.data.len()
    }

    /// Stores `v` in a new slot at the end and returns its handle.
    #[inline]
    pub fn allocate(&mut self, v: T) -> (h: usize)
        ensures
            h == old(self)@.len(),
            final(self)@ == old(self)@.push(Slot { value: v, removed: false }),
            final(self)@ == apply_op(old(self)@, SlabOp::Allocate(v)),
    {
        self.data.push(GallocElem::new(v));
        self.data.len() - 1
    }

    /// Marks slot `idx` as removed. Nothing else changes; doing it twice is
    /// the same as doing it once.
    #[inline]
    pub fn dealloc(&mut self, idx: usize)
        requires
            idx < old(self)@.len(),
        ensures
            final(self)@ == old(self)@.update(
                idx as int,
                Slot { value: old(self)@[idx as int].value, removed: true },
            ),
            final(self)@ == apply_op(old(self)@, SlabOp::Deallocate(idx)),
    {
        let slot = self.data.index_mut(idx);
        slot.removed = true;
    }

    /// As `dealloc`, but a handle out of range is reported and changes nothing.
    pub fn checked_dealloc(&mut self, idx: usize) -> (r: Result<(), HandleError>)
        ensures
            idx < old(self)@.len() ==> r.is_ok() && final(self)@ == old(self)@.update(
                idx as int,
                Slot { value: old(self)@[idx as int].value, removed: true },
            ),
            idx >= old(self)@.len() ==> r == Err::<(), HandleError>(HandleError::IndexOutOfRange)
                && final(self)@ == old(self)@,
            final(self)@ == apply_op(old(self)@, SlabOp::Deallocate(idx)),
    {
        if idx < self.data.len() {
            self.dealloc(idx);
            Ok(())
        } else {
            Err(HandleError::IndexOutOfRange)
        }
    }

    #[inline]
    pub fn is_removed(&self, idx: usize) -> (r: bool)
        requires
            idx < self@.len(),
        ensures
            r == self@[idx as int].removed,
    {
        self.data[idx].is_removed()
    }

    /// The payload of a live handle; otherwise the reason why there is none.
    pub fn get(&self, h: usize) -> (r: Result<&T, HandleError>)
        ensures
            match r {
                Ok(p) => self.is_live(h as int) && *p == self@[h as int].value,
                Err(e) => !self.is_live(h as int) && e == (if h >= self@.len() {
                    HandleError::IndexOutOfRange
                } else {
                    HandleError::StaleHandleUse
                }),
            },
    {
        if h >= self.data.len() {
            return Err(HandleError::IndexOutOfRange);
        }
        let slot = &self.data[h];
        if slot.is_removed() {
            Err(HandleError::StaleHandleUse)
        } else {
            Ok(slot.deref())
        }
    }

    /// The payload of a live handle, to be changed in place; otherwise the
    /// reason why there is none. Only that payload can change.
    pub fn get_mut(&mut self, h: usize) -> (r: Result<&mut T, HandleError>)
        ensures
            match r {
                Ok(p) => old(self).is_live(h as int) && *p == old(self)@[h as int].value
                    && final(self)@ == old(self)@.update(
                    h as int,
                    Slot { value: *final(p), removed: false },
                ),
                Err(e) => !old(self).is_live(h as int) && final(self)@ == old(self)@ && e == (if h
                    >= old(self)@.len() {
                    HandleError::IndexOutOfRange
                } else {
                    HandleError::StaleHandleUse
                }),
            },
    {
        if h >= self.data.len() {
            return Err(HandleError::IndexOutOfRange);
        }
        if self.data[h].is_removed() {
            return Err(HandleError::StaleHandleUse);
        }
        let slot = self.data.index_mut(h);
        Ok(slot.deref_mut())
    }

    /// Rebuilds the store from its live slots, in their order, and returns
    /// the map from each live handle to its new handle. Handles of removed
    /// slots are not keys of the map.
    pub fn gc(&mut self) -> (map: GHashMap<usize, usize>)
        ensures
            final(self)@ == live_slots(old(self)@),
            forall|h: usize| map@.contains_key(h) <==> old(self).is_live(h as int),
            forall|h: usize|
                old(self).is_live(h as int) ==> #[trigger] map@[h] == rank(old(self)@, h as int),
            forall|h: usize|
                old(self).is_live(h as int) ==> final(self).is_live(#[trigger] map@[h] as int)
                    && final(self)@[map@[h] as int].value == old(self)@[h as int].value,
            forall|j: int| 0 <= j < final(self)@.len() ==> !(#[trigger] final(self)@[j]).removed,
    {
        let mut map: GHashMap<usize, usize> = GHashMap::new();
        let mut data: Gvec<GallocElem<T>> = Gvec::new();
        std::mem::swap(&mut self.data, &mut data);
        let ghost before: Seq<Slot<T>> = data@.map_values(|e: GallocElem<T>| e@);
        let items: Vec<GallocElem<T>> = data.into_vec();
        let n: usize = items.len();
        let mut i: usize = 0;
        proof {
            assert(before.take(0) =~= Seq::<Slot<T>>::empty());
        }
        for d in it: items.into_iter()
            invariant
                i == it.index(),
                it.seq().len() == before.len(),
                before.len() == n,
                forall|k: int| 0 <= k < before.len() ==> (#[trigger] it.seq()[k])@ == before[k],
                self@ == live_slots(before.take(i as int)),
                forall|h: usize| map@.contains_key(h) <==> h < i && !before[h as int].removed,
                forall|h: usize|
                    h < i && !before[h as int].removed ==> #[trigger] map@[h] == rank(
                        before,
                        h as int,
                    ),
                forall|h: usize|
                    h < i && !before[h as int].removed ==> (#[trigger] map@[h]) < self@.len()
                        && self@[map@[h] as int] == before[h as int],
                forall|j: int| 0 <= j < self@.len() ==> !(#[trigger] self@[j]).removed,
        {
            proof {
                lemma_live_slots_step(before, i as int);
            }
            if !d.is_removed() {
                let h: usize = self.allocate(d.take());
                map.insert(i, h);
            }
            i += 1;
        }
        proof {
            assert(before.take(before.len() as int) =~= before);
        }
        map
    }
}

impl<T> Default for Gallocator<T> {
    #[inline]
    fn default() -> (r: Self)
        ensures
            r@ == Seq::<Slot<T>>::empty(),
    {
        Gallocator { data: Gvec::new() }
    }
}

impl<T> vstd::std_specs::core::IndexSpecImpl<usize> for Gallocator<T> {
    open spec fn index_req(&self, index: &usize) -> bool {
        self.is_live(*index as int)
    }
}

impl<T> Index<usize> for Gallocator<T> {
    type Output = T;

    /// The payload of a live handle, without a check.
    #[inline]
    fn index(&self, index: usize) -> (r: &T)
        ensures
            *r == self@[index as int].value,
    {
        self.data[index].deref()
    }
}

impl<T> IndexMut<usize> for Gallocator<T> {
    /// The payload of a live handle, to be changed in place, without a check.
    #[inline]
    fn index_mut(&mut self, index: usize) -> (r: &mut T)
        requires
            old(self).is_live(index as int),
        ensures
            *r == old(self)@[index as int].value,
            final(self)@ == old(self)@.update(
                index as int,
                Slot { value: *final(r), removed: false },
            ),
    {
        self.data.index_mut(index).deref_mut()
    }
}

impl<T> vstd::std_specs::core::IndexSpecImpl<u32> for Gallocator<T> {
    open spec fn index_req(&self, index: &u32) -> bool {
        self.is_live(*index as int)
    }
}

impl<T> Index<u32> for Gallocator<T> {
    type Output = T;

    /// The payload of a live handle, without a check.
    #[inline]
    fn index(&self, index: u32) -> (r: &T)
        ensures
            *r == self@[index as int].value,
    {
        self.data[index].deref()
    }
}

impl<T> IndexMut<u32> for Gallocator<T> {
    /// The payload of a live handle, to be changed in place, without a check.
    #[inline]
    fn index_mut(&mut self, index: u32) -> (r: &mut T)
        requires
            old(self).is_live(index as int),
        ensures
            *r == old(self)@[index as int].value,
            final(self)@ == old(self)@.update(
                index as int,
                Slot { value: *final(r), removed: false },
            ),
    {
        self.data.index_mut(index).deref_mut()
    }
}

/// Taking one more slot into account appends it to the live slots if it is
/// live, and leaves them as they are if it is not.
pub proof fn lemma_live_slots_step<T>(s: Seq<Slot<T>>, i: int)
    requires
        0 <= i < s.len(),
    ensures
        live_slots(s.take(i + 1)) == if s[i].removed {
            live_slots(s.take(i))
        } else {
            live_slots(s.take(i)).push(s[i])
        },
{
    reveal(Seq::filter);
    assert(s.take(i + 1).drop_last() =~= s.take(i));
    assert(s.take(i + 1).last() == s[i]);
}

/// The live slots of a longer prefix begin with those of a shorter one.
proof fn lemma_live_slots_grow<T>(s: Seq<Slot<T>>, a: int, b: int)
    requires
        0 <= a <= b <= s.len(),
    ensures
        live_slots(s.take(a)).len() <= live_slots(s.take(b)).len(),
        forall|i: int|
            0 <= i < live_slots(s.take(a)).len() ==> live_slots(s.take(b))[i] == live_slots(
                s.take(a),
            )[i],
    decreases b - a,
{
    if a < b {
        lemma_live_slots_grow(s, a, b - 1);
        lemma_live_slots_step(s, b - 1);
    }
}

/// Compaction keeps every live slot: the slot of a live handle is found
/// among the live slots at the rank of the handle.
pub proof fn lemma_rank_finds_slot<T>(s: Seq<Slot<T>>, h: int)
    requires
        0 <= h < s.len(),
        !s[h].removed,
    ensures
        rank(s, h) < live_slots(s).len(),
        live_slots(s)[rank(s, h) as int] == s[h],
{
    lemma_live_slots_step(s, h);
    lemma_live_slots_grow(s, h + 1, s.len() as int);
    assert(s.take(s.len() as int) =~= s);
}

/// Compaction keeps the order of the live slots: of two live handles the
/// lower one gets the lower rank.
pub proof fn lemma_rank_keeps_order<T>(s: Seq<Slot<T>>, a: int, b: int)
    requires
        0 <= a < b < s.len(),
        !s[a].removed,
    ensures
        rank(s, a) < rank(s, b),
{
    lemma_live_slots_step(s, a);
    lemma_live_slots_grow(s, a + 1, b);
}

/// One call on a store, as specifications see it.
pub enum SlabOp<T> {
    Allocate(T),
    Deallocate(usize),
}

/// The slots after one call. A `Deallocate` out of range changes nothing.
pub open spec fn apply_op<T>(s: Seq<Slot<T>>, op: SlabOp<T>) -> Seq<Slot<T>> {
    match op {
        SlabOp::Allocate(v) => s.push(Slot { value: v, removed: false }),
        SlabOp::Deallocate(i) => if i < s.len() {
            s.update(i as int, Slot { value: s[i as int].value, removed: true })
        } else {
            s
        },
    }
}

/// The slots after a sequence of calls, made in order.
pub open spec fn apply_ops<T>(s: Seq<Slot<T>>, ops: Seq<SlabOp<T>>) -> Seq<Slot<T>>
    decreases ops.len(),
{
    if ops.len() == 0 {
        s
    } else {
        apply_op(apply_ops(s, ops.drop_last()), ops.last())
    }
}

/// Whatever calls are made on a store, a value that one of them allocated is
/// still found under the handle it got then, live and unchanged, as long as
/// no later call deallocated that handle.
pub proof fn lemma_allocate_round_trip<T>(s: Seq<Slot<T>>, ops: Seq<SlabOp<T>>, k: int, v: T)
    requires
        0 <= k < ops.len(),
        ops[k] == SlabOp::Allocate(v),
        forall|j: int|
            k < j < ops.len() ==> ops[j] != SlabOp::<T>::Deallocate(
                apply_ops(s, ops.take(k)).len() as usize,
            ),
    ensures
        apply_ops(s, ops.take(k)).len() < apply_ops(s, ops).len(),
        apply_ops(s, ops)[apply_ops(s, ops.take(k)).len() as int] == (Slot {
            value: v,
            removed: false,
        }),
    decreases ops.len(),
{
    let h = apply_ops(s, ops.take(k)).len();
    let rest = ops.drop_last();
    if k == ops.len() - 1 {
        assert(rest =~= ops.take(k));
    } else {
        assert(rest.take(k) =~= ops.take(k));
        lemma_allocate_round_trip(s, rest, k, v);
        let mid = apply_ops(s, rest);
        match ops.last() {
            SlabOp::Allocate(w) => {},
            SlabOp::Deallocate(i) => {
                assert(ops[ops.len() - 1] != SlabOp::<T>::Deallocate(h as usize));
                if i < mid.len() && i as int == h as int {
                    assert(h as usize == i);
                }
            },
        }
    }
}

} // verus!

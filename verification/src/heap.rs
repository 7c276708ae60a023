use crate::grc::Grc;
use crate::gvec::Gvec;
use crate::heap_order::has_handle;
use crate::heap_order::is_total_preorder;
use crate::heap_order::lemma_popped_entries;
use crate::heap_order::lemma_popped_order;
use crate::heap_order::lemma_pushed_entries;
use crate::heap_order::lemma_pushed_order;
use crate::heap_order::lemma_updated_entries;
use crate::heap_order::lemma_updated_order;
use crate::heap_order::moved_down;
use crate::heap_order::moved_up;
use crate::heap_order::popped;
use crate::heap_order::pushed;
use crate::heap_order::updated;
use crate::heap_order::lemma_sift_up_shape;
use crate::heap_order::ordered;
use crate::heap_order::ordered_away_from;
use crate::heap_order::parent;
use crate::heap_order::sift_down;
use crate::heap_order::sift_up;
use crate::heap_order::sift_up_slot;
use crate::heap_order::slot_of;
pub use crate::heap_order::BinaryHeapCmp;
pub use crate::heap_order::Handle;
use crate::others::OptionU32;
use std::ops::Deref;
use std::ops::IndexMut;
use vstd::prelude::*;

verus! {

/// The number of slots of a position table that hold an index.
spec fn count_some(s: Seq<OptionU32>) -> nat
    decreases s.len(),
{
    if s.len() == 0 {
        0
    } else {
        count_some(s.drop_last()) + if s.last()@.is_some() {
            1nat
        } else {
            0nat
        }
    }
}

/// No more slots hold an index than there are slots, and fewer where one
/// slot is empty.
proof fn lemma_count_bound(s: Seq<OptionU32>)
    ensures
        count_some(s) <= s.len(),
        forall|h: int| 0 <= h < s.len() && s[h]@.is_none() ==> count_some(s) < s.len(),
    decreases s.len(),
{
    if s.len() > 0 {
        lemma_count_bound(s.drop_last());
        assert forall|h: int| 0 <= h < s.len() && s[h]@.is_none() implies count_some(s)
            < s.len() by {
            if h < s.len() - 1 {
                assert(s.drop_last()[h] == s[h]);
            }
        }
    }
}

/// Writing one slot changes the count by what the slot gains or loses.
proof fn lemma_count_update(s: Seq<OptionU32>, h: int, x: OptionU32)
    requires
        0 <= h < s.len(),
    ensures
        count_some(s.update(h, x)) + (if s[h]@.is_some() {
            1nat
        } else {
            0nat
        }) == count_some(s) + (if x@.is_some() {
            1nat
        } else {
            0nat
        }),
    decreases s.len(),
{
    if h == s.len() - 1 {
        assert(s.update(h, x).drop_last() =~= s.drop_last());
    } else {
        assert(s.update(h, x).drop_last() =~= s.drop_last().update(h, x));
        lemma_count_update(s.drop_last(), h, x);
    }
}

/// Appending empty slots keeps the count.
proof fn lemma_count_grown(s: Seq<OptionU32>, t: Seq<OptionU32>)
    requires
        s.len() <= t.len(),
        forall|i: int| 0 <= i < s.len() ==> t[i] == s[i],
        forall|i: int| s.len() <= i < t.len() ==> t[i]@.is_none(),
    ensures
        count_some(t) == count_some(s),
    decreases t.len(),
{
    if t.len() == s.len() {
        assert(t =~= s);
    } else {
        lemma_count_grown(s, t.drop_last());
    }
}

/// A table of empty slots counts zero.
proof fn lemma_count_all_none(s: Seq<OptionU32>)
    requires
        forall|i: int| 0 <= i < s.len() ==> s[i]@.is_none(),
    ensures
        count_some(s) == 0,
    decreases s.len(),
{
    if s.len() > 0 {
        lemma_count_all_none(s.drop_last());
    }
}

/// A binary heap of values that are found again by their handle, so that
/// the place of one value can be put right after its priority has changed.
///
/// Its view is the array of its entries, the root first. The order is the
/// policy's: with `gte` meaning "greater or equal" the root is a maximum.
pub struct BinaryHeap<T: Handle, CMP: BinaryHeapCmp<T>> {
    heap: Gvec<T>,
    pos: Gvec<OptionU32>,
    policy: Grc<CMP>,
}

impl<T: Handle, CMP: BinaryHeapCmp<T>> View for BinaryHeap<T, CMP> {
    type V = Seq<T>;

    closed spec fn view(&self) -> Seq<T> {
        self.heap@
    }
}

/// The position table `pos` names, for each entry of `heap` but the one at
/// `hole`, the slot of that entry, and names no slot for any other handle
/// but `h`, the handle that the entry at `hole` is to get.
spec fn indexed_but<T: Handle>(heap: Seq<T>, pos: Seq<OptionU32>, hole: int, h: u32) -> bool {
    &&& pos.len() <= u32::MAX
    &&& count_some(pos) == heap.len()
    &&& 0 <= hole < heap.len()
    &&& h < pos.len()
    &&& pos[h as int]@.is_some()
    &&& forall|j: int|
        0 <= j < heap.len() && j != hole ==> (#[trigger] heap[j]).handle_spec() != h
            && heap[j].handle_spec() < pos.len() && pos[heap[j].handle_spec() as int].0 == j
    &&& forall|g: int|
        0 <= g < pos.len() && g != h && (#[trigger] pos[g])@.is_some() ==> pos[g].0 < heap.len()
            && pos[g].0 != hole && heap[pos[g].0 as int].handle_spec() == g
}

/// The position table `pos` names the slot of each entry of `heap`, and no
/// slot for any other handle.
spec fn indexed<T: Handle>(heap: Seq<T>, pos: Seq<OptionU32>) -> bool {
    &&& pos.len() <= u32::MAX
    &&& count_some(pos) == heap.len()
    &&& forall|j: int|
        0 <= j < heap.len() ==> (#[trigger] heap[j]).handle_spec() < pos.len()
            && pos[heap[j].handle_spec() as int].0 == j
    &&& forall|g: int|
        0 <= g < pos.len() && (#[trigger] pos[g])@.is_some() ==> pos[g].0 < heap.len()
            && heap[pos[g].0 as int].handle_spec() == g
}

/// What a complete table says of the entries: they fit in the table, no
/// two share a handle, and the table finds each of them.
proof fn lemma_indexed_facts<T: Handle>(heap: Seq<T>, pos: Seq<OptionU32>)
    requires
        indexed(heap, pos),
    ensures
        heap.len() <= pos.len(),
        heap.len() <= u32::MAX,
        crate::heap_order::distinct_handles(heap),
        forall|h: u32|
            has_handle(heap, h) <==> h < pos.len() && (#[trigger] pos[h as int])@.is_some(),
        forall|h: u32|
            h < pos.len() && (#[trigger] pos[h as int])@.is_some() ==> slot_of(heap, h)
                == pos[h as int].0,
{
    lemma_count_bound(pos);
    assert forall|h: u32| h < pos.len() && (#[trigger] pos[h as int])@.is_some() implies has_handle(
        heap,
        h,
    ) && slot_of(heap, h) == pos[h as int].0 by {
        let i = pos[h as int].0 as int;
        assert(heap[i].handle_spec() == h);
        let j = slot_of(heap, h);
        assert(heap[j].handle_spec() == h);
    }
    assert forall|h: u32| has_handle(heap, h) implies h < pos.len() && (
    #[trigger] pos[h as int])@.is_some() by {
        let i = choose|i: int| 0 <= i < heap.len() && (#[trigger] heap[i]).handle_spec() == h;
        assert(pos[heap[i].handle_spec() as int].0 == i);
    }
}

/// Moving the entry at `from` into the hole, and naming the hole as its
/// slot, leaves a table with the hole at `from`.
proof fn lemma_hole_moves<T: Handle>(heap: Seq<T>, pos: Seq<OptionU32>, hole: int, from: int, h: u32)
    requires
        indexed_but(heap, pos, hole, h),
        0 <= from < heap.len(),
        from != hole,
    ensures
        heap[from].handle_spec() < pos.len(),
        heap[from].handle_spec() != h,
        indexed_but(
            heap.update(hole, heap[from]),
            pos.update(heap[from].handle_spec() as int, OptionU32(hole as u32)),
            from,
            h,
        ),
{
    let g = heap[from].handle_spec();
    let heap2 = heap.update(hole, heap[from]);
    let pos2 = pos.update(g as int, OptionU32(hole as u32));
    lemma_count_bound(pos);
    assert(pos[g as int].0 == from);
    assert(pos[g as int]@.is_some());
    lemma_count_update(pos, g as int, OptionU32(hole as u32));
    assert forall|j: int| 0 <= j < heap2.len() && j != from implies (#[trigger] heap2[j]).handle_spec()
        != h && heap2[j].handle_spec() < pos2.len() && pos2[heap2[j].handle_spec() as int].0
        == j by {
        if j != hole {
            assert(heap2[j] == heap[j]);
            assert(pos[heap[j].handle_spec() as int].0 == j);
        }
    }
    assert forall|k: int|
        0 <= k < pos2.len() && k != h && (#[trigger] pos2[k])@.is_some() implies pos2[k].0
        < heap2.len() && pos2[k].0 != from && heap2[pos2[k].0 as int].handle_spec() == k by {
        if k != g {
            assert(pos2[k] == pos[k]);
            assert(heap[pos[k].0 as int].handle_spec() == k);
        }
    }
}

/// Putting a value with handle `h` into the hole, and naming the hole as
/// its slot, completes the table.
proof fn lemma_hole_filled<T: Handle>(heap: Seq<T>, pos: Seq<OptionU32>, hole: int, h: u32, v: T)
    requires
        indexed_but(heap, pos, hole, h),
        v.handle_spec() == h,
    ensures
        indexed(heap.update(hole, v), pos.update(h as int, OptionU32(hole as u32))),
{
    let heap2 = heap.update(hole, v);
    let pos2 = pos.update(h as int, OptionU32(hole as u32));
    lemma_count_bound(pos);
    lemma_count_update(pos, h as int, OptionU32(hole as u32));
    assert forall|j: int| 0 <= j < heap2.len() implies (#[trigger] heap2[j]).handle_spec()
        < pos2.len() && pos2[heap2[j].handle_spec() as int].0 == j by {
        if j != hole {
            assert(heap2[j] == heap[j]);
        }
    }
    assert forall|k: int| 0 <= k < pos2.len() && (#[trigger] pos2[k])@.is_some() implies pos2[k].0
        < heap2.len() && heap2[pos2[k].0 as int].handle_spec() == k by {
        if k != h {
            assert(pos2[k] == pos[k]);
        }
    }
}

/// A complete table is a table with a hole at the slot of any of its entries.
proof fn lemma_hole_opened<T: Handle>(heap: Seq<T>, pos: Seq<OptionU32>, h: u32)
    requires
        indexed(heap, pos),
        h < pos.len(),
        pos[h as int]@.is_some(),
    ensures
        indexed_but(heap, pos, pos[h as int].0 as int, h),
        heap[pos[h as int].0 as int].handle_spec() == h,
{
    let hole = pos[h as int].0 as int;
    assert forall|j: int| 0 <= j < heap.len() && j != hole implies (#[trigger] heap[j]).handle_spec()
        != h && heap[j].handle_spec() < pos.len() && pos[heap[j].handle_spec() as int].0 == j by {
        assert(pos[heap[j].handle_spec() as int].0 == j);
    }
    assert forall|k: int|
        0 <= k < pos.len() && k != h && (#[trigger] pos[k])@.is_some() implies pos[k].0 < heap.len()
        && pos[k].0 != hole && heap[pos[k].0 as int].handle_spec() == k by {
        assert(heap[pos[k].0 as int].handle_spec() == k);
    }
}

/// Appending an entry whose handle has no slot yet, and naming the new last
/// slot for it, keeps the table complete.
proof fn lemma_entry_added<T: Handle>(heap: Seq<T>, pos: Seq<OptionU32>, v: T)
    requires
        indexed(heap, pos),
        v.handle_spec() < pos.len(),
        pos[v.handle_spec() as int]@.is_none(),
    ensures
        heap.len() < u32::MAX,
        indexed(heap.push(v), pos.update(v.handle_spec() as int, OptionU32(heap.len() as u32))),
{
    let h = v.handle_spec();
    let heap2 = heap.push(v);
    let pos2 = pos.update(h as int, OptionU32(heap.len() as u32));
    lemma_count_bound(pos);
    lemma_count_update(pos, h as int, OptionU32(heap.len() as u32));
    assert forall|j: int| 0 <= j < heap2.len() implies (#[trigger] heap2[j]).handle_spec()
        < pos2.len() && pos2[heap2[j].handle_spec() as int].0 == j by {
        if j < heap.len() {
            assert(heap2[j] == heap[j]);
            assert(pos[heap[j].handle_spec() as int].0 == j);
        }
    }
    assert forall|k: int| 0 <= k < pos2.len() && (#[trigger] pos2[k])@.is_some() implies pos2[k].0
        < heap2.len() && heap2[pos2[k].0 as int].handle_spec() == k by {
        if k != h {
            assert(pos2[k] == pos[k]);
        }
    }
}

/// Putting the last entry in place of the root, forgetting the root's
/// handle and dropping the last slot keeps the table complete.
proof fn lemma_root_removed<T: Handle>(heap: Seq<T>, pos: Seq<OptionU32>)
    requires
        indexed(heap, pos),
        heap.len() >= 1,
    ensures
        heap[0].handle_spec() < pos.len(),
        heap.last().handle_spec() < pos.len(),
        indexed(
            heap.update(0, heap.last()).drop_last(),
            pos.update(heap.last().handle_spec() as int, OptionU32(0)).update(
                heap[0].handle_spec() as int,
                OptionU32(u32::MAX),
            ),
        ),
{
    let hv = heap[0].handle_spec();
    let hl = heap.last().handle_spec();
    let heap2 = heap.update(0, heap.last()).drop_last();
    let pos1 = pos.update(hl as int, OptionU32(0));
    let pos2 = pos1.update(hv as int, OptionU32(u32::MAX));
    assert(pos[hv as int].0 == 0);
    assert(pos[hl as int].0 == heap.len() - 1);
    lemma_count_bound(pos);
    lemma_count_update(pos, hl as int, OptionU32(0));
    lemma_count_update(pos1, hv as int, OptionU32(u32::MAX));
    assert forall|j: int| 0 <= j < heap2.len() implies (#[trigger] heap2[j]).handle_spec()
        < pos2.len() && pos2[heap2[j].handle_spec() as int].0 == j by {
        if j != 0 {
            assert(heap2[j] == heap[j]);
            assert(pos[heap[j].handle_spec() as int].0 == j);
        }
    }
    assert forall|k: int| 0 <= k < pos2.len() && (#[trigger] pos2[k])@.is_some() implies pos2[k].0
        < heap2.len() && heap2[pos2[k].0 as int].handle_spec() == k by {
        if k != hl && k != hv {
            assert(pos2[k] == pos[k]);
            assert(heap[pos[k].0 as int].handle_spec() == k);
        }
    }
}

impl<T: Handle, CMP: BinaryHeapCmp<T>> BinaryHeap<T, CMP> {
    /// The ordering policy that the heap was made with.
    pub closed spec fn policy(&self) -> CMP {
        self.policy@
    }

    /// The position table agrees with the entries.
    pub closed spec fn wf(&self) -> bool {
        indexed(self.heap@, self.pos@)
    }

    /// The entries are in heap order by the policy.
    pub open spec fn is_ordered(&self) -> bool {
        ordered(self@, self.policy())
    }

    /// In a well-formed heap no two entries share a handle, and the slots fit
    /// in a `u32`.
    pub proof fn lemma_wf(&self)
        requires
            self.wf(),
        ensures
            crate::heap_order::distinct_handles(self@),
            self@.len() <= u32::MAX,
    {
        lemma_indexed_facts(self.heap@, self.pos@);
    }

    pub fn new(policy: Grc<CMP>) -> (r: Self)
        ensures
            r.wf(),
            r@ == Seq::<T>::empty(),
            r.is_ordered(),
            r.policy() == policy@,
    {
        Self { heap: Gvec::new(), pos: Gvec::new(), policy }
    }

    #[inline]
    pub fn len(&self) -> (r: usize)
        ensures
            r == self@.len(),
    {
        self.heap.len()
    }

    #[inline]
    pub fn is_empty(&self) -> (r: bool)
        ensures
            r == (self@.len() == 0),
    {
        self.heap.len() == 0
    }

    /// The entries in the order of the array: the root first, not sorted.
    #[inline]
    pub fn elements(&self) -> (r: &[T])
        ensures
            r@ == self@,
    {
        self.heap.deref().as_slice()
    }

    /// Removes every entry. Afterwards no handle is in the heap, so each
    /// can be pushed anew.
    #[inline]
    pub fn clear(&mut self)
        requires
            old(self).wf(),
        ensures
            final(self).wf(),
            final(self)@ == Seq::<T>::empty(),
            final(self).is_ordered(),
            forall|h: u32| !has_handle(final(self)@, h),
            final(self).policy() == old(self).policy(),
    {
        let n: usize = self.heap.len();
        let mut i: usize = 0;
        proof {
            lemma_indexed_facts(self.heap@, self.pos@);
        }
        while i < n
            invariant
                i <= n,
                n == self.heap@.len(),
                self.heap@ == old(self).heap@,
                self.policy == old(self).policy,
                self.pos@.len() == old(self).pos@.len(),
                forall|j: int|
                    0 <= j < n ==> (#[trigger] self.heap@[j]).handle_spec() < self.pos@.len(),
                forall|g: int|
                    0 <= g < self.pos@.len() && (#[trigger] self.pos@[g])@.is_some() ==> self.pos@[g].0
                        < n && self.pos@[g].0 >= i && self.heap@[self.pos@[g].0 as int].handle_spec()
                        == g,
            decreases n - i,
        {
            let h: u32 = self.heap[i].handle();
            *self.pos.index_mut(h) = OptionU32::none();
            i += 1;
        }
        self.heap.clear();
        proof {
            lemma_count_all_none(self.pos@);
        }
    }

    /// Grows the position table so that it has a slot for handle `h`, and
    /// returns what that slot holds.
    fn slot(&mut self, h: u32) -> (r: OptionU32)
        requires
            old(self).wf(),
            h < u32::MAX,
        ensures
            final(self).wf(),
            final(self).heap == old(self).heap,
            final(self).policy == old(self).policy,
            h < final(self).pos@.len(),
            r == final(self).pos@[h as int],
            r@.is_some() <==> has_handle(old(self)@, h),
            r@.is_some() ==> r.0 == slot_of(old(self)@, h),
    {
        let ghost before = self.pos@;
        self.pos.reserve(h as usize + 1);
        proof {
            assert forall|i: int| before.len() <= i < self.pos@.len() implies (
            #[trigger] self.pos@[i])@.is_none() by {
                assert(OptionU32::default.ensures((), self.pos@[i]));
            }
            lemma_count_grown(before, self.pos@);
            lemma_indexed_facts(self.heap@, before);
            assert forall|j: int| 0 <= j < self.heap@.len() implies (#[trigger] self.heap@[j]).handle_spec()
                < self.pos@.len() && self.pos@[self.heap@[j].handle_spec() as int].0 == j by {
                assert(self.heap@[j].handle_spec() < before.len());
            }
            assert forall|g: int|
                0 <= g < self.pos@.len() && (#[trigger] self.pos@[g])@.is_some() implies self.pos@[g].0
                < self.heap@.len() && self.heap@[self.pos@[g].0 as int].handle_spec() == g by {
                assert(g < before.len());
                assert(before[g] == self.pos@[g]);
            }
            lemma_indexed_facts(self.heap@, self.pos@);
        }
        self.pos[h]
    }

    /// Puts `v` in place of the entry that has its handle and moves it up
    /// as far as the policy asks. A handle that is not in the heap leaves
    /// the heap as it is.
    #[inline]
    pub fn up(&mut self, v: T)
        requires
            old(self).wf(),
            v.handle_spec() < u32::MAX,
        ensures
            final(self).wf(),
            final(self).policy() == old(self).policy(),
            final(self)@ == moved_up(old(self)@, old(self).policy(), v),
    {
        let h: u32 = v.handle();
        let at: OptionU32 = self.slot(h);
        if at.is_none() {
            return ;
        }
        let mut idx: u32 = at.0;
        let ghost start = self.heap@;
        let ghost first = idx as int;
        proof {
            lemma_hole_opened(self.heap@, self.pos@, h);
        }
        while idx != 0
            invariant
                self.policy == old(self).policy,
                self.heap@.len() == start.len(),
                indexed_but(self.heap@, self.pos@, idx as int, h),
                sift_up(self.heap@, self.policy@, v, idx as int) == sift_up(
                    start,
                    self.policy@,
                    v,
                    first,
                ),
            ensures
                self.policy == old(self).policy,
                self.heap@.len() == start.len(),
                indexed_but(self.heap@, self.pos@, idx as int, h),
                sift_up(start, self.policy@, v, first) == self.heap@.update(idx as int, v),
            decreases idx,
        {
            let pidx: u32 = (idx - 1) >> 1;
            assert(pidx == parent(idx as int)) by {
                assert(((idx - 1) as u32) >> 1 == ((idx - 1) as u32) / 2) by (bit_vector);
            }
            let above: T = self.heap[pidx];
            if self.policy.gte(above, v) {
                break ;
            }
            proof {
                lemma_hole_moves(self.heap@, self.pos@, idx as int, pidx as int, h);
            }
            *self.heap.index_mut(idx) = above;
            let g: u32 = above.handle();
            *self.pos.index_mut(g) = OptionU32::some(idx);
            idx = pidx;
        }
        proof {
            lemma_hole_filled(self.heap@, self.pos@, idx as int, h, v);
        }
        *self.heap.index_mut(idx) = v;
        *self.pos.index_mut(h) = OptionU32::some(idx);
    }

    /// Puts `v` in place of the entry that has its handle and moves it down
    /// as far as the policy asks. A handle that is not in the heap leaves
    /// the heap as it is.
    #[inline]
    pub fn down(&mut self, v: T)
        requires
            old(self).wf(),
            v.handle_spec() < u32::MAX,
        ensures
            final(self).wf(),
            final(self).policy() == old(self).policy(),
            final(self)@ == moved_down(old(self)@, old(self).policy(), v),
    {
        let h: u32 = v.handle();
        let at: OptionU32 = self.slot(h);
        if at.is_none() {
            return ;
        }
        let mut idx: u32 = at.0;
        let ghost start = self.heap@;
        let ghost first = idx as int;
        proof {
            lemma_hole_opened(self.heap@, self.pos@, h);
            lemma_indexed_facts(self.heap@, self.pos@);
        }
        let n: u64 = self.heap.len() as u64;
        loop
            invariant
                self.policy == old(self).policy,
                self.heap@.len() == start.len(),
                n == start.len(),
                n <= u32::MAX,
                indexed_but(self.heap@, self.pos@, idx as int, h),
                sift_down(self.heap@, self.policy@, v, idx as int) == sift_down(
                    start,
                    self.policy@,
                    v,
                    first,
                ),
            ensures
                self.policy == old(self).policy,
                self.heap@.len() == start.len(),
                indexed_but(self.heap@, self.pos@, idx as int, h),
                sift_down(start, self.policy@, v, first) == self.heap@.update(idx as int, v),
            decreases n - idx,
        {
            let wide: u64 = idx as u64;
            assert(wide <= 0xffff_ffff ==> (wide << 1) == 2 * wide) by (bit_vector);
            let left: u64 = (wide << 1) + 1;
            if left >= n {
                break ;
            }
            let right: u64 = left + 1;
            let child: u32 = if right < n && self.policy.gte(
                self.heap[right as u32],
                self.heap[left as u32],
            ) {
                right as u32
            } else {
                left as u32
            };
            assert(child == crate::heap_order::first_below(self.heap@, self.policy@, idx as int));
            let below: T = self.heap[child];
            if self.policy.gte(v, below) {
                break ;
            }
            proof {
                lemma_hole_moves(self.heap@, self.pos@, idx as int, child as int, h);
            }
            *self.heap.index_mut(idx) = below;
            let g: u32 = below.handle();
            *self.pos.index_mut(g) = OptionU32::some(idx);
            idx = child;
        }
        proof {
            lemma_hole_filled(self.heap@, self.pos@, idx as int, h, v);
        }
        *self.heap.index_mut(idx) = v;
        *self.pos.index_mut(h) = OptionU32::some(idx);
    }

    /// Adds `v` at the end and moves it up, unless an entry with its handle
    /// is in the heap already: then nothing changes.
    #[inline]
    pub fn push(&mut self, v: T)
        requires
            old(self).wf(),
            v.handle_spec() < u32::MAX,
        ensures
            final(self).wf(),
            final(self).policy() == old(self).policy(),
            final(self)@ == pushed(old(self)@, old(self).policy(), v),
            has_handle(final(self)@, v.handle_spec()),
            !has_handle(old(self)@, v.handle_spec()) ==> final(self)@.to_multiset()
                == old(self)@.to_multiset().insert(v),
            old(self).is_ordered() && is_total_preorder::<T, CMP>(old(self).policy())
                ==> final(self).is_ordered(),
    {
        proof {
            lemma_pushed_entries(self.heap@, self.policy@, v);
            if self.is_ordered() && is_total_preorder::<T, CMP>(self.policy@) {
                lemma_pushed_order(self.heap@, self.policy@, v);
            }
        }
        let h: u32 = v.handle();
        let at: OptionU32 = self.slot(h);
        if at.is_some() {
            return ;
        }
        proof {
            lemma_entry_added(self.heap@, self.pos@, v);
        }
        let idx: u32 = self.heap.len() as u32;
        self.heap.push(v);
        *self.pos.index_mut(h) = OptionU32::some(idx);
        proof {
            lemma_indexed_facts(self.heap@, self.pos@);
            assert(self.pos@[h as int]@.is_some() && self.pos@[h as int].0 == idx);
        }
        self.up(v);
    }

    /// Removes the root and returns it; `None` if the heap is empty. The
    /// last entry takes the root's place and moves down.
    #[inline]
    pub fn pop(&mut self) -> (r: Option<T>)
        requires
            old(self).wf(),
        ensures
            final(self).wf(),
            final(self).policy() == old(self).policy(),
            r == if old(self)@.len() == 0 {
                None
            } else {
                Some(old(self)@[0])
            },
            final(self)@ == popped(old(self)@, old(self).policy()),
            old(self)@.len() > 0 ==> final(self)@.to_multiset() == old(self)@.to_multiset().remove(
                old(self)@[0],
            ),
            old(self).is_ordered() && is_total_preorder::<T, CMP>(old(self).policy())
                ==> final(self).is_ordered() && forall|j: int|
                0 <= j < old(self)@.len() ==> old(self).policy().gte_spec(
                    old(self)@[0],
                    #[trigger] old(self)@[j],
                ),
    {
        if self.heap.len() == 0 {
            proof {
                assert(self.heap@ =~= Seq::<T>::empty());
            }
            return None;
        }
        let ghost before = self.heap@;
        let value: T = self.heap[0usize];
        let last: T = self.heap[self.heap.len() - 1];
        proof {
            lemma_root_removed(self.heap@, self.pos@);
            lemma_indexed_facts(self.heap@, self.pos@);
            lemma_popped_entries(before, self.policy@);
            if self.is_ordered() && is_total_preorder::<T, CMP>(self.policy@) {
                lemma_popped_order(before, self.policy@);
            }
        }
        *self.heap.index_mut(0usize) = last;
        *self.pos.index_mut(last.handle()) = OptionU32::some(0);
        *self.pos.index_mut(value.handle()) = OptionU32::none();
        self.heap.pop();
        let ghost rest = before.update(0, before.last()).drop_last();
        proof {
            assert(self.heap@ =~= rest);
        }
        if self.heap.len() > 1 {
            proof {
                lemma_indexed_facts(self.heap@, self.pos@);
                assert(rest[0].handle_spec() == last.handle_spec());
            }
            self.down(last);
        } else {
            proof {
                if rest.len() == 1 {
                    assert(rest.update(0, last) =~= rest);
                    assert(sift_down(rest, self.policy@, last, 0) == rest);
                } else {
                    assert(rest =~= Seq::<T>::empty());
                }
            }
        }
        Some(value)
    }

    /// Puts `v` in place of the entry that has its handle and moves it up
    /// or down to where the policy wants it now. It is to be called after
    /// the priority of that entry has changed. A handle that is not in the
    /// heap leaves the heap as it is.
    #[inline]
    pub fn update(&mut self, v: T)
        requires
            old(self).wf(),
            v.handle_spec() < u32::MAX,
        ensures
            final(self).wf(),
            final(self).policy() == old(self).policy(),
            final(self)@ == updated(old(self)@, old(self).policy(), v),
            has_handle(old(self)@, v.handle_spec()) ==> final(self)@.to_multiset() == old(
                self
            )@.update(slot_of(old(self)@, v.handle_spec()), v).to_multiset(),
            has_handle(old(self)@, v.handle_spec()) && is_total_preorder::<T, CMP>(
                old(self).policy(),
            ) && ordered_away_from(
                old(self)@.update(slot_of(old(self)@, v.handle_spec()), v),
                old(self).policy(),
                slot_of(old(self)@, v.handle_spec()),
            ) ==> final(self).is_ordered(),
    {
        let ghost before = self.heap@;
        let ghost h = v.handle_spec();
        let ghost k = slot_of(before, h);
        proof {
            lemma_indexed_facts(self.heap@, self.pos@);
            if has_handle(before, h) {
                lemma_sift_up_shape(before, self.policy@, v, k);
                lemma_updated_entries(before, self.policy@, v);
                if is_total_preorder::<T, CMP>(self.policy@) && ordered_away_from(
                    before.update(k, v),
                    self.policy@,
                    k,
                ) {
                    lemma_updated_order(before, self.policy@, v);
                }
            }
        }
        self.up(v);
        proof {
            if has_handle(before, h) {
                let mid = sift_up(before, self.policy@, v, k);
                let km = sift_up_slot(before, self.policy@, v, k);
                lemma_indexed_facts(self.heap@, self.pos@);
                assert(mid[km].handle_spec() == h);
                assert(slot_of(mid, h) == km);
            }
        }
        self.down(v);
    }

    /// Replaces the ordering policy, as when the priorities that the policy
    /// reads have changed. The entries stay where they are: for each entry
    /// that the new policy ranks otherwise than the old one did, `update`
    /// is to be called.
    #[inline]
    pub fn set_policy(&mut self, policy: Grc<CMP>)
        requires
            old(self).wf(),
        ensures
            final(self).wf(),
            final(self)@ == old(self)@,
            final(self).policy() == policy@,
    {
        self.policy = policy;
    }
}

impl<T: Handle, CMP: BinaryHeapCmp<T> + Default> Default for BinaryHeap<T, CMP> {
    /// An empty heap with the default policy.
    fn default() -> (r: Self)
        ensures
            r.wf(),
            r@ == Seq::<T>::empty(),
            r.is_ordered(),
            CMP::default.ensures((), r.policy()),
    {
        Self { heap: Gvec::new(), pos: Gvec::new(), policy: Grc::default() }
    }
}

} // verus!

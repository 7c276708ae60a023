use vstd::prelude::*;

verus! {

/// A value that names a small integer handle, by which a heap finds it again.
///
/// The heap keeps a table with one slot for every number up to the largest
/// handle it has seen, so handles should be small and dense.
pub trait Handle: Copy {
    /// The handle of the value. It exists for proofs and is never called
    /// when the program runs.
    spec fn handle_spec(self) -> u32;

    /// The handle of the value. It is the same whenever it is asked.
    fn handle(self) -> (h: u32)
        ensures
            h == self.handle_spec(),
    ;
}

impl Handle for u32 {
    open spec fn handle_spec(self) -> u32 {
        self
    }

    #[inline]
    fn handle(self) -> (h: u32) {
        self
    }
}

/// The ordering policy of a heap: `gte(s, o)` says that `s` may stand above
/// `o`. With "greater or equal" the heap hands out a maximum first, with
/// "less or equal" a minimum.
///
/// What the heap promises of its order, it promises for a policy that is a
/// total preorder (`is_total_preorder`); ties then stop an entry from moving.
pub trait BinaryHeapCmp<T> {
    /// The relation that `gte` decides. It exists for proofs and is never
    /// called when the program runs.
    spec fn gte_spec(&self, s: T, o: T) -> bool;

    /// Whether `s` may stand above `o`. The answer for a pair is the same
    /// whenever it is asked.
    fn gte(&self, s: T, o: T) -> (r: bool)
        ensures
            r == self.gte_spec(s, o),
    ;
}

/// Any two values are comparable one way or the other.
pub open spec fn is_total<T, C: BinaryHeapCmp<T>>(policy: C) -> bool {
    forall|a: T, b: T| #[trigger] policy.gte_spec(a, b) || policy.gte_spec(b, a)
}

/// What stands above what stands above a value stands above that value.
pub open spec fn is_transitive<T, C: BinaryHeapCmp<T>>(policy: C) -> bool {
    forall|a: T, b: T, c: T|
        #![trigger policy.gte_spec(a, b), policy.gte_spec(b, c)]
        policy.gte_spec(a, b) && policy.gte_spec(b, c) ==> policy.gte_spec(a, c)
}

/// The policy orders all values in one line, ties allowed.
pub open spec fn is_total_preorder<T, C: BinaryHeapCmp<T>>(policy: C) -> bool {
    is_total::<T, C>(policy) && is_transitive::<T, C>(policy)
}

/// The slot above slot `i`.
pub open spec fn parent(i: int) -> int {
    (i - 1) / 2
}

/// The entry above slot `j` may stand above the entry at `j`.
pub open spec fn edge_holds<T, C: BinaryHeapCmp<T>>(s: Seq<T>, policy: C, j: int) -> bool {
    policy.gte_spec(s[parent(j)], s[j])
}

/// The entry above slot `i` may stand above the entry at `c`, a slot below `i`.
pub open spec fn skip_edge_holds<T, C: BinaryHeapCmp<T>>(s: Seq<T>, policy: C, i: int, c: int) -> bool {
    policy.gte_spec(s[parent(i)], s[c])
}

/// Heap order: every entry but the root has an entry above it that may stand there.
pub open spec fn ordered<T, C: BinaryHeapCmp<T>>(s: Seq<T>, policy: C) -> bool {
    forall|j: int| 1 <= j < s.len() ==> #[trigger] edge_holds(s, policy, j)
}

/// Heap order holds wherever slot `i` is not involved, and the entry above
/// `i` may stand above the entries below `i`: the state of a heap in which
/// only the entry at `i` may be out of place.
pub open spec fn ordered_away_from<T, C: BinaryHeapCmp<T>>(s: Seq<T>, policy: C, i: int) -> bool {
    &&& forall|j: int|
        1 <= j < s.len() && j != i && parent(j) != i ==> #[trigger] edge_holds(s, policy, j)
    &&& forall|c: int|
        1 <= i && 1 <= c < s.len() && parent(c) == i ==> #[trigger] skip_edge_holds(s, policy, i, c)
}

/// The entry at `i` may stand above the entries below it.
pub open spec fn ordered_below<T, C: BinaryHeapCmp<T>>(s: Seq<T>, policy: C, i: int) -> bool {
    forall|c: int| 1 <= c < s.len() && parent(c) == i ==> #[trigger] edge_holds(s, policy, c)
}

/// Every entry has another handle than every other.
pub open spec fn distinct_handles<T: Handle>(s: Seq<T>) -> bool {
    forall|i: int, j: int|
        0 <= i < s.len() && 0 <= j < s.len() && i != j ==> (#[trigger] s[i]).handle_spec() != (
        #[trigger] s[j]).handle_spec()
}

/// Some entry has handle `h`.
pub open spec fn has_handle<T: Handle>(s: Seq<T>, h: u32) -> bool {
    exists|i: int| 0 <= i < s.len() && (#[trigger] s[i]).handle_spec() == h
}

/// The slot of the entry with handle `h`.
pub open spec fn slot_of<T: Handle>(s: Seq<T>, h: u32) -> int {
    choose|i: int| 0 <= i < s.len() && (#[trigger] s[i]).handle_spec() == h
}

/// The heap after `v` is put at slot `i` and moved up: while the entry above
/// may not stand above `v`, that entry comes down one level and `v` goes up.
/// A tie stops the movement.
pub open spec fn sift_up<T, C: BinaryHeapCmp<T>>(s: Seq<T>, policy: C, v: T, i: int) -> Seq<T>
    decreases i,
{
    if i <= 0 || policy.gte_spec(s[parent(i)], v) {
        s.update(i, v)
    } else {
        sift_up(s.update(i, s[parent(i)]), policy, v, parent(i))
    }
}

/// The slot at which `sift_up` leaves `v`.
pub open spec fn sift_up_slot<T, C: BinaryHeapCmp<T>>(s: Seq<T>, policy: C, v: T, i: int) -> int
    decreases i,
{
    if i <= 0 || policy.gte_spec(s[parent(i)], v) {
        i
    } else {
        sift_up_slot(s.update(i, s[parent(i)]), policy, v, parent(i))
    }
}

/// The slot below `i` whose entry goes up first: the right one if it exists
/// and may stand above the left one, else the left one.
pub open spec fn first_below<T, C: BinaryHeapCmp<T>>(s: Seq<T>, policy: C, i: int) -> int {
    if 2 * i + 2 < s.len() && policy.gte_spec(s[2 * i + 2], s[2 * i + 1]) {
        2 * i + 2
    } else {
        2 * i + 1
    }
}

/// The heap after `v` is put at slot `i` and moved down: while `v` may not
/// stand above the first entry below, that entry comes up one level and `v`
/// goes down. A tie stops the movement.
pub open spec fn sift_down<T, C: BinaryHeapCmp<T>>(s: Seq<T>, policy: C, v: T, i: int) -> Seq<T>
    decreases s.len() - i,
{
    if i < 0 || 2 * i + 1 >= s.len() || policy.gte_spec(v, s[first_below(s, policy, i)]) {
        s.update(i, v)
    } else {
        sift_down(s.update(i, s[first_below(s, policy, i)]), policy, v, first_below(s, policy, i))
    }
}

/// Where only one slot is out of place and that slot is in order with what
/// is above and below it, the whole heap is in order.
pub proof fn lemma_ordered_from_parts<T, C: BinaryHeapCmp<T>>(s: Seq<T>, policy: C, i: int)
    requires
        0 <= i < s.len(),
        ordered_away_from(s, policy, i),
        i > 0 ==> edge_holds(s, policy, i),
        ordered_below(s, policy, i),
    ensures
        ordered(s, policy),
{
}

/// A heap in order is in order away from any slot.
pub proof fn lemma_ordered_is_ordered_away<T, C: BinaryHeapCmp<T>>(s: Seq<T>, policy: C, i: int)
    requires
        ordered(s, policy),
        is_transitive::<T, C>(policy),
        0 <= i < s.len(),
    ensures
        ordered_away_from(s, policy, i),
        ordered_below(s, policy, i),
        i > 0 ==> edge_holds(s, policy, i),
{
    assert forall|c: int| 1 <= i && 1 <= c < s.len() && parent(c) == i implies #[trigger] skip_edge_holds(
        s,
        policy,
        i,
        c,
    ) by {
        assert(edge_holds(s, policy, i));
        assert(edge_holds(s, policy, c));
    }
}

/// Moving an entry up keeps the length, and leaves the entry at a slot not
/// below the one it started from.
pub proof fn lemma_sift_up_shape<T, C: BinaryHeapCmp<T>>(s: Seq<T>, policy: C, v: T, i: int)
    requires
        0 <= i < s.len(),
    ensures
        sift_up(s, policy, v, i).len() == s.len(),
        0 <= sift_up_slot(s, policy, v, i) <= i,
        sift_up(s, policy, v, i)[sift_up_slot(s, policy, v, i)] == v,
        sift_up_slot(s, policy, v, i) == i ==> sift_up(s, policy, v, i) == s.update(i, v),
        sift_up(s, policy, v, i).to_multiset() == s.update(i, v).to_multiset(),
    decreases i,
{
    broadcast use vstd::seq_lib::to_multiset_update;

    if i <= 0 || policy.gte_spec(s[parent(i)], v) {
    } else {
        let p = parent(i);
        let s1 = s.update(i, s[p]);
        lemma_sift_up_shape(s1, policy, v, p);
        let r = sift_up(s1, policy, v, p);
        assert(r.to_multiset() == s1.update(p, v).to_multiset());
        // s1.update(p, v) is s.update(i, v) with slots i and p exchanged
        let t = s.update(i, v);
        assert(s1.update(p, v) =~= t.update(i, t[p]).update(p, t[i]));
        lemma_swap_keeps_entries(t, i, p);
    }
}

/// Exchanging two entries of a sequence keeps the entries it holds.
pub proof fn lemma_swap_keeps_entries<T>(t: Seq<T>, i: int, p: int)
    requires
        0 <= i < t.len(),
        0 <= p < t.len(),
    ensures
        t.update(i, t[p]).update(p, t[i]).to_multiset() == t.to_multiset(),
{
    broadcast use vstd::seq_lib::to_multiset_update;
    broadcast use vstd::seq_lib::to_multiset_contains;

    let m = t.to_multiset();
    let t1 = t.update(i, t[p]);
    assert(t1.to_multiset() == m.insert(t[p]).remove(t[i]));
    assert(t1.update(p, t[i]).to_multiset() == t1.to_multiset().insert(t[i]).remove(t1[p]));
    assert(t.contains(t[i]));
    assert(t.contains(t[p]));
    assert(m.count(t[i]) > 0);
    assert(m.count(t[p]) > 0);
    if i == p {
        assert(t1.update(p, t[i]).to_multiset() =~= m);
    } else {
        assert(t1[p] == t[p]);
        assert(m.insert(t[p]).remove(t[i]).insert(t[i]).remove(t[p]) =~= m);
    }
}

/// Moving an entry up restores heap order above it: if only slot `i` was out
/// of place before, then afterwards only the slot where the entry came to
/// rest can be, and that slot is in order with the one above it. If the
/// entry moved at all, it is in order with the slots below it as well.
pub proof fn lemma_sift_up_order<T, C: BinaryHeapCmp<T>>(s: Seq<T>, policy: C, v: T, i: int)
    requires
        0 <= i < s.len(),
        is_total_preorder::<T, C>(policy),
        ordered_away_from(s.update(i, v), policy, i),
    ensures
        ordered_away_from(sift_up(s, policy, v, i), policy, sift_up_slot(s, policy, v, i)),
        sift_up_slot(s, policy, v, i) > 0 ==> edge_holds(
            sift_up(s, policy, v, i),
            policy,
            sift_up_slot(s, policy, v, i),
        ),
        sift_up_slot(s, policy, v, i) != i ==> ordered_below(
            sift_up(s, policy, v, i),
            policy,
            sift_up_slot(s, policy, v, i),
        ),
    decreases i,
{
    let t = s.update(i, v);
    if i <= 0 || policy.gte_spec(s[parent(i)], v) {
        if i > 0 {
            assert(t[parent(i)] == s[parent(i)]);
        }
    } else {
        let p = parent(i);
        let s1 = s.update(i, s[p]);
        let t1 = s1.update(p, v);
        assert(policy.gte_spec(v, s[p]));
        assert forall|j: int| 1 <= j < t1.len() && j != p && parent(j) != p implies #[trigger] edge_holds(
            t1,
            policy,
            j,
        ) by {
            if parent(j) == i {
                assert(skip_edge_holds(t, policy, i, j));
            } else {
                assert(edge_holds(t, policy, j));
            }
        }
        assert forall|c: int|
            1 <= p && 1 <= c < t1.len() && parent(c) == p implies #[trigger] skip_edge_holds(
            t1,
            policy,
            p,
            c,
        ) by {
            assert(edge_holds(t, policy, p));
            if c != i {
                assert(edge_holds(t, policy, c));
            }
        }
        assert(ordered_away_from(t1, policy, p));
        assert forall|c: int| 1 <= c < t1.len() && parent(c) == p implies #[trigger] edge_holds(
            t1,
            policy,
            c,
        ) by {
            if c != i {
                assert(edge_holds(t, policy, c));
            }
        }
        lemma_sift_up_order(s1, policy, v, p);
        lemma_sift_up_shape(s1, policy, v, p);
    }
}

/// Moving an entry down keeps the length and the entries.
pub proof fn lemma_sift_down_shape<T, C: BinaryHeapCmp<T>>(s: Seq<T>, policy: C, v: T, i: int)
    requires
        0 <= i < s.len(),
    ensures
        sift_down(s, policy, v, i).len() == s.len(),
        sift_down(s, policy, v, i).to_multiset() == s.update(i, v).to_multiset(),
    decreases s.len() - i,
{
    if i < 0 || 2 * i + 1 >= s.len() || policy.gte_spec(v, s[first_below(s, policy, i)]) {
    } else {
        let c = first_below(s, policy, i);
        let s1 = s.update(i, s[c]);
        lemma_sift_down_shape(s1, policy, v, c);
        let t = s.update(i, v);
        assert(s1.update(c, v) =~= t.update(i, t[c]).update(c, t[i]));
        lemma_swap_keeps_entries(t, i, c);
    }
}

/// Moving an entry down restores heap order: if only slot `i` was out of
/// place and it was in order with the slot above it, the heap is in order
/// afterwards.
pub proof fn lemma_sift_down_order<T, C: BinaryHeapCmp<T>>(s: Seq<T>, policy: C, v: T, i: int)
    requires
        0 <= i < s.len(),
        is_total_preorder::<T, C>(policy),
        ordered_away_from(s.update(i, v), policy, i),
        i > 0 ==> edge_holds(s.update(i, v), policy, i),
    ensures
        ordered(sift_down(s, policy, v, i), policy),
    decreases s.len() - i,
{
    let t = s.update(i, v);
    let c = first_below(s, policy, i);
    if 2 * i + 1 >= s.len() {
        assert(ordered_below(t, policy, i));
        lemma_ordered_from_parts(t, policy, i);
    } else if policy.gte_spec(v, s[c]) {
        assert forall|d: int| 1 <= d < t.len() && parent(d) == i implies #[trigger] edge_holds(
            t,
            policy,
            d,
        ) by {
            assert(d == 2 * i + 1 || d == 2 * i + 2);
            assert(t[d] == s[d]);
            if d != c {
                assert(policy.gte_spec(s[c], s[d]));
            }
        }
        lemma_ordered_from_parts(t, policy, i);
    } else {
        let s1 = s.update(i, s[c]);
        let t1 = s1.update(c, v);
        assert(parent(c) == i);
        assert(policy.gte_spec(s[c], v));
        assert forall|j: int| 1 <= j < t1.len() && j != c && parent(j) != c implies #[trigger] edge_holds(
            t1,
            policy,
            j,
        ) by {
            if j == i {
                assert(skip_edge_holds(t, policy, i, c));
            } else if parent(j) == i {
                assert(j == 2 * i + 1 || j == 2 * i + 2);
                assert(policy.gte_spec(s[c], s[j]));
            } else {
                assert(edge_holds(t, policy, j));
            }
        }
        assert forall|d: int|
            1 <= c && 1 <= d < t1.len() && parent(d) == c implies #[trigger] skip_edge_holds(
            t1,
            policy,
            c,
            d,
        ) by {
            assert(edge_holds(t, policy, d));
        }
        assert(edge_holds(t1, policy, c));
        lemma_sift_down_order(s1, policy, v, c);
    }
}

/// In a heap in order the root may stand above every entry.
pub proof fn lemma_root_is_max<T, C: BinaryHeapCmp<T>>(s: Seq<T>, policy: C, j: int)
    requires
        ordered(s, policy),
        is_total_preorder::<T, C>(policy),
        0 <= j < s.len(),
    ensures
        policy.gte_spec(s[0], s[j]),
    decreases j,
{
    if j == 0 {
        assert(policy.gte_spec(s[0], s[0]) || policy.gte_spec(s[0], s[0]));
    } else {
        lemma_root_is_max(s, policy, parent(j));
        assert(edge_holds(s, policy, j));
    }
}

/// A change of the policy that touches only how one entry compares with the
/// others leaves at most the slot of that entry out of place.
pub proof fn lemma_one_priority_changed<T, C: BinaryHeapCmp<T>>(
    s: Seq<T>,
    before: C,
    after: C,
    i: int,
)
    requires
        0 <= i < s.len(),
        ordered(s, before),
        is_transitive::<T, C>(before),
        forall|j: int, k: int|
            0 <= j < s.len() && 0 <= k < s.len() && j != i && k != i ==> after.gte_spec(s[j], s[k])
                == before.gte_spec(s[j], s[k]),
    ensures
        ordered_away_from(s, after, i),
{
    lemma_ordered_is_ordered_away(s, before, i);
    assert forall|j: int| 1 <= j < s.len() && j != i && parent(j) != i implies #[trigger] edge_holds(
        s,
        after,
        j,
    ) by {
        assert(edge_holds(s, before, j));
    }
    assert forall|c: int|
        1 <= i && 1 <= c < s.len() && parent(c) == i implies #[trigger] skip_edge_holds(
        s,
        after,
        i,
        c,
    ) by {
        assert(skip_edge_holds(s, before, i, c));
    }
}

/// The heap after `push(v)`: unchanged if an entry with the handle of `v`
/// is in it, else with `v` added at the end and moved up.
pub open spec fn pushed<T: Handle, C: BinaryHeapCmp<T>>(s: Seq<T>, policy: C, v: T) -> Seq<T> {
    if has_handle(s, v.handle_spec()) {
        s
    } else {
        sift_up(s.push(v), policy, v, s.len() as int)
    }
}

/// The heap after `pop()`: without its root, the last entry put in the
/// root's place and moved down.
pub open spec fn popped<T, C: BinaryHeapCmp<T>>(s: Seq<T>, policy: C) -> Seq<T> {
    if s.len() <= 1 {
        Seq::empty()
    } else {
        sift_down(s.update(0, s.last()).drop_last(), policy, s.last(), 0)
    }
}

/// The heap after `up(v)`: `v` put in place of the entry with its handle
/// and moved up; unchanged if there is no such entry.
pub open spec fn moved_up<T: Handle, C: BinaryHeapCmp<T>>(s: Seq<T>, policy: C, v: T) -> Seq<T> {
    if has_handle(s, v.handle_spec()) {
        sift_up(s, policy, v, slot_of(s, v.handle_spec()))
    } else {
        s
    }
}

/// The heap after `down(v)`: `v` put in place of the entry with its handle
/// and moved down; unchanged if there is no such entry.
pub open spec fn moved_down<T: Handle, C: BinaryHeapCmp<T>>(s: Seq<T>, policy: C, v: T) -> Seq<T> {
    if has_handle(s, v.handle_spec()) {
        sift_down(s, policy, v, slot_of(s, v.handle_spec()))
    } else {
        s
    }
}

/// The heap after `update(v)`: `v` put in place of the entry with its
/// handle, moved up and then, from where it came to rest, moved down;
/// unchanged if there is no such entry.
pub open spec fn updated<T: Handle, C: BinaryHeapCmp<T>>(s: Seq<T>, policy: C, v: T) -> Seq<T> {
    if has_handle(s, v.handle_spec()) {
        sift_down(
            sift_up(s, policy, v, slot_of(s, v.handle_spec())),
            policy,
            v,
            sift_up_slot(s, policy, v, slot_of(s, v.handle_spec())),
        )
    } else {
        s
    }
}

/// The entries in the order in which popping hands them out.
pub open spec fn drained<T, C: BinaryHeapCmp<T>>(s: Seq<T>, policy: C) -> Seq<T>
    decreases s.len(),
    via drained_decreases::<T, C>
{
    if s.len() == 0 {
        Seq::empty()
    } else {
        seq![s[0]] + drained(popped(s, policy), policy)
    }
}

#[via_fn]
proof fn drained_decreases<T, C: BinaryHeapCmp<T>>(s: Seq<T>, policy: C) {
    if s.len() >= 2 {
        lemma_sift_down_shape(s.update(0, s.last()).drop_last(), policy, s.last(), 0);
    }
}

/// Each entry of the sequence may stand above all that come after it.
pub open spec fn sorted<T, C: BinaryHeapCmp<T>>(d: Seq<T>, policy: C) -> bool {
    forall|i: int, j: int| 0 <= i < j < d.len() ==> policy.gte_spec(#[trigger] d[i], #[trigger] d[j])
}

/// A push adds the value to the entries, unless its handle is there
/// already; afterwards the handle is there.
pub proof fn lemma_pushed_entries<T: Handle, C: BinaryHeapCmp<T>>(s: Seq<T>, policy: C, v: T)
    ensures
        has_handle(pushed(s, policy, v), v.handle_spec()),
        !has_handle(s, v.handle_spec()) ==> pushed(s, policy, v).to_multiset()
            == s.to_multiset().insert(v),
        !has_handle(s, v.handle_spec()) ==> pushed(s, policy, v).len() == s.len() + 1,
{
    if !has_handle(s, v.handle_spec()) {
        let added = s.push(v);
        let at = s.len() as int;
        assert(added.update(at, v) =~= added);
        lemma_sift_up_shape(added, policy, v, at);
        vstd::seq_lib::to_multiset_build(s, v);
        let r = sift_up(added, policy, v, at);
        let k = sift_up_slot(added, policy, v, at);
        assert(r[k].handle_spec() == v.handle_spec());
    }
}

/// Pushing a value a second time changes nothing.
pub proof fn lemma_push_twice<T: Handle, C: BinaryHeapCmp<T>>(s: Seq<T>, policy: C, v: T)
    ensures
        pushed(pushed(s, policy, v), policy, v) == pushed(s, policy, v),
{
    lemma_pushed_entries(s, policy, v);
}

/// A push into an empty heap leaves the value as the only entry.
pub proof fn lemma_push_into_empty<T: Handle, C: BinaryHeapCmp<T>>(policy: C, v: T)
    ensures
        pushed(Seq::<T>::empty(), policy, v) == seq![v],
{
    let e = Seq::<T>::empty();
    assert(!has_handle(e, v.handle_spec()));
    assert(e.push(v).update(0, v) =~= seq![v]);
}

/// A push keeps a heap in order.
pub proof fn lemma_pushed_order<T: Handle, C: BinaryHeapCmp<T>>(s: Seq<T>, policy: C, v: T)
    requires
        ordered(s, policy),
        is_total_preorder::<T, C>(policy),
    ensures
        ordered(pushed(s, policy, v), policy),
{
    if !has_handle(s, v.handle_spec()) {
        let added = s.push(v);
        let at = s.len() as int;
        assert(added.update(at, v) =~= added);
        assert forall|j: int| 1 <= j < added.len() && j != at && parent(j) != at implies #[trigger] edge_holds(
            added,
            policy,
            j,
        ) by {
            assert(edge_holds(s, policy, j));
        }
        lemma_sift_up_shape(added, policy, v, at);
        lemma_sift_up_order(added, policy, v, at);
        let k = sift_up_slot(added, policy, v, at);
        let r = sift_up(added, policy, v, at);
        assert(ordered_below(r, policy, k));
        lemma_ordered_from_parts(r, policy, k);
    }
}

/// A pop takes the root out of the entries.
pub proof fn lemma_popped_entries<T, C: BinaryHeapCmp<T>>(s: Seq<T>, policy: C)
    requires
        s.len() >= 1,
    ensures
        popped(s, policy).len() == s.len() - 1,
        popped(s, policy).to_multiset() == s.to_multiset().remove(s[0]),
{
    broadcast use vstd::seq_lib::to_multiset_update;
    broadcast use vstd::seq_lib::to_multiset_contains;

    let t = s.update(0, s.last());
    let d = t.drop_last();
    let m = s.to_multiset();
    assert(t.to_multiset() == m.insert(s.last()).remove(s[0]));
    assert(t =~= d.push(s.last()));
    vstd::seq_lib::to_multiset_build(d, s.last());
    assert(s.contains(s[0]));
    assert(m.count(s[0]) > 0);
    assert forall|x: T| d.to_multiset().count(x) == m.remove(s[0]).count(x) by {
        assert(d.to_multiset().insert(s.last()).count(x) == m.insert(s.last()).remove(s[0]).count(
            x,
        ));
    }
    assert(d.to_multiset() =~= m.remove(s[0]));
    if s.len() >= 2 {
        assert(d.update(0, s.last()) =~= d);
        lemma_sift_down_shape(d, policy, s.last(), 0);
    } else {
        assert(d =~= Seq::<T>::empty());
    }
}

/// A pop keeps a heap in order, and the root it takes may stand above
/// every entry.
pub proof fn lemma_popped_order<T, C: BinaryHeapCmp<T>>(s: Seq<T>, policy: C)
    requires
        ordered(s, policy),
        is_total_preorder::<T, C>(policy),
    ensures
        ordered(popped(s, policy), policy),
        forall|j: int| 0 <= j < s.len() ==> policy.gte_spec(s[0], #[trigger] s[j]),
{
    assert forall|j: int| 0 <= j < s.len() implies policy.gte_spec(s[0], #[trigger] s[j]) by {
        lemma_root_is_max(s, policy, j);
    }
    if s.len() >= 2 {
        let rest = s.update(0, s.last()).drop_last();
        assert(rest.update(0, s.last()) =~= rest);
        assert forall|j: int| 1 <= j < rest.len() && j != 0 && parent(j) != 0 implies #[trigger] edge_holds(
            rest,
            policy,
            j,
        ) by {
            assert(edge_holds(s, policy, j));
        }
        lemma_sift_down_order(rest, policy, s.last(), 0);
    }
}

/// An update keeps the entries but for the one it replaces.
pub proof fn lemma_updated_entries<T: Handle, C: BinaryHeapCmp<T>>(s: Seq<T>, policy: C, v: T)
    requires
        has_handle(s, v.handle_spec()),
    ensures
        updated(s, policy, v).len() == s.len(),
        updated(s, policy, v).to_multiset() == s.update(
            slot_of(s, v.handle_spec()),
            v,
        ).to_multiset(),
{
    let k = slot_of(s, v.handle_spec());
    lemma_sift_up_shape(s, policy, v, k);
    let mid = sift_up(s, policy, v, k);
    let km = sift_up_slot(s, policy, v, k);
    assert(mid.update(km, v) =~= mid);
    lemma_sift_down_shape(mid, policy, v, km);
}

/// An update puts a heap in order in which at most the entry it replaces
/// was out of place.
pub proof fn lemma_updated_order<T: Handle, C: BinaryHeapCmp<T>>(s: Seq<T>, policy: C, v: T)
    requires
        has_handle(s, v.handle_spec()),
        is_total_preorder::<T, C>(policy),
        ordered_away_from(
            s.update(slot_of(s, v.handle_spec()), v),
            policy,
            slot_of(s, v.handle_spec()),
        ),
    ensures
        ordered(updated(s, policy, v), policy),
{
    let k = slot_of(s, v.handle_spec());
    lemma_sift_up_shape(s, policy, v, k);
    lemma_sift_up_order(s, policy, v, k);
    let mid = sift_up(s, policy, v, k);
    let km = sift_up_slot(s, policy, v, k);
    assert(mid.update(km, v) =~= mid);
    lemma_sift_down_order(mid, policy, v, km);
}

/// Popping a heap in order until it is empty hands the entries out sorted:
/// each may stand above all that follow.
pub proof fn lemma_drained_sorted<T, C: BinaryHeapCmp<T>>(s: Seq<T>, policy: C)
    requires
        ordered(s, policy),
        is_total_preorder::<T, C>(policy),
    ensures
        sorted(drained(s, policy), policy),
        drained(s, policy).to_multiset() == s.to_multiset(),
    decreases s.len(),
{
    broadcast use vstd::seq_lib::to_multiset_contains;

    if s.len() == 0 {
        assert(drained(s, policy) =~= s);
    } else {
        let rest = popped(s, policy);
        lemma_popped_entries(s, policy);
        lemma_popped_order(s, policy);
        lemma_drained_sorted(rest, policy);
        let tail = drained(rest, policy);
        let d = drained(s, policy);
        assert(d == seq![s[0]] + tail);
        assert(s.contains(s[0]));
        assert(d.to_multiset() =~= s.to_multiset()) by {
            assert(d =~= tail.insert(0, s[0]));
            vstd::seq_lib::to_multiset_insert(tail, 0, s[0]);
            assert(s.to_multiset().count(s[0]) > 0);
        }
        assert forall|i: int, j: int| 0 <= i < j < d.len() implies policy.gte_spec(
            #[trigger] d[i],
            #[trigger] d[j],
        ) by {
            if i == 0 {
                assert(d[j] == tail[j - 1]);
                assert(tail.contains(tail[j - 1]));
                assert(tail.to_multiset().count(d[j]) > 0);
                assert(s.to_multiset().count(d[j]) > 0);
                assert(s.contains(d[j]));
                let at = choose|at: int| 0 <= at < s.len() && s[at] == d[j];
                assert(policy.gte_spec(s[0], s[at]));
            } else {
                assert(d[i] == tail[i - 1] && d[j] == tail[j - 1]);
            }
        }
    }
}

/// After the priority of one entry has changed, whether up or down, an
/// update of that entry puts the heap in order again, so that popping it
/// until it is empty hands the entries out sorted by the new priorities.
/// The change is a change of policy that leaves alone how the other
/// entries compare with one another.
pub proof fn lemma_update_after_priority_change<T: Handle, C: BinaryHeapCmp<T>>(
    s: Seq<T>,
    before: C,
    after: C,
    i: int,
)
    requires
        0 <= i < s.len(),
        distinct_handles(s),
        ordered(s, before),
        is_transitive::<T, C>(before),
        is_total_preorder::<T, C>(after),
        forall|j: int, k: int|
            0 <= j < s.len() && 0 <= k < s.len() && j != i && k != i ==> after.gte_spec(s[j], s[k])
                == before.gte_spec(s[j], s[k]),
    ensures
        ordered(updated(s, after, s[i]), after),
        sorted(drained(updated(s, after, s[i]), after), after),
        drained(updated(s, after, s[i]), after).to_multiset() == s.to_multiset(),
{
    lemma_one_priority_changed(s, before, after, i);
    let h = s[i].handle_spec();
    assert(has_handle(s, h));
    assert(slot_of(s, h) == i);
    assert(s.update(i, s[i]) =~= s);
    lemma_updated_order(s, after, s[i]);
    lemma_updated_entries(s, after, s[i]);
    lemma_drained_sorted(updated(s, after, s[i]), after);
}

} // verus!

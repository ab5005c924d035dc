//! A vector kept sorted by a comparison callback, following an upstream
//! vector through its changes. Equal values keep their upstream order.
use vstd::prelude::*;
use crate::signals::signal_vec::{VecChange, change_fits, apply_change};

verus! {

/// The outcome of comparing two values.
#[derive(Debug, Clone, Copy, PartialEq, Eq, Structural)]
pub enum Order {
    Less,
    Equal,
    Greater,
}

/// `o` seen from the other side.
pub open spec fn reversed(o: Order) -> Order {
    match o {
        Order::Less => Order::Greater,
        Order::Equal => Order::Equal,
        Order::Greater => Order::Less,
    }
}

/// What `compare` answers for `a` and `b`.
pub open spec fn order_of<A, F: Fn(&A, &A) -> Order>(compare: F, a: A, b: A) -> Order {
    choose|o: Order| compare.ensures((&a, &b), o)
}

/// `a` may stand before `b`.
pub open spec fn not_after<A, F: Fn(&A, &A) -> Order>(compare: F, a: A, b: A) -> bool {
    order_of(compare, a, b) != Order::Greater
}

/// `compare` accepts every pair, answers each pair one way, and orders the
/// values totally: swapping its arguments reverses its answer, and
/// "not after" is transitive.
pub open spec fn total_order<A, F: Fn(&A, &A) -> Order>(compare: F) -> bool {
    &&& forall|a: A, b: A| #[trigger] compare.requires((&a, &b))
    &&& forall|a: A, b: A, o: Order| #[trigger] compare.ensures((&a, &b), o) ==> o == order_of(compare, a, b)
    &&& forall|a: A, b: A| #[trigger] order_of(compare, b, a) == reversed(order_of(compare, a, b))
    &&& forall|a: A, b: A, c: A|
        #![trigger order_of(compare, a, b), order_of(compare, b, c)]
        not_after(compare, a, b) && not_after(compare, b, c) ==> not_after(compare, a, c)
}

/// The upstream entry `i` comes before the entry `j` in sorted order: its
/// value compares less, or equal with an earlier position.
pub open spec fn key_before<A, F: Fn(&A, &A) -> Order>(compare: F, vals: Seq<A>, i: usize, j: usize) -> bool {
    match order_of(compare, vals[i as int], vals[j as int]) {
        Order::Less => true,
        Order::Equal => i < j,
        Order::Greater => false,
    }
}

/// `ix` lists upstream positions in strictly increasing sorted order.
pub open spec fn sorted_by<A, F: Fn(&A, &A) -> Order>(compare: F, vals: Seq<A>, ix: Seq<usize>) -> bool {
    forall|a: int, b: int| 0 <= a < b < ix.len() ==> key_before(compare, vals, #[trigger] ix[a], #[trigger] ix[b])
}

/// Every entry of `ix` is a position of `vals`.
pub open spec fn within(ix: Seq<usize>, n: nat) -> bool {
    forall|a: int| 0 <= a < ix.len() ==> #[trigger] ix[a] < n
}

/// `ix` is the sorting permutation of `vals`: every position once, in
/// sorted order.
pub open spec fn sorts<A, F: Fn(&A, &A) -> Order>(compare: F, vals: Seq<A>, ix: Seq<usize>) -> bool {
    &&& ix.len() == vals.len()
    &&& within(ix, vals.len())
    &&& sorted_by(compare, vals, ix)
}

/// The values of `vals` in the order that `ix` gives.
pub open spec fn arranged<A>(vals: Seq<A>, ix: Seq<usize>) -> Seq<A> {
    ix.map_values(|i: usize| vals[i as int])
}

proof fn lemma_order_facts<A, F: Fn(&A, &A) -> Order>(compare: F, a: A, b: A, c: A)
    requires
        total_order(compare),
    ensures
        order_of(compare, a, a) == Order::Equal,
        order_of(compare, b, a) == reversed(order_of(compare, a, b)),
        not_after(compare, a, b) && not_after(compare, b, c) ==> not_after(compare, a, c),
{
    assert(order_of(compare, a, a) == reversed(order_of(compare, a, a)));
    assert(order_of(compare, b, a) == reversed(order_of(compare, a, b)));
}

/// The sorted order of entries is a strict total order.
proof fn lemma_key_order<A, F: Fn(&A, &A) -> Order>(compare: F, vals: Seq<A>, i: usize, j: usize, k: usize)
    requires
        total_order(compare),
    ensures
        !key_before(compare, vals, i, i),
        i != j ==> (key_before(compare, vals, i, j) <==> !key_before(compare, vals, j, i)),
        key_before(compare, vals, i, j) && key_before(compare, vals, j, k) ==> key_before(compare, vals, i, k),
{
    let (a, b, c) = (vals[i as int], vals[j as int], vals[k as int]);
    lemma_order_facts(compare, a, b, c);
    lemma_order_facts(compare, b, c, a);
    lemma_order_facts(compare, c, a, b);
    lemma_order_facts(compare, a, c, b);
}

/// Compares the upstream entries `i` and `j` in sorted order.
fn key_less<A, F: Fn(&A, &A) -> Order>(compare: &F, vals: &Vec<A>, i: usize, j: usize) -> (r: bool)
    requires
        total_order(*compare),
        i < vals.len(),
        j < vals.len(),
    ensures
        r == key_before(*compare, vals@, i, j),
{
    let o = compare(&vals[i], &vals[j]);
    match o {
        Order::Less => true,
        Order::Equal => i < j,
        Order::Greater => false,
    }
}

/// The place of the entry `target` among the sorted entries `ix`: every
/// entry before it comes before `target`, no entry from it on does.
fn search<A, F: Fn(&A, &A) -> Order>(compare: &F, vals: &Vec<A>, ix: &Vec<usize>, target: usize) -> (p: usize)
    requires
        total_order(*compare),
        sorted_by(*compare, vals@, ix@),
        within(ix@, vals@.len()),
        target < vals.len(),
    ensures
        p <= ix.len(),
        forall|q: int| 0 <= q < p ==> key_before(*compare, vals@, #[trigger] ix@[q], target),
        forall|q: int| p <= q < ix.len() ==> !key_before(*compare, vals@, #[trigger] ix@[q], target),
{
    let mut lo: usize = 0;
    let mut hi: usize = ix.len();
    while lo < hi
        invariant
            total_order(*compare),
            sorted_by(*compare, vals@, ix@),
            within(ix@, vals@.len()),
            target < vals.len(),
            lo <= hi <= ix.len(),
            forall|q: int| 0 <= q < lo ==> key_before(*compare, vals@, #[trigger] ix@[q], target),
            forall|q: int| hi <= q < ix.len() ==> !key_before(*compare, vals@, #[trigger] ix@[q], target),
        decreases hi - lo,
    {
        let mid = lo + (hi - lo) / 2;
        let m = ix[mid];
        if key_less(compare, vals, m, target) {
            assert forall|q: int| 0 <= q < mid + 1 implies key_before(*compare, vals@, #[trigger] ix@[q], target) by {
                if q < mid {
                    lemma_key_order(*compare, vals@, ix@[q], m, target);
                }
            }
            lo = mid + 1;
        } else {
            assert forall|q: int| mid <= q < ix.len() implies !key_before(*compare, vals@, #[trigger] ix@[q], target) by {
                if q > mid {
                    lemma_key_order(*compare, vals@, m, ix@[q], target);
                }
            }
            hi = mid;
        }
    }
    lo
}

/// `ix` with every position from `start` on moved one up.
pub open spec fn shift_up(ix: Seq<usize>, start: usize) -> Seq<usize> {
    ix.map_values(|i: usize| if i >= start { (i + 1) as usize } else { i })
}

/// `ix` with every position after `start` moved one down.
pub open spec fn shift_down(ix: Seq<usize>, start: usize) -> Seq<usize> {
    ix.map_values(|i: usize| if i > start { (i - 1) as usize } else { i })
}

/// Moves up every entry from `start` on: the positions after an insertion
/// at `start`.
fn increment_indexes(ix: &mut Vec<usize>, start: usize)
    requires
        forall|a: int| 0 <= a < old(ix)@.len() ==> #[trigger] old(ix)@[a] < usize::MAX,
    ensures
        final(ix)@ == shift_up(old(ix)@, start),
{
    let ghost orig = ix@;
    let mut k: usize = 0;
    while k < ix.len()
        invariant
            ix@.len() == orig.len(),
            k <= ix@.len(),
            forall|a: int| 0 <= a < orig.len() ==> #[trigger] orig[a] < usize::MAX,
            forall|a: int| 0 <= a < k ==> #[trigger] ix@[a] == shift_up(orig, start)[a],
            forall|a: int| k <= a < ix@.len() ==> #[trigger] ix@[a] == orig[a],
        decreases ix@.len() - k,
    {
        let i = ix[k];
        if i >= start {
            ix.set(k, i + 1);
        }
        k = k + 1;
    }
    assert(ix@ =~= shift_up(orig, start));
}

/// Moves down every entry after `start`: the positions after a removal at
/// `start`.
fn decrement_indexes(ix: &mut Vec<usize>, start: usize)
    ensures
        final(ix)@ == shift_down(old(ix)@, start),
{
    let ghost orig = ix@;
    let mut k: usize = 0;
    while k < ix.len()
        invariant
            ix@.len() == orig.len(),
            k <= ix@.len(),
            forall|a: int| 0 <= a < k ==> #[trigger] ix@[a] == shift_down(orig, start)[a],
            forall|a: int| k <= a < ix@.len() ==> #[trigger] ix@[a] == orig[a],
        decreases ix@.len() - k,
    {
        let i = ix[k];
        if i > start {
            ix.set(k, i - 1);
        }
        k = k + 1;
    }
    assert(ix@ =~= shift_down(orig, start));
}

/// Sorted entries are distinct.
proof fn lemma_sorted_distinct<A, F: Fn(&A, &A) -> Order>(compare: F, vals: Seq<A>, ix: Seq<usize>)
    requires
        total_order(compare),
        sorted_by(compare, vals, ix),
    ensures
        ix.no_duplicates(),
{
    assert forall|a: int, b: int| 0 <= a < ix.len() && 0 <= b < ix.len() && a != b implies ix[a] != ix[b] by {
        lemma_key_order(compare, vals, ix[a], ix[a], ix[a]);
        if a > b {
            assert(key_before(compare, vals, ix[b], ix[a]));
        } else {
            assert(key_before(compare, vals, ix[a], ix[b]));
        }
    }
}

/// The positions below `n`, as a set.
spec fn below(n: nat) -> Set<usize> {
    Set::new(|k: usize| k < n)
}

proof fn lemma_below(n: nat)
    requires
        n <= usize::MAX + 1,
    ensures
        below(n).finite(),
        below(n).len() == n,
    decreases n,
{
    if n == 0 {
        assert(below(n) =~= Set::empty());
    } else {
        lemma_below((n - 1) as nat);
        assert(below((n - 1) as nat).insert((n - 1) as usize) =~= below(n));
    }
}

/// A sorting permutation holds every position.
proof fn lemma_covers<A, F: Fn(&A, &A) -> Order>(compare: F, vals: Seq<A>, ix: Seq<usize>, k: usize)
    requires
        total_order(compare),
        sorts(compare, vals, ix),
        k < vals.len(),
        vals.len() <= usize::MAX,
    ensures
        ix.contains(k),
{
    broadcast use vstd::set::group_set_axioms, vstd::seq_lib::seq_to_set_is_finite;
    lemma_sorted_distinct(compare, vals, ix);
    ix.unique_seq_to_set();
    lemma_below(ix.len());
    assert(ix.to_set().subset_of(below(ix.len())));
    vstd::set_lib::lemma_subset_equality(ix.to_set(), below(ix.len()));
    assert(below(ix.len()).contains(k));
    assert(ix.to_set().contains(k));
}

/// Where the entry `target` is among sorted entries that hold it, the search
/// lands on it.
proof fn lemma_found<A, F: Fn(&A, &A) -> Order>(compare: F, vals: Seq<A>, ix: Seq<usize>, target: usize, p: int)
    requires
        total_order(compare),
        sorted_by(compare, vals, ix),
        ix.contains(target),
        0 <= p <= ix.len(),
        forall|q: int| 0 <= q < p ==> key_before(compare, vals, #[trigger] ix[q], target),
        forall|q: int| p <= q < ix.len() ==> !key_before(compare, vals, #[trigger] ix[q], target),
    ensures
        p < ix.len(),
        ix[p] == target,
{
    let r = choose|r: int| 0 <= r < ix.len() && ix[r] == target;
    lemma_key_order(compare, vals, target, target, target);
    if r != p {
        assert(key_before(compare, vals, ix[p], ix[r]));
    }
}

/// Moving positions up for an insertion at `start` keeps the order and the
/// arranged values.
proof fn lemma_shift_up<A, F: Fn(&A, &A) -> Order>(compare: F, vals: Seq<A>, ix: Seq<usize>, start: usize, v: A)
    requires
        sorted_by(compare, vals, ix),
        within(ix, vals.len()),
        start <= vals.len(),
        vals.len() < usize::MAX,
    ensures
        sorted_by(compare, vals.insert(start as int, v), shift_up(ix, start)),
        within(shift_up(ix, start), vals.len() + 1),
        forall|a: int| 0 <= a < ix.len() ==> #[trigger] shift_up(ix, start)[a] != start,
        arranged(vals.insert(start as int, v), shift_up(ix, start)) == arranged(vals, ix),
{
    let nv = vals.insert(start as int, v);
    let nx = shift_up(ix, start);
    assert forall|a: int| 0 <= a < ix.len() implies #[trigger] nv[nx[a] as int] == vals[ix[a] as int] by {}
    assert forall|a: int, b: int| 0 <= a < b < nx.len() implies key_before(compare, nv, #[trigger] nx[a], #[trigger] nx[b]) by {
        assert(key_before(compare, vals, ix[a], ix[b]));
        assert(nv[nx[a] as int] == vals[ix[a] as int]);
        assert(nv[nx[b] as int] == vals[ix[b] as int]);
    }
    assert(arranged(nv, nx) =~= arranged(vals, ix));
}

/// Moving positions down after a removal at `start` (no longer listed)
/// keeps the order and the arranged values.
proof fn lemma_shift_down<A, F: Fn(&A, &A) -> Order>(compare: F, vals: Seq<A>, ix: Seq<usize>, start: usize)
    requires
        sorted_by(compare, vals, ix),
        within(ix, vals.len()),
        start < vals.len(),
        forall|a: int| 0 <= a < ix.len() ==> #[trigger] ix[a] != start,
    ensures
        sorted_by(compare, vals.remove(start as int), shift_down(ix, start)),
        within(shift_down(ix, start), (vals.len() - 1) as nat),
        arranged(vals.remove(start as int), shift_down(ix, start)) == arranged(vals, ix),
{
    let nv = vals.remove(start as int);
    let nx = shift_down(ix, start);
    assert forall|a: int| 0 <= a < ix.len() implies #[trigger] nv[nx[a] as int] == vals[ix[a] as int] by {}
    assert forall|a: int, b: int| 0 <= a < b < nx.len() implies key_before(compare, nv, #[trigger] nx[a], #[trigger] nx[b]) by {
        assert(key_before(compare, vals, ix[a], ix[b]));
        assert(nv[nx[a] as int] == vals[ix[a] as int]);
        assert(nv[nx[b] as int] == vals[ix[b] as int]);
    }
    assert(arranged(nv, nx) =~= arranged(vals, ix));
}

/// Entries that do not list `index` keep their order and arranged values
/// when the value at `index` changes.
proof fn lemma_update_other<A, F: Fn(&A, &A) -> Order>(compare: F, vals: Seq<A>, ix: Seq<usize>, index: usize, v: A)
    requires
        sorted_by(compare, vals, ix),
        within(ix, vals.len()),
        index < vals.len(),
        forall|a: int| 0 <= a < ix.len() ==> #[trigger] ix[a] != index,
    ensures
        sorted_by(compare, vals.update(index as int, v), ix),
        arranged(vals.update(index as int, v), ix) == arranged(vals, ix),
{
    let nv = vals.update(index as int, v);
    assert forall|a: int, b: int| 0 <= a < b < ix.len() implies key_before(compare, nv, #[trigger] ix[a], #[trigger] ix[b]) by {
        assert(key_before(compare, vals, ix[a], ix[b]));
    }
    assert(arranged(nv, ix) =~= arranged(vals, ix));
}

/// Putting the entry `target` at the place the search gave keeps the order.
proof fn lemma_place<A, F: Fn(&A, &A) -> Order>(compare: F, vals: Seq<A>, ix: Seq<usize>, target: usize, p: int)
    requires
        total_order(compare),
        sorted_by(compare, vals, ix),
        within(ix, vals.len()),
        target < vals.len(),
        forall|a: int| 0 <= a < ix.len() ==> #[trigger] ix[a] != target,
        0 <= p <= ix.len(),
        forall|q: int| 0 <= q < p ==> key_before(compare, vals, #[trigger] ix[q], target),
        forall|q: int| p <= q < ix.len() ==> !key_before(compare, vals, #[trigger] ix[q], target),
    ensures
        sorted_by(compare, vals, ix.insert(p, target)),
        within(ix.insert(p, target), vals.len()),
        arranged(vals, ix.insert(p, target)) == arranged(vals, ix).insert(p, vals[target as int]),
{
    let nx = ix.insert(p, target);
    assert forall|a: int, b: int| 0 <= a < b < nx.len() implies key_before(compare, vals, #[trigger] nx[a], #[trigger] nx[b]) by {
        if a < p && b < p {
        } else if a < p && b == p {
        } else if a < p {
            assert(key_before(compare, vals, ix[b - 1], ix[a]) == false) by {
                lemma_key_order(compare, vals, ix[a], ix[b - 1], ix[a]);
            }
        } else if a == p {
            lemma_key_order(compare, vals, target, ix[b - 1], target);
        } else {
        }
    }
    assert(arranged(vals, nx) =~= arranged(vals, ix).insert(p, vals[target as int]));
}

/// `v` after the change `c`, whose values are positions of `vals`.
pub open spec fn apply_resolved<A>(v: Seq<A>, c: VecChange<usize>, vals: Seq<A>) -> Seq<A> {
    match c {
        VecChange::Replace { values } => arranged(vals, values@),
        VecChange::InsertAt { index, value } => v.insert(index as int, vals[value as int]),
        VecChange::UpdateAt { index, value } => v.update(index as int, vals[value as int]),
        VecChange::RemoveAt { index } => v.remove(index as int),
        VecChange::Push { value } => v.push(vals[value as int]),
        VecChange::Pop {} => v.drop_last(),
        VecChange::Clear {} => Seq::empty(),
    }
}

/// `v` after the change `c` where there is one.
pub open spec fn apply_resolved_opt<A>(v: Seq<A>, c: Option<VecChange<usize>>, vals: Seq<A>) -> Seq<A> {
    match c {
        Some(c) => apply_resolved(v, c, vals),
        None => v,
    }
}

/// Where the entry `k` stands in `ix`.
pub open spec fn place_of(ix: Seq<usize>, k: usize) -> int {
    choose|p: int| 0 <= p < ix.len() && ix[p] == k
}

/// The change that brings in the entry at place `p` of `ix`, the sorted
/// entries after it came in: a push where it is last.
pub open spec fn placed_change(ix: Seq<usize>, p: int) -> VecChange<usize> {
    if p == ix.len() - 1 {
        VecChange::Push { value: ix[p] }
    } else {
        VecChange::InsertAt { index: p as usize, value: ix[p] }
    }
}

/// The change that takes out place `p` of `len` sorted entries: a pop where
/// it is the last.
pub open spec fn lifted_change(len: nat, p: int) -> VecChange<usize> {
    if p == len - 1 {
        VecChange::Pop {}
    } else {
        VecChange::RemoveAt { index: p as usize }
    }
}

proof fn lemma_place_of(ix: Seq<usize>, k: usize, p: int)
    requires
        ix.no_duplicates(),
        0 <= p < ix.len(),
        ix[p] == k,
    ensures
        place_of(ix, k) == p,
{
}

/// Puts the entry `index` at place `p` of the sorted entries.
fn place(ix: &mut Vec<usize>, p: usize, index: usize) -> (c: VecChange<usize>)
    requires
        p <= old(ix)@.len(),
    ensures
        final(ix)@ == old(ix)@.insert(p as int, index),
        c == placed_change(final(ix)@, p as int),
{
    if p == ix.len() {
        ix.push(index);
        assert(ix@ =~= old(ix)@.insert(p as int, index));
        VecChange::Push { value: index }
    } else {
        ix.insert(p, index);
        VecChange::InsertAt { index: p, value: index }
    }
}

/// Takes out place `p` of the sorted entries.
fn lift(ix: &mut Vec<usize>, p: usize) -> (c: VecChange<usize>)
    requires
        p < old(ix)@.len(),
    ensures
        final(ix)@ == old(ix)@.remove(p as int),
        c == lifted_change(old(ix)@.len(), p as int),
{
    if p == ix.len() - 1 {
        ix.pop();
        assert(ix@ =~= old(ix)@.remove(p as int));
        VecChange::Pop {}
    } else {
        ix.remove(p);
        VecChange::RemoveAt { index: p }
    }
}

/// The sorting permutation of `vals`, built by placing one entry after
/// another.
fn sort_positions<A, F: Fn(&A, &A) -> Order>(compare: &F, vals: &Vec<A>) -> (ix: Vec<usize>)
    requires
        total_order(*compare),
    ensures
        sorts(*compare, vals@, ix@),
{
    let mut ix: Vec<usize> = Vec::new();
    let mut i: usize = 0;
    while i < vals.len()
        invariant
            total_order(*compare),
            i <= vals.len(),
            ix@.len() == i,
            within(ix@, i as nat),
            sorted_by(*compare, vals@, ix@),
        decreases vals.len() - i,
    {
        let p = search(compare, vals, &ix, i);
        proof {
            lemma_place(*compare, vals@, ix@, i, p as int);
        }
        let ghost before = ix@;
        let _ = place(&mut ix, p, i);
        assert forall|a: int| 0 <= a < ix@.len() implies #[trigger] ix@[a] < i + 1 by {
            if a < p {
                assert(ix@[a] == before[a]);
            } else if a > p {
                assert(ix@[a] == before[a - 1]);
            }
        }
        i = i + 1;
    }
    ix
}

/// A vector kept sorted by `compare`: the upstream values, the sorting
/// permutation of their positions, and the second half of a move that is
/// still to be handed out.
pub struct SortBy<A, F> {
    pending: Option<VecChange<usize>>,
    values: Vec<A>,
    indexes: Vec<usize>,
    compare: F,
}

impl<A, F: Fn(&A, &A) -> Order> SortBy<A, F> {
    /// The upstream values.
    pub closed spec fn values(&self) -> Seq<A> {
        self.values@
    }

    /// The upstream positions in sorted order.
    pub closed spec fn indexes(&self) -> Seq<usize> {
        self.indexes@
    }

    /// The change still to be handed out.
    pub closed spec fn pending(&self) -> Option<VecChange<usize>> {
        self.pending
    }

    /// The comparison callback.
    pub closed spec fn compare(&self) -> F {
        self.compare
    }

    /// The callback orders totally and the positions sort the values.
    pub open spec fn wf(&self) -> bool {
        &&& total_order(self.compare())
        &&& sorts(self.compare(), self.values(), self.indexes())
    }

    /// The sorted vector.
    pub open spec fn sorted(&self) -> Seq<A> {
        arranged(self.values(), self.indexes())
    }

    /// An empty vector sorted by `compare`.
    pub fn new(compare: F) -> (r: Self)
        requires
            total_order(compare),
        ensures
            r.wf(),
            r.compare() == compare,
            r.values() == Seq::<A>::empty(),
            r.pending() is None,
    {
        SortBy { pending: None, values: Vec::new(), indexes: Vec::new(), compare }
    }

    /// Hands out the change still to be handed out, if any.
    pub fn take_pending(&mut self) -> (r: Option<VecChange<usize>>)
        ensures
            r == old(self).pending(),
            final(self).pending() is None,
            final(self).values() == old(self).values(),
            final(self).indexes() == old(self).indexes(),
            final(self).compare() == old(self).compare(),
    {
        self.pending.take()
    }

    /// How many upstream values there are.
    pub fn len(&self) -> (r: usize)
        ensures
            r == self.values().len(),
    {
        self.values.len()
    }

    /// The upstream value at `index`.
    pub fn value(&self, index: usize) -> (r: &A)
        requires
            index < self.values().len(),
        ensures
            *r == self.values()[index as int],
    {
        &self.values[index]
    }

    /// Follows one upstream change and returns the change of the sorted
    /// vector, whose values are upstream positions. Where a changed value
    /// moves, the change takes it out and the pending change brings it in at
    /// its new place.
    pub fn process_change(&mut self, change: VecChange<A>) -> (out: VecChange<usize>)
        requires
            old(self).wf(),
            old(self).pending() is None,
            change_fits(change, old(self).values().len()),
            (change is InsertAt || change is Push) ==> old(self).values().len() < usize::MAX,
        ensures
            final(self).wf(),
            final(self).compare() == old(self).compare(),
            final(self).values() == apply_change(old(self).values(), change),
            apply_resolved_opt(
                apply_resolved(old(self).sorted(), out, final(self).values()),
                final(self).pending(),
                final(self).values(),
            ) == final(self).sorted(),
            match change {
                VecChange::Replace { .. } => (out matches VecChange::Replace { values } && values@ == final(self).indexes())
                    && final(self).pending() is None,
                VecChange::InsertAt { index, .. } => out == placed_change(final(self).indexes(), place_of(final(self).indexes(), index))
                    && final(self).pending() is None,
                VecChange::Push { .. } => out == placed_change(final(self).indexes(), place_of(final(self).indexes(), (final(self).values().len() - 1) as usize))
                    && final(self).pending() is None,
                VecChange::UpdateAt { index, .. } => if place_of(old(self).indexes(), index) == place_of(final(self).indexes(), index) {
                    out == (VecChange::UpdateAt { index: place_of(final(self).indexes(), index) as usize, value: index })
                        && final(self).pending() is None
                } else {
                    out == lifted_change(old(self).values().len(), place_of(old(self).indexes(), index))
                        && final(self).pending() == Some(placed_change(final(self).indexes(), place_of(final(self).indexes(), index)))
                },
                VecChange::RemoveAt { index } => out == lifted_change(old(self).values().len(), place_of(old(self).indexes(), index))
                    && final(self).pending() is None,
                VecChange::Pop {} => out == lifted_change(old(self).values().len(), place_of(old(self).indexes(), (old(self).values().len() - 1) as usize))
                    && final(self).pending() is None,
                VecChange::Clear {} => out == VecChange::<usize>::Clear {} && final(self).pending() is None,
            },
    {
        let ghost old_sorted = self.sorted();
        let ghost old_vals = self.values@;
        let ghost old_ix = self.indexes@;
        match change {
            VecChange::Replace { values } => {
                let ix = sort_positions(&self.compare, &values);
                let mut copy: Vec<usize> = Vec::new();
                let mut k: usize = 0;
                while k < ix.len()
                    invariant
                        k <= ix@.len(),
                        copy@ == ix@.take(k as int),
                    decreases ix@.len() - k,
                {
                    copy.push(ix[k]);
                    k = k + 1;
                    assert(copy@ =~= ix@.take(k as int));
                }
                assert(copy@ =~= ix@);
                self.values = values;
                self.indexes = ix;
                VecChange::Replace { values: copy }
            },
            VecChange::InsertAt { index, value } => {
                self.values.insert(index, value);
                proof {
                    lemma_shift_up(self.compare, old_vals, old_ix, index, value);
                }
                increment_indexes(&mut self.indexes, index);
                self.bring_in(index)
            },
            VecChange::Push { value } => {
                let index = self.values.len();
                self.values.push(value);
                proof {
                    lemma_shift_up(self.compare, old_vals, old_ix, index, value);
                    assert(old_vals.insert(index as int, value) =~= old_vals.push(value));
                    assert(shift_up(old_ix, index) =~= old_ix);
                }
                self.bring_in(index)
            },
            VecChange::UpdateAt { index, value } => {
                let _n = self.values.len();
                proof {
                    lemma_covers(self.compare, old_vals, old_ix, index);
                }
                let old_pos = search(&self.compare, &self.values, &self.indexes, index);
                proof {
                    lemma_found(self.compare, old_vals, old_ix, index, old_pos as int);
                    lemma_sorted_distinct(self.compare, old_vals, old_ix);
                    lemma_place_of(old_ix, index, old_pos as int);
                }
                let lifted = lift(&mut self.indexes, old_pos);
                proof {
                    lemma_update_other(self.compare, old_vals, self.indexes@, index, value);
                }
                self.values.set(index, value);
                let new_pos = search(&self.compare, &self.values, &self.indexes, index);
                proof {
                    lemma_place(self.compare, self.values@, self.indexes@, index, new_pos as int);
                }
                let ghost mid = arranged(self.values@, self.indexes@);
                if old_pos == new_pos {
                    self.indexes.insert(new_pos, index);
                    proof {
                        lemma_sorted_distinct(self.compare, self.values@, self.indexes@);
                        lemma_place_of(self.indexes@, index, new_pos as int);
                        assert(mid =~= old_sorted.remove(old_pos as int));
                        assert(mid.insert(new_pos as int, value) =~= old_sorted.update(new_pos as int, value));
                    }
                    VecChange::UpdateAt { index: new_pos, value: index }
                } else {
                    let placed = place(&mut self.indexes, new_pos, index);
                    proof {
                        lemma_sorted_distinct(self.compare, self.values@, self.indexes@);
                        lemma_place_of(self.indexes@, index, new_pos as int);
                        assert(mid =~= old_sorted.remove(old_pos as int));
                        assert(old_sorted.remove(old_pos as int) =~= apply_resolved(old_sorted, lifted, self.values@));
                        assert(mid.insert(mid.len() as int, value) =~= mid.push(value));
                    }
                    self.pending = Some(placed);
                    lifted
                }
            },
            VecChange::RemoveAt { index } => {
                let _n = self.values.len();
                proof {
                    lemma_covers(self.compare, old_vals, old_ix, index);
                }
                let pos = search(&self.compare, &self.values, &self.indexes, index);
                proof {
                    lemma_found(self.compare, old_vals, old_ix, index, pos as int);
                    lemma_sorted_distinct(self.compare, old_vals, old_ix);
                    lemma_place_of(old_ix, index, pos as int);
                }
                self.values.remove(index);
                decrement_indexes(&mut self.indexes, index);
                let out = lift(&mut self.indexes, pos);
                proof {
                    let rest = old_ix.remove(pos as int);
                    assert(shift_down(old_ix, index).remove(pos as int) =~= shift_down(rest, index));
                    lemma_shift_down(self.compare, old_vals, rest, index);
                    assert(arranged(old_vals, rest) =~= old_sorted.remove(pos as int));
                    assert(old_sorted.remove(pos as int) =~= apply_resolved(old_sorted, out, self.values@));
                }
                out
            },
            VecChange::Pop {} => {
                let index = self.values.len() - 1;
                proof {
                    lemma_covers(self.compare, old_vals, old_ix, index);
                }
                let pos = search(&self.compare, &self.values, &self.indexes, index);
                proof {
                    lemma_found(self.compare, old_vals, old_ix, index, pos as int);
                    lemma_sorted_distinct(self.compare, old_vals, old_ix);
                    lemma_place_of(old_ix, index, pos as int);
                }
                self.values.pop();
                let out = lift(&mut self.indexes, pos);
                proof {
                    let rest = old_ix.remove(pos as int);
                    lemma_shift_down(self.compare, old_vals, rest, index);
                    assert(shift_down(rest, index) =~= rest);
                    assert(old_vals.remove(index as int) =~= old_vals.drop_last());
                    assert(arranged(old_vals, rest) =~= old_sorted.remove(pos as int));
                    assert(old_sorted.remove(pos as int) =~= apply_resolved(old_sorted, out, self.values@));
                }
                out
            },
            VecChange::Clear {} => {
                self.values = Vec::new();
                self.indexes = Vec::new();
                proof {
                    assert(arranged(self.values@, self.indexes@) =~= Seq::<A>::empty());
                }
                VecChange::Clear {}
            },
        }
    }

    /// Brings in the upstream entry `index`, already among the values and
    /// not yet among the sorted positions.
    fn bring_in(&mut self, index: usize) -> (c: VecChange<usize>)
        requires
            total_order(old(self).compare()),
            sorted_by(old(self).compare(), old(self).values(), old(self).indexes()),
            within(old(self).indexes(), old(self).values().len()),
            old(self).indexes().len() + 1 == old(self).values().len(),
            index < old(self).values().len(),
            forall|a: int| 0 <= a < old(self).indexes().len() ==> #[trigger] old(self).indexes()[a] != index,
        ensures
            final(self).wf(),
            final(self).values() == old(self).values(),
            final(self).compare() == old(self).compare(),
            final(self).pending() == old(self).pending(),
            c == placed_change(final(self).indexes(), place_of(final(self).indexes(), index)),
            apply_resolved(arranged(old(self).values(), old(self).indexes()), c, final(self).values()) == final(self).sorted(),
    {
        let p = search(&self.compare, &self.values, &self.indexes, index);
        proof {
            lemma_place(self.compare, self.values@, self.indexes@, index, p as int);
        }
        let ghost before = arranged(self.values@, self.indexes@);
        let c = place(&mut self.indexes, p, index);
        proof {
            lemma_sorted_distinct(self.compare, self.values@, self.indexes@);
            lemma_place_of(self.indexes@, index, p as int);
            assert(before.insert(before.len() as int, self.values@[index as int]) =~= before.push(self.values@[index as int]));
        }
        c
    }
}

/// `r` is `c` with every upstream position replaced by a clone of the value
/// of `vals` there.
pub open spec fn resolved_by<A: Clone>(c: VecChange<usize>, r: VecChange<A>, vals: Seq<A>) -> bool {
    match (c, r) {
        (VecChange::Replace { values: ia }, VecChange::Replace { values: xb }) => {
            &&& ia@.len() == xb@.len()
            &&& forall|i: int| 0 <= i < ia@.len() ==> cloned(vals[#[trigger] ia@[i] as int], xb@[i])
        },
        (VecChange::InsertAt { index: ia, value: va }, VecChange::InsertAt { index: ib, value: xb }) =>
            ia == ib && cloned(vals[va as int], xb),
        (VecChange::UpdateAt { index: ia, value: va }, VecChange::UpdateAt { index: ib, value: xb }) =>
            ia == ib && cloned(vals[va as int], xb),
        (VecChange::RemoveAt { index: ia }, VecChange::RemoveAt { index: ib }) => ia == ib,
        (VecChange::Push { value: va }, VecChange::Push { value: xb }) => cloned(vals[va as int], xb),
        (VecChange::Pop {}, VecChange::Pop {}) => true,
        (VecChange::Clear {}, VecChange::Clear {}) => true,
        _ => false,
    }
}

/// Every upstream position that `c` carries is one of `n`.
pub open spec fn carries_within(c: VecChange<usize>, n: nat) -> bool {
    match c {
        VecChange::Replace { values } => within(values@, n),
        VecChange::InsertAt { value, .. } => value < n,
        VecChange::UpdateAt { value, .. } => value < n,
        VecChange::Push { value } => value < n,
        _ => true,
    }
}

/// The change that brings in the upstream entry `k` at its sorted place
/// carries only upstream positions.
pub proof fn lemma_placed_within<A, F: Fn(&A, &A) -> Order>(s: SortBy<A, F>, k: usize)
    requires
        s.wf(),
        k < s.values().len(),
        s.values().len() <= usize::MAX,
    ensures
        0 <= place_of(s.indexes(), k) < s.indexes().len(),
        carries_within(placed_change(s.indexes(), place_of(s.indexes(), k)), s.values().len()),
{
    lemma_covers(s.compare(), s.values(), s.indexes(), k);
}

impl<A: Clone, F: Fn(&A, &A) -> Order> SortBy<A, F> {
    /// The change `c` with its upstream positions replaced by clones of the
    /// values there.
    pub fn resolve(&self, c: &VecChange<usize>) -> (r: VecChange<A>)
        requires
            carries_within(*c, self.values().len()),
        ensures
            resolved_by(*c, r, self.values()),
    {
        match c {
            VecChange::Replace { values } => {
                let mut out: Vec<A> = Vec::new();
                let mut k: usize = 0;
                while k < values.len()
                    invariant
                        k <= values@.len(),
                        out@.len() == k,
                        within(values@, self.values().len()),
                        forall|i: int| 0 <= i < k ==> cloned(self.values()[#[trigger] values@[i] as int], out@[i]),
                    decreases values@.len() - k,
                {
                    let v = self.values[values[k]].clone();
                    out.push(v);
                    k = k + 1;
                }
                VecChange::Replace { values: out }
            },
            VecChange::InsertAt { index, value } => VecChange::InsertAt { index: *index, value: self.values[*value].clone() },
            VecChange::UpdateAt { index, value } => VecChange::UpdateAt { index: *index, value: self.values[*value].clone() },
            VecChange::RemoveAt { index } => VecChange::RemoveAt { index: *index },
            VecChange::Push { value } => VecChange::Push { value: self.values[*value].clone() },
            VecChange::Pop {} => VecChange::Pop {},
            VecChange::Clear {} => VecChange::Clear {},
        }
    }
}

proof fn lemma_unique_upto<A, F: Fn(&A, &A) -> Order>(compare: F, vals: Seq<A>, ix1: Seq<usize>, ix2: Seq<usize>, a: int)
    requires
        total_order(compare),
        vals.len() <= usize::MAX,
        sorts(compare, vals, ix1),
        sorts(compare, vals, ix2),
        0 <= a < vals.len(),
    ensures
        forall|c: int| 0 <= c <= a ==> ix1[c] == ix2[c],
    decreases a,
{
    if a > 0 {
        lemma_unique_upto(compare, vals, ix1, ix2, a - 1);
    }
    let (x, y) = (ix1[a], ix2[a]);
    lemma_covers(compare, vals, ix2, x);
    lemma_covers(compare, vals, ix1, y);
    lemma_sorted_distinct(compare, vals, ix1);
    lemma_sorted_distinct(compare, vals, ix2);
    let b = choose|b: int| 0 <= b < ix2.len() && ix2[b] == x;
    let d = choose|d: int| 0 <= d < ix1.len() && ix1[d] == y;
    if x != y {
        assert(b >= a) by {
            if b < a {
                assert(ix1[b] == ix2[b]);
            }
        }
        assert(d >= a) by {
            if d < a {
                assert(ix1[d] == ix2[d]);
            }
        }
        assert(key_before(compare, vals, y, x));
        assert(key_before(compare, vals, x, y));
        lemma_key_order(compare, vals, x, y, x);
    }
}

/// A vector has one sorted order: two sorting permutations of the same
/// values under a total order are the same.
pub proof fn lemma_sorting_unique<A, F: Fn(&A, &A) -> Order>(compare: F, vals: Seq<A>, ix1: Seq<usize>, ix2: Seq<usize>)
    requires
        total_order(compare),
        vals.len() <= usize::MAX,
        sorts(compare, vals, ix1),
        sorts(compare, vals, ix2),
    ensures
        ix1 == ix2,
{
    if vals.len() > 0 {
        lemma_unique_upto(compare, vals, ix1, ix2, vals.len() - 1);
    }
    assert(ix1 =~= ix2);
}

/// The sorted vector is in order: no value compares greater than one after
/// it, and values that compare equal keep their upstream order.
pub proof fn lemma_sorted_in_order<A, F: Fn(&A, &A) -> Order>(s: SortBy<A, F>, a: int, b: int)
    requires
        s.wf(),
        0 <= a < b < s.sorted().len(),
    ensures
        not_after(s.compare(), s.sorted()[a], s.sorted()[b]),
        order_of(s.compare(), s.sorted()[a], s.sorted()[b]) == Order::Equal ==> s.indexes()[a] < s.indexes()[b],
{
    assert(key_before(s.compare(), s.values(), s.indexes()[a], s.indexes()[b]));
}

} // verus!

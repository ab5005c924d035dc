//! Vectors that change over time, described by a stream of change records.
use vstd::prelude::*;
use crate::signals::signal::{Signal, State, Total};
use crate::signals::masks::{
    count_true, filter_some, first_some_from, increasing, mask_of, positions, shifted,
    lemma_positions_increasing, lemma_rank_step, lemma_rank_full, lemma_count_true_bound,
    lemma_first_some_from_bounds, rank, lemma_first_some_from_positions, lemma_positions_insert,
    lemma_positions_remove, lemma_positions_update, lemma_positions_push, lemma_positions_drop_last,
    lemma_count_true_push, lemma_filter_some_insert, lemma_filter_some_remove,
    lemma_filter_some_update, lemma_rank_insert, lemma_rank_remove, lemma_rank_update,
    lemma_rank_drop_last, lemma_filter_some_len, lemma_rank_mono,
};

verus! {

/// The outcome of polling a stream of changes: a value ready now, or none yet.
#[derive(Debug, Clone, Copy, PartialEq, Eq)]
pub enum Async<T> {
    Ready(T),
    NotReady,
}

/// A vector that changes over time: each poll hands out the next change,
/// `None` where the vector will not change again, or nothing yet.
pub trait SignalVec: Sized {
    type Item;

    /// Whether a poll of this vector may answer `r` and leave it as `after`.
    /// A vector that states nothing of its polls keeps this default.
    open spec fn answers(&self, r: Async<Option<VecChange<Self::Item>>>, after: Self) -> bool {
        true
    }

    fn poll(&mut self) -> (r: Async<Option<VecChange<Self::Item>>>)
        ensures
            old(self).answers(r, *final(self)),
    ;
}

/// A run of polls: poll `i` of `states[i]` answered `answers[i]` and left
/// `states[i + 1]`.
pub open spec fn vec_run<S: SignalVec>(states: Seq<S>, answers: Seq<Async<Option<VecChange<S::Item>>>>) -> bool {
    &&& states.len() == answers.len() + 1
    &&& forall|i: int| 0 <= i < answers.len() ==> #[trigger] states[i].answers(answers[i], states[i + 1])
}

/// `r` is the answer `a` with the values of a change passed through `f`.
pub open spec fn answer_mapped<A, B, F: FnMut(A) -> B>(
    a: Async<Option<VecChange<A>>>,
    r: Async<Option<VecChange<B>>>,
    f: F,
) -> bool {
    match (a, r) {
        (Async::Ready(Some(c)), Async::Ready(Some(d))) => change_mapped(c, d, f),
        (Async::Ready(None), Async::Ready(None)) => true,
        (Async::NotReady, Async::NotReady) => true,
        _ => false,
    }
}

/// One change of a vector.
#[derive(Debug, Clone, PartialEq, Eq)]
pub enum VecChange<A> {
    Replace { values: Vec<A> },
    InsertAt { index: usize, value: A },
    UpdateAt { index: usize, value: A },
    RemoveAt { index: usize },
    Push { value: A },
    Pop {},
    Clear {},
}

/// Whether `c` can be applied to a vector of length `len` (an index in range,
/// an element to pop).
pub open spec fn change_fits<A>(c: VecChange<A>, len: nat) -> bool {
    match c {
        VecChange::InsertAt { index, .. } => index <= len,
        VecChange::UpdateAt { index, .. } => index < len,
        VecChange::RemoveAt { index } => index < len,
        VecChange::Pop {} => len > 0,
        _ => true,
    }
}

/// Whether `change` can be applied to a vector of length `len`.
pub fn fits<A>(change: &VecChange<A>, len: usize) -> (r: bool)
    ensures
        r == change_fits(*change, len as nat),
{
    match change {
        VecChange::InsertAt { index, .. } => *index <= len,
        VecChange::UpdateAt { index, .. } => *index < len,
        VecChange::RemoveAt { index } => *index < len,
        VecChange::Pop {} => len > 0,
        _ => true,
    }
}

/// Whether `change` takes a value from a vector (a removal or a pop).
pub fn shrinks<A>(change: &VecChange<A>) -> (r: bool)
    ensures
        r == (*change is RemoveAt || *change is Pop),
{
    match change {
        VecChange::RemoveAt { .. } => true,
        VecChange::Pop {} => true,
        _ => false,
    }
}

/// Whether `change` adds a value to a vector (an insertion or a push).
pub fn grows<A>(change: &VecChange<A>) -> (r: bool)
    ensures
        r == (*change is InsertAt || *change is Push),
{
    match change {
        VecChange::InsertAt { .. } => true,
        VecChange::Push { .. } => true,
        _ => false,
    }
}

/// The vector that results from applying `c` to `v`.
pub open spec fn apply_change<A>(v: Seq<A>, c: VecChange<A>) -> Seq<A> {
    match c {
        VecChange::Replace { values } => values@,
        VecChange::InsertAt { index, value } => v.insert(index as int, value),
        VecChange::UpdateAt { index, value } => v.update(index as int, value),
        VecChange::RemoveAt { index } => v.remove(index as int),
        VecChange::Push { value } => v.push(value),
        VecChange::Pop {} => v.drop_last(),
        VecChange::Clear {} => Seq::empty(),
    }
}

/// Applies a sequence of changes in order.
pub open spec fn apply_changes<A>(v: Seq<A>, cs: Seq<VecChange<A>>) -> Seq<A>
    decreases cs.len(),
{
    if cs.len() == 0 {
        v
    } else {
        apply_change(apply_changes(v, cs.drop_last()), cs.last())
    }
}

/// `b` is `a` with every value replaced by one that `f` may return for it.
pub open spec fn change_mapped<A, B, F: FnMut(A) -> B>(
    a: VecChange<A>,
    b: VecChange<B>,
    f: F,
) -> bool {
    match (a, b) {
        (VecChange::Replace { values: va }, VecChange::Replace { values: vb }) => {
            &&& va@.len() == vb@.len()
            &&& forall|i: int| 0 <= i < va@.len() ==> #[trigger] f.ensures((va@[i],), vb@[i])
        },
        (VecChange::InsertAt { index: ia, value: xa }, VecChange::InsertAt { index: ib, value: xb }) =>
            ia == ib && f.ensures((xa,), xb),
        (VecChange::UpdateAt { index: ia, value: xa }, VecChange::UpdateAt { index: ib, value: xb }) =>
            ia == ib && f.ensures((xa,), xb),
        (VecChange::RemoveAt { index: ia }, VecChange::RemoveAt { index: ib }) => ia == ib,
        (VecChange::Push { value: xa }, VecChange::Push { value: xb }) => f.ensures((xa,), xb),
        (VecChange::Pop {}, VecChange::Pop {}) => true,
        (VecChange::Clear {}, VecChange::Clear {}) => true,
        _ => false,
    }
}

impl<A> VecChange<A> {
    /// Applies `callback` to every value that the change carries, keeping
    /// its kind and its index.
    pub fn map<B, F>(self, callback: F) -> (r: VecChange<B>)
        where F: Fn(A) -> B,
        requires
            forall|a: A| #[trigger] callback.requires((a,)),
        ensures
            change_mapped(self, r, callback),
    {
        match self {
            VecChange::Replace { values } => {
                let mut out: Vec<B> = Vec::new();
                let mut rest = values;
                let ghost orig = rest@;
                let mut rev: Vec<A> = Vec::new();
                while rest.len() > 0
                    invariant
                        rest@.len() + rev@.len() == orig.len(),
                        forall|i: int| 0 <= i < rest@.len() ==> rest@[i] == orig[i],
                        forall|i: int| 0 <= i < rev@.len() ==> rev@[i] == orig[orig.len() - 1 - i],
                    decreases rest@.len(),
                {
                    let v = rest.pop().unwrap();
                    rev.push(v);
                }
                while rev.len() > 0
                    invariant
                        out@.len() + rev@.len() == orig.len(),
                        forall|i: int| 0 <= i < rev@.len() ==> rev@[i] == orig[orig.len() - 1 - i],
                        forall|i: int| 0 <= i < out@.len() ==> #[trigger] callback.ensures((orig[i],), out@[i]),
                        forall|a: A| #[trigger] callback.requires((a,)),
                    decreases rev@.len(),
                {
                    let v = rev.pop().unwrap();
                    let b = callback(v);
                    out.push(b);
                }
                VecChange::Replace { values: out }
            },
            VecChange::InsertAt { index, value } => VecChange::InsertAt { index, value: callback(value) },
            VecChange::UpdateAt { index, value } => VecChange::UpdateAt { index, value: callback(value) },
            VecChange::RemoveAt { index } => VecChange::RemoveAt { index },
            VecChange::Push { value } => VecChange::Push { value: callback(value) },
            VecChange::Pop {} => VecChange::Pop {},
            VecChange::Clear {} => VecChange::Clear {},
        }
    }
}

/// Whether a change, seen through a filter with present-entry table `ix`,
/// adds an entry to the filtered vector.
pub open spec fn filter_grows<B>(ix: Seq<Option<usize>>, change: VecChange<Option<B>>) -> bool {
    match change {
        VecChange::InsertAt { value, .. } => value is Some,
        VecChange::Push { value } => value is Some,
        VecChange::UpdateAt { index, value } => value is Some && 0 <= index < ix.len()
            && ix[index as int] is None,
        _ => false,
    }
}

/// What one step of a filtered view does: from the table `ix` and the count
/// `len`, on the upstream change `change` whose values the callback already
/// turned into `Option`s, it reaches the table `nix` and the count `nlen` and
/// emits `out` (`None` where the filtered vector does not change).
pub open spec fn filter_step<B>(
    ix: Seq<Option<usize>>,
    len: usize,
    change: VecChange<Option<B>>,
    nix: Seq<Option<usize>>,
    nlen: usize,
    out: Option<VecChange<B>>,
) -> bool {
    match change {
        VecChange::Replace { values } => {
            &&& nix == positions(mask_of(values@))
            &&& nlen == count_true(mask_of(values@))
            &&& out matches Some(VecChange::Replace { values: o }) && o@ == filter_some(values@)
        },
        VecChange::InsertAt { index, value } => match value {
            Some(v) => {
                let n = first_some_from(ix, index as int, len);
                &&& nix == shifted(ix, index as int, true).insert(index as int, Some(n))
                &&& nlen == len + 1
                &&& out == Some(VecChange::InsertAt { index: n, value: v })
            },
            None => nix == ix.insert(index as int, None) && nlen == len && out is None,
        },
        VecChange::UpdateAt { index, value } => match (value, ix[index as int]) {
            (Some(v), Some(old)) => nix == ix && nlen == len && out == Some(
                VecChange::UpdateAt { index: old, value: v },
            ),
            (Some(v), None) => {
                let n = first_some_from(ix, index + 1, len);
                &&& nix == shifted(ix, index + 1, true).update(index as int, Some(n))
                &&& nlen == len + 1
                &&& out == Some(VecChange::InsertAt { index: n, value: v })
            },
            (None, Some(old)) => {
                &&& nix == shifted(ix.update(index as int, None), index + 1, false)
                &&& nlen == len - 1
                &&& out == Some(VecChange::<B>::RemoveAt { index: old })
            },
            (None, None) => nix == ix && nlen == len && out is None,
        },
        VecChange::RemoveAt { index } => match ix[index as int] {
            Some(old) => {
                &&& nix == shifted(ix.remove(index as int), index as int, false)
                &&& nlen == len - 1
                &&& out == Some(VecChange::<B>::RemoveAt { index: old })
            },
            None => nix == ix.remove(index as int) && nlen == len && out is None,
        },
        VecChange::Push { value } => match value {
            Some(v) => nix == ix.push(Some(len)) && nlen == len + 1 && out == Some(
                VecChange::Push { value: v },
            ),
            None => nix == ix.push(None) && nlen == len && out is None,
        },
        VecChange::Pop {} => {
            &&& nix == ix.drop_last()
            &&& (ix.last() is Some ==> nlen == len - 1 && out == Some(VecChange::<B>::Pop {}))
            &&& (ix.last() is None ==> nlen == len && out is None)
        },
        VecChange::Clear {} => nix == Seq::<Option<usize>>::empty() && nlen == 0 && out == Some(
            VecChange::<B>::Clear {},
        ),
    }
}

/// The bookkeeping of a vector filtered through a callback that returns
/// `Option`s: for each upstream entry, its position in the filtered vector
/// when it is present, and the count that new entries are placed at.
pub struct FilterMap {
    length: usize,
    indexes: Vec<Option<usize>>,
}

impl FilterMap {
    /// The position table, one entry per upstream entry.
    pub closed spec fn table(&self) -> Seq<Option<usize>> {
        self.indexes@
    }

    /// The count of present entries that the filter keeps.
    pub closed spec fn count(&self) -> usize {
        self.length
    }

    /// The table's present entries are strictly increasing and below the count.
    pub closed spec fn wf(&self) -> bool {
        increasing(self.indexes@, self.length as nat)
    }

    /// A filter over an empty vector.
    pub fn new() -> (r: Self)
        ensures
            r.table() == Seq::<Option<usize>>::empty(),
            r.count() == 0,
            r.wf(),
    {
        FilterMap { length: 0, indexes: Vec::new() }
    }

    /// The table, as the caller can read it.
    pub fn indexes(&self) -> (r: &Vec<Option<usize>>)
        ensures
            r@ == self.table(),
    {
        &self.indexes
    }

    /// The count, as the caller can read it.
    pub fn length(&self) -> (r: usize)
        ensures
            r == self.count(),
    {
        self.length
    }

    /// Moves every present entry at or after `index` one step up, and returns
    /// the value that the first of them had, or the count where there is none.
    fn increment_indexes(&mut self, index: usize) -> (r: usize)
        requires
            index <= old(self).indexes@.len(),
            old(self).wf(),
        ensures
            final(self).indexes@ == shifted(old(self).indexes@, index as int, true),
            final(self).length == old(self).length,
            r == first_some_from(old(self).indexes@, index as int, old(self).length),
    {
        let ghost ix = self.indexes@;
        let len = self.indexes.len();
        let mut first: Option<usize> = None;
        let mut j = index;
        while j < len
            invariant
                index <= j <= len,
                len == ix.len(),
                self.length == old(self).length,
                ix == old(self).indexes@,
                increasing(ix, self.length as nat),
                self.indexes@.len() == len,
                forall|k: int| 0 <= k < len && (k < index || k >= j) ==> self.indexes@[k] == ix[k],
                forall|k: int| index <= k < j ==> self.indexes@[k] == #[trigger] shifted(ix, index as int, true)[k],
                first_some_from(ix, index as int, self.length) == match first {
                    Some(f) => f,
                    None => first_some_from(ix, j as int, self.length),
                },
            decreases len - j,
        {
            match self.indexes[j] {
                Some(i) => {
                    if first.is_none() {
                        first = Some(i);
                    }
                    self.indexes.set(j, Some(i + 1));
                },
                None => {},
            }
            j = j + 1;
        }
        assert(self.indexes@ =~= shifted(ix, index as int, true));
        match first {
            Some(f) => f,
            None => self.length,
        }
    }

    /// Moves every present entry at or after `index` one step down.
    fn decrement_indexes(&mut self, index: usize)
        requires
            index <= old(self).indexes@.len(),
            forall|k: int| index <= k < old(self).indexes@.len() && (#[trigger] old(self).indexes@[k]) is Some
                ==> old(self).indexes@[k]->0 > 0,
        ensures
            final(self).indexes@ == shifted(old(self).indexes@, index as int, false),
            final(self).length == old(self).length,
    {
        let ghost ix = self.indexes@;
        let len = self.indexes.len();
        let mut j = index;
        while j < len
            invariant
                index <= j <= len,
                len == ix.len(),
                self.length == old(self).length,
                ix == old(self).indexes@,
                forall|k: int| index <= k < len && (#[trigger] ix[k]) is Some ==> ix[k]->0 > 0,
                self.indexes@.len() == len,
                forall|k: int| 0 <= k < len && (k < index || k >= j) ==> self.indexes@[k] == ix[k],
                forall|k: int| index <= k < j ==> self.indexes@[k] == #[trigger] shifted(ix, index as int, false)[k],
            decreases len - j,
        {
            assert(self.indexes@[j as int] == ix[j as int]);
            match self.indexes[j] {
                Some(i) => {
                    self.indexes.set(j, Some(i - 1));
                },
                None => {},
            }
            j = j + 1;
        }
        assert(self.indexes@ =~= shifted(ix, index as int, false));
    }

    /// Takes one upstream change, whose values the callback has already turned
    /// into `Option`s, and returns the change of the filtered vector, or
    /// `None` where the filtered vector stays as it was.
    pub fn process_change<B>(&mut self, change: VecChange<Option<B>>) -> (out: Option<VecChange<B>>)
        requires
            old(self).wf(),
            change_fits(change, old(self).table().len()),
            filter_grows(old(self).table(), change) ==> old(self).count() < usize::MAX,
        ensures
            final(self).wf(),
            filter_step(old(self).table(), old(self).count(), change, final(self).table(), final(self).count(), out),
    {
        match change {
            VecChange::Replace { values } => self.replace_values(values),
            VecChange::InsertAt { index, value } => self.insert_value(index, value),
            VecChange::UpdateAt { index, value } => self.update_value(index, value),
            VecChange::RemoveAt { index } => self.remove_value(index),
            VecChange::Push { value } => self.push_value(value),
            VecChange::Pop {} => self.pop_value(),
            VecChange::Clear {} => {
                self.length = 0;
                self.indexes = Vec::new();
                Some(VecChange::Clear {})
            },
        }
    }

    fn replace_values<B>(&mut self, values: Vec<Option<B>>) -> (out: Option<VecChange<B>>)
        ensures
            final(self).wf(),
            filter_step(old(self).indexes@, old(self).length, VecChange::Replace { values }, final(self).indexes@, final(self).length, out),
    {
        let ghost vs = values@;
        let ghost m = mask_of(vs);
        let vlen = values.len();
        let mut rev = into_reversed(values);
        let mut out: Vec<B> = Vec::new();
        let mut indexes: Vec<Option<usize>> = Vec::new();
        let mut length: usize = 0;
        let mut k: usize = 0;
        proof {
            assert(m.len() == vs.len());
            lemma_positions_increasing(m);
        }
        while rev.len() > 0
            invariant
                k + rev@.len() == vs.len(),
                vs.len() == vlen,
                m == mask_of(vs),
                forall|i: int| 0 <= i < rev@.len() ==> rev@[i] == vs[vs.len() - 1 - i],
                indexes@ =~= positions(m).take(k as int),
                length == rank(m, k as int),
                out@ =~= filter_some(vs.take(k as int)),
            decreases rev@.len(),
        {
            let v = rev.pop().unwrap();
            proof {
                lemma_rank_step(m, k as int);
                lemma_count_true_bound(m.take(k as int));
                assert(vs.take(k + 1).drop_last() =~= vs.take(k as int));
                assert(vs.take(k + 1).last() == vs[k as int]);
            }
            match v {
                Some(x) => {
                    indexes.push(Some(length));
                    length = length + 1;
                    out.push(x);
                },
                None => {
                    indexes.push(None);
                },
            }
            k = k + 1;
        }
        proof {
            lemma_rank_full(m);
            assert(vs.take(vs.len() as int) =~= vs);
            assert(positions(m).take(vs.len() as int) =~= positions(m));
        }
        self.indexes = indexes;
        self.length = length;
        Some(VecChange::Replace { values: out })
    }

    fn insert_value<B>(&mut self, index: usize, value: Option<B>) -> (out: Option<VecChange<B>>)
        requires
            old(self).wf(),
            index <= old(self).indexes@.len(),
            value is Some ==> old(self).length < usize::MAX,
        ensures
            final(self).wf(),
            filter_step(old(self).indexes@, old(self).length, VecChange::InsertAt { index, value }, final(self).indexes@, final(self).length, out),
    {
        let ghost ix = self.indexes@;
        let ghost len = self.length;
        match value {
            Some(v) => {
                proof { lemma_first_some_from_bounds(ix, index as int, len); }
                let n = self.increment_indexes(index);
                self.indexes.insert(index, Some(n));
                self.length = self.length + 1;
                assert(increasing(self.indexes@, self.length as nat));
                Some(VecChange::InsertAt { index: n, value: v })
            },
            None => {
                self.indexes.insert(index, None);
                assert(increasing(self.indexes@, self.length as nat));
                None
            },
        }
    }

    fn update_value<B>(&mut self, index: usize, value: Option<B>) -> (out: Option<VecChange<B>>)
        requires
            old(self).wf(),
            index < old(self).indexes@.len(),
            value is Some && old(self).indexes@[index as int] is None ==> old(self).length < usize::MAX,
        ensures
            final(self).wf(),
            filter_step(old(self).indexes@, old(self).length, VecChange::UpdateAt { index, value }, final(self).indexes@, final(self).length, out),
    {
        let ghost ix = self.indexes@;
        let ghost len = self.length;
        let ilen = self.indexes.len();
        let next = index + 1;
        match value {
            Some(v) => match self.indexes[index] {
                Some(old_index) => Some(VecChange::UpdateAt { index: old_index, value: v }),
                None => {
                    proof { lemma_first_some_from_bounds(ix, index + 1, len); }
                    let n = self.increment_indexes(next);
                    self.indexes.set(index, Some(n));
                    self.length = self.length + 1;
                    assert(increasing(self.indexes@, self.length as nat));
                    Some(VecChange::InsertAt { index: n, value: v })
                },
            },
            None => match self.indexes[index] {
                Some(old_index) => {
                    self.indexes.set(index, None);
                    self.decrement_indexes(next);
                    self.length = self.length - 1;
                    assert(increasing(self.indexes@, self.length as nat));
                    Some(VecChange::RemoveAt { index: old_index })
                },
                None => None,
            },
        }
    }

    fn remove_value<B>(&mut self, index: usize) -> (out: Option<VecChange<B>>)
        requires
            old(self).wf(),
            index < old(self).indexes@.len(),
        ensures
            final(self).wf(),
            filter_step(old(self).indexes@, old(self).length, VecChange::<Option<B>>::RemoveAt { index }, final(self).indexes@, final(self).length, out),
    {
        let ghost ix = self.indexes@;
        match self.indexes.remove(index) {
            Some(old_index) => {
                self.decrement_indexes(index);
                self.length = self.length - 1;
                assert(increasing(self.indexes@, self.length as nat));
                Some(VecChange::RemoveAt { index: old_index })
            },
            None => {
                assert(increasing(self.indexes@, self.length as nat));
                None
            },
        }
    }

    fn push_value<B>(&mut self, value: Option<B>) -> (out: Option<VecChange<B>>)
        requires
            old(self).wf(),
            value is Some ==> old(self).length < usize::MAX,
        ensures
            final(self).wf(),
            filter_step(old(self).indexes@, old(self).length, VecChange::Push { value }, final(self).indexes@, final(self).length, out),
    {
        match value {
            Some(v) => {
                self.indexes.push(Some(self.length));
                self.length = self.length + 1;
                assert(increasing(self.indexes@, self.length as nat));
                Some(VecChange::Push { value: v })
            },
            None => {
                self.indexes.push(None);
                assert(increasing(self.indexes@, self.length as nat));
                None
            },
        }
    }

    fn pop_value<B>(&mut self) -> (out: Option<VecChange<B>>)
        requires
            old(self).wf(),
            old(self).indexes@.len() > 0,
        ensures
            final(self).wf(),
            filter_step(old(self).indexes@, old(self).length, VecChange::<Option<B>>::Pop {}, final(self).indexes@, final(self).length, out),
    {
        let ghost ix = self.indexes@;
        match self.indexes.pop().unwrap() {
            Some(_) => {
                proof { lemma_increasing_pop_present(ix, self.length as nat); }
                self.length = self.length - 1;
                Some(VecChange::Pop {})
            },
            None => {
                assert(increasing(self.indexes@, self.length as nat));
                None
            },
        }
    }
}

/// Popping a present last entry off an increasing table leaves one fewer
/// present entry, all below the count less one.
pub proof fn lemma_increasing_pop_present(ix: Seq<Option<usize>>, bound: nat)
    requires
        increasing(ix, bound),
        ix.len() > 0,
        ix.last() is Some,
    ensures
        bound > 0,
        increasing(ix.drop_last(), (bound - 1) as nat),
{
    let n = ix.len() - 1;
    assert(ix[n] is Some);
    assert forall|j: int| 0 <= j < ix.drop_last().len() && (#[trigger] ix.drop_last()[j]) is Some
        implies ix.drop_last()[j]->0 < bound - 1 by {
        assert(ix[j] is Some && ix[n] is Some);
        assert(ix[j]->0 < ix[n]->0);
    }
    assert forall|j: int, k: int|
        0 <= j < k < ix.drop_last().len() && (#[trigger] ix.drop_last()[j]) is Some && (#[trigger] ix.drop_last()[k]) is Some
        implies ix.drop_last()[j]->0 < ix.drop_last()[k]->0 by {
        assert(ix[j] is Some && ix[k] is Some);
    }
}

/// `v` in reverse order.
pub(crate) fn into_reversed<T>(v: Vec<T>) -> (r: Vec<T>)
    ensures
        r@.len() == v@.len(),
        forall|i: int| 0 <= i < v@.len() ==> r@[i] == v@[v@.len() - 1 - i],
{
    let ghost orig = v@;
    let mut rest = v;
    let mut rev: Vec<T> = Vec::new();
    while rest.len() > 0
        invariant
            rest@.len() + rev@.len() == orig.len(),
            forall|i: int| 0 <= i < rest@.len() ==> rest@[i] == orig[i],
            forall|i: int| 0 <= i < rev@.len() ==> rev@[i] == orig[orig.len() - 1 - i],
        decreases rest@.len(),
    {
        let x = rest.pop().unwrap();
        rev.push(x);
    }
    rev
}


/// `v` after the change `c` where there is one.
pub open spec fn apply_opt<A>(v: Seq<A>, c: Option<VecChange<A>>) -> Seq<A> {
    match c {
        Some(c) => apply_change(v, c),
        None => v,
    }
}

/// The presence mask of the upstream vector after `c`.
proof fn lemma_mask_after<B>(s: Seq<Option<B>>, c: VecChange<Option<B>>)
    requires
        change_fits(c, s.len()),
    ensures
        mask_of(apply_change(s, c)) == match c {
            VecChange::Replace { values } => mask_of(values@),
            VecChange::InsertAt { index, value } => mask_of(s).insert(index as int, value is Some),
            VecChange::UpdateAt { index, value } => mask_of(s).update(index as int, value is Some),
            VecChange::RemoveAt { index } => mask_of(s).remove(index as int),
            VecChange::Push { value } => mask_of(s).push(value is Some),
            VecChange::Pop {} => mask_of(s).drop_last(),
            VecChange::Clear {} => Seq::<bool>::empty(),
        },
{
    let r = match c {
        VecChange::Replace { values } => mask_of(values@),
        VecChange::InsertAt { index, value } => mask_of(s).insert(index as int, value is Some),
        VecChange::UpdateAt { index, value } => mask_of(s).update(index as int, value is Some),
        VecChange::RemoveAt { index } => mask_of(s).remove(index as int),
        VecChange::Push { value } => mask_of(s).push(value is Some),
        VecChange::Pop {} => mask_of(s).drop_last(),
        VecChange::Clear {} => Seq::<bool>::empty(),
    };
    assert(mask_of(apply_change(s, c)) =~= r);
}

proof fn lemma_filter_commutes_insert<B>(s: Seq<Option<B>>, index: usize, value: Option<B>, nix: Seq<Option<usize>>, nlen: usize, out: Option<VecChange<B>>)
    requires
        s.len() < usize::MAX,
        index <= s.len(),
        filter_step(positions(mask_of(s)), count_true(mask_of(s)) as usize, VecChange::InsertAt { index, value }, nix, nlen, out),
    ensures
        nix == positions(mask_of(s.insert(index as int, value))),
        nlen == count_true(mask_of(s.insert(index as int, value))),
        apply_opt(filter_some(s), out) == filter_some(s.insert(index as int, value)),
{
    let m = mask_of(s);
    let c = VecChange::InsertAt { index, value };
    lemma_mask_after(s, c);
    assert(m.len() == s.len());
    lemma_positions_insert(m, index as int, value is Some);
    lemma_filter_some_insert(s, index as int, value);
    lemma_count_true_bound(m);
    lemma_rank_insert(m, index as int, value is Some, (m.len() + 1) as int);
    lemma_rank_full(m);
    lemma_rank_full(m.insert(index as int, value is Some));
    if value is Some {
        lemma_first_some_from_positions(m, index as int);
    }
}

proof fn lemma_filter_commutes_update<B>(s: Seq<Option<B>>, index: usize, value: Option<B>, nix: Seq<Option<usize>>, nlen: usize, out: Option<VecChange<B>>)
    requires
        s.len() <= usize::MAX,
        index < s.len(),
        filter_step(positions(mask_of(s)), count_true(mask_of(s)) as usize, VecChange::UpdateAt { index, value }, nix, nlen, out),
    ensures
        nix == positions(mask_of(s.update(index as int, value))),
        nlen == count_true(mask_of(s.update(index as int, value))),
        apply_opt(filter_some(s), out) == filter_some(s.update(index as int, value)),
{
    let m = mask_of(s);
    let c = VecChange::UpdateAt { index, value };
    lemma_mask_after(s, c);
    assert(m.len() == s.len());
    lemma_positions_update(m, index as int, value is Some);
    lemma_filter_some_update(s, index as int, value);
    lemma_count_true_bound(m);
    lemma_rank_update(m, index as int, value is Some, m.len() as int);
    lemma_rank_full(m);
    lemma_rank_full(m.update(index as int, value is Some));
    lemma_rank_mono(m, index as int, m.len() as int);
    lemma_rank_step(m, index as int);
    lemma_rank_mono(m, index + 1, m.len() as int);
    lemma_first_some_from_positions(m, index + 1);
    assert(positions(m)[index as int] == if m[index as int] { Some(rank(m, index as int) as usize) } else { None });
}

proof fn lemma_filter_commutes_remove<B>(s: Seq<Option<B>>, index: usize, nix: Seq<Option<usize>>, nlen: usize, out: Option<VecChange<B>>)
    requires
        s.len() <= usize::MAX,
        index < s.len(),
        filter_step(positions(mask_of(s)), count_true(mask_of(s)) as usize, VecChange::<Option<B>>::RemoveAt { index }, nix, nlen, out),
    ensures
        nix == positions(mask_of(s.remove(index as int))),
        nlen == count_true(mask_of(s.remove(index as int))),
        apply_opt(filter_some(s), out) == filter_some(s.remove(index as int)),
{
    let m = mask_of(s);
    let c = VecChange::<Option<B>>::RemoveAt { index };
    lemma_mask_after(s, c);
    assert(m.len() == s.len());
    lemma_positions_remove(m, index as int);
    lemma_filter_some_remove(s, index as int);
    lemma_count_true_bound(m);
    lemma_rank_remove(m, index as int, (m.len() - 1) as int);
    lemma_rank_full(m);
    lemma_rank_full(m.remove(index as int));
    lemma_rank_mono(m, index as int, m.len() as int);
    lemma_rank_step(m, index as int);
    lemma_rank_mono(m, index + 1, m.len() as int);
    assert(positions(m)[index as int] == if m[index as int] { Some(rank(m, index as int) as usize) } else { None });
}

proof fn lemma_filter_commutes_push_pop<B>(s: Seq<Option<B>>, c: VecChange<Option<B>>, nix: Seq<Option<usize>>, nlen: usize, out: Option<VecChange<B>>)
    requires
        s.len() < usize::MAX,
        c is Push || c is Pop,
        change_fits(c, s.len()),
        filter_step(positions(mask_of(s)), count_true(mask_of(s)) as usize, c, nix, nlen, out),
    ensures
        nix == positions(mask_of(apply_change(s, c))),
        nlen == count_true(mask_of(apply_change(s, c))),
        apply_opt(filter_some(s), out) == filter_some(apply_change(s, c)),
{
    let m = mask_of(s);
    lemma_mask_after(s, c);
    assert(m.len() == s.len());
    lemma_count_true_bound(m);
    match c {
        VecChange::Push { value } => {
            lemma_positions_push(m, value is Some);
            lemma_count_true_push(m, value is Some);
            assert(s.push(value).drop_last() =~= s);
        },
        _ => {
            lemma_positions_drop_last(m);
            assert(m.drop_last().push(m.last()) =~= m);
            lemma_count_true_push(m.drop_last(), m.last());
            assert(positions(m).last() == if m.last() { Some(rank(m, m.len() - 1) as usize) } else { None });
            if s.last() is Some {
                lemma_filter_some_len(s);
                assert(filter_some(s) == filter_some(s.drop_last()).push(s.last()->0));
                assert(filter_some(s).drop_last() =~= filter_some(s.drop_last()));
            }
        },
    }
}

/// A filtered view follows its upstream vector: where the table and the count
/// describe the upstream vector `s` (the callback's results), one step on a
/// change `c` describes `s` after `c`, and the emitted change, applied to the
/// filtered vector of `s`, gives the filtered vector of `s` after `c`.
pub proof fn lemma_filter_map_follows<B>(
    s: Seq<Option<B>>,
    c: VecChange<Option<B>>,
    nix: Seq<Option<usize>>,
    nlen: usize,
    out: Option<VecChange<B>>,
)
    requires
        s.len() < usize::MAX,
        apply_change(s, c).len() <= usize::MAX,
        change_fits(c, s.len()),
        filter_step(positions(mask_of(s)), count_true(mask_of(s)) as usize, c, nix, nlen, out),
    ensures
        nix == positions(mask_of(apply_change(s, c))),
        nlen == count_true(mask_of(apply_change(s, c))),
        apply_opt(filter_some(s), out) == filter_some(apply_change(s, c)),
{
    match c {
        VecChange::Replace { values } => {
            lemma_mask_after(s, c);
        },
        VecChange::InsertAt { index, value } => {
            lemma_filter_commutes_insert(s, index, value, nix, nlen, out);
        },
        VecChange::UpdateAt { index, value } => {
            lemma_filter_commutes_update(s, index, value, nix, nlen, out);
        },
        VecChange::RemoveAt { index } => {
            lemma_filter_commutes_remove(s, index, nix, nlen, out);
        },
        VecChange::Clear {} => {
            lemma_mask_after(s, c);
            assert(positions(Seq::<bool>::empty()) =~= Seq::<Option<usize>>::empty());
        },
        _ => {
            lemma_filter_commutes_push_pop(s, c, nix, nlen, out);
        },
    }
}


/// The length of a vector of length `len` after the change `c`.
pub open spec fn len_after<A>(len: nat, c: VecChange<A>) -> nat {
    match c {
        VecChange::Replace { values } => values@.len(),
        VecChange::InsertAt { .. } => len + 1,
        VecChange::Push { .. } => len + 1,
        VecChange::UpdateAt { .. } => len,
        VecChange::RemoveAt { .. } => (len - 1) as nat,
        VecChange::Pop {} => (len - 1) as nat,
        VecChange::Clear {} => 0,
    }
}

/// The bookkeeping of the length signal of a vector: the length so far, and
/// whether it has been handed out yet.
pub struct Len {
    first: bool,
    len: usize,
}

impl Len {
    pub closed spec fn length(&self) -> usize {
        self.len
    }

    pub closed spec fn is_first(&self) -> bool {
        self.first
    }

    /// The length of a vector that has sent no change yet.
    pub fn new() -> (r: Self)
        ensures
            r.length() == 0,
            r.is_first(),
    {
        Len { first: true, len: 0 }
    }

    /// The length so far.
    pub fn current(&self) -> (r: usize)
        ensures
            r == self.length(),
    {
        self.len
    }

    /// Takes one change of the vector and returns whether the length changed.
    pub fn process_change<A>(&mut self, change: &VecChange<A>) -> (changed: bool)
        requires
            (change is RemoveAt || change is Pop) ==> old(self).length() > 0,
            (change is InsertAt || change is Push) ==> old(self).length() < usize::MAX,
        ensures
            final(self).length() == len_after(old(self).length() as nat, *change),
            changed == (final(self).length() != old(self).length()),
            final(self).is_first() == old(self).is_first(),
    {
        match change {
            VecChange::Replace { values } => {
                if self.len != values.len() {
                    self.len = values.len();
                    true
                } else {
                    false
                }
            },
            VecChange::InsertAt { .. } | VecChange::Push { .. } => {
                self.len = self.len + 1;
                true
            },
            VecChange::UpdateAt { .. } => false,
            VecChange::RemoveAt { .. } | VecChange::Pop {} => {
                self.len = self.len - 1;
                true
            },
            VecChange::Clear {} => {
                if self.len != 0 {
                    self.len = 0;
                    true
                } else {
                    false
                }
            },
        }
    }

    /// What the length signal answers once the vector has no more changes
    /// for now: the length where it changed or was never handed out, no
    /// change otherwise.
    pub fn settle(&mut self, changed: bool) -> (r: State<usize>)
        ensures
            (changed || old(self).is_first()) ==> r == State::Changed(old(self).length()),
            !(changed || old(self).is_first()) ==> r is NotChanged,
            !final(self).is_first(),
            final(self).length() == old(self).length(),
    {
        if changed || self.first {
            self.first = false;
            State::Changed(self.len)
        } else {
            State::NotChanged
        }
    }
}

/// Whether `c` keeps the length of a vector of length `len` within `usize`
/// (a value to take out where it shrinks, room where it grows).
pub open spec fn len_fits<A>(c: VecChange<A>, len: usize) -> bool {
    &&& (c is RemoveAt || c is Pop) ==> len > 0
    &&& (c is InsertAt || c is Push) ==> len < usize::MAX
}

/// What the length signal does with one answer of its vector.
#[derive(Debug, Clone, Copy, PartialEq, Eq)]
pub enum LenStep {
    /// Go on taking answers; whether the length has changed so far.
    Continue(bool),
    /// Answer this.
    Done(State<usize>),
}

impl Len {
    /// Takes one answer of the vector, where `changed` says whether the
    /// length changed since the last answer handed out: a change is followed
    /// (and taking goes on); where the vector has nothing now, the length is
    /// settled; where it has ended, or the change does not keep the length
    /// within `usize`, there is no change and the length stays as it was.
    pub fn take<A>(&mut self, answer: Async<Option<VecChange<A>>>, changed: bool) -> (r: LenStep)
        ensures
            match answer {
                Async::Ready(Some(c)) => if len_fits(c, old(self).length()) {
                    &&& final(self).length() == len_after(old(self).length() as nat, c)
                    &&& final(self).is_first() == old(self).is_first()
                    &&& r == LenStep::Continue(changed || final(self).length() != old(self).length())
                } else {
                    r == LenStep::Done(State::NotChanged) && *final(self) == *old(self)
                },
                Async::Ready(None) => r == LenStep::Done(State::NotChanged) && *final(self) == *old(self),
                Async::NotReady => {
                    &&& final(self).length() == old(self).length()
                    &&& !final(self).is_first()
                    &&& (changed || old(self).is_first()) ==> r == LenStep::Done(State::Changed(old(self).length()))
                    &&& !(changed || old(self).is_first()) ==> r == LenStep::Done(State::NotChanged)
                },
            },
    {
        match answer {
            Async::Ready(Some(change)) => {
                if (shrinks(&change) && self.len == 0) || (grows(&change) && self.len == usize::MAX) {
                    LenStep::Done(State::NotChanged)
                } else {
                    let moved = self.process_change(&change);
                    LenStep::Continue(changed || moved)
                }
            },
            Async::Ready(None) => LenStep::Done(State::NotChanged),
            Async::NotReady => LenStep::Done(self.settle(changed)),
        }
    }
}

/// The length signal follows its vector: where it holds the length of `v`,
/// after a change that fits `v` it holds the length of `v` after the change.
pub proof fn lemma_len_follows<A>(v: Seq<A>, c: VecChange<A>)
    requires
        change_fits(c, v.len()),
    ensures
        len_after(v.len(), c) == apply_change(v, c).len(),
{
}

/// `v` after `c`, where every value `c` carries is a pair of which `v`
/// takes the first part.
pub open spec fn apply_firsts<B, V>(v: Seq<B>, c: VecChange<(B, V)>) -> Seq<B> {
    match c {
        VecChange::Replace { values } => values@.map_values(|p: (B, V)| p.0),
        VecChange::InsertAt { index, value } => v.insert(index as int, value.0),
        VecChange::UpdateAt { index, value } => v.update(index as int, value.0),
        VecChange::RemoveAt { index } => v.remove(index as int),
        VecChange::Push { value } => v.push(value.0),
        VecChange::Pop {} => v.drop_last(),
        VecChange::Clear {} => Seq::empty(),
    }
}

/// `out` is `c` with every pair replaced by its second part.
pub open spec fn seconds_of<B, V>(c: VecChange<(B, V)>, out: VecChange<V>) -> bool {
    match (c, out) {
        (VecChange::Replace { values: a }, VecChange::Replace { values: b }) => b@ == a@.map_values(|p: (B, V)| p.1),
        (VecChange::InsertAt { index: i, value: p }, VecChange::InsertAt { index: j, value: x }) => i == j && x == p.1,
        (VecChange::UpdateAt { index: i, value: p }, VecChange::UpdateAt { index: j, value: x }) => i == j && x == p.1,
        (VecChange::RemoveAt { index: i }, VecChange::RemoveAt { index: j }) => i == j,
        (VecChange::Push { value: p }, VecChange::Push { value: x }) => x == p.1,
        (VecChange::Pop {}, VecChange::Pop {}) => true,
        (VecChange::Clear {}, VecChange::Clear {}) => true,
        _ => false,
    }
}

/// The two parts of every pair, in order.
fn unzip<B, V>(values: Vec<(B, V)>) -> (r: (Vec<B>, Vec<V>))
    ensures
        r.0@ == values@.map_values(|p: (B, V)| p.0),
        r.1@ == values@.map_values(|p: (B, V)| p.1),
{
    let ghost orig = values@;
    let mut rest = values;
    let mut firsts: Vec<B> = Vec::new();
    let mut seconds: Vec<V> = Vec::new();
    while rest.len() > 0
        invariant
            rest@.len() + firsts@.len() == orig.len(),
            firsts@.len() == seconds@.len(),
            forall|i: int| 0 <= i < rest@.len() ==> rest@[i] == orig[i],
            forall|i: int| 0 <= i < firsts@.len() ==> firsts@[i] == orig[orig.len() - 1 - i].0,
            forall|i: int| 0 <= i < seconds@.len() ==> seconds@[i] == orig[orig.len() - 1 - i].1,
        decreases rest@.len(),
    {
        let (b, v) = rest.pop().unwrap();
        firsts.push(b);
        seconds.push(v);
    }
    let a = into_reversed(firsts);
    let b = into_reversed(seconds);
    assert(a@ =~= orig.map_values(|p: (B, V)| p.0));
    assert(b@ =~= orig.map_values(|p: (B, V)| p.1));
    (a, b)
}

/// The signals of a vector whose every value is turned into a signal: one
/// per upstream entry, in step with the upstream vector.
pub struct MapSignal<B> {
    signals: Vec<B>,
}

impl<B> MapSignal<B> {
    /// The signals, one per upstream entry.
    pub closed spec fn signals(&self) -> Seq<B> {
        self.signals@
    }

    /// No signals yet.
    pub fn new() -> (r: Self)
        ensures
            r.signals() == Seq::<B>::empty(),
    {
        MapSignal { signals: Vec::new() }
    }

    /// How many signals there are.
    pub fn len(&self) -> (r: usize)
        ensures
            r == self.signals().len(),
    {
        self.signals.len()
    }

    /// Follows one upstream change whose values are pairs of a new signal
    /// and its first value: keeps the signals in step and returns the change
    /// of the values.
    pub fn process_change<V>(&mut self, change: VecChange<(B, V)>) -> (out: VecChange<V>)
        requires
            change_fits(change, old(self).signals().len()),
        ensures
            final(self).signals() == apply_firsts(old(self).signals(), change),
            seconds_of(change, out),
    {
        match change {
            VecChange::Replace { values } => {
                let (signals, out) = unzip(values);
                self.signals = signals;
                VecChange::Replace { values: out }
            },
            VecChange::InsertAt { index, value } => {
                let (signal, v) = value;
                self.signals.insert(index, signal);
                VecChange::InsertAt { index, value: v }
            },
            VecChange::UpdateAt { index, value } => {
                let (signal, v) = value;
                self.signals.set(index, signal);
                VecChange::UpdateAt { index, value: v }
            },
            VecChange::Push { value } => {
                let (signal, v) = value;
                self.signals.push(signal);
                VecChange::Push { value: v }
            },
            VecChange::RemoveAt { index } => {
                self.signals.remove(index);
                VecChange::RemoveAt { index }
            },
            VecChange::Pop {} => {
                self.signals.pop();
                VecChange::Pop {}
            },
            VecChange::Clear {} => {
                self.signals = Vec::new();
                VecChange::Clear {}
            },
        }
    }
}

/// What the signal at `index` answering `answer` reports: an update of that
/// entry with the new value, nothing where it did not change.
pub fn report<T>(index: usize, answer: State<T>) -> (r: Option<VecChange<T>>)
    ensures
        match answer {
            State::Changed(v) => r == Some(VecChange::UpdateAt { index, value: v }),
            State::NotChanged => r is None,
        },
{
    match answer {
        State::Changed(value) => Some(VecChange::UpdateAt { index, value }),
        State::NotChanged => None,
    }
}

/// `a` and `b` are changes of the same kind at the same index (and, for a
/// replacement, with as many values).
pub open spec fn same_place<X, Y>(a: VecChange<X>, b: VecChange<Y>) -> bool {
    match (a, b) {
        (VecChange::Replace { values: x }, VecChange::Replace { values: y }) => x@.len() == y@.len(),
        (VecChange::InsertAt { index: i, .. }, VecChange::InsertAt { index: j, .. }) => i == j,
        (VecChange::UpdateAt { index: i, .. }, VecChange::UpdateAt { index: j, .. }) => i == j,
        (VecChange::RemoveAt { index: i }, VecChange::RemoveAt { index: j }) => i == j,
        (VecChange::Push { .. }, VecChange::Push { .. }) => true,
        (VecChange::Pop {}, VecChange::Pop {}) => true,
        (VecChange::Clear {}, VecChange::Clear {}) => true,
        _ => false,
    }
}

/// The pair's second part, where it is a new value.
pub open spec fn started_pair<B, V>(p: (B, State<V>), q: (B, V)) -> bool {
    q.0 == p.0 && p.1 == State::Changed(q.1)
}

/// `b` is `a` where every new signal has its first value.
pub open spec fn started_change<B, V>(a: VecChange<(B, State<V>)>, b: VecChange<(B, V)>) -> bool {
    &&& same_place(a, b)
    &&& match (a, b) {
        (VecChange::Replace { values: x }, VecChange::Replace { values: y }) =>
            forall|i: int| 0 <= i < x@.len() ==> #[trigger] started_pair(x@[i], y@[i]),
        (VecChange::InsertAt { value: p, .. }, VecChange::InsertAt { value: q, .. }) => started_pair(p, q),
        (VecChange::UpdateAt { value: p, .. }, VecChange::UpdateAt { value: q, .. }) => started_pair(p, q),
        (VecChange::Push { value: p }, VecChange::Push { value: q }) => started_pair(p, q),
        _ => true,
    }
}

/// The pair with its first value, where the signal has one.
fn start_pair<B, V>(p: (B, State<V>)) -> (r: Option<(B, V)>)
    ensures
        r matches Some(q) ==> started_pair(p, q),
        r is None <==> p.1 is NotChanged,
{
    let (b, s) = p;
    match s {
        State::Changed(v) => Some((b, v)),
        State::NotChanged => None,
    }
}

/// `change` where every new signal has its first value; `None` where one of
/// them has none.
pub fn start_change<B, V>(change: VecChange<(B, State<V>)>) -> (r: Option<VecChange<(B, V)>>)
    ensures
        r matches Some(c) ==> started_change(change, c),
{
    match change {
        VecChange::Replace { values } => {
            let ghost orig = values@;
            let mut rev = into_reversed(values);
            let mut out: Vec<(B, V)> = Vec::new();
            while rev.len() > 0
                invariant
                    out@.len() + rev@.len() == orig.len(),
                    forall|j: int| 0 <= j < rev@.len() ==> rev@[j] == orig[orig.len() - 1 - j],
                    forall|i: int| 0 <= i < out@.len() ==> #[trigger] started_pair(orig[i], out@[i]),
                decreases rev@.len(),
            {
                let p = rev.pop().unwrap();
                match start_pair(p) {
                    Some(q) => {
                        out.push(q);
                    },
                    None => {
                        return None;
                    },
                }
            }
            Some(VecChange::Replace { values: out })
        },
        VecChange::InsertAt { index, value } => match start_pair(value) {
            Some(q) => Some(VecChange::InsertAt { index, value: q }),
            None => None,
        },
        VecChange::UpdateAt { index, value } => match start_pair(value) {
            Some(q) => Some(VecChange::UpdateAt { index, value: q }),
            None => None,
        },
        VecChange::Push { value } => match start_pair(value) {
            Some(q) => Some(VecChange::Push { value: q }),
            None => None,
        },
        VecChange::RemoveAt { index } => Some(VecChange::RemoveAt { index }),
        VecChange::Pop {} => Some(VecChange::Pop {}),
        VecChange::Clear {} => Some(VecChange::Clear {}),
    }
}

/// `p` is a signal that `f` gave for `v`, after one poll that answered `p.1`.
pub open spec fn started_from<T, B: Signal, F: Fn(T) -> B>(f: F, v: T, p: (B, State<B::Item>)) -> bool {
    exists|s0: B| #[trigger] f.ensures((v,), s0) && s0.answers(p.1, p.0)
}

/// `b` is `a` with every value turned into a signal by `f`, polled once.
pub open spec fn change_started<T, B: Signal, F: Fn(T) -> B>(
    a: VecChange<T>,
    b: VecChange<(B, State<B::Item>)>,
    f: F,
) -> bool {
    match (a, b) {
        (VecChange::Replace { values: va }, VecChange::Replace { values: vb }) => {
            &&& va@.len() == vb@.len()
            &&& forall|i: int| 0 <= i < va@.len() ==> #[trigger] started_from(f, va@[i], vb@[i])
        },
        (VecChange::InsertAt { index: ia, value: xa }, VecChange::InsertAt { index: ib, value: xb }) =>
            ia == ib && started_from(f, xa, xb),
        (VecChange::UpdateAt { index: ia, value: xa }, VecChange::UpdateAt { index: ib, value: xb }) =>
            ia == ib && started_from(f, xa, xb),
        (VecChange::RemoveAt { index: ia }, VecChange::RemoveAt { index: ib }) => ia == ib,
        (VecChange::Push { value: xa }, VecChange::Push { value: xb }) => started_from(f, xa, xb),
        (VecChange::Pop {}, VecChange::Pop {}) => true,
        (VecChange::Clear {}, VecChange::Clear {}) => true,
        _ => false,
    }
}

/// A change mapped through `g`, whose every result is a signal that `f`
/// gave, polled once, is `a` with its values started through `f`.
pub proof fn lemma_change_started<T, B: Signal, F: Fn(T) -> B, G: FnMut(T) -> (B, State<B::Item>)>(
    a: VecChange<T>,
    b: VecChange<(B, State<B::Item>)>,
    g: G,
    f: F,
)
    requires
        change_mapped(a, b, g),
        forall|x: T, y: (B, State<B::Item>)| #[trigger] g.ensures((x,), y) ==> started_from(f, x, y),
    ensures
        change_started(a, b, f),
{
    match (a, b) {
        (VecChange::Replace { values: va }, VecChange::Replace { values: vb }) => {
            assert forall|i: int| 0 <= i < va@.len() implies #[trigger] started_from(f, va@[i], vb@[i]) by {
                assert(g.ensures((va@[i],), vb@[i]));
            }
        },
        _ => {},
    }
}

/// What polling the signals `before` in order gave: the first that changed
/// answered its new value, reported as an update of its entry, every signal
/// before it answered no change and those after it were not polled; or every
/// signal answered no change and nothing is reported.
pub open spec fn signals_polled<B: Signal>(before: Seq<B>, after: Seq<B>, r: Async<Option<VecChange<B::Item>>>) -> bool {
    &&& after.len() == before.len()
    &&& match r {
        Async::Ready(Some(VecChange::UpdateAt { index, value })) => {
            &&& index < before.len()
            &&& before[index as int].answers(State::Changed(value), after[index as int])
            &&& forall|k: int| 0 <= k < index ==> #[trigger] before[k].answers(State::NotChanged, after[k])
            &&& forall|k: int| index < k < before.len() ==> #[trigger] after[k] == before[k]
        },
        Async::NotReady => forall|k: int| 0 <= k < before.len() ==> #[trigger] before[k].answers(State::NotChanged, after[k]),
        _ => false,
    }
}

impl<B: Signal> MapSignal<B> {
    /// Polls the signals in order and reports the first that changed, as an
    /// update of its entry (`report`); the signals after it are not polled.
    pub fn poll_signals(&mut self) -> (r: Option<VecChange<B::Item>>)
        ensures
            final(self).signals().len() == old(self).signals().len(),
            match r {
                Some(VecChange::UpdateAt { index, value }) => {
                    &&& index < old(self).signals().len()
                    &&& old(self).signals()[index as int].answers(State::Changed(value), final(self).signals()[index as int])
                    &&& forall|k: int| 0 <= k < index ==>
                        #[trigger] old(self).signals()[k].answers(State::NotChanged, final(self).signals()[k])
                    &&& forall|k: int| index < k < old(self).signals().len() ==> #[trigger] final(self).signals()[k] == old(self).signals()[k]
                },
                Some(_) => false,
                None => forall|k: int| 0 <= k < old(self).signals().len() ==>
                    #[trigger] old(self).signals()[k].answers(State::NotChanged, final(self).signals()[k]),
            },
    {
        let mut index: usize = 0;
        while index < self.signals.len()
            invariant
                index <= self.signals@.len(),
                self.signals@.len() == old(self).signals().len(),
                forall|k: int| index <= k < self.signals@.len() ==> #[trigger] self.signals@[k] == old(self).signals()[k],
                forall|k: int| 0 <= k < index ==>
                    #[trigger] old(self).signals()[k].answers(State::NotChanged, self.signals@[k]),
            decreases self.signals@.len() - index,
        {
            let ghost before = self.signals@;
            let answer = self.signals[index].poll();
            proof {
                assert(before[index as int] == old(self).signals()[index as int]);
                assert(forall|k: int| 0 <= k < self.signals@.len() && k != index ==> self.signals@[k] == before[k]);
            }
            let reported = report(index, answer);
            if reported.is_some() {
                return reported;
            }
            index = index + 1;
        }
        None
    }
}

/// The change of a vector that follows a signal of vectors, for what the
/// signal answered: a new vector replaces the whole, no change waits.
pub fn replace_with<T>(state: State<Vec<T>>) -> (r: Async<Option<VecChange<T>>>)
    ensures
        match state {
            State::Changed(values) => r == Async::Ready(Some(VecChange::Replace { values })),
            State::NotChanged => r is NotReady,
        },
{
    match state {
        State::Changed(values) => Async::Ready(Some(VecChange::Replace { values })),
        State::NotChanged => Async::NotReady,
    }
}

/// A vector that follows a signal of vectors: every new vector replaces
/// the whole.
pub struct SignalSignalVec<A> {
    signal: A,
}

impl<A> SignalSignalVec<A> {
    /// The signal of vectors followed.
    pub closed spec fn signal(&self) -> A {
        self.signal
    }

    /// Follows `signal`.
    pub fn new(signal: A) -> (r: Self)
        ensures
            r.signal() == signal,
    {
        SignalSignalVec { signal }
    }
}

impl<A: Signal<Item = Vec<T>>, T> SignalVec for SignalSignalVec<A> {
    type Item = T;

    /// Polls the signal: a new vector replaces the whole, no change waits.
    open spec fn answers(&self, r: Async<Option<VecChange<T>>>, after: Self) -> bool {
        exists|s: State<Vec<T>>| {
            &&& #[trigger] self.signal().answers(s, after.signal())
            &&& match s {
                State::Changed(values) => r == Async::Ready(Some(VecChange::Replace { values })),
                State::NotChanged => r is NotReady,
            }
        }
    }

    fn poll(&mut self) -> (r: Async<Option<VecChange<T>>>) {
        let ghost before = self.signal;
        let answer = self.signal.poll();
        let ghost seen = answer;
        let r = replace_with(answer);
        assert(old(self).signal().answers(seen, self.signal()));
        r
    }
}

/// Where every pair that `f` may give is one that `g` may give, a change
/// mapped through `f` is one mapped through `g`.
pub proof fn lemma_change_mapped_weaken<A, B, F: FnMut(A) -> B, G: FnMut(A) -> B>(a: VecChange<A>, b: VecChange<B>, f: F, g: G)
    requires
        change_mapped(a, b, f),
        forall|x: A, y: B| #[trigger] f.ensures((x,), y) ==> g.ensures((x,), y),
    ensures
        change_mapped(a, b, g),
{
    match (a, b) {
        (VecChange::Replace { values: va }, VecChange::Replace { values: vb }) => {
            assert forall|i: int| 0 <= i < va@.len() implies #[trigger] g.ensures((va@[i],), vb@[i]) by {
                assert(f.ensures((va@[i],), vb@[i]));
            }
        },
        _ => {},
    }
}

/// `change` with every value passed through `callback`.
pub fn map_through<T, B, F: Fn(T) -> B>(callback: &Total<T, B, F>, change: VecChange<T>) -> (r: VecChange<B>)
    ensures
        change_mapped(change, r, callback.function()),
{
    let f = |v: T| -> (o: B) ensures callback.function().ensures((v,), o) { callback.call(v) };
    let r = change.map(f);
    proof {
        lemma_change_mapped_weaken(change, r, f, callback.function());
    }
    r
}

/// A vector whose every value passes through a callback.
#[verifier::reject_recursive_types(A)]
#[verifier::reject_recursive_types(B)]
pub struct MappedVec<A: SignalVec, B, F: Fn(A::Item) -> B> {
    signal: A,
    callback: Total<A::Item, B, F>,
}

impl<A: SignalVec, B, F: Fn(A::Item) -> B> MappedVec<A, B, F> {
    /// The callback.
    pub closed spec fn callback(&self) -> F {
        self.callback.function()
    }

    /// The vector whose values are mapped.
    pub closed spec fn source(&self) -> A {
        self.signal
    }

    /// `signal` with its values passed through `callback`, which accepts
    /// every value.
    pub fn new(signal: A, callback: F) -> (r: Self)
        requires
            forall|a: A::Item| #[trigger] callback.requires((a,)),
        ensures
            r.callback() == callback,
    {
        MappedVec { signal, callback: Total::new(callback) }
    }

    /// The change of the mapped vector for a change of the vector: the
    /// same change with every value passed through the callback.
    pub fn map_change(&self, change: VecChange<A::Item>) -> (r: VecChange<B>)
        ensures
            change_mapped(change, r, self.callback()),
    {
        map_through(&self.callback, change)
    }
}

impl<A: SignalVec, B, F: Fn(A::Item) -> B> SignalVec for MappedVec<A, B, F> {
    type Item = B;

    /// Polls the vector and passes the values of a change through the
    /// callback.
    open spec fn answers(&self, r: Async<Option<VecChange<B>>>, after: Self) -> bool {
        &&& after.callback() == self.callback()
        &&& exists|a: Async<Option<VecChange<A::Item>>>| {
            &&& #[trigger] self.source().answers(a, after.source())
            &&& answer_mapped(a, r, self.callback())
        }
    }

    fn poll(&mut self) -> (r: Async<Option<VecChange<B>>>) {
        let ghost before = self.signal;
        let answer = self.signal.poll();
        let ghost seen = answer;
        let r = match answer {
            Async::Ready(Some(change)) => {
                let out = self.map_change(change);
                Async::Ready(Some(out))
            },
            Async::Ready(None) => Async::Ready(None),
            Async::NotReady => Async::NotReady,
        };
        assert(old(self).source().answers(seen, self.source()));
        assert(answer_mapped(seen, r, old(self).callback()));
        r
    }
}

} // verus!

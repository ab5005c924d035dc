//! Lists that change over time: the same change algebra as vectors, under
//! the name the list signals use.
use vstd::prelude::*;
use crate::signals::masks::{
    first_present, first_some_from, increasing, shifted, lemma_first_present_from,
    lemma_first_some_from_bounds, lemma_positions_increasing,
};
use crate::signals::signal::Total;
use crate::signals::signal_vec::{
    Async, VecChange, change_fits, filter_grows, filter_step, apply_change, apply_opt, change_mapped,
    lemma_change_mapped_weaken, lemma_filter_map_follows,
};
use crate::signals::masks::{count_true, filter_some, mask_of, positions};

verus! {

/// Moves every present entry one step up, and returns the value that the
/// first of them had.
pub fn increment_indexes(indexes: &mut [Option<usize>]) -> (r: Option<usize>)
    requires
        forall|k: int| 0 <= k < old(indexes)@.len() && (#[trigger] old(indexes)@[k]) is Some
            ==> old(indexes)@[k]->0 < usize::MAX,
    ensures
        final(indexes)@ == shifted(old(indexes)@, 0, true),
        r == first_present(old(indexes)@),
{
    let ghost ix = indexes@;
    let len = indexes.len();
    let mut first: Option<usize> = None;
    let mut j: usize = 0;
    proof {
        assert(ix.subrange(0, ix.len() as int) =~= ix);
        lemma_first_present_from(ix, 0, 0);
    }
    while j < len
        invariant
            j <= len,
            len == ix.len(),
            ix == old(indexes)@,
            forall|k: int| 0 <= k < ix.len() && (#[trigger] ix[k]) is Some ==> ix[k]->0 < usize::MAX,
            indexes@.len() == len,
            forall|k: int| j <= k < len ==> indexes@[k] == ix[k],
            forall|k: int| 0 <= k < j ==> indexes@[k] == #[trigger] shifted(ix, 0, true)[k],
            first_present(ix) == match first {
                Some(f) => Some(f),
                None => first_present(ix.subrange(j as int, len as int)),
            },
        decreases len - j,
    {
        proof {
            assert(ix.subrange(j as int, len as int).drop_first() =~= ix.subrange(j + 1, len as int));
        }
        match indexes[j] {
            Some(i) => {
                if first.is_none() {
                    first = Some(i);
                }
                indexes[j] = Some(i + 1);
            },
            None => {},
        }
        j = j + 1;
    }
    assert(indexes@ =~= shifted(ix, 0, true));
    first
}

/// Moves every present entry one step down.
pub fn decrement_indexes(indexes: &mut [Option<usize>])
    requires
        forall|k: int| 0 <= k < old(indexes)@.len() && (#[trigger] old(indexes)@[k]) is Some
            ==> old(indexes)@[k]->0 > 0,
    ensures
        final(indexes)@ == shifted(old(indexes)@, 0, false),
{
    let ghost ix = indexes@;
    let len = indexes.len();
    let mut j: usize = 0;
    while j < len
        invariant
            j <= len,
            len == ix.len(),
            ix == old(indexes)@,
            forall|k: int| 0 <= k < ix.len() && (#[trigger] ix[k]) is Some ==> ix[k]->0 > 0,
            indexes@.len() == len,
            forall|k: int| j <= k < len ==> indexes@[k] == ix[k],
            forall|k: int| 0 <= k < j ==> indexes@[k] == #[trigger] shifted(ix, 0, false)[k],
        decreases len - j,
    {
        assert(indexes@[j as int] == ix[j as int]);
        match indexes[j] {
            Some(i) => {
                indexes[j] = Some(i - 1);
            },
            None => {},
        }
        j = j + 1;
    }
    assert(indexes@ =~= shifted(ix, 0, false));
}


/// One change of a list.
#[derive(Debug, Clone, PartialEq, Eq)]
pub enum ListChange<A> {
    Replace { values: Vec<A> },
    InsertAt { index: usize, value: A },
    UpdateAt { index: usize, value: A },
    RemoveAt { index: usize },
    Push { value: A },
    Pop {},
    Clear {},
}

/// The same change, as a vector change.
pub open spec fn list_as_vec<A>(c: ListChange<A>) -> VecChange<A> {
    match c {
        ListChange::Replace { values } => VecChange::Replace { values },
        ListChange::InsertAt { index, value } => VecChange::InsertAt { index, value },
        ListChange::UpdateAt { index, value } => VecChange::UpdateAt { index, value },
        ListChange::RemoveAt { index } => VecChange::RemoveAt { index },
        ListChange::Push { value } => VecChange::Push { value },
        ListChange::Pop {} => VecChange::Pop {},
        ListChange::Clear {} => VecChange::Clear {},
    }
}

pub open spec fn opt_list_as_vec<A>(c: Option<ListChange<A>>) -> Option<VecChange<A>> {
    match c {
        Some(c) => Some(list_as_vec(c)),
        None => None,
    }
}

impl<A> ListChange<A> {
    /// Applies `callback` to every value that the change carries, keeping
    /// its kind and its index.
    pub fn map<B, F>(self, callback: F) -> (r: ListChange<B>)
        where F: Fn(A) -> B,
        requires
            forall|a: A| #[trigger] callback.requires((a,)),
        ensures
            change_mapped(list_as_vec(self), list_as_vec(r), callback),
    {
        match self {
            ListChange::Replace { values } => {
                match (VecChange::Replace { values }).map(callback) {
                    VecChange::Replace { values } => ListChange::Replace { values },
                    _ => ListChange::Clear {},
                }
            },
            ListChange::InsertAt { index, value } => ListChange::InsertAt { index, value: callback(value) },
            ListChange::UpdateAt { index, value } => ListChange::UpdateAt { index, value: callback(value) },
            ListChange::RemoveAt { index } => ListChange::RemoveAt { index },
            ListChange::Push { value } => ListChange::Push { value: callback(value) },
            ListChange::Pop {} => ListChange::Pop {},
            ListChange::Clear {} => ListChange::Clear {},
        }
    }
}

/// Shifts the entries of `indexes` at or after `from` with the slice helpers.
fn shift_tail(indexes: &mut Vec<Option<usize>>, from: usize, up: bool) -> (r: Option<usize>)
    requires
        from <= old(indexes)@.len(),
        forall|k: int| from <= k < old(indexes)@.len() && (#[trigger] old(indexes)@[k]) is Some
            ==> if up { old(indexes)@[k]->0 < usize::MAX } else { old(indexes)@[k]->0 > 0 },
    ensures
        final(indexes)@ == shifted(old(indexes)@, from as int, up),
        up ==> r == first_present(old(indexes)@.subrange(from as int, old(indexes)@.len() as int)),
{
    let ghost ix = indexes@;
    let (_head, tail) = indexes.as_mut_slice().split_at_mut(from);
    let ghost t = tail@;
    let r = if up {
        increment_indexes(tail)
    } else {
        decrement_indexes(tail);
        None
    };
    proof {
        assert(t =~= ix.subrange(from as int, ix.len() as int));
    }
    assert(indexes@ =~= shifted(ix, from as int, up));
    r
}

/// The bookkeeping of a list filtered through a callback that returns
/// `Option`s, in the same terms as the vector filter.
pub struct FilterMap {
    length: usize,
    indexes: Vec<Option<usize>>,
}

impl FilterMap {
    pub closed spec fn table(&self) -> Seq<Option<usize>> {
        self.indexes@
    }

    pub closed spec fn count(&self) -> usize {
        self.length
    }

    /// The table's present entries are strictly increasing and below the count.
    pub closed spec fn wf(&self) -> bool {
        increasing(self.indexes@, self.length as nat)
    }

    /// A filter over an empty list.
    pub fn new() -> (r: Self)
        ensures
            r.table() == Seq::<Option<usize>>::empty(),
            r.count() == 0,
            r.wf(),
    {
        FilterMap { length: 0, indexes: Vec::new() }
    }

    /// The table, as the caller can read it.
    pub fn indexes(&self) -> (r: &Vec<Option<usize>>)
        ensures
            r@ == self.table(),
    {
        &self.indexes
    }

    /// The count, as the caller can read it.
    pub fn length(&self) -> (r: usize)
        ensures
            r == self.count(),
    {
        self.length
    }

    /// Takes one upstream change, whose values the callback has already turned
    /// into `Option`s, and returns the change of the filtered list, or `None`
    /// where the filtered list stays as it was.
    pub fn process_change<B>(&mut self, change: ListChange<Option<B>>) -> (out: Option<ListChange<B>>)
        requires
            old(self).wf(),
            change_fits(list_as_vec(change), old(self).table().len()),
            filter_grows(old(self).table(), list_as_vec(change)) ==> old(self).count() < usize::MAX,
        ensures
            final(self).wf(),
            filter_step(old(self).table(), old(self).count(), list_as_vec(change), final(self).table(), final(self).count(), opt_list_as_vec(out)),
    {
        match change {
            ListChange::Replace { values } => {
                let vlen = values.len();
                proof {
                    assert(mask_of(values@).len() == vlen);
                    lemma_positions_increasing(mask_of(values@));
                }
                let mut inner = crate::signals::signal_vec::FilterMap::new();
                let r = inner.process_change(VecChange::Replace { values });
                self.indexes = clone_indexes(inner.indexes());
                self.length = inner.length();
                match r {
                    Some(VecChange::Replace { values }) => Some(ListChange::Replace { values }),
                    _ => None,
                }
            },
            ListChange::InsertAt { index, value } => self.insert_value(index, value),
            ListChange::UpdateAt { index, value } => self.update_value(index, value),
            ListChange::RemoveAt { index } => self.remove_value(index),
            ListChange::Push { value } => match value {
                Some(v) => {
                    self.indexes.push(Some(self.length));
                    self.length = self.length + 1;
                    assert(increasing(self.indexes@, self.length as nat));
                    Some(ListChange::Push { value: v })
                },
                None => {
                    self.indexes.push(None);
                    assert(increasing(self.indexes@, self.length as nat));
                    None
                },
            },
            ListChange::Pop {} => match self.indexes.pop().unwrap() {
                Some(_) => {
                    proof { crate::signals::signal_vec::lemma_increasing_pop_present(old(self).indexes@, old(self).length as nat); }
                    self.length = self.length - 1;
                    Some(ListChange::Pop {})
                },
                None => {
                    assert(increasing(self.indexes@, self.length as nat));
                    None
                },
            },
            ListChange::Clear {} => {
                self.length = 0;
                self.indexes = Vec::new();
                Some(ListChange::Clear {})
            },
        }
    }

    fn insert_value<B>(&mut self, index: usize, value: Option<B>) -> (out: Option<ListChange<B>>)
        requires
            old(self).wf(),
            index <= old(self).indexes@.len(),
            value is Some ==> old(self).length < usize::MAX,
        ensures
            final(self).wf(),
            filter_step(old(self).indexes@, old(self).length, VecChange::InsertAt { index, value }, final(self).indexes@, final(self).length, opt_list_as_vec(out)),
    {
        let ghost ix = self.indexes@;
        let ghost len = self.length;
        match value {
            Some(v) => {
                proof {
                    lemma_first_some_from_bounds(ix, index as int, len);
                    lemma_first_present_from(ix, index as int, len);
                }
                let n = match shift_tail(&mut self.indexes, index, true) {
                    Some(n) => n,
                    None => self.length,
                };
                self.indexes.insert(index, Some(n));
                self.length = self.length + 1;
                assert(increasing(self.indexes@, self.length as nat));
                Some(ListChange::InsertAt { index: n, value: v })
            },
            None => {
                self.indexes.insert(index, None);
                assert(increasing(self.indexes@, self.length as nat));
                None
            },
        }
    }

    fn update_value<B>(&mut self, index: usize, value: Option<B>) -> (out: Option<ListChange<B>>)
        requires
            old(self).wf(),
            index < old(self).indexes@.len(),
            value is Some && old(self).indexes@[index as int] is None ==> old(self).length < usize::MAX,
        ensures
            final(self).wf(),
            filter_step(old(self).indexes@, old(self).length, VecChange::UpdateAt { index, value }, final(self).indexes@, final(self).length, opt_list_as_vec(out)),
    {
        let ghost ix = self.indexes@;
        let ghost len = self.length;
        let ilen = self.indexes.len();
        let next = index + 1;
        match value {
            Some(v) => match self.indexes[index] {
                Some(old_index) => Some(ListChange::UpdateAt { index: old_index, value: v }),
                None => {
                    proof {
                        lemma_first_some_from_bounds(ix, index + 1, len);
                        lemma_first_present_from(ix, index + 1, len);
                    }
                    let n = match shift_tail(&mut self.indexes, next, true) {
                        Some(n) => n,
                        None => self.length,
                    };
                    self.indexes.set(index, Some(n));
                    self.length = self.length + 1;
                    assert(increasing(self.indexes@, self.length as nat));
                    Some(ListChange::InsertAt { index: n, value: v })
                },
            },
            None => match self.indexes[index] {
                Some(old_index) => {
                    self.indexes.set(index, None);
                    shift_tail(&mut self.indexes, next, false);
                    self.length = self.length - 1;
                    assert(increasing(self.indexes@, self.length as nat));
                    Some(ListChange::RemoveAt { index: old_index })
                },
                None => None,
            },
        }
    }

    fn remove_value<B>(&mut self, index: usize) -> (out: Option<ListChange<B>>)
        requires
            old(self).wf(),
            index < old(self).indexes@.len(),
        ensures
            final(self).wf(),
            filter_step(old(self).indexes@, old(self).length, VecChange::<Option<B>>::RemoveAt { index }, final(self).indexes@, final(self).length, opt_list_as_vec(out)),
    {
        match self.indexes.remove(index) {
            Some(old_index) => {
                shift_tail(&mut self.indexes, index, false);
                self.length = self.length - 1;
                assert(increasing(self.indexes@, self.length as nat));
                Some(ListChange::RemoveAt { index: old_index })
            },
            None => {
                assert(increasing(self.indexes@, self.length as nat));
                None
            },
        }
    }
}

/// A copy of a position table.
fn clone_indexes(v: &Vec<Option<usize>>) -> (r: Vec<Option<usize>>)
    ensures
        r@ == v@,
{
    let mut r: Vec<Option<usize>> = Vec::new();
    let mut i: usize = 0;
    while i < v.len()
        invariant
            i <= v@.len(),
            r@ =~= v@.take(i as int),
        decreases v@.len() - i,
    {
        r.push(v[i]);
        i = i + 1;
    }
    assert(v@.take(v@.len() as int) =~= v@);
    r
}

/// A filtered list follows its upstream list, in the same terms as
/// `lemma_filter_map_follows` states it of vectors.
pub proof fn lemma_list_filter_map_follows<B>(
    s: Seq<Option<B>>,
    c: ListChange<Option<B>>,
    nix: Seq<Option<usize>>,
    nlen: usize,
    out: Option<ListChange<B>>,
)
    requires
        s.len() < usize::MAX,
        apply_change(s, list_as_vec(c)).len() <= usize::MAX,
        change_fits(list_as_vec(c), s.len()),
        filter_step(positions(mask_of(s)), count_true(mask_of(s)) as usize, list_as_vec(c), nix, nlen, opt_list_as_vec(out)),
    ensures
        nix == positions(mask_of(apply_change(s, list_as_vec(c)))),
        nlen == count_true(mask_of(apply_change(s, list_as_vec(c)))),
        apply_opt(filter_some(s), opt_list_as_vec(out)) == filter_some(apply_change(s, list_as_vec(c))),
{
    lemma_filter_map_follows(s, list_as_vec(c), nix, nlen, opt_list_as_vec(out));
}

/// A list that changes over time: each poll hands out the next change,
/// `None` where the list will not change again, or nothing yet.
pub trait SignalList: Sized {
    type Item;

    /// Whether a poll of this list may answer `r` and leave it as `after`.
    /// A list that states nothing of its polls keeps this default.
    open spec fn answers(&self, r: Async<Option<ListChange<Self::Item>>>, after: Self) -> bool {
        true
    }

    fn poll(&mut self) -> (r: Async<Option<ListChange<Self::Item>>>)
        ensures
            old(self).answers(r, *final(self)),
    ;
}

/// A run of polls: poll `i` of `states[i]` answered `answers[i]` and left
/// `states[i + 1]`.
pub open spec fn list_run<S: SignalList>(states: Seq<S>, answers: Seq<Async<Option<ListChange<S::Item>>>>) -> bool {
    &&& states.len() == answers.len() + 1
    &&& forall|i: int| 0 <= i < answers.len() ==> #[trigger] states[i].answers(answers[i], states[i + 1])
}

/// A list whose every value passes through a callback.
#[verifier::reject_recursive_types(A)]
#[verifier::reject_recursive_types(B)]
pub struct MappedList<A: SignalList, B, F: Fn(A::Item) -> B> {
    signal: A,
    callback: Total<A::Item, B, F>,
}

impl<A: SignalList, B, F: Fn(A::Item) -> B> MappedList<A, B, F> {
    /// The callback.
    pub closed spec fn callback(&self) -> F {
        self.callback.function()
    }

    /// The list whose values are mapped.
    pub closed spec fn source(&self) -> A {
        self.signal
    }

    /// `signal` with its values passed through `callback`, which accepts
    /// every value.
    pub fn new(signal: A, callback: F) -> (r: Self)
        requires
            forall|a: A::Item| #[trigger] callback.requires((a,)),
        ensures
            r.callback() == callback,
    {
        MappedList { signal, callback: Total::new(callback) }
    }

    /// The change of the mapped list for a change of the list: the same
    /// change with every value passed through the callback.
    pub fn map_change(&self, change: ListChange<A::Item>) -> (r: ListChange<B>)
        ensures
            change_mapped(list_as_vec(change), list_as_vec(r), self.callback()),
    {
        let callback = &self.callback;
        let f = |v: A::Item| -> (o: B) ensures callback.function().ensures((v,), o) { callback.call(v) };
        let r = change.map(f);
        proof {
            lemma_change_mapped_weaken(list_as_vec(change), list_as_vec(r), f, self.callback());
        }
        r
    }
}

impl<A: SignalList, B, F: Fn(A::Item) -> B> SignalList for MappedList<A, B, F> {
    type Item = B;

    /// Polls the list and passes the values of a change through the
    /// callback.
    open spec fn answers(&self, r: Async<Option<ListChange<B>>>, after: Self) -> bool {
        &&& after.callback() == self.callback()
        &&& exists|a: Async<Option<ListChange<A::Item>>>| {
            &&& #[trigger] self.source().answers(a, after.source())
            &&& match (a, r) {
                (Async::Ready(Some(c)), Async::Ready(Some(d))) => change_mapped(list_as_vec(c), list_as_vec(d), self.callback()),
                (Async::Ready(None), Async::Ready(None)) => true,
                (Async::NotReady, Async::NotReady) => true,
                _ => false,
            }
        }
    }

    fn poll(&mut self) -> (r: Async<Option<ListChange<B>>>) {
        let answer = self.signal.poll();
        let ghost seen = answer;
        let r = match answer {
            Async::Ready(Some(change)) => {
                let out = self.map_change(change);
                Async::Ready(Some(out))
            },
            Async::Ready(None) => Async::Ready(None),
            Async::NotReady => Async::NotReady,
        };
        assert(old(self).source().answers(seen, self.source()));
        r
    }
}

} // verus!

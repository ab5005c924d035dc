//! The combinators that poll a source and drive one of the bookkeeping state
//! machines with what it answers.
//!
//! The library's sources take no waker: `NotReady` means "nothing now, poll
//! again". Each poll here takes answers from its source until one yields an
//! output, the source has nothing now, or `u64::MAX` answers have passed in
//! this one poll; in the last case it answers as where the source has nothing
//! now, and the next poll goes on where it stopped. A source change that does
//! not fit the vector seen so far (out of range, or a value past `usize::MAX`
//! entries), and a new signal of `MapSignalVec` without a first value, break
//! the source's own contract; there the combinator ends its stream.
use vstd::prelude::*;
use vstd::std_specs::cmp::PartialEqSpec;
use crate::signals::signal::{signal_run, Dedupe, FilterMap as FilterMapState, Signal, State, Total};
use crate::signals::signal_vec::{
    apply_change, apply_firsts, change_fits, change_mapped, filter_grows, filter_step, fits, grows,
    len_after, len_fits, lemma_change_mapped_weaken, map_through, same_place, seconds_of,
    shrinks, start_change, vec_run, change_started, lemma_change_started, started_change, started_from, signals_polled, Async, FilterMap, Len, LenStep, MapSignal, SignalVec, VecChange,
};
use crate::signals::sort_by::{
    apply_resolved, apply_resolved_opt, carries_within, lemma_placed_within, placed_change, place_of,
    resolved_by, total_order, Order, SortBy,
};
use crate::signals::masks::{count_true, filter_some, mask_of, positions};
use crate::signals::signal_vec::{apply_changes, apply_opt, lemma_filter_map_follows};
use crate::signals::signal_list::{
    list_as_vec, list_run, opt_list_as_vec, FilterMap as FilterMapList, ListChange, SignalList,
};

verus! {

/// A run of filter steps: step `i` goes from `tables[i]`, `counts[i]` on
/// `changes[i]` to `tables[i + 1]`, `counts[i + 1]` and emits `outs[i]`.
pub open spec fn filter_run<B>(
    tables: Seq<Seq<Option<usize>>>,
    counts: Seq<usize>,
    changes: Seq<VecChange<Option<B>>>,
    outs: Seq<Option<VecChange<B>>>,
) -> bool {
    &&& tables.len() == changes.len() + 1
    &&& counts.len() == changes.len() + 1
    &&& outs.len() == changes.len()
    &&& forall|i: int| 0 <= i < changes.len() ==> #[trigger] filter_step(
        tables[i],
        counts[i],
        changes[i],
        tables[i + 1],
        counts[i + 1],
        outs[i],
    )
}

/// The vector `v` after the emitted changes `outs`, one after the other
/// (`None` leaves it as it is).
pub open spec fn apply_opts<A>(v: Seq<A>, outs: Seq<Option<VecChange<A>>>) -> Seq<A>
    decreases outs.len(),
{
    if outs.len() == 0 {
        v
    } else {
        apply_opt(apply_opts(v, outs.drop_last()), outs.last())
    }
}

/// Over a whole run of filter steps, a filtered view follows its source:
/// where the first table and count describe the source `s` (the callback's
/// results), the last ones describe `s` after every change of the run, and
/// the emitted changes, applied one after the other to the filtered vector of
/// `s`, give the filtered vector of `s` after the run. Every change of the
/// run fits the source as it stands then.
pub proof fn lemma_filter_run_follows<B>(
    s: Seq<Option<B>>,
    tables: Seq<Seq<Option<usize>>>,
    counts: Seq<usize>,
    changes: Seq<VecChange<Option<B>>>,
    outs: Seq<Option<VecChange<B>>>,
)
    requires
        filter_run(tables, counts, changes, outs),
        tables[0] == positions(mask_of(s)),
        counts[0] == count_true(mask_of(s)),
        forall|i: int| 0 <= i <= changes.len() ==> #[trigger] apply_changes(s, changes.take(i)).len() < usize::MAX,
        forall|i: int| 0 <= i < changes.len() ==> change_fits(
            #[trigger] changes[i],
            apply_changes(s, changes.take(i)).len(),
        ),
    ensures
        tables.last() == positions(mask_of(apply_changes(s, changes))),
        counts.last() == count_true(mask_of(apply_changes(s, changes))),
        apply_opts(filter_some(s), outs) == filter_some(apply_changes(s, changes)),
    decreases changes.len(),
{
    let n = changes.len();
    if n == 0 {
        assert(changes.take(0) =~= changes);
    } else {
        let k = n - 1;
        let pc = changes.drop_last();
        let pt = tables.drop_last();
        let pn = counts.drop_last();
        let po = outs.drop_last();
        assert forall|i: int| 0 <= i < pc.len() implies #[trigger] filter_step(pt[i], pn[i], pc[i], pt[i + 1], pn[i + 1], po[i]) by {
            assert(filter_step(tables[i], counts[i], changes[i], tables[i + 1], counts[i + 1], outs[i]));
        }
        assert forall|i: int| 0 <= i <= pc.len() implies #[trigger] apply_changes(s, pc.take(i)).len() < usize::MAX by {
            assert(pc.take(i) =~= changes.take(i));
            assert(apply_changes(s, changes.take(i)).len() < usize::MAX);
        }
        assert forall|i: int| 0 <= i < pc.len() implies change_fits(#[trigger] pc[i], apply_changes(s, pc.take(i)).len()) by {
            assert(pc.take(i) =~= changes.take(i));
            assert(change_fits(changes[i], apply_changes(s, changes.take(i)).len()));
        }
        lemma_filter_run_follows(s, pt, pn, pc, po);
        assert(changes.take(k) =~= pc);
        assert(changes.take(n as int) =~= changes);
        let before = apply_changes(s, pc);
        assert(apply_changes(s, changes.take(k)).len() < usize::MAX);
        assert(apply_changes(s, changes.take(n as int)).len() < usize::MAX);
        assert(change_fits(changes[k], apply_changes(s, changes.take(k)).len()));
        assert(filter_step(tables[k], counts[k], changes[k], tables[k + 1], counts[k + 1], outs[k]));
        assert(apply_changes(s, changes) == apply_change(before, changes[k]));
        lemma_filter_map_follows(before, changes[k], tables[k + 1], counts[k + 1], outs[k]);
    }
}

/// Whether `change`, seen through the table `table`, adds an entry to the
/// filtered vector.
pub fn filter_adds<B>(table: &Vec<Option<usize>>, change: &VecChange<Option<B>>) -> (r: bool)
    ensures
        r == filter_grows(table@, *change),
{
    match change {
        VecChange::InsertAt { value, .. } => value.is_some(),
        VecChange::Push { value } => value.is_some(),
        VecChange::UpdateAt { index, value } => value.is_some() && *index < table.len()
            && table[*index].is_none(),
        _ => false,
    }
}

/// The bookkeeping of a filter, kept well formed.
struct WellFormedFilter(FilterMap);

impl WellFormedFilter {
    #[verifier::type_invariant]
    spec fn inv(self) -> bool {
        self.0.wf()
    }
}

/// A vector filtered and mapped through a callback that returns `Option`s:
/// the values for which it returns `Some`, in order.
#[verifier::reject_recursive_types(S)]
#[verifier::reject_recursive_types(A)]
pub struct FilterMapSignalVec<S: SignalVec, A, F: Fn(S::Item) -> Option<A>> {
    signal: S,
    state: WellFormedFilter,
    callback: Total<S::Item, Option<A>, F>,
}

impl<S: SignalVec, A, F: Fn(S::Item) -> Option<A>> FilterMapSignalVec<S, A, F> {
    /// The callback.
    pub closed spec fn callback(&self) -> F {
        self.callback.function()
    }

    /// The bookkeeping: one entry per value of the source vector.
    pub closed spec fn table(&self) -> Seq<Option<usize>> {
        self.state.0.table()
    }

    /// How many values the filtered vector holds.
    pub closed spec fn count(&self) -> usize {
        self.state.0.count()
    }

    /// The source vector.
    pub closed spec fn source(&self) -> S {
        self.signal
    }

    /// `signal` filtered through `callback`, which accepts every value;
    /// nothing seen yet.
    pub fn new(signal: S, callback: F) -> (r: Self)
        requires
            forall|a: S::Item| #[trigger] callback.requires((a,)),
        ensures
            r.callback() == callback,
            r.table() == Seq::<Option<usize>>::empty(),
            r.count() == 0,
    {
        FilterMapSignalVec { signal, state: WellFormedFilter(FilterMap::new()), callback: Total::new(callback) }
    }

    /// The bookkeeping, to read.
    pub fn state(&self) -> (r: &FilterMap)
        ensures
            r.table() == self.table(),
            r.count() == self.count(),
            r.wf(),
    {
        proof { use_type_invariant(&self.state); }
        &self.state.0
    }
}

impl<S: SignalVec, A, F: Fn(S::Item) -> Option<A>> SignalVec for FilterMapSignalVec<S, A, F> {
    type Item = A;

    /// Polls the source, `answers[i]` being its `i`-th answer, passes the
    /// values of each change through the callback (`changes[i]`) and runs
    /// them through the filter, until one changes the filtered vector
    /// (`Ready(Some(..))` with that change), the source ends or sends a
    /// change that does not fit (`Ready(None)`) or has nothing now
    /// (`NotReady`). The filter's bookkeeping goes through one filter step per
    /// change taken, and every step but the one that answers emits nothing.
    open spec fn answers(&self, r: Async<Option<VecChange<A>>>, after: Self) -> bool {
        exists|states: Seq<S>, answers: Seq<Async<Option<VecChange<S::Item>>>>,
            tables: Seq<Seq<Option<usize>>>, counts: Seq<usize>,
            changes: Seq<VecChange<Option<A>>>, outs: Seq<Option<VecChange<A>>>|
            #![trigger vec_run(states, answers), filter_run(tables, counts, changes, outs)]
        {
            &&& vec_run(states, answers)
            &&& states[0] == self.source() && states.last() == after.source()
            &&& after.callback() == self.callback()
            &&& filter_run(tables, counts, changes, outs)
            &&& tables[0] == self.table() && counts[0] == self.count()
            &&& tables.last() == after.table() && counts.last() == after.count()
            &&& 0 < answers.len() && changes.len() <= answers.len() <= changes.len() + 1
            &&& forall|i: int| 0 <= i < changes.len() ==> (#[trigger] answers[i] matches Async::Ready(Some(c))
                && change_mapped(c, changes[i], self.callback()))
            &&& match r {
                Async::Ready(Some(out)) => {
                    &&& answers.len() == changes.len()
                    &&& outs.last() == Some(out)
                    &&& forall|i: int| 0 <= i < changes.len() - 1 ==> #[trigger] outs[i] is None
                },
                Async::Ready(None) => {
                    &&& answers.len() == changes.len() + 1
                    &&& forall|i: int| 0 <= i < changes.len() ==> #[trigger] outs[i] is None
                    &&& answers.last() is Ready
                    &&& answers.last() matches Async::Ready(Some(c)) ==> (!change_fits(c, tables.last().len())
                        || counts.last() == usize::MAX)
                },
                Async::NotReady => {
                    &&& forall|i: int| 0 <= i < changes.len() ==> #[trigger] outs[i] is None
                    &&& answers.len() == changes.len() + 1 ==> answers.last() is NotReady
                },
            }
        }
    }

    fn poll(&mut self) -> (r: Async<Option<VecChange<A>>>) {
        let ghost cb = self.callback.function();
        let mut taken = WellFormedFilter(FilterMap::new());
        std::mem::swap(&mut taken, &mut self.state);
        proof { use_type_invariant(&taken); }
        let WellFormedFilter(mut state) = taken;
        let ghost t0 = state.table();
        let ghost c0 = state.count();
        let ghost mut states: Seq<S> = seq![self.signal];
        let ghost mut answers: Seq<Async<Option<VecChange<S::Item>>>> = Seq::empty();
        let ghost mut tables: Seq<Seq<Option<usize>>> = seq![t0];
        let ghost mut counts: Seq<usize> = seq![c0];
        let ghost mut changes: Seq<VecChange<Option<A>>> = Seq::empty();
        let ghost mut outs: Seq<Option<VecChange<A>>> = Seq::empty();
        let mut budget: u64 = u64::MAX;
        while budget > 0
            invariant
                state.wf(),
                self.callback.function() == cb,
                cb == old(self).callback(),
                t0 == old(self).table() && c0 == old(self).count(),
                vec_run(states, answers),
                states[0] == old(self).source() && states.last() == self.signal,
                answers.len() == changes.len(),
                answers.len() == u64::MAX - budget,
                filter_run(tables, counts, changes, outs),
                tables[0] == t0 && counts[0] == c0,
                tables.last() == state.table() && counts.last() == state.count(),
                forall|i: int| 0 <= i < changes.len() ==> (#[trigger] answers[i] matches Async::Ready(Some(c))
                    && change_mapped(c, changes[i], cb)),
                forall|i: int| 0 <= i < changes.len() ==> #[trigger] outs[i] is None,
            decreases budget,
        {
            let answer = self.signal.poll();
            let ghost pa = answers;
            proof {
                let ghost ps = states;
                states = states.push(self.signal);
                answers = answers.push(answer);
                assert forall|i: int| 0 <= i < answers.len() implies #[trigger] states[i].answers(answers[i], states[i + 1]) by {
                    if i < pa.len() {
                        assert(ps[i].answers(pa[i], ps[i + 1]));
                    }
                }
                assert forall|i: int| 0 <= i < changes.len() implies (#[trigger] answers[i] matches Async::Ready(Some(c))
                    && change_mapped(c, changes[i], cb)) by {
                    assert(answers[i] == pa[i]);
                }
                assert(vec_run(states, answers));
            }
            match answer {
                Async::Ready(Some(change)) => {
                    if !fits(&change, state.indexes().len()) {
                        self.state = WellFormedFilter(state);
                        assert(states.last() == self.source());
                        return Async::Ready(None);
                    }
                    let mapped = map_through(&self.callback, change);
                    if filter_adds(state.indexes(), &mapped) && state.length() == usize::MAX {
                        self.state = WellFormedFilter(state);
                        assert(states.last() == self.source());
                        return Async::Ready(None);
                    }
                    proof {
                        assert(change_fits(mapped, state.table().len()));
                    }
                    let out = state.process_change(mapped);
                    let ghost prev_outs = outs;
                    proof {
                        let ghost pc = changes;
                        let ghost po = outs;
                        let ghost pt = tables;
                        let ghost pn = counts;
                        tables = tables.push(state.table());
                        counts = counts.push(state.count());
                        changes = changes.push(mapped);
                        outs = outs.push(out);
                        assert forall|i: int| 0 <= i < changes.len() implies #[trigger] filter_step(
                            tables[i], counts[i], changes[i], tables[i + 1], counts[i + 1], outs[i]) by {
                            if i < pc.len() {
                                assert(filter_step(pt[i], pn[i], pc[i], pt[i + 1], pn[i + 1], po[i]));
                            }
                        }
                        assert forall|i: int| 0 <= i < changes.len() implies (#[trigger] answers[i] matches Async::Ready(Some(c))
                            && change_mapped(c, changes[i], cb)) by {
                            if i < pc.len() {
                                assert(changes[i] == pc[i]);
                            } else {
                                assert(answers[i] == Async::Ready(Some(change)));
                                assert(change_mapped(change, changes[i], cb));
                            }
                        }
                    }
                    match out {
                        Some(o) => {
                            self.state = WellFormedFilter(state);
                            assert forall|i: int| 0 <= i < changes.len() - 1 implies #[trigger] outs[i] is None by {
                                assert(outs[i] == prev_outs[i]);
                            }
                            assert(filter_run(tables, counts, changes, outs));
                            assert(states.last() == self.source());
                            assert(tables.last() == self.table() && counts.last() == self.count());
                            assert(outs.last() == Some(o));
                            return Async::Ready(Some(o));
                        },
                        None => {},
                    }
                },
                Async::Ready(None) => {
                    self.state = WellFormedFilter(state);
                    assert(states.last() == self.source());
                    return Async::Ready(None);
                },
                Async::NotReady => {
                    self.state = WellFormedFilter(state);
                    assert(states.last() == self.source());
                    return Async::NotReady;
                },
            }
            budget = budget - 1;
        }
        self.state = WellFormedFilter(state);
        assert(states.last() == self.source());
        Async::NotReady
    }
}

/// Whether `change` can be applied to a list of length `len`.
pub fn list_fits<A>(change: &ListChange<A>, len: usize) -> (r: bool)
    ensures
        r == change_fits(list_as_vec(*change), len as nat),
{
    match change {
        ListChange::InsertAt { index, .. } => *index <= len,
        ListChange::UpdateAt { index, .. } => *index < len,
        ListChange::RemoveAt { index } => *index < len,
        ListChange::Pop {} => len > 0,
        _ => true,
    }
}

/// Whether `change`, seen through the table `table`, adds an entry to the
/// filtered list.
pub fn list_filter_adds<B>(table: &Vec<Option<usize>>, change: &ListChange<Option<B>>) -> (r: bool)
    ensures
        r == filter_grows(table@, list_as_vec(*change)),
{
    match change {
        ListChange::InsertAt { value, .. } => value.is_some(),
        ListChange::Push { value } => value.is_some(),
        ListChange::UpdateAt { index, value } => value.is_some() && *index < table.len()
            && table[*index].is_none(),
        _ => false,
    }
}

/// `change` with every value passed through `callback`.
pub fn map_list_through<T, B, F: Fn(T) -> B>(callback: &Total<T, B, F>, change: ListChange<T>) -> (r: ListChange<B>)
    ensures
        change_mapped(list_as_vec(change), list_as_vec(r), callback.function()),
{
    let f = |v: T| -> (o: B) ensures callback.function().ensures((v,), o) { callback.call(v) };
    let r = change.map(f);
    proof {
        lemma_change_mapped_weaken(list_as_vec(change), list_as_vec(r), f, callback.function());
    }
    r
}

/// The bookkeeping of a list filter, kept well formed.
struct WellFormedListFilter(FilterMapList);

impl WellFormedListFilter {
    #[verifier::type_invariant]
    spec fn inv(self) -> bool {
        self.0.wf()
    }
}

/// A list filtered and mapped through a callback that returns `Option`s:
/// the values for which it returns `Some`, in order.
#[verifier::reject_recursive_types(S)]
#[verifier::reject_recursive_types(A)]
pub struct FilterMapSignalList<S: SignalList, A, F: Fn(S::Item) -> Option<A>> {
    signal: S,
    state: WellFormedListFilter,
    callback: Total<S::Item, Option<A>, F>,
}

impl<S: SignalList, A, F: Fn(S::Item) -> Option<A>> FilterMapSignalList<S, A, F> {
    /// The callback.
    pub closed spec fn callback(&self) -> F {
        self.callback.function()
    }

    /// The bookkeeping: one entry per value of the source list.
    pub closed spec fn table(&self) -> Seq<Option<usize>> {
        self.state.0.table()
    }

    /// How many values the filtered list holds.
    pub closed spec fn count(&self) -> usize {
        self.state.0.count()
    }

    /// The source list.
    pub closed spec fn source(&self) -> S {
        self.signal
    }

    /// `signal` filtered through `callback`, which accepts every value;
    /// nothing seen yet.
    pub fn new(signal: S, callback: F) -> (r: Self)
        requires
            forall|a: S::Item| #[trigger] callback.requires((a,)),
        ensures
            r.callback() == callback,
            r.table() == Seq::<Option<usize>>::empty(),
            r.count() == 0,
    {
        FilterMapSignalList { signal, state: WellFormedListFilter(FilterMapList::new()), callback: Total::new(callback) }
    }

    /// The bookkeeping, to read.
    pub fn state(&self) -> (r: &FilterMapList)
        ensures
            r.table() == self.table(),
            r.count() == self.count(),
            r.wf(),
    {
        proof { use_type_invariant(&self.state); }
        &self.state.0
    }
}

impl<S: SignalList, A, F: Fn(S::Item) -> Option<A>> SignalList for FilterMapSignalList<S, A, F> {
    type Item = A;

    /// Polls the source, `answers[i]` being its `i`-th answer, passes the
    /// values of each change through the callback (`changes[i]`) and runs
    /// them through the filter, until one changes the filtered list
    /// (`Ready(Some(..))` with that change), the source ends or sends a
    /// change that does not fit (`Ready(None)`) or has nothing now
    /// (`NotReady`). The filter's bookkeeping goes through one filter step per
    /// change taken, and every step but the one that answers emits nothing.
    open spec fn answers(&self, r: Async<Option<ListChange<A>>>, after: Self) -> bool {
        exists|states: Seq<S>, answers: Seq<Async<Option<ListChange<S::Item>>>>,
            tables: Seq<Seq<Option<usize>>>, counts: Seq<usize>,
            changes: Seq<VecChange<Option<A>>>, outs: Seq<Option<VecChange<A>>>|
            #![trigger list_run(states, answers), filter_run(tables, counts, changes, outs)]
        {
            &&& list_run(states, answers)
            &&& states[0] == self.source() && states.last() == after.source()
            &&& after.callback() == self.callback()
            &&& filter_run(tables, counts, changes, outs)
            &&& tables[0] == self.table() && counts[0] == self.count()
            &&& tables.last() == after.table() && counts.last() == after.count()
            &&& 0 < answers.len() && changes.len() <= answers.len() <= changes.len() + 1
            &&& forall|i: int| 0 <= i < changes.len() ==> (#[trigger] answers[i] matches Async::Ready(Some(c))
                && change_mapped(list_as_vec(c), changes[i], self.callback()))
            &&& match r {
                Async::Ready(Some(out)) => {
                    &&& answers.len() == changes.len()
                    &&& outs.last() == Some(list_as_vec(out))
                    &&& forall|i: int| 0 <= i < changes.len() - 1 ==> #[trigger] outs[i] is None
                },
                Async::Ready(None) => {
                    &&& answers.len() == changes.len() + 1
                    &&& forall|i: int| 0 <= i < changes.len() ==> #[trigger] outs[i] is None
                    &&& answers.last() is Ready
                    &&& answers.last() matches Async::Ready(Some(c)) ==> (!change_fits(list_as_vec(c), tables.last().len())
                        || counts.last() == usize::MAX)
                },
                Async::NotReady => {
                    &&& forall|i: int| 0 <= i < changes.len() ==> #[trigger] outs[i] is None
                    &&& answers.len() == changes.len() + 1 ==> answers.last() is NotReady
                },
            }
        }
    }

    fn poll(&mut self) -> (r: Async<Option<ListChange<A>>>) {
        let ghost cb = self.callback.function();
        let mut taken = WellFormedListFilter(FilterMapList::new());
        std::mem::swap(&mut taken, &mut self.state);
        proof { use_type_invariant(&taken); }
        let WellFormedListFilter(mut state) = taken;
        let ghost t0 = state.table();
        let ghost c0 = state.count();
        let ghost mut states: Seq<S> = seq![self.signal];
        let ghost mut answers: Seq<Async<Option<ListChange<S::Item>>>> = Seq::empty();
        let ghost mut tables: Seq<Seq<Option<usize>>> = seq![t0];
        let ghost mut counts: Seq<usize> = seq![c0];
        let ghost mut changes: Seq<VecChange<Option<A>>> = Seq::empty();
        let ghost mut outs: Seq<Option<VecChange<A>>> = Seq::empty();
        let mut budget: u64 = u64::MAX;
        while budget > 0
            invariant
                state.wf(),
                self.callback.function() == cb,
                cb == old(self).callback(),
                t0 == old(self).table() && c0 == old(self).count(),
                list_run(states, answers),
                states[0] == old(self).source() && states.last() == self.signal,
                answers.len() == changes.len(),
                answers.len() == u64::MAX - budget,
                filter_run(tables, counts, changes, outs),
                tables[0] == t0 && counts[0] == c0,
                tables.last() == state.table() && counts.last() == state.count(),
                forall|i: int| 0 <= i < changes.len() ==> (#[trigger] answers[i] matches Async::Ready(Some(c))
                    && change_mapped(list_as_vec(c), changes[i], cb)),
                forall|i: int| 0 <= i < changes.len() ==> #[trigger] outs[i] is None,
            decreases budget,
        {
            let answer = self.signal.poll();
            let ghost pa = answers;
            proof {
                let ghost ps = states;
                states = states.push(self.signal);
                answers = answers.push(answer);
                assert forall|i: int| 0 <= i < answers.len() implies #[trigger] states[i].answers(answers[i], states[i + 1]) by {
                    if i < pa.len() {
                        assert(ps[i].answers(pa[i], ps[i + 1]));
                    }
                }
                assert forall|i: int| 0 <= i < changes.len() implies (#[trigger] answers[i] matches Async::Ready(Some(c))
                    && change_mapped(list_as_vec(c), changes[i], cb)) by {
                    assert(answers[i] == pa[i]);
                }
                assert(list_run(states, answers));
            }
            match answer {
                Async::Ready(Some(change)) => {
                    if !list_fits(&change, state.indexes().len()) {
                        self.state = WellFormedListFilter(state);
                        assert(states.last() == self.source());
                        return Async::Ready(None);
                    }
                    let mapped = map_list_through(&self.callback, change);
                    if list_filter_adds(state.indexes(), &mapped) && state.length() == usize::MAX {
                        self.state = WellFormedListFilter(state);
                        assert(states.last() == self.source());
                        return Async::Ready(None);
                    }
                    proof {
                        assert(change_fits(list_as_vec(mapped), state.table().len()));
                    }
                    let out = state.process_change(mapped);
                    let ghost prev_outs = outs;
                    proof {
                        let ghost pc = changes;
                        let ghost po = outs;
                        let ghost pt = tables;
                        let ghost pn = counts;
                        tables = tables.push(state.table());
                        counts = counts.push(state.count());
                        changes = changes.push(list_as_vec(mapped));
                        outs = outs.push(opt_list_as_vec(out));
                        assert forall|i: int| 0 <= i < changes.len() implies #[trigger] filter_step(
                            tables[i], counts[i], changes[i], tables[i + 1], counts[i + 1], outs[i]) by {
                            if i < pc.len() {
                                assert(filter_step(pt[i], pn[i], pc[i], pt[i + 1], pn[i + 1], po[i]));
                            }
                        }
                        assert forall|i: int| 0 <= i < changes.len() implies (#[trigger] answers[i] matches Async::Ready(Some(c))
                            && change_mapped(list_as_vec(c), changes[i], cb)) by {
                            if i < pc.len() {
                                assert(changes[i] == pc[i]);
                            } else {
                                assert(answers[i] == Async::Ready(Some(change)));
                                assert(change_mapped(list_as_vec(change), changes[i], cb));
                            }
                        }
                    }
                    match out {
                        Some(o) => {
                            self.state = WellFormedListFilter(state);
                            assert forall|i: int| 0 <= i < changes.len() - 1 implies #[trigger] outs[i] is None by {
                                assert(outs[i] == prev_outs[i]);
                            }
                            assert(filter_run(tables, counts, changes, outs));
                            assert(states.last() == self.source());
                            assert(tables.last() == self.table() && counts.last() == self.count());
                            assert(outs.last() == Some(list_as_vec(o)));
                            return Async::Ready(Some(o));
                        },
                        None => {},
                    }
                },
                Async::Ready(None) => {
                    self.state = WellFormedListFilter(state);
                    assert(states.last() == self.source());
                    return Async::Ready(None);
                },
                Async::NotReady => {
                    self.state = WellFormedListFilter(state);
                    assert(states.last() == self.source());
                    return Async::NotReady;
                },
            }
            budget = budget - 1;
        }
        self.state = WellFormedListFilter(state);
        assert(states.last() == self.source());
        Async::NotReady
    }
}

/// The length after the changes `cs`, one after the other, from `len`.
pub open spec fn len_run<A>(len: nat, cs: Seq<VecChange<A>>) -> nat
    decreases cs.len(),
{
    if cs.len() == 0 {
        len
    } else {
        len_after(len_run(len, cs.drop_last()), cs.last())
    }
}

/// Whether one of the changes `cs`, one after the other from `len`, changed
/// the length.
pub open spec fn len_moved<A>(len: nat, cs: Seq<VecChange<A>>) -> bool
    decreases cs.len(),
{
    if cs.len() == 0 {
        false
    } else {
        len_moved(len, cs.drop_last()) || len_run(len, cs) != len_run(len, cs.drop_last())
    }
}

/// The length signal follows its vector over a whole poll: where it held the
/// length of `v`, after changes that each fit the vector as it stands then it
/// holds the length of `v` after them all.
pub proof fn lemma_len_run_follows<A>(v: Seq<A>, cs: Seq<VecChange<A>>)
    requires
        forall|i: int| 0 <= i < cs.len() ==> change_fits(#[trigger] cs[i], apply_changes(v, cs.take(i)).len()),
    ensures
        len_run(v.len(), cs) == apply_changes(v, cs).len(),
    decreases cs.len(),
{
    if cs.len() > 0 {
        let k = cs.len() - 1;
        let pc = cs.drop_last();
        assert forall|i: int| 0 <= i < pc.len() implies change_fits(#[trigger] pc[i], apply_changes(v, pc.take(i)).len()) by {
            assert(pc.take(i) =~= cs.take(i));
            assert(change_fits(cs[i], apply_changes(v, cs.take(i)).len()));
        }
        lemma_len_run_follows(v, pc);
        assert(cs.take(k) =~= pc);
        assert(change_fits(cs[k], apply_changes(v, cs.take(k)).len()));
        crate::signals::signal_vec::lemma_len_follows(apply_changes(v, pc), cs[k]);
    }
}

/// The length of a vector, as a signal.
pub struct LenSignal<S: SignalVec> {
    signal: S,
    state: Len,
}

impl<S: SignalVec> LenSignal<S> {
    /// The source vector.
    pub closed spec fn source(&self) -> S {
        self.signal
    }

    /// The length seen so far.
    pub closed spec fn length(&self) -> usize {
        self.state.length()
    }

    /// Whether the length has not been handed out yet.
    pub closed spec fn is_first(&self) -> bool {
        self.state.is_first()
    }

    /// The length of `signal`, nothing seen yet.
    pub fn new(signal: S) -> (r: Self)
        ensures
            r.length() == 0,
            r.is_first(),
    {
        LenSignal { signal, state: Len::new() }
    }
}

/// What the length signal answers once its vector has nothing now: the
/// length where it moved (`moved`) or was never handed out (`first`), no
/// change otherwise; it has been handed out afterwards.
pub open spec fn len_settled(first: bool, moved: bool, r: State<usize>, after_first: bool, len: usize) -> bool {
    &&& !after_first
    &&& (moved || first) ==> r == State::Changed(len)
    &&& !(moved || first) ==> r is NotChanged
}

impl<S: SignalVec> Signal for LenSignal<S> {
    type Item = usize;

    /// Polls the vector, `answers[i]` being its `i`-th answer, and follows
    /// each change `cs[i]` (`Len::take`) until the vector has nothing now;
    /// then hands out the length where one of the changes moved it or it was
    /// never handed out. No change once the vector has ended, or where it
    /// sends a change that would take the length out of `usize`.
    open spec fn answers(&self, r: State<usize>, after: Self) -> bool {
        exists|states: Seq<S>, answers: Seq<Async<Option<VecChange<S::Item>>>>, cs: Seq<VecChange<S::Item>>|
            #![trigger vec_run(states, answers), len_run(self.length() as nat, cs)]
        {
            &&& vec_run(states, answers)
            &&& states[0] == self.source() && states.last() == after.source()
            &&& 0 < answers.len() && cs.len() <= answers.len() <= cs.len() + 1
            &&& forall|i: int| 0 <= i < cs.len() ==> #[trigger] answers[i] == Async::Ready(Some(cs[i]))
            &&& after.length() == len_run(self.length() as nat, cs)
            &&& if answers.len() == cs.len() + 1 {
                match answers.last() {
                    Async::NotReady => len_settled(self.is_first(), len_moved(self.length() as nat, cs), r,
                        after.is_first(), after.length()),
                    Async::Ready(None) => r is NotChanged && after.is_first() == self.is_first(),
                    Async::Ready(Some(c)) => !len_fits(c, after.length()) && r is NotChanged
                        && after.is_first() == self.is_first(),
                }
            } else {
                len_settled(self.is_first(), len_moved(self.length() as nat, cs), r, after.is_first(), after.length())
            }
        }
    }

    fn poll(&mut self) -> (r: State<usize>) {
        let ghost mut states: Seq<S> = seq![self.signal];
        let ghost mut answers: Seq<Async<Option<VecChange<S::Item>>>> = Seq::empty();
        let ghost mut cs: Seq<VecChange<S::Item>> = Seq::empty();
        let ghost l0 = self.state.length() as nat;
        let mut changed = false;
        let mut budget: u64 = u64::MAX;
        while budget > 0
            invariant
                l0 == old(self).length(),
                self.state.length() == len_run(l0, cs),
                self.state.is_first() == old(self).is_first(),
                changed == len_moved(l0, cs),
                vec_run(states, answers),
                states[0] == old(self).source() && states.last() == self.signal,
                answers.len() == cs.len(),
                answers.len() == u64::MAX - budget,
                forall|i: int| 0 <= i < cs.len() ==> #[trigger] answers[i] == Async::Ready(Some(cs[i])),
            decreases budget,
        {
            let answer = self.signal.poll();
            let ghost seen = answer;
            let ghost pa = answers;
            proof {
                let ghost ps = states;
                states = states.push(self.signal);
                answers = answers.push(answer);
                assert forall|i: int| 0 <= i < answers.len() implies #[trigger] states[i].answers(answers[i], states[i + 1]) by {
                    if i < pa.len() {
                        assert(ps[i].answers(pa[i], ps[i + 1]));
                    }
                }
                assert forall|i: int| 0 <= i < cs.len() implies #[trigger] answers[i] == Async::Ready(Some(cs[i])) by {
                    assert(answers[i] == pa[i]);
                }
                assert(vec_run(states, answers));
            }
            match self.state.take(answer, changed) {
                LenStep::Continue(c) => {
                    proof {
                        if let Async::Ready(Some(change)) = seen {
                            let ghost prev = cs;
                            cs = cs.push(change);
                            assert(cs.drop_last() =~= prev);
                            assert forall|i: int| 0 <= i < cs.len() implies #[trigger] answers[i] == Async::Ready(Some(cs[i])) by {
                                if i < prev.len() {
                                    assert(answers[i] == pa[i]);
                                }
                            }
                        }
                    }
                    changed = c;
                },
                LenStep::Done(r) => {
                    assert(len_run(l0, cs) == self.length());
                    assert(states.last() == self.source());
                    return r;
                },
            }
            budget = budget - 1;
        }
        let r = self.state.settle(changed);
        assert(len_run(l0, cs) == self.length());
        assert(states.last() == self.source());
        r
    }
}

/// A signal filtered and mapped through a callback that returns `Option`s:
/// the values for which it returns `Some`, and `None` first where the first
/// value does not pass.
#[verifier::reject_recursive_types(S)]
#[verifier::reject_recursive_types(C)]
pub struct FilterMapSignal<S: Signal, C, F: Fn(S::Item) -> Option<C>> {
    signal: S,
    state: FilterMapState,
    callback: Total<S::Item, Option<C>, F>,
}

impl<S: Signal, C, F: Fn(S::Item) -> Option<C>> FilterMapSignal<S, C, F> {
    /// The callback.
    pub closed spec fn callback(&self) -> F {
        self.callback.function()
    }

    /// The signal whose values are filtered.
    pub closed spec fn source(&self) -> S {
        self.signal
    }

    /// Whether no value has been handed out yet.
    pub closed spec fn is_first(&self) -> bool {
        self.state.is_first()
    }

    /// `signal` filtered through `callback`, which accepts every value.
    pub fn new(signal: S, callback: F) -> (r: Self)
        requires
            forall|a: S::Item| #[trigger] callback.requires((a,)),
        ensures
            r.callback() == callback,
            r.is_first(),
    {
        FilterMapSignal { signal, state: FilterMapState::new(), callback: Total::new(callback) }
    }
}

impl<S: Signal, C, F: Fn(S::Item) -> Option<C>> Signal for FilterMapSignal<S, C, F> {
    type Item = Option<C>;

    /// Polls the signal, `answers[i]` being its `i`-th answer and `results[i]`
    /// the callback's result on a new value, until the callback passes one
    /// (`Changed(Some(..))`), or the first value does not pass
    /// (`Changed(None)`), or the signal has no new value (`NotChanged`).
    /// Every answer but the last is a new value that did not pass.
    open spec fn answers(&self, r: State<Option<C>>, after: Self) -> bool {
        exists|states: Seq<S>, answers: Seq<State<S::Item>>, results: Seq<Option<C>>|
            #![trigger signal_run(states, answers), results.len()]
        {
            &&& signal_run(states, answers)
            &&& states[0] == self.source() && states.last() == after.source()
            &&& after.callback() == self.callback()
            &&& results.len() == answers.len()
            &&& forall|i: int| 0 <= i < answers.len() ==> (#[trigger] answers[i] matches State::Changed(v)
                ==> self.callback().ensures((v,), results[i]))
            &&& forall|i: int| 0 <= i < answers.len() - 1 ==> (#[trigger] answers[i] is Changed
                && results[i] is None && !self.is_first())
            &&& match r {
                State::Changed(x) => {
                    &&& answers.len() > 0
                    &&& answers.last() is Changed
                    &&& results.last() == x
                    &&& x is None ==> self.is_first()
                    &&& !after.is_first()
                },
                State::NotChanged => {
                    &&& after.is_first() == self.is_first()
                    &&& answers.len() > 0 ==> (answers.last() is NotChanged
                        || (results.last() is None && !self.is_first()))
                },
            }
        }
    }

    fn poll(&mut self) -> (r: State<Option<C>>) {
        let ghost mut states: Seq<S> = seq![self.signal];
        let ghost mut answers: Seq<State<S::Item>> = Seq::empty();
        let ghost mut results: Seq<Option<C>> = Seq::empty();
        let mut budget: u64 = u64::MAX;
        while budget > 0
            invariant
                self.callback.function() == old(self).callback(),
                self.state.is_first() == old(self).is_first(),
                signal_run(states, answers),
                states[0] == old(self).source() && states.last() == self.signal,
                results.len() == answers.len(),
                forall|i: int| 0 <= i < answers.len() ==> (#[trigger] answers[i] matches State::Changed(v)
                    ==> old(self).callback().ensures((v,), results[i])),
                forall|i: int| 0 <= i < answers.len() ==> (#[trigger] answers[i] is Changed
                    && results[i] is None && !old(self).is_first()),
            decreases budget,
        {
            let answer = self.signal.poll();
            let ghost pa = answers;
            let ghost pr = results;
            proof {
                let ghost ps = states;
                states = states.push(self.signal);
                answers = answers.push(answer);
                assert forall|i: int| 0 <= i < answers.len() implies #[trigger] states[i].answers(answers[i], states[i + 1]) by {
                    if i < pa.len() {
                        assert(ps[i].answers(pa[i], ps[i + 1]));
                    }
                }
            }
            match answer {
                State::Changed(value) => {
                    let passed = self.callback.call(value);
                    proof {
                        results = results.push(passed);
                        assert forall|i: int| 0 <= i < answers.len() implies (#[trigger] answers[i] matches State::Changed(v)
                            ==> old(self).callback().ensures((v,), results[i])) by {
                            if i < pa.len() {
                                assert(answers[i] == pa[i] && results[i] == pr[i]);
                            }
                        }
                        assert forall|i: int| 0 <= i < answers.len() - 1 implies (#[trigger] answers[i] is Changed
                            && results[i] is None && !old(self).is_first()) by {
                            assert(answers[i] == pa[i] && results[i] == pr[i]);
                        }
                    }
                    match self.state.process_value(passed) {
                        Some(state) => {
                            assert(signal_run(states, answers));
                            assert(states[0] == old(self).source() && states.last() == self.source());
                            assert(self.callback() == old(self).callback());
                            assert(results.len() == answers.len());
                            assert(answers.len() > 0 && answers.last() is Changed);
                            assert(state matches State::Changed(x) && results.last() == x);
                            assert(state matches State::Changed(x) && (x is None ==> old(self).is_first()));
                            assert(!self.is_first());
                            return state;
                        },
                        None => {
                            assert(!old(self).is_first());
                        },
                    }
                },
                State::NotChanged => {
                    proof {
                        results = results.push(None);
                        assert forall|i: int| 0 <= i < answers.len() implies (#[trigger] answers[i] matches State::Changed(v)
                            ==> old(self).callback().ensures((v,), results[i])) by {
                            if i < pa.len() {
                                assert(answers[i] == pa[i] && results[i] == pr[i]);
                            }
                        }
                        assert forall|i: int| 0 <= i < answers.len() - 1 implies (#[trigger] answers[i] is Changed
                            && results[i] is None && !old(self).is_first()) by {
                            assert(answers[i] == pa[i] && results[i] == pr[i]);
                        }
                    }
                    assert(signal_run(states, answers));
                    assert(states[0] == old(self).source() && states.last() == self.source());
                    assert(self.callback() == old(self).callback());
                    assert(results.len() == answers.len());
                    assert(answers.last() is NotChanged);
                    return State::NotChanged;
                },
            }
            budget = budget - 1;
        }
        State::NotChanged
    }
}

/// A callback on references that accepts every argument.
#[verifier::reject_recursive_types(T)]
#[verifier::reject_recursive_types(B)]
pub struct TotalRef<T, B, F: Fn(&T) -> B> {
    f: F,
    types: std::marker::PhantomData<(T, B)>,
}

impl<T, B, F: Fn(&T) -> B> TotalRef<T, B, F> {
    #[verifier::type_invariant]
    spec fn accepts_all(self) -> bool {
        forall|t: &T| #[trigger] self.f.requires((t,))
    }

    /// The callback.
    pub closed spec fn function(&self) -> F {
        self.f
    }

    /// `f`, which accepts every argument.
    pub fn new(f: F) -> (r: Self)
        requires
            forall|t: &T| #[trigger] f.requires((t,)),
        ensures
            r.function() == f,
    {
        TotalRef { f, types: std::marker::PhantomData }
    }

    /// The callback's result on `t`.
    pub fn call(&self, t: &T) -> (r: B)
        ensures
            self.function().ensures((t,), r),
    {
        proof { use_type_invariant(self); }
        (self.f)(t)
    }
}

/// A signal whose values pass through a callback, skipping each value equal
/// to the last one that passed.
#[verifier::reject_recursive_types(S)]
#[verifier::reject_recursive_types(C)]
pub struct MapDedupe<S: Signal, C, F: Fn(&S::Item) -> C> {
    signal: S,
    seen: Dedupe<S::Item>,
    callback: TotalRef<S::Item, C, F>,
}

/// `u` does not pass after `last` passed: a value passed before, and `u`
/// equals it (as far as `==` of `T` is known).
pub open spec fn repeats<T: PartialEq>(last: Option<T>, u: T) -> bool {
    &&& last is Some
    &&& T::obeys_eq_spec() ==> last.unwrap().eq_spec(&u)
}

impl<S: Signal, C, F: Fn(&S::Item) -> C> MapDedupe<S, C, F> where S::Item: PartialEq {
    /// The callback.
    pub closed spec fn callback(&self) -> F {
        self.callback.function()
    }

    /// The signal whose values are mapped.
    pub closed spec fn source(&self) -> S {
        self.signal
    }

    /// The last value that passed.
    pub closed spec fn last(&self) -> Option<S::Item> {
        self.seen.last()
    }

    /// `signal` through `callback`, which accepts every value; nothing has
    /// passed yet.
    pub fn new(signal: S, callback: F) -> (r: Self)
        requires
            forall|t: &S::Item| #[trigger] callback.requires((t,)),
        ensures
            r.callback() == callback,
            r.last() is None,
    {
        MapDedupe { signal, seen: Dedupe::new(), callback: TotalRef::new(callback) }
    }
}

impl<S: Signal, C, F: Fn(&S::Item) -> C> Signal for MapDedupe<S, C, F> where S::Item: PartialEq {
    type Item = C;

    /// Polls the signal, `answers[i]` being its `i`-th answer, until a new
    /// value passes (`Changed` with the callback's result on it; it becomes
    /// the last one that passed), or the signal has no new value
    /// (`NotChanged`, nothing passed). A value passes where none passed before
    /// or it differs from the last one that did (by `==`); every answer but
    /// the last is a value that did not pass.
    open spec fn answers(&self, r: State<C>, after: Self) -> bool {
        exists|states: Seq<S>, answers: Seq<State<S::Item>>| {
            &&& #[trigger] signal_run(states, answers)
            &&& states[0] == self.source() && states.last() == after.source()
            &&& after.callback() == self.callback()
            &&& forall|i: int| 0 <= i < answers.len() - 1 ==>
                (#[trigger] answers[i] matches State::Changed(u) && repeats(self.last(), u))
            &&& match r {
                State::Changed(c) => {
                    &&& answers.len() > 0
                    &&& answers.last() matches State::Changed(v)
                    &&& after.last() == Some(v)
                    &&& self.callback().ensures((&v,), c)
                    &&& (S::Item::obeys_eq_spec() && self.last() is Some) ==> !self.last().unwrap().eq_spec(&v)
                },
                State::NotChanged => {
                    &&& after.last() == self.last()
                    &&& answers.len() > 0 ==> (answers.last() is NotChanged
                        || (answers.last() matches State::Changed(u) && repeats(self.last(), u)))
                },
            }
        }
    }

    fn poll(&mut self) -> (r: State<C>) {
        let ghost mut states: Seq<S> = seq![self.signal];
        let ghost mut answers: Seq<State<S::Item>> = Seq::empty();
        let mut budget: u64 = u64::MAX;
        while budget > 0
            invariant
                self.callback.function() == old(self).callback(),
                self.seen.last() == old(self).last(),
                signal_run(states, answers),
                states[0] == old(self).source() && states.last() == self.signal,
                forall|i: int| 0 <= i < answers.len() ==>
                    (#[trigger] answers[i] matches State::Changed(u) && repeats(old(self).last(), u)),
            decreases budget,
        {
            let answer = self.signal.poll();
            let ghost pa = answers;
            proof {
                let ghost ps = states;
                states = states.push(self.signal);
                answers = answers.push(answer);
                assert forall|i: int| 0 <= i < answers.len() implies #[trigger] states[i].answers(answers[i], states[i + 1]) by {
                    if i < pa.len() {
                        assert(ps[i].answers(pa[i], ps[i + 1]));
                    }
                }
                assert forall|i: int| 0 <= i < answers.len() - 1 implies
                    (#[trigger] answers[i] matches State::Changed(u) && repeats(old(self).last(), u)) by {
                    assert(answers[i] == pa[i]);
                }
                assert(signal_run(states, answers));
            }
            match answer {
                State::Changed(value) => {
                    let fresh = self.seen.is_new(&value);
                    if fresh {
                        let out = self.callback.call(&value);
                        self.seen.keep(value);
                        assert(states[0] == old(self).source() && states.last() == self.source());
                        assert(answers.last() matches State::Changed(v) && self.last() == Some(v));
                        return State::Changed(out);
                    }
                },
                State::NotChanged => {
                    assert(states[0] == old(self).source() && states.last() == self.source());
                    return State::NotChanged;
                },
            }
            budget = budget - 1;
        }
        State::NotChanged
    }
}

/// The bookkeeping of a sorted vector, kept well formed, with a pending
/// change that carries only upstream positions.
struct WellFormedSort<A, F: Fn(&A, &A) -> Order>(SortBy<A, F>);

impl<A, F: Fn(&A, &A) -> Order> WellFormedSort<A, F> {
    #[verifier::type_invariant]
    spec fn inv(self) -> bool {
        &&& self.0.wf()
        &&& self.0.pending() matches Some(p) ==> carries_within(p, self.0.values().len())
    }
}

/// A vector kept sorted by a comparison callback.
#[verifier::reject_recursive_types(S)]
pub struct SortBySignalVec<S: SignalVec, F: Fn(&S::Item, &S::Item) -> Order> {
    signal: S,
    state: Option<WellFormedSort<S::Item, F>>,
}

impl<S: SignalVec, F: Fn(&S::Item, &S::Item) -> Order> SortBySignalVec<S, F> where S::Item: Clone {
    /// The source vector.
    pub closed spec fn source(&self) -> S {
        self.signal
    }

    /// Whether the bookkeeping is in place: always, but after a poll that
    /// its source interrupted by unwinding.
    pub closed spec fn live(&self) -> bool {
        self.state is Some
    }

    /// The source values seen so far.
    pub closed spec fn values(&self) -> Seq<S::Item> {
        match self.state {
            Some(w) => w.0.values(),
            None => Seq::empty(),
        }
    }

    /// The source positions in sorted order.
    pub closed spec fn indexes(&self) -> Seq<usize> {
        match self.state {
            Some(w) => w.0.indexes(),
            None => Seq::empty(),
        }
    }

    /// The second half of a move, still to be handed out.
    pub closed spec fn pending(&self) -> Option<VecChange<usize>> {
        match self.state {
            Some(w) => w.0.pending(),
            None => None,
        }
    }

    /// The sorted vector handed out so far.
    pub closed spec fn sorted(&self) -> Seq<S::Item> {
        match self.state {
            Some(w) => w.0.sorted(),
            None => Seq::empty(),
        }
    }

    /// `signal` sorted by `compare`, which orders totally; nothing seen yet.
    pub fn new(signal: S, compare: F) -> (r: Self)
        requires
            total_order(compare),
        ensures
            r.live(),
            r.values() == Seq::<S::Item>::empty(),
            r.pending() is None,
    {
        SortBySignalVec { signal, state: Some(WellFormedSort(SortBy::new(compare))) }
    }
}

/// The sorted view keeps its source values, positions and pending change.
pub open spec fn sort_kept<S: SignalVec, F: Fn(&S::Item, &S::Item) -> Order>(
    before: SortBySignalVec<S, F>,
    after: SortBySignalVec<S, F>,
) -> bool where S::Item: Clone {
    &&& after.values() == before.values()
    &&& after.indexes() == before.indexes()
    &&& after.pending() == before.pending()
}

impl<S: SignalVec, F: Fn(&S::Item, &S::Item) -> Order> SignalVec for SortBySignalVec<S, F> where S::Item: Clone {
    type Item = S::Item;

    /// Hands out the second half of a move where one is pending, without
    /// polling the source. Otherwise polls the source once: for a change
    /// that fits, the source values follow it, and the sorted change for it
    /// is handed out with clones of the values it carries (the first half,
    /// where a value moves, the other half then pending); the end of the
    /// source, or a change that does not fit, ends the view; nothing now
    /// leaves it as it is. Without its bookkeeping it ends.
    open spec fn answers(&self, r: Async<Option<VecChange<S::Item>>>, after: Self) -> bool {
        &&& self.live() ==> after.live()
        &&& !self.live() ==> r == Async::<Option<VecChange<S::Item>>>::Ready(None) && after.source() == self.source()
        &&& (self.live() && self.pending() is Some) ==> {
            &&& r matches Async::Ready(Some(rc)) && resolved_by(self.pending().unwrap(), rc, self.values())
            &&& after.values() == self.values()
            &&& after.indexes() == self.indexes()
            &&& after.pending() is None
            &&& after.source() == self.source()
        }
        &&& (self.live() && self.pending() is None) ==> exists|a: Async<Option<VecChange<S::Item>>>| {
            &&& #[trigger] self.source().answers(a, after.source())
            &&& match a {
                Async::Ready(Some(change)) => if change_fits(change, self.values().len())
                    && !((change is InsertAt || change is Push) && self.values().len() == usize::MAX) {
                    &&& after.values() == apply_change(self.values(), change)
                    &&& r matches Async::Ready(Some(rc)) && exists|out: VecChange<usize>| {
                        &&& #[trigger] resolved_by(out, rc, after.values())
                        &&& apply_resolved_opt(
                            apply_resolved(self.sorted(), out, after.values()),
                            after.pending(),
                            after.values(),
                        ) == after.sorted()
                    }
                } else {
                    r == Async::<Option<VecChange<S::Item>>>::Ready(None) && sort_kept(*self, after)
                },
                Async::Ready(None) => r == Async::<Option<VecChange<S::Item>>>::Ready(None) && sort_kept(*self, after),
                Async::NotReady => r is NotReady && sort_kept(*self, after),
            }
        }
    }

    fn poll(&mut self) -> (r: Async<Option<VecChange<S::Item>>>)
    {
        let taken = self.state.take();
        let mut state = match taken {
            Some(w) => {
                proof { use_type_invariant(&w); }
                let WellFormedSort(state) = w;
                state
            },
            None => {
                return Async::Ready(None);
            },
        };
        if let Some(pending) = state.take_pending() {
            let out = state.resolve(&pending);
            self.state = Some(WellFormedSort(state));
            return Async::Ready(Some(out));
        }
        let answer = self.signal.poll();
        let ghost seen_answer = answer;
        proof {
            assert(old(self).source().answers(seen_answer, self.source()));
        }
        match answer {
            Async::Ready(Some(change)) => {
                let len = state.len();
                if !fits(&change, len) || (grows(&change) && len == usize::MAX) {
                    self.state = Some(WellFormedSort(state));
                    assert(sort_kept(*old(self), *self));
                    assert(old(self).source().answers(seen_answer, self.source()));
                    return Async::Ready(None);
                }
                let ghost seen = change;
                let out = state.process_change(change);
                let n = state.len();
                proof {
                    match seen {
                        VecChange::InsertAt { index, .. } => {
                            lemma_placed_within(state, index);
                        },
                        VecChange::Push { .. } => {
                            lemma_placed_within(state, (n - 1) as usize);
                        },
                        VecChange::UpdateAt { index, .. } => {
                            lemma_placed_within(state, index);
                        },
                        _ => {},
                    }
                }
                let rc = state.resolve(&out);
                let ghost witness = (seen, out);
                self.state = Some(WellFormedSort(state));
                assert(apply_change(old(self).values(), witness.0) == self.values());
                assert(resolved_by(witness.1, rc, self.values()));
                assert(old(self).source().answers(seen_answer, self.source()));
                Async::Ready(Some(rc))
            },
            Async::Ready(None) => {
                self.state = Some(WellFormedSort(state));
                assert(sort_kept(*old(self), *self));
                assert(old(self).source().answers(seen_answer, self.source()));
                Async::Ready(None)
            },
            Async::NotReady => {
                self.state = Some(WellFormedSort(state));
                assert(sort_kept(*old(self), *self));
                assert(old(self).source().answers(seen_answer, self.source()));
                Async::NotReady
            },
        }
    }
}

/// A vector whose every value is turned into a signal by a callback: the
/// vector of those signals' latest values.
#[verifier::reject_recursive_types(S)]
#[verifier::reject_recursive_types(B)]
pub struct MapSignalVec<S: SignalVec, B: Signal, F: Fn(S::Item) -> B> {
    signal: Option<S>,
    state: MapSignal<B>,
    callback: Total<S::Item, B, F>,
}

impl<S: SignalVec, B: Signal, F: Fn(S::Item) -> B> MapSignalVec<S, B, F> {
    /// The signals, one per source value.
    pub closed spec fn signals(&self) -> Seq<B> {
        self.state.signals()
    }

    /// The source, until it has ended.
    pub closed spec fn source(&self) -> Option<S> {
        self.signal
    }

    /// The callback.
    pub closed spec fn callback(&self) -> F {
        self.callback.function()
    }

    /// Whether the source has not ended yet.
    pub closed spec fn source_live(&self) -> bool {
        self.signal is Some
    }

    /// `signal` with every value turned into a signal by `callback`, which
    /// accepts every value; no signals yet.
    pub fn new(signal: S, callback: F) -> (r: Self)
        requires
            forall|a: S::Item| #[trigger] callback.requires((a,)),
        ensures
            r.signals() == Seq::<B>::empty(),
            r.source_live(),
            r.callback() == callback,
    {
        MapSignalVec { signal: Some(signal), state: MapSignal::new(), callback: Total::new(callback) }
    }

    /// `change` with every value turned into a new signal, polled once.
    fn start_signals(&self, change: VecChange<S::Item>) -> (r: VecChange<(B, State<B::Item>)>)
        ensures
            change_started(change, r, self.callback()),
    {
        let callback = &self.callback;
        let f = |v: S::Item| -> (p: (B, State<B::Item>))
            ensures
                started_from(callback.function(), v, p),
        {
            let mut signal = callback.call(v);
            let ghost s0 = signal;
            let first = signal.poll();
            assert(callback.function().ensures((v,), s0) && s0.answers(first, signal));
            (signal, first)
        };
        let ghost before = change;
        let r = change.map(f);
        proof {
            lemma_change_started(before, r, f, self.callback());
        }
        r
    }
}

impl<S: SignalVec, B: Signal, F: Fn(S::Item) -> B> SignalVec for MapSignalVec<S, B, F> {
    type Item = B::Item;

    /// While the source has not ended, polls it once: the values of a change
    /// become new signals that the callback gives, each polled once for its
    /// first value, and the change of those first values is handed out (the
    /// view ends where the change does not fit or a new signal has no first
    /// value); where the source has ended, the view ends once no signal is
    /// left. Otherwise it polls the signals in order and hands out the first
    /// new value as an update of its entry (`signals_polled`).
    open spec fn answers(&self, r: Async<Option<VecChange<B::Item>>>, after: Self) -> bool {
        &&& after.callback() == self.callback()
        &&& match self.source() {
            None => after.source() is None && signals_polled(self.signals(), after.signals(), r),
            Some(src) => exists|a: Async<Option<VecChange<S::Item>>>, s2: S| {
                &&& #[trigger] src.answers(a, s2)
                &&& match a {
                    Async::Ready(Some(change)) => {
                        &&& after.source() == Some(s2)
                        &&& {
                            ||| r == Async::<Option<VecChange<B::Item>>>::Ready(None) && after.signals() == self.signals()
                            ||| r matches Async::Ready(Some(out)) && exists|paired: VecChange<(B, State<B::Item>)>, c: VecChange<(B, B::Item)>| {
                                &&& #[trigger] change_started(change, paired, self.callback())
                                &&& #[trigger] started_change(paired, c)
                                &&& after.signals() == apply_firsts(self.signals(), c)
                                &&& seconds_of(c, out)
                            }
                        }
                    },
                    Async::Ready(None) => {
                        &&& after.source() is None
                        &&& self.signals().len() == 0 ==> r == Async::<Option<VecChange<B::Item>>>::Ready(None)
                            && after.signals() == self.signals()
                        &&& self.signals().len() > 0 ==> signals_polled(self.signals(), after.signals(), r)
                    },
                    Async::NotReady => after.source() == Some(s2) && signals_polled(self.signals(), after.signals(), r),
                }
            },
        }
    }

    fn poll(&mut self) -> (r: Async<Option<VecChange<B::Item>>>) {
        let taken = self.signal.take();
        match taken {
            Some(mut signal) => {
                let ghost src = signal;
                let answer = signal.poll();
                let ghost seen = answer;
                let ghost s2 = signal;
                assert(src.answers(seen, s2));
                match answer {
                    Async::Ready(Some(change)) => {
                        self.signal = Some(signal);
                        if !fits(&change, self.state.len()) {
                            return Async::Ready(None);
                        }
                        let ghost ch = change;
                        let paired = self.start_signals(change);
                        let ghost pr = paired;
                        match start_change(paired) {
                            Some(c) => {
                                let ghost started = c;
                                let out = self.state.process_change(c);
                                assert(change_started(ch, pr, old(self).callback()) && started_change(pr, started));
                                assert(self.signals() == apply_firsts(old(self).signals(), started) && seconds_of(started, out));
                                return Async::Ready(Some(out));
                            },
                            None => {
                                return Async::Ready(None);
                            },
                        }
                    },
                    Async::Ready(None) => {
                        if self.state.len() == 0 {
                            return Async::Ready(None);
                        }
                    },
                    Async::NotReady => {
                        self.signal = Some(signal);
                    },
                }
                let polled = self.state.poll_signals();
                let r = match polled {
                    Some(change) => Async::Ready(Some(change)),
                    None => Async::NotReady,
                };
                assert(signals_polled(old(self).signals(), self.signals(), r));
                assert(src.answers(seen, s2));
                r
            },
            None => {
                let polled = self.state.poll_signals();
                match polled {
                    Some(change) => Async::Ready(Some(change)),
                    None => Async::NotReady,
                }
            },
        }
    }
}

} // verus!

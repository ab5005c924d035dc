//! Single values that change over time.
use vstd::prelude::*;
use vstd::std_specs::cmp::PartialEqSpec;
use std::marker::PhantomData;

verus! {

/// The outcome of polling a signal: a new value, or no change.
#[derive(Debug, Clone, Copy, PartialEq, Eq)]
pub enum State<A> {
    Changed(A),
    NotChanged,
}

impl<A> State<A> {
    /// Applies `f` to the new value, where there is one.
    pub fn map<B, F>(self, f: F) -> (r: State<B>)
        where F: FnOnce(A) -> B,
        requires
            self matches State::Changed(a) ==> f.requires((a,)),
        ensures
            match self {
                State::Changed(a) => r matches State::Changed(b) && f.ensures((a,), b),
                State::NotChanged => r is NotChanged,
            },
    {
        match self {
            State::Changed(value) => State::Changed(f(value)),
            State::NotChanged => State::NotChanged,
        }
    }
}

/// A value that changes over time: each poll hands out the new value, or
/// says that there is no change.
pub trait Signal: Sized {
    type Item;

    /// Whether a poll of this signal may answer `r` and leave it as `after`.
    /// A signal that states nothing of its polls keeps this default.
    open spec fn answers(&self, r: State<Self::Item>, after: Self) -> bool {
        true
    }

    fn poll(&mut self) -> (r: State<Self::Item>)
        ensures
            old(self).answers(r, *final(self)),
    ;
}

/// A run of polls: poll `i` of `states[i]` answered `answers[i]` and left
/// `states[i + 1]`.
pub open spec fn signal_run<S: Signal>(states: Seq<S>, answers: Seq<State<S::Item>>) -> bool {
    &&& states.len() == answers.len() + 1
    &&& forall|i: int| 0 <= i < answers.len() ==> #[trigger] states[i].answers(answers[i], states[i + 1])
}

/// A signal that has one value and changes once, to that value.
pub struct Always<A> {
    value: Option<A>,
}

impl<A> Always<A> {
    /// The value that the next poll hands out, if any.
    pub closed spec fn pending(&self) -> Option<A> {
        self.value
    }
}

impl<A> Signal for Always<A> {
    type Item = A;

    /// Hands out the value once; after that, there is no change.
    open spec fn answers(&self, r: State<A>, after: Self) -> bool {
        &&& match self.pending() {
            Some(v) => r == State::Changed(v),
            None => r is NotChanged,
        }
        &&& after.pending() is None
    }

    fn poll(&mut self) -> (r: State<A>) {
        match self.value.take() {
            Some(value) => State::Changed(value),
            None => State::NotChanged,
        }
    }
}

/// A signal that changes once, to `value`.
pub fn always<A>(value: A) -> (r: Always<A>)
    ensures
        r.pending() == Some(value),
{
    Always { value: Some(value) }
}

/// Copies of the two values, which stay as they were.
pub fn pair_clone<A: Clone, B: Clone>(left: &mut A, right: &mut B) -> (r: (A, B))
    ensures
        *final(left) == *old(left),
        *final(right) == *old(right),
        cloned(*old(left), r.0),
        cloned(*old(right), r.1),
{
    (left.clone(), right.clone())
}

/// The bookkeeping of a signal filtered through a callback that returns
/// `Option`s: the first value always passes, as `None` where the callback
/// refused it; later values pass only where the callback accepts them.
pub struct FilterMap {
    first: bool,
}

impl FilterMap {
    /// Whether no value has passed yet.
    pub closed spec fn is_first(&self) -> bool {
        self.first
    }

    pub fn new() -> (r: Self)
        ensures
            r.is_first(),
    {
        FilterMap { first: true }
    }

    /// Takes the callback's result for one upstream value: `Some` with the
    /// signal's new state where it passes, `None` where the upstream signal
    /// has to be polled again.
    pub fn process_value<C>(&mut self, value: Option<C>) -> (r: Option<State<Option<C>>>)
        ensures
            match value {
                Some(v) => r == Some(State::Changed(Some(v))) && !final(self).is_first(),
                None => if old(self).is_first() {
                    r == Some(State::<Option<C>>::Changed(None)) && !final(self).is_first()
                } else {
                    r is None && !final(self).is_first()
                },
            },
    {
        match value {
            Some(value) => {
                self.first = false;
                Some(State::Changed(Some(value)))
            },
            None => {
                if self.first {
                    self.first = false;
                    Some(State::Changed(None))
                } else {
                    None
                }
            },
        }
    }
}

/// Two signals combined through a callback: once both have a value, the
/// combined signal changes whenever either of them does.
pub struct Map2<A: Signal, B: Signal, C> {
    signal1: A,
    signal2: B,
    callback: C,
    left: Option<A::Item>,
    right: Option<B::Item>,
}

impl<A: Signal, B: Signal, C> Map2<A, B, C> {
    /// The latest value of the first signal.
    pub closed spec fn left(&self) -> Option<A::Item> {
        self.left
    }

    /// The latest value of the second signal.
    pub closed spec fn right(&self) -> Option<B::Item> {
        self.right
    }

    /// The callback.
    pub closed spec fn callback(&self) -> C {
        self.callback
    }

    /// The first signal.
    pub closed spec fn first(&self) -> A {
        self.signal1
    }

    /// The second signal.
    pub closed spec fn second(&self) -> B {
        self.signal2
    }

    /// Whether the second signal is polled after the first one answered
    /// `first`: where the first changed or already has a value.
    pub open spec fn second_wanted(&self, first: State<A::Item>) -> bool {
        first is Changed || self.left() is Some
    }

    /// Whether the second signal is polled after the first one answered
    /// `first`.
    pub fn wants_second(&self, first: &State<A::Item>) -> (r: bool)
        ensures
            r == self.second_wanted(*first),
    {
        match (first, &self.left) {
            (State::Changed(_), _) => true,
            (_, Some(_)) => true,
            _ => false,
        }
    }

}

impl<A: Signal, B: Signal, C: Fn(&A::Item, &B::Item) -> D, D> Map2<A, B, C> {
    /// The callback accepts every pair of values.
    pub closed spec fn callable(&self) -> bool {
        forall|l: A::Item, r: B::Item| #[trigger] self.callback.requires((&l, &r))
    }

    /// Combines `signal1` and `signal2` through `callback`, which accepts
    /// every pair of values.
    pub fn new(signal1: A, signal2: B, callback: C) -> (r: Self)
        requires
            forall|l: A::Item, x: B::Item| #[trigger] callback.requires((&l, &x)),
        ensures
            r.left() is None,
            r.right() is None,
            r.callback() == callback,
            r.callable(),
    {
        Map2 { signal1, signal2, callback, left: None, right: None }
    }

    /// What `combine` makes of the answers `first` and `second`: `after`
    /// keeps the new values, and `r` is the callback's result on the latest
    /// pair where either signal changed and both have a value, no change
    /// otherwise.
    pub open spec fn combined(&self, first: State<A::Item>, second: Option<State<B::Item>>, after: Self, r: State<D>) -> bool {
        &&& after.callback() == self.callback()
        &&& after.left() == match first {
            State::Changed(l) => Some(l),
            State::NotChanged => self.left(),
        }
        &&& after.right() == match second {
            Some(State::Changed(x)) => Some(x),
            _ => self.right(),
        }
        &&& match r {
            State::Changed(v) => {
                &&& (first is Changed || second matches Some(State::Changed(_)))
                &&& after.left() matches Some(l)
                &&& after.right() matches Some(x)
                &&& self.callback().ensures((&l, &x), v)
            },
            State::NotChanged => !(first is Changed || second matches Some(State::Changed(_)))
                || after.left() is None || after.right() is None,
        }
    }

    /// Takes what the first signal answered and, where it was polled, what
    /// the second answered: keeps the new values, and changes, to the
    /// callback's result on the latest pair, where either signal changed
    /// and both have a value.
    pub fn combine(&mut self, first: State<A::Item>, second: Option<State<B::Item>>) -> (r: State<D>)
        requires
            old(self).callable(),
            second is Some <==> old(self).second_wanted(first),
        ensures
            final(self).callable(),
            old(self).combined(first, second, *final(self), r),
            final(self).first() == old(self).first(),
            final(self).second() == old(self).second(),
    {
        let changed = match (&first, &second) {
            (State::Changed(_), _) => true,
            (_, Some(State::Changed(_))) => true,
            _ => false,
        };
        match first {
            State::Changed(l) => {
                self.left = Some(l);
            },
            State::NotChanged => {},
        }
        match second {
            Some(State::Changed(x)) => {
                self.right = Some(x);
            },
            _ => {},
        }
        if changed {
            match (&self.left, &self.right) {
                (Some(l), Some(x)) => {
                    assert(self.callback.requires((l, x)));
                    State::Changed((self.callback)(l, x))
                },
                _ => State::NotChanged,
            }
        } else {
            State::NotChanged
        }
    }
}

impl<A: Signal, B: Signal, C: Fn(&A::Item, &B::Item) -> D, D> Map2<A, B, C> {
    /// Polls the first signal, and the second where `second_wanted` says
    /// so, then combines what they answered.
    pub fn poll(&mut self) -> (r: State<D>)
        requires
            old(self).callable(),
        ensures
            final(self).callable(),
            exists|first: State<A::Item>, second: Option<State<B::Item>>| {
                &&& old(self).first().answers(first, final(self).first())
                &&& match second {
                    Some(s) => old(self).second().answers(s, final(self).second()),
                    None => final(self).second() == old(self).second(),
                }
                &&& (second is Some <==> old(self).second_wanted(first))
                &&& #[trigger] old(self).combined(first, second, *final(self), r)
            },
    {
        let first = self.signal1.poll();
        let ghost s1 = self.signal1;
        let second = if self.wants_second(&first) { Some(self.signal2.poll()) } else { None };
        let ghost s2 = self.signal2;
        let ghost before = *self;
        let ghost answers = (first, second);
        let r = self.combine(first, second);
        assert(before.left() == old(self).left() && before.right() == old(self).right());
        assert(before.callback() == old(self).callback());
        assert(old(self).combined(answers.0, answers.1, *self, r));
        assert(self.first() == s1 && self.second() == s2);
        r
    }
}

/// The last value that passed a signal that drops repeated values.
pub struct Dedupe<A> {
    old_value: Option<A>,
}

impl<A: PartialEq> Dedupe<A> {
    /// The last value that passed.
    pub closed spec fn last(&self) -> Option<A> {
        self.old_value
    }

    /// No value has passed yet.
    pub fn new() -> (r: Self)
        ensures
            r.last() is None,
    {
        Dedupe { old_value: None }
    }

    /// Whether `value` passes: where no value passed yet, or it differs from
    /// the last one that did (by `==` of `A`).
    pub fn is_new(&self, value: &A) -> (r: bool)
        ensures
            self.last() is None ==> r,
            A::obeys_eq_spec() ==> (self.last() matches Some(old) ==> (r <==> !old.eq_spec(value))),
    {
        match &self.old_value {
            Some(old) => !old.eq(value),
            None => true,
        }
    }

    /// Keeps `value` as the last one that passed.
    pub fn keep(&mut self, value: A)
        ensures
            final(self).last() == Some(value),
    {
        self.old_value = Some(value);
    }
}

/// The items of `s` whose answer in `alive` is `true`, in order.
pub open spec fn kept_where<T>(s: Seq<T>, alive: Seq<bool>) -> Seq<T>
    decreases s.len(),
{
    if s.len() == 0 {
        Seq::empty()
    } else {
        let rest = kept_where(s.drop_last(), alive.drop_last());
        if alive.last() {
            rest.push(s.last())
        } else {
            rest
        }
    }
}

/// One walk of a broadcast over its children: `visit` hands the new value to
/// a child and says whether the child is still alive. Each child is visited
/// once, in order; the live ones stay, in order, and the dead ones leave.
/// Returns how many stay.
pub fn compact_children<T, F: Fn(&T) -> bool>(children: &mut Vec<T>, visit: &F) -> (kept: usize)
    requires
        forall|t: &T| #[trigger] visit.requires((t,)),
    ensures
        final(children)@.len() == kept,
        exists|alive: Seq<bool>| {
            &&& alive.len() == old(children)@.len()
            &&& forall|i: int| 0 <= i < alive.len() ==> #[trigger] visit.ensures((&old(children)@[i],), alive[i])
            &&& final(children)@ == kept_where(old(children)@, alive)
        },
{
    let ghost orig = children@;
    let mut rest: Vec<T> = Vec::new();
    std::mem::swap(&mut rest, children);
    let len = rest.len();
    let mut pending = crate::signals::signal_vec::into_reversed(rest);
    let mut out: Vec<T> = Vec::new();
    let ghost mut alive: Seq<bool> = Seq::empty();
    let mut k: usize = 0;
    while pending.len() > 0
        invariant
            forall|t: &T| #[trigger] visit.requires((t,)),
            orig.len() == len,
            k + pending@.len() == len,
            forall|j: int| 0 <= j < pending@.len() ==> pending@[j] == orig[orig.len() - 1 - j],
            alive.len() == k,
            forall|i: int| 0 <= i < k ==> #[trigger] visit.ensures((&orig[i],), alive[i]),
            out@ == kept_where(orig.take(k as int), alive),
        decreases pending@.len(),
    {
        let child = pending.pop().unwrap();
        assert(child == orig[k as int]);
        let live = visit(&child);
        proof {
            let ghost prev = alive;
            alive = alive.push(live);
            assert(orig.take(k + 1).drop_last() =~= orig.take(k as int));
            assert(alive.drop_last() =~= prev);
            assert forall|i: int| 0 <= i < k + 1 implies #[trigger] visit.ensures((&orig[i],), alive[i]) by {
                if i < k {
                    assert(alive[i] == prev[i]);
                }
            }
        }
        if live {
            out.push(child);
        }
        k = k + 1;
    }
    proof {
        assert(orig.take(len as int) =~= orig);
    }
    let kept = out.len();
    *children = out;
    kept
}

/// A signal of signals that follows the latest inner signal.
pub struct Flatten<A: Signal> {
    signal: A,
    inner: Option<A::Item>,
}

impl<A: Signal> Flatten<A> {
    /// The inner signal followed now, if any.
    pub closed spec fn inner(&self) -> Option<A::Item> {
        self.inner
    }

    /// The outer signal.
    pub closed spec fn source(&self) -> A {
        self.signal
    }

    /// Follows the inner signals of `signal`, none yet.
    pub fn new(signal: A) -> (r: Self)
        ensures
            r.inner() is None,
    {
        Flatten { signal, inner: None }
    }
}

impl<A: Signal> Flatten<A> {
    /// The inner signal followed once the outer one answered `outer`: the new
    /// one where it changed, the same one otherwise.
    pub open spec fn taken(&self, outer: State<A::Item>) -> Option<A::Item> {
        match outer {
            State::Changed(i) => Some(i),
            State::NotChanged => self.inner(),
        }
    }

    /// Takes what the outer signal answered: a new inner signal replaces the
    /// one followed; no change keeps it.
    pub fn take_inner(&mut self, outer: State<A::Item>)
        ensures
            final(self).inner() == match outer {
                State::Changed(i) => Some(i),
                State::NotChanged => old(self).inner(),
            },
            final(self).inner() == old(self).taken(outer),
            final(self).source() == old(self).source(),
    {
        match outer {
            State::Changed(inner) => {
                self.inner = Some(inner);
            },
            State::NotChanged => {},
        }
    }
}

impl<A: Signal> Signal for Flatten<A> where A::Item: Signal {
    type Item = <A::Item as Signal>::Item;

    /// Polls the outer signal and takes a new inner signal where it changed
    /// (`take_inner`), then answers what the inner signal that it follows
    /// answers; no change while there is none.
    open spec fn answers(&self, r: State<Self::Item>, after: Self) -> bool {
        exists|outer: State<A::Item>| {
            &&& #[trigger] self.source().answers(outer, after.source())
            &&& match self.taken(outer) {
                Some(i) => after.inner() is Some && i.answers(r, after.inner().unwrap()),
                None => after.inner() is None && r is NotChanged,
            }
        }
    }

    fn poll(&mut self) -> (r: State<Self::Item>) {
        let ghost before = *self;
        let outer = self.signal.poll();
        let ghost answer = outer;
        let ghost source_after = self.signal;
        self.take_inner(outer);
        let ghost taken = self.inner;
        let r = match &mut self.inner {
            Some(inner) => inner.poll(),
            None => State::NotChanged,
        };
        assert(before.source().answers(answer, self.source()));
        assert(match before.taken(answer) {
            Some(i) => self.inner() is Some && i.answers(r, self.inner().unwrap()),
            None => self.inner() is None && r is NotChanged,
        });
        r
    }
}

/// A callback that accepts every argument.
#[verifier::reject_recursive_types(T)]
#[verifier::reject_recursive_types(B)]
pub struct Total<T, B, F: Fn(T) -> B> {
    f: F,
    types: PhantomData<(T, B)>,
}

impl<T, B, F: Fn(T) -> B> Total<T, B, F> {
    #[verifier::type_invariant]
    spec fn accepts_all(self) -> bool {
        forall|t: T| #[trigger] self.f.requires((t,))
    }

    /// The callback.
    pub closed spec fn function(&self) -> F {
        self.f
    }

    /// `f`, which accepts every argument.
    pub fn new(f: F) -> (r: Self)
        requires
            forall|t: T| #[trigger] f.requires((t,)),
        ensures
            r.function() == f,
    {
        Total { f, types: PhantomData }
    }

    /// The callback's result on `t`.
    pub fn call(&self, t: T) -> (r: B)
        ensures
            self.function().ensures((t,), r),
    {
        proof { use_type_invariant(self); }
        (self.f)(t)
    }
}

/// A signal whose every value passes through a callback.
#[verifier::reject_recursive_types(A)]
#[verifier::reject_recursive_types(B)]
pub struct Mapped<A: Signal, B, F: Fn(A::Item) -> B> {
    signal: A,
    callback: Total<A::Item, B, F>,
}

impl<A: Signal, B, F: Fn(A::Item) -> B> Mapped<A, B, F> {
    /// The callback.
    pub closed spec fn callback(&self) -> F {
        self.callback.function()
    }

    /// The signal whose values are mapped.
    pub closed spec fn source(&self) -> A {
        self.signal
    }

    /// `signal` with its values passed through `callback`, which accepts
    /// every value.
    pub fn new(signal: A, callback: F) -> (r: Self)
        requires
            forall|a: A::Item| #[trigger] callback.requires((a,)),
        ensures
            r.callback() == callback,
    {
        Mapped { signal, callback: Total::new(callback) }
    }

    /// What the mapped signal answers for what the signal answered: the
    /// callback's result on a new value, no change otherwise.
    pub fn map_state(&self, state: State<A::Item>) -> (r: State<B>)
        ensures
            match state {
                State::Changed(a) => r matches State::Changed(b) && self.callback().ensures((a,), b),
                State::NotChanged => r is NotChanged,
            },
    {
        match state {
            State::Changed(value) => State::Changed(self.callback.call(value)),
            State::NotChanged => State::NotChanged,
        }
    }
}

impl<A: Signal, B, F: Fn(A::Item) -> B> Signal for Mapped<A, B, F> {
    type Item = B;

    /// Polls the signal and passes a new value through the callback.
    open spec fn answers(&self, r: State<B>, after: Self) -> bool {
        &&& after.callback() == self.callback()
        &&& exists|a: State<A::Item>| {
            &&& #[trigger] self.source().answers(a, after.source())
            &&& match a {
                State::Changed(x) => r matches State::Changed(b) && self.callback().ensures((x,), b),
                State::NotChanged => r is NotChanged,
            }
        }
    }

    fn poll(&mut self) -> (r: State<B>) {
        let ghost before = *self;
        let state = self.signal.poll();
        let ghost answer = state;
        let r = self.map_state(state);
        assert(before.source().answers(answer, self.source()));
        r
    }
}

} // verus!

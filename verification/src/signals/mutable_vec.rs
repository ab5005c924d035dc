//! A vector that its owner changes directly and that tells each of its
//! signals what changed.
use vstd::prelude::*;
use futures::channel::mpsc::{UnboundedReceiver, UnboundedSender};
use crate::signals::channel::{send, try_next, unbounded_channel};
use crate::signals::masks::{count_true, rank};
use crate::signals::signal_vec::{apply_change, apply_changes, Async, SignalVec, VecChange};

verus! {

/// The entries of `v` whose flag in `keep` is set, in order.
pub open spec fn select<A>(v: Seq<A>, keep: Seq<bool>) -> Seq<A>
    decreases v.len(),
{
    if v.len() == 0 {
        Seq::empty()
    } else if keep.last() {
        select(v.drop_last(), keep.drop_last()).push(v.last())
    } else {
        select(v.drop_last(), keep.drop_last())
    }
}

/// The changes that removing the entries of a vector of length `total`
/// whose flag in `keep` is clear sends, one per removed entry, front to back:
/// each removal is at the count of entries kept before it, and is a `Pop`
/// where the entry is the last one left.
pub open spec fn retain_changes<A>(keep: Seq<bool>, total: nat) -> Seq<VecChange<A>>
    decreases keep.len(),
{
    if keep.len() == 0 {
        Seq::empty()
    } else {
        let prev = retain_changes::<A>(keep.drop_last(), total);
        if keep.last() {
            prev
        } else {
            let index = count_true(keep.drop_last());
            let len_after = total - (keep.len() - count_true(keep));
            prev.push(
                if index == len_after {
                    VecChange::<A>::Pop {}
                } else {
                    VecChange::<A>::RemoveAt { index: index as usize }
                },
            )
        }
    }
}

/// A change that carries no value.
pub open spec fn is_plain<A>(c: VecChange<A>) -> bool {
    c is Pop || c is RemoveAt || c is Clear
}

/// A change that carries one value.
pub open spec fn is_single<A>(c: VecChange<A>) -> bool {
    c is Push || c is InsertAt || c is UpdateAt
}

fn copy_plain_change<A>(c: &VecChange<A>) -> (r: VecChange<A>)
    requires
        is_plain(*c),
    ensures
        r == *c,
{
    match c {
        VecChange::RemoveAt { index } => VecChange::RemoveAt { index: *index },
        VecChange::Pop {} => VecChange::Pop {},
        _ => VecChange::Clear {},
    }
}

/// `r` is the change `c`, of the same kind at the same index, carrying a
/// clone of its value.
pub open spec fn clone_of_change<A: Clone>(c: VecChange<A>, r: VecChange<A>) -> bool {
    match (c, r) {
        (VecChange::Push { value: a }, VecChange::Push { value: b }) => cloned(a, b),
        (VecChange::InsertAt { index: i, value: a }, VecChange::InsertAt { index: j, value: b }) =>
            i == j && cloned(a, b),
        (VecChange::UpdateAt { index: i, value: a }, VecChange::UpdateAt { index: j, value: b }) =>
            i == j && cloned(a, b),
        _ => false,
    }
}

/// The same change with its value cloned.
fn clone_single_change<A: Clone>(c: &VecChange<A>) -> (r: VecChange<A>)
    requires
        is_single(*c),
    ensures
        clone_of_change(*c, r),
{
    match c {
        VecChange::Push { value } => VecChange::Push { value: value.clone() },
        VecChange::InsertAt { index, value } => VecChange::InsertAt { index: *index, value: value.clone() },
        VecChange::UpdateAt { index, value } => VecChange::UpdateAt { index: *index, value: value.clone() },
        _ => VecChange::Clear {},
    }
}

/// The state that a mutable vector keeps: its values, the senders to its
/// signals, and (for the proofs) every change it has told its signals of.
#[verifier::reject_recursive_types(A)]
pub struct MutableVecState<A> {
    values: Vec<A>,
    senders: Vec<UnboundedSender<VecChange<A>>>,
    origin: Ghost<Seq<A>>,
    log: Ghost<Seq<VecChange<A>>>,
}

impl<A> MutableVecState<A> {
    pub closed spec fn values(&self) -> Seq<A> {
        self.values@
    }

    /// The changes told to the signals so far, in order.
    pub closed spec fn log(&self) -> Seq<VecChange<A>> {
        self.log@
    }

    /// The values the vector started with.
    pub closed spec fn origin(&self) -> Seq<A> {
        self.origin@
    }

    /// Replaying every change told so far on the values the vector started
    /// with gives its values now.
    pub closed spec fn replays(&self) -> bool {
        apply_changes(self.origin@, self.log@) == self.values@
    }

    /// How many signals are still listening.
    pub closed spec fn listeners(&self) -> nat {
        self.senders@.len()
    }

    pub fn new_with_values(values: Vec<A>) -> (r: Self)
        ensures
            r.values() == values@,
            r.origin() == values@,
            r.log() == Seq::<VecChange<A>>::empty(),
            r.listeners() == 0,
            r.replays(),
    {
        MutableVecState { values, senders: Vec::new(), origin: Ghost(values@), log: Ghost(Seq::empty()) }
    }

    /// The senders to the signals still listening, in the order they were
    /// made.
    pub closed spec fn senders(&self) -> Seq<UnboundedSender<VecChange<A>>> {
        self.senders@
    }

    /// Sends a copy of `change` to every signal, and forgets the signals
    /// that have gone away. Returns, for each sender before the call in
    /// order, whether its send succeeded and the message handed to it: the
    /// senders afterwards are exactly those whose send succeeded, in order,
    /// and every message is `change`.
    fn notify(&mut self, change: VecChange<A>) -> (sent: Ghost<(Seq<bool>, Seq<VecChange<A>>)>)
        requires
            is_plain(change),
        ensures
            final(self).values() == old(self).values(),
            final(self).origin() == old(self).origin(),
            final(self).listeners() <= old(self).listeners(),
            final(self).log() == old(self).log().push(change),
            sent@.0.len() == old(self).senders().len(),
            sent@.1.len() == old(self).senders().len(),
            final(self).senders() == select(old(self).senders(), sent@.0),
            final(self).senders().len() == count_true(sent@.0),
            forall|i: int| 0 <= i < old(self).senders().len() && sent@.0[i] ==>
                #[trigger] final(self).senders()[rank(sent@.0, i) as int] == old(self).senders()[i],
            forall|i: int| 0 <= i < sent@.1.len() ==> #[trigger] sent@.1[i] == change,
    {
        let ghost orig = self.senders@;
        let mut senders: Vec<UnboundedSender<VecChange<A>>> = Vec::new();
        std::mem::swap(&mut senders, &mut self.senders);
        let n = senders.len();
        let mut rest = crate::signals::signal_vec::into_reversed(senders);
        let mut kept: Vec<UnboundedSender<VecChange<A>>> = Vec::new();
        let ghost mut outcomes: Seq<bool> = Seq::empty();
        let ghost mut messages: Seq<VecChange<A>> = Seq::empty();
        let mut k: usize = 0;
        while rest.len() > 0
            invariant
                orig.len() == n,
                k + rest@.len() == n,
                forall|j: int| 0 <= j < rest@.len() ==> rest@[j] == orig[n - 1 - j],
                outcomes.len() == k,
                messages.len() == k,
                kept@ == select(orig.take(k as int), outcomes),
                forall|i: int| 0 <= i < messages.len() ==> #[trigger] messages[i] == change,
                is_plain(change),
            decreases rest@.len(),
        {
            let sender = rest.pop().unwrap();
            assert(sender == orig[k as int]);
            let msg = copy_plain_change(&change);
            let ghost handed = msg;
            let ok = send(&sender, msg);
            proof {
                let ghost po = outcomes;
                let ghost pm = messages;
                outcomes = outcomes.push(ok);
                messages = messages.push(handed);
                assert(orig.take(k + 1).drop_last() =~= orig.take(k as int));
                assert(outcomes.drop_last() =~= po);
                assert forall|i: int| 0 <= i < messages.len() implies #[trigger] messages[i] == change by {
                    if i < pm.len() {
                        assert(messages[i] == pm[i]);
                    }
                }
            }
            if ok {
                kept.push(sender);
            }
            k = k + 1;
        }
        proof {
            assert(orig.take(n as int) =~= orig);
            lemma_select_len(orig, outcomes);
            crate::signals::masks::lemma_count_true_bound(outcomes);
            lemma_kept_exactly_the_sent(orig, outcomes);
        }
        self.senders = kept;
        self.log = Ghost(self.log@.push(change));
        Ghost((outcomes, messages))
    }

    /// Sends `change` with a clone of its value to every signal, and forgets
    /// the signals that have gone away. Returns, for each sender before the
    /// call in order, whether its send succeeded and the message handed to
    /// it: the senders afterwards are exactly those whose send succeeded, in
    /// order, and every message is `change` with its value cloned.
    fn notify_clone(&mut self, change: &VecChange<A>) -> (sent: Ghost<(Seq<bool>, Seq<VecChange<A>>)>)
        where A: Clone,
        requires
            is_single(*change),
        ensures
            final(self).values() == old(self).values(),
            final(self).origin() == old(self).origin(),
            final(self).listeners() <= old(self).listeners(),
            final(self).log() == old(self).log().push(*change),
            sent@.0.len() == old(self).senders().len(),
            sent@.1.len() == old(self).senders().len(),
            final(self).senders() == select(old(self).senders(), sent@.0),
            final(self).senders().len() == count_true(sent@.0),
            forall|i: int| 0 <= i < old(self).senders().len() && sent@.0[i] ==>
                #[trigger] final(self).senders()[rank(sent@.0, i) as int] == old(self).senders()[i],
            forall|i: int| 0 <= i < sent@.1.len() ==> #[trigger] clone_of_change(*change, sent@.1[i]),
    {
        let ghost orig = self.senders@;
        let mut senders: Vec<UnboundedSender<VecChange<A>>> = Vec::new();
        std::mem::swap(&mut senders, &mut self.senders);
        let n = senders.len();
        let mut rest = crate::signals::signal_vec::into_reversed(senders);
        let mut kept: Vec<UnboundedSender<VecChange<A>>> = Vec::new();
        let ghost mut outcomes: Seq<bool> = Seq::empty();
        let ghost mut messages: Seq<VecChange<A>> = Seq::empty();
        let mut k: usize = 0;
        while rest.len() > 0
            invariant
                orig.len() == n,
                k + rest@.len() == n,
                forall|j: int| 0 <= j < rest@.len() ==> rest@[j] == orig[n - 1 - j],
                outcomes.len() == k,
                messages.len() == k,
                kept@ == select(orig.take(k as int), outcomes),
                forall|i: int| 0 <= i < messages.len() ==> #[trigger] clone_of_change(*change, messages[i]),
                is_single(*change),
            decreases rest@.len(),
        {
            let sender = rest.pop().unwrap();
            assert(sender == orig[k as int]);
            let msg = clone_single_change(change);
            let ghost handed = msg;
            let ok = send(&sender, msg);
            proof {
                let ghost po = outcomes;
                let ghost pm = messages;
                outcomes = outcomes.push(ok);
                messages = messages.push(handed);
                assert(orig.take(k + 1).drop_last() =~= orig.take(k as int));
                assert(outcomes.drop_last() =~= po);
                assert forall|i: int| 0 <= i < messages.len() implies #[trigger] clone_of_change(*change, messages[i]) by {
                    if i < pm.len() {
                        assert(messages[i] == pm[i]);
                    }
                }
            }
            if ok {
                kept.push(sender);
            }
            k = k + 1;
        }
        proof {
            assert(orig.take(n as int) =~= orig);
            lemma_select_len(orig, outcomes);
            crate::signals::masks::lemma_count_true_bound(outcomes);
            lemma_kept_exactly_the_sent(orig, outcomes);
        }
        self.senders = kept;
        self.log = Ghost(self.log@.push(*change));
        Ghost((outcomes, messages))
    }

    /// Removes and returns the last value, telling the signals of the `Pop`.
    pub fn pop(&mut self) -> (r: Option<A>)
        requires
            old(self).replays(),
        ensures
            final(self).replays(),
            final(self).origin() == old(self).origin(),
            final(self).listeners() <= old(self).listeners(),
            old(self).values().len() == 0 ==> r is None && final(self).values() == old(self).values()
                && final(self).log() == old(self).log(),
            old(self).values().len() > 0 ==> r == Some(old(self).values().last())
                && final(self).values() == old(self).values().drop_last()
                && final(self).log() == old(self).log().push(VecChange::Pop {}),
    {
        let ghost log = self.log@;
        let value = self.values.pop();
        if value.is_some() {
            self.notify(VecChange::Pop {});
            proof { lemma_replay_push(self.origin@, log, VecChange::Pop {}); }
        }
        value
    }

    /// Removes and returns the value at `index`, telling the signals of the
    /// removal (a `Pop` where it was the last value).
    pub fn remove(&mut self, index: usize) -> (r: A)
        requires
            old(self).replays(),
            index < old(self).values().len(),
        ensures
            final(self).replays(),
            final(self).origin() == old(self).origin(),
            final(self).listeners() <= old(self).listeners(),
            r == old(self).values()[index as int],
            final(self).values() == old(self).values().remove(index as int),
            final(self).log() == old(self).log().push(
                if index == old(self).values().len() - 1 {
                    VecChange::<A>::Pop {}
                } else {
                    VecChange::<A>::RemoveAt { index }
                },
            ),
    {
        let ghost log = self.log@;
        let ghost vs = self.values@;
        let len = self.values.len();
        let value = self.values.remove(index);
        if index == len - 1 {
            self.notify(VecChange::Pop {});
            proof {
                lemma_replay_push(self.origin@, log, VecChange::Pop {});
                assert(vs.remove(index as int) =~= vs.drop_last());
            }
        } else {
            self.notify(VecChange::RemoveAt { index });
            proof { lemma_replay_push(self.origin@, log, VecChange::RemoveAt { index }); }
        }
        value
    }

    /// Removes every value, telling the signals where there was one.
    pub fn clear(&mut self)
        requires
            old(self).replays(),
        ensures
            final(self).replays(),
            final(self).origin() == old(self).origin(),
            final(self).listeners() <= old(self).listeners(),
            final(self).values() == Seq::<A>::empty(),
            old(self).values().len() == 0 ==> final(self).log() == old(self).log(),
            old(self).values().len() > 0 ==> final(self).log() == old(self).log().push(VecChange::Clear {}),
    {
        let ghost log = self.log@;
        if self.values.len() > 0 {
            self.values.clear();
            self.notify(VecChange::Clear {});
            proof { lemma_replay_push(self.origin@, log, VecChange::Clear {}); }
        } else {
            assert(self.values@ =~= Seq::<A>::empty());
        }
    }

    /// Keeps the values for which `f` answers `true`, telling the signals of
    /// each removal in turn.
    pub fn retain<F>(&mut self, f: F)
        where F: Fn(&A) -> bool,
        requires
            old(self).replays(),
            forall|a: &A| #[trigger] f.requires((a,)),
        ensures
            final(self).replays(),
            final(self).origin() == old(self).origin(),
            final(self).listeners() <= old(self).listeners(),
            exists|keep: Seq<bool>| {
                &&& keep.len() == old(self).values().len()
                &&& forall|i: int| 0 <= i < keep.len() ==> #[trigger] f.ensures((&old(self).values()[i],), keep[i])
                &&& final(self).values() == select(old(self).values(), keep)
                &&& final(self).log() == old(self).log() + retain_changes::<A>(keep, old(self).values().len())
            },
    {
        let ghost vs = self.values@;
        let total = self.values.len();
        if total == 0 {
            assert(select(vs, Seq::<bool>::empty()) =~= vs);
            assert(old(self).log() + retain_changes::<A>(Seq::<bool>::empty(), 0) =~= old(self).log());
            return;
        }
        let mut values: Vec<A> = Vec::new();
        std::mem::swap(&mut values, &mut self.values);
        let mut rest = crate::signals::signal_vec::into_reversed(values);
        let mut kept: Vec<A> = Vec::new();
        let mut removals: Vec<Option<usize>> = Vec::new();
        let mut index: usize = 0;
        let mut len: usize = total;
        let ghost mut keep: Seq<bool> = Seq::empty();
        let ghost origin = self.origin@;
        let mut k: usize = 0;
        while rest.len() > 0
            invariant
                k + rest@.len() == total,
                total == vs.len(),
                forall|i: int| 0 <= i < rest@.len() ==> rest@[i] == vs[total - 1 - i],
                keep.len() == k,
                forall|i: int| 0 <= i < k ==> #[trigger] f.ensures((&vs[i],), keep[i]),
                forall|a: &A| #[trigger] f.requires((a,)),
                kept@ == select(vs.take(k as int), keep),
                index == count_true(keep),
                len == total - (k - count_true(keep)),
                removals@.len() == retain_changes::<A>(keep, total as nat).len(),
                forall|i: int| 0 <= i < removals@.len() ==> #[trigger] removal_change::<A>(removals@[i])
                    == retain_changes::<A>(keep, total as nat)[i],
            decreases rest@.len(),
        {
            let v = rest.pop().unwrap();
            let ghost old_keep = keep;
            let ghost old_removals = removals@;
            proof {
                crate::signals::masks::lemma_count_true_bound(keep);
                assert(vs.take(k + 1).drop_last() =~= vs.take(k as int));
                assert(vs.take(k + 1).last() == vs[k as int]);
            }
            let b = f(&v);
            if b {
                kept.push(v);
                index = index + 1;
                proof {
                    keep = keep.push(true);
                    assert(keep.drop_last() =~= old_keep);
                    crate::signals::masks::lemma_count_true_push(old_keep, true);
                }
            } else {
                len = len - 1;
                if index == len {
                    removals.push(None);
                } else {
                    removals.push(Some(index));
                }
                proof {
                    keep = keep.push(false);
                    assert(keep.drop_last() =~= old_keep);
                    crate::signals::masks::lemma_count_true_push(old_keep, false);
                }
            }
            k = k + 1;
        }
        proof {
            assert(vs.take(total as int) =~= vs);
        }
        self.values = kept;
        let ghost log0 = self.log@;
        let mut i: usize = 0;
        while i < removals.len()
            invariant
                i <= removals@.len(),
                self.values@ == select(vs, keep),
                self.origin@ == origin,
                self.senders@.len() <= old(self).senders@.len(),
                self.log@ == log0 + retain_changes::<A>(keep, total as nat).take(i as int),
                removals@.len() == retain_changes::<A>(keep, total as nat).len(),
                forall|j: int| 0 <= j < removals@.len() ==> #[trigger] removal_change::<A>(removals@[j])
                    == retain_changes::<A>(keep, total as nat)[j],
            decreases removals@.len() - i,
        {
            let ghost before = self.log@;
            match removals[i] {
                Some(index) => {
                    self.notify(VecChange::RemoveAt { index });
                },
                None => {
                    self.notify(VecChange::Pop {});
                },
            }
            proof {
                assert(removal_change::<A>(removals@[i as int]) == retain_changes::<A>(keep, total as nat)[i as int]);
                assert(retain_changes::<A>(keep, total as nat).take(i + 1) =~= retain_changes::<A>(keep, total as nat).take(i as int).push(retain_changes::<A>(keep, total as nat)[i as int]));
            }
            i = i + 1;
        }
        assert(retain_changes::<A>(keep, total as nat).take(removals@.len() as int) =~= retain_changes::<A>(keep, total as nat));
        proof {
            lemma_apply_changes_append(self.origin@, log0, retain_changes::<A>(keep, total as nat));
            lemma_retain_changes_replay(vs, keep);
        }
    }
}

impl<A: Clone> MutableVecState<A> {
    /// Appends `value`, telling the signals of the `Push`.
    pub fn push(&mut self, value: A)
        requires
            old(self).replays(),
        ensures
            final(self).replays(),
            final(self).origin() == old(self).origin(),
            final(self).listeners() <= old(self).listeners(),
            final(self).values() == old(self).values().push(value),
            final(self).log() == old(self).log().push(VecChange::Push { value }),
    {
        let ghost log = self.log@;
        let change = VecChange::Push { value };
        self.notify_clone(&change);
        if let VecChange::Push { value } = change {
            self.values.push(value);
        }
        proof { lemma_replay_push(self.origin@, log, change); }
    }

    /// Inserts `value` at `index`, telling the signals of the insertion (a
    /// `Push` where `index` is the length).
    pub fn insert(&mut self, index: usize, value: A)
        requires
            old(self).replays(),
            index <= old(self).values().len(),
        ensures
            final(self).replays(),
            final(self).origin() == old(self).origin(),
            final(self).listeners() <= old(self).listeners(),
            final(self).values() == old(self).values().insert(index as int, value),
            final(self).log() == old(self).log().push(
                if index == old(self).values().len() {
                    VecChange::Push { value }
                } else {
                    VecChange::InsertAt { index, value }
                },
            ),
    {
        if index == self.values.len() {
            let ghost vs = self.values@;
            self.push(value);
            assert(vs.push(value) =~= vs.insert(index as int, value));
        } else {
            let ghost log = self.log@;
            let change = VecChange::InsertAt { index, value };
            self.notify_clone(&change);
            if let VecChange::InsertAt { index, value } = change {
                self.values.insert(index, value);
            }
            proof { lemma_replay_push(self.origin@, log, change); }
        }
    }

    /// Replaces the value at `index` with `value`, telling the signals of
    /// the update.
    pub fn set(&mut self, index: usize, value: A)
        requires
            old(self).replays(),
            index < old(self).values().len(),
        ensures
            final(self).replays(),
            final(self).origin() == old(self).origin(),
            final(self).listeners() <= old(self).listeners(),
            final(self).values() == old(self).values().update(index as int, value),
            final(self).log() == old(self).log().push(VecChange::UpdateAt { index, value }),
    {
        let ghost log = self.log@;
        let change = VecChange::UpdateAt { index, value };
        self.notify_clone(&change);
        if let VecChange::UpdateAt { index, value } = change {
            self.values.set(index, value);
        }
        proof { lemma_replay_push(self.origin@, log, change); }
    }

    /// A new signal of this vector. Where the vector holds values, the
    /// signal's first change is a `Replace` with a copy of them; after that it
    /// receives every change that the vector tells of.
    pub fn signal_vec(&mut self) -> (r: MutableSignalVec<A>)
        ensures
            final(self).values() == old(self).values(),
            final(self).origin() == old(self).origin(),
            final(self).listeners() == old(self).listeners() + 1,
            final(self).log() == old(self).log(),
            final(self).listeners() == old(self).listeners() + 1,
            final(self).senders().drop_last() == old(self).senders(),
            r.start() == old(self).values(),
            r.log_start() == old(self).log().len(),
    {
        let (sender, receiver) = unbounded_channel();
        if self.values.len() > 0 {
            let _ = send(&sender, VecChange::Replace { values: self.values.clone() });
        }
        self.senders.push(sender);
        assert(self.senders@.drop_last() =~= old(self).senders@);
        MutableSignalVec { receiver, start: Ghost(self.values@), log_start: Ghost(self.log@.len()) }
    }
}

/// A vector that its owner changes directly; each of its signals receives
/// every change.
#[verifier::reject_recursive_types(A)]
pub struct MutableVec<A> {
    state: MutableVecState<A>,
}

impl<A> MutableVec<A> {
    /// The values.
    pub closed spec fn view(&self) -> Seq<A> {
        self.state.values()
    }

    /// How many signals are still listening: each change goes to every one
    /// of them, and those whose receiving half is gone are forgotten then.
    pub closed spec fn listeners(&self) -> nat {
        self.state.listeners()
    }

    /// The senders to the signals still listening, in the order they were
    /// made.
    pub closed spec fn senders(&self) -> Seq<UnboundedSender<VecChange<A>>> {
        self.state.senders()
    }

    /// The changes told to the signals so far.
    pub closed spec fn log(&self) -> Seq<VecChange<A>> {
        self.state.log()
    }

    /// The values the vector started with.
    pub closed spec fn origin(&self) -> Seq<A> {
        self.state.origin()
    }

    /// Replaying every change told so far on the values the vector started
    /// with gives its values now.
    pub closed spec fn wf(&self) -> bool {
        self.state.replays()
    }

    pub fn new_with_values(values: Vec<A>) -> (r: Self)
        ensures
            r@ == values@,
            r.origin() == values@,
            r.log() == Seq::<VecChange<A>>::empty(),
            r.wf(),
    {
        MutableVec { state: MutableVecState::new_with_values(values) }
    }

    pub fn new() -> (r: Self)
        ensures
            r@ == Seq::<A>::empty(),
            r.origin() == Seq::<A>::empty(),
            r.log() == Seq::<VecChange<A>>::empty(),
            r.wf(),
    {
        Self::new_with_values(Vec::new())
    }

    pub fn pop(&mut self) -> (r: Option<A>)
        requires
            old(self).wf(),
        ensures
            final(self).wf(),
            final(self).origin() == old(self).origin(),
            final(self).listeners() <= old(self).listeners(),
            old(self)@.len() == 0 ==> r is None && final(self)@ == old(self)@ && final(self).log() == old(self).log(),
            old(self)@.len() > 0 ==> r == Some(old(self)@.last()) && final(self)@ == old(self)@.drop_last()
                && final(self).log() == old(self).log().push(VecChange::Pop {}),
    {
        self.state.pop()
    }

    pub fn remove(&mut self, index: usize) -> (r: A)
        requires
            old(self).wf(),
            index < old(self)@.len(),
        ensures
            final(self).wf(),
            final(self).origin() == old(self).origin(),
            final(self).listeners() <= old(self).listeners(),
            r == old(self)@[index as int],
            final(self)@ == old(self)@.remove(index as int),
            final(self).log() == old(self).log().push(
                if index == old(self)@.len() - 1 {
                    VecChange::<A>::Pop {}
                } else {
                    VecChange::<A>::RemoveAt { index }
                },
            ),
    {
        self.state.remove(index)
    }

    pub fn clear(&mut self)
        requires
            old(self).wf(),
        ensures
            final(self).wf(),
            final(self).origin() == old(self).origin(),
            final(self).listeners() <= old(self).listeners(),
            final(self)@ == Seq::<A>::empty(),
            old(self)@.len() == 0 ==> final(self).log() == old(self).log(),
            old(self)@.len() > 0 ==> final(self).log() == old(self).log().push(VecChange::Clear {}),
    {
        self.state.clear()
    }

    pub fn retain<F>(&mut self, f: F)
        where F: Fn(&A) -> bool,
        requires
            old(self).wf(),
            forall|a: &A| #[trigger] f.requires((a,)),
        ensures
            final(self).wf(),
            final(self).origin() == old(self).origin(),
            final(self).listeners() <= old(self).listeners(),
            exists|keep: Seq<bool>| {
                &&& keep.len() == old(self)@.len()
                &&& forall|i: int| 0 <= i < keep.len() ==> #[trigger] f.ensures((&old(self)@[i],), keep[i])
                &&& final(self)@ == select(old(self)@, keep)
                &&& final(self).log() == old(self).log() + retain_changes::<A>(keep, old(self)@.len())
            },
    {
        self.state.retain(f)
    }

    /// The values, to read.
    pub fn as_slice(&self) -> (r: &[A])
        ensures
            r@ == self@,
    {
        self.state.values.as_slice()
    }

    pub fn len(&self) -> (r: usize)
        ensures
            r == self@.len(),
    {
        self.state.values.len()
    }

    pub fn is_empty(&self) -> (r: bool)
        ensures
            r == (self@.len() == 0),
    {
        self.state.values.len() == 0
    }
}

impl<A: Clone> MutableVec<A> {
    pub fn signal_vec(&mut self) -> (r: MutableSignalVec<A>)
        ensures
            final(self)@ == old(self)@,
            final(self).origin() == old(self).origin(),
            final(self).listeners() == old(self).listeners() + 1,
            final(self).log() == old(self).log(),
            final(self).wf() == old(self).wf(),
            final(self).senders().drop_last() == old(self).senders(),
            r.start() == old(self)@,
            r.log_start() == old(self).log().len(),
    {
        self.state.signal_vec()
    }

    pub fn push(&mut self, value: A)
        requires
            old(self).wf(),
        ensures
            final(self).wf(),
            final(self).origin() == old(self).origin(),
            final(self).listeners() <= old(self).listeners(),
            final(self)@ == old(self)@.push(value),
            final(self).log() == old(self).log().push(VecChange::Push { value }),
    {
        self.state.push(value)
    }

    pub fn insert(&mut self, index: usize, value: A)
        requires
            old(self).wf(),
            index <= old(self)@.len(),
        ensures
            final(self).wf(),
            final(self).origin() == old(self).origin(),
            final(self).listeners() <= old(self).listeners(),
            final(self)@ == old(self)@.insert(index as int, value),
            final(self).log() == old(self).log().push(
                if index == old(self)@.len() {
                    VecChange::Push { value }
                } else {
                    VecChange::InsertAt { index, value }
                },
            ),
    {
        self.state.insert(index, value)
    }

    pub fn set(&mut self, index: usize, value: A)
        requires
            old(self).wf(),
            index < old(self)@.len(),
        ensures
            final(self).wf(),
            final(self).origin() == old(self).origin(),
            final(self).listeners() <= old(self).listeners(),
            final(self)@ == old(self)@.update(index as int, value),
            final(self).log() == old(self).log().push(VecChange::UpdateAt { index, value }),
    {
        self.state.set(index, value)
    }
}

/// A signal of a mutable vector: the changes the vector sent it, in order.
#[verifier::reject_recursive_types(A)]
pub struct MutableSignalVec<A> {
    receiver: UnboundedReceiver<VecChange<A>>,
    start: Ghost<Seq<A>>,
    log_start: Ghost<nat>,
}

impl<A> MutableSignalVec<A> {
    /// The vector's values when the signal was made: where there are any,
    /// its first change replaces the whole with copies of them.
    pub closed spec fn start(&self) -> Seq<A> {
        self.start@
    }

    /// How many changes the vector had told when the signal was made: the
    /// signal receives every change told after those.
    pub closed spec fn log_start(&self) -> nat {
        self.log_start@
    }
}

impl<A> SignalVec for MutableSignalVec<A> {
    type Item = A;

    /// The next change the vector sent, `None` once the vector is gone and
    /// every change was handed out, nothing yet otherwise.
    fn poll(&mut self) -> Async<Option<VecChange<A>>> {
        received(try_next(&mut self.receiver))
    }
}

/// What a signal answers for what its channel gave: the message, or the end
/// of the vector, where there was one; nothing yet where the channel is
/// empty.
pub fn received<A>(message: Option<Option<VecChange<A>>>) -> (r: Async<Option<VecChange<A>>>)
    ensures
        match message {
            Some(m) => r == Async::Ready(m),
            None => r is NotReady,
        },
{
    match message {
        Some(m) => Async::Ready(m),
        None => Async::NotReady,
    }
}

/// Whatever a mutable vector does, a signal that started from its values at
/// some point and applied every change told after that point holds its
/// values: replaying a later part of the log on the values at that point
/// gives the values now.
pub proof fn lemma_mutable_vec_replays<A>(origin: Seq<A>, log: Seq<VecChange<A>>, values: Seq<A>, n: int)
    requires
        apply_changes(origin, log) == values,
        0 <= n <= log.len(),
    ensures
        apply_changes(apply_changes(origin, log.take(n)), log.skip(n)) == values,
{
    lemma_apply_changes_append(origin, log.take(n), log.skip(n));
    assert(log.take(n) + log.skip(n) =~= log);
}

/// The change that a recorded removal stands for.
pub open spec fn removal_change<A>(r: Option<usize>) -> VecChange<A> {
    match r {
        Some(index) => VecChange::RemoveAt { index },
        None => VecChange::Pop {},
    }
}


proof fn lemma_replay_push<A>(origin: Seq<A>, log: Seq<VecChange<A>>, c: VecChange<A>)
    ensures
        apply_changes(origin, log.push(c)) == apply_change(apply_changes(origin, log), c),
{
    assert(log.push(c).drop_last() =~= log);
}

/// Applying two runs of changes one after the other is applying their
/// concatenation.
pub proof fn lemma_apply_changes_append<A>(v: Seq<A>, a: Seq<VecChange<A>>, b: Seq<VecChange<A>>)
    ensures
        apply_changes(v, a + b) == apply_changes(apply_changes(v, a), b),
    decreases b.len(),
{
    if b.len() == 0 {
        assert(a + b =~= a);
    } else {
        assert((a + b).drop_last() =~= a + b.drop_last());
        lemma_apply_changes_append(v, a, b.drop_last());
    }
}

/// After a change is told, the senders kept are exactly those whose send
/// succeeded, in the order they were made: there are as many as sends that
/// succeeded, and a sender whose send succeeded stands at the place given by
/// how many sends before it succeeded. So no sender whose send succeeded is
/// dropped, and none whose send failed is kept.
pub proof fn lemma_kept_exactly_the_sent<A>(senders: Seq<A>, sent: Seq<bool>)
    requires
        senders.len() == sent.len(),
    ensures
        select(senders, sent).len() == count_true(sent),
        forall|i: int| 0 <= i < senders.len() && sent[i] ==>
            #[trigger] select(senders, sent)[rank(sent, i) as int] == senders[i],
    decreases senders.len(),
{
    lemma_select_len(senders, sent);
    if senders.len() > 0 {
        let n = senders.len() - 1;
        let pv = senders.drop_last();
        let ps = sent.drop_last();
        lemma_kept_exactly_the_sent(pv, ps);
        lemma_select_len(pv, ps);
        assert forall|i: int| 0 <= i < senders.len() && sent[i] implies
            #[trigger] select(senders, sent)[rank(sent, i) as int] == senders[i] by {
            assert(sent.take(i) =~= if i < n { ps.take(i) } else { ps });
            if i < n {
                assert(ps[i] == sent[i] && pv[i] == senders[i]);
                assert(select(pv, ps)[rank(ps, i) as int] == pv[i]);
                crate::signals::masks::lemma_rank_mono(ps, i + 1, n as int);
                crate::signals::masks::lemma_rank_step(ps, i);
                assert(ps.take(n as int) =~= ps);
            } else {
                assert(ps.take(n as int) =~= ps);
            }
        }
    }
}

proof fn lemma_select_len<A>(v: Seq<A>, keep: Seq<bool>)
    requires
        v.len() == keep.len(),
    ensures
        select(v, keep).len() == count_true(keep),
    decreases v.len(),
{
    if v.len() > 0 {
        lemma_select_len(v.drop_last(), keep.drop_last());
    }
}

proof fn lemma_retain_prefix<A>(v: Seq<A>, keep: Seq<bool>, n: int)
    requires
        v.len() == keep.len(),
        0 <= n <= v.len(),
        v.len() <= usize::MAX,
    ensures
        apply_changes(v, retain_changes::<A>(keep.take(n), v.len())) == select(v.take(n), keep.take(n)) + v.skip(n),
    decreases n,
{
    if n == 0 {
        assert(v.take(0) =~= Seq::<A>::empty());
        assert(select(v.take(0), keep.take(0)) + v.skip(0) =~= v);
    } else {
        lemma_retain_prefix(v, keep, n - 1);
        let kp = keep.take(n);
        assert(kp.drop_last() =~= keep.take(n - 1));
        assert(v.take(n).drop_last() =~= v.take(n - 1));
        assert(v.take(n).last() == v[n - 1]);
        assert(kp.last() == keep[n - 1]);
        let sel = select(v.take(n - 1), keep.take(n - 1));
        let cur = sel + v.skip(n - 1);
        assert(v.skip(n - 1) =~= seq![v[n - 1]] + v.skip(n));
        lemma_select_len(v.take(n - 1), keep.take(n - 1));
        assert(retain_changes::<A>(kp.drop_last(), v.len()) == retain_changes::<A>(keep.take(n - 1), v.len()));
        assert(select(v.take(n).drop_last(), kp.drop_last()) == sel);
        if keep[n - 1] {
            assert(retain_changes::<A>(kp, v.len()) == retain_changes::<A>(keep.take(n - 1), v.len()));
            assert(select(v.take(n), kp) == sel.push(v[n - 1]));
            assert(cur =~= sel.push(v[n - 1]) + v.skip(n));
        } else {
            assert(select(v.take(n), kp) == sel);
            crate::signals::masks::lemma_count_true_push(keep.take(n - 1), false);
            assert(kp =~= keep.take(n - 1).push(false));
            crate::signals::masks::lemma_count_true_bound(keep.take(n - 1));
            let index = count_true(keep.take(n - 1));
            let len_after = v.len() - (n - count_true(kp));
            let c = if index == len_after {
                VecChange::<A>::Pop {}
            } else {
                VecChange::<A>::RemoveAt { index: index as usize }
            };
            let prev = retain_changes::<A>(keep.take(n - 1), v.len());
            assert(retain_changes::<A>(kp, v.len()) == prev.push(c));
            assert(prev.push(c).drop_last() =~= prev);
            assert(apply_changes(v, prev.push(c)) == apply_change(apply_changes(v, prev), c));
            if index == len_after {
                assert(v.skip(n) =~= Seq::<A>::empty());
                assert(apply_change(cur, c) =~= sel + v.skip(n));
            } else {
                assert(apply_change(cur, c) =~= sel + v.skip(n));
            }
        }
    }
}

/// Replaying the changes that `retain` sends on the old values gives the
/// retained values.
pub proof fn lemma_retain_changes_replay<A>(v: Seq<A>, keep: Seq<bool>)
    requires
        v.len() == keep.len(),
        v.len() <= usize::MAX,
    ensures
        apply_changes(v, retain_changes::<A>(keep, v.len())) == select(v, keep),
{
    lemma_retain_prefix(v, keep, v.len() as int);
    assert(keep.take(v.len() as int) =~= keep);
    assert(v.take(v.len() as int) =~= v);
    assert(select(v, keep) + v.skip(v.len() as int) =~= select(v, keep));
}

} // verus!

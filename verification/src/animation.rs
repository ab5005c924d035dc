//! The index bookkeeping of an animated vector, whose removed entries stay
//! in place while they animate out.
use vstd::prelude::*;
use crate::operations::VecDiff;
use crate::signals::masks::{
    count_true, filter_some, mask_of, rank, lemma_rank_step, lemma_rank_full, lemma_filter_some_insert,
    lemma_filter_some_remove, lemma_filter_some_update, lemma_filter_some_append, lemma_filter_some_len,
};

verus! {

/// What the animated map does once its source has nothing now.
pub enum Settled {
    /// Hands out the removal of an entry whose animation has ended.
    Removed(VecDiff<()>),
    /// Ends: the source has ended and nothing is animating out.
    Ended,
    /// Waits for the source or for an animation.
    Waiting,
}

/// Which entries are still part of the upstream vector (not animating out).
pub open spec fn live(removing: Seq<bool>) -> Seq<bool> {
    removing.map_values(|r: bool| !r)
}

/// The position of the upstream entry `parent_index` among the animated
/// entries: the live entry with `parent_index` live entries before it, or
/// `None` where there are not that many live entries.
pub fn find_index(removing: &Vec<bool>, parent_index: usize) -> (r: Option<usize>)
    ensures
        match r {
            Some(i) => i < removing@.len() && !removing@[i as int]
                && rank(live(removing@), i as int) == parent_index,
            None => count_true(live(removing@)) <= parent_index,
        },
{
    let ghost m = live(removing@);
    let mut seen: usize = 0;
    let mut i: usize = 0;
    while i < removing.len()
        invariant
            i <= removing@.len(),
            m == live(removing@),
            m.len() == removing@.len(),
            seen == rank(m, i as int),
            seen <= parent_index,
        decreases removing@.len() - i,
    {
        proof { lemma_rank_step(m, i as int); }
        if !removing[i] {
            if seen == parent_index {
                return Some(i);
            }
            seen = seen + 1;
        }
        i = i + 1;
    }
    proof {
        assert(m.take(m.len() as int) =~= m);
    }
    None
}

/// The position of the last live entry, where there is one.
pub fn find_last_index(removing: &Vec<bool>) -> (r: Option<usize>)
    ensures
        match r {
            Some(i) => i < removing@.len() && !removing@[i as int]
                && forall|j: int| i < j < removing@.len() ==> removing@[j],
            None => forall|j: int| 0 <= j < removing@.len() ==> removing@[j],
        },
{
    let mut i = removing.len();
    while i > 0
        invariant
            i <= removing@.len(),
            forall|j: int| i <= j < removing@.len() ==> removing@[j],
        decreases i,
    {
        if !removing[i - 1] {
            return Some(i - 1);
        }
        i = i - 1;
    }
    None
}

/// Drops the entry at `index` and returns the change that the animated
/// vector sends for it: a `Pop` where it was the last entry.
pub fn remove_index<S, A>(animations: &mut Vec<S>, index: usize) -> (r: VecDiff<A>)
    requires
        index < old(animations)@.len(),
    ensures
        final(animations)@ == old(animations)@.remove(index as int),
        index == old(animations)@.len() - 1 ==> (r is Pop),
        index != old(animations)@.len() - 1 ==> r == (VecDiff::<A>::RemoveAt { index }),
{
    if index == animations.len() - 1 {
        let ghost before = animations@;
        animations.pop();
        assert(before.remove(index as int) =~= before.drop_last());
        VecDiff::Pop {}
    } else {
        animations.remove(index);
        VecDiff::RemoveAt { index }
    }
}


/// Each entry as an option: `None` where it animates out.
pub open spec fn tagged<S>(entries: Seq<S>, removing: Seq<bool>) -> Seq<Option<S>> {
    Seq::new(entries.len(), |i: int| if removing[i] { None } else { Some(entries[i]) })
}

/// The entries that stand for upstream entries, in order: the upstream
/// vector as the animated vector sees it.
pub open spec fn upstream_of<S>(entries: Seq<S>, removing: Seq<bool>) -> Seq<S> {
    filter_some(tagged(entries, removing))
}

proof fn lemma_tagged_mask<S>(entries: Seq<S>, removing: Seq<bool>)
    requires
        entries.len() == removing.len(),
    ensures
        mask_of(tagged(entries, removing)) == live(removing),
{
    assert(mask_of(tagged(entries, removing)) =~= live(removing));
}

proof fn lemma_upstream_len<S>(entries: Seq<S>, removing: Seq<bool>)
    requires
        entries.len() == removing.len(),
    ensures
        upstream_of(entries, removing).len() == count_true(live(removing)),
{
    lemma_tagged_mask(entries, removing);
    lemma_filter_some_len(tagged(entries, removing));
}

proof fn lemma_upstream_all_live<S>(entries: Seq<S>, removing: Seq<bool>)
    requires
        entries.len() == removing.len(),
        forall|j: int| 0 <= j < removing.len() ==> !removing[j],
    ensures
        upstream_of(entries, removing) == entries,
    decreases entries.len(),
{
    if entries.len() > 0 {
        let (e, r) = (entries.drop_last(), removing.drop_last());
        lemma_upstream_all_live(e, r);
        assert(tagged(entries, removing).drop_last() =~= tagged(e, r));
        assert(entries =~= e.push(entries.last()));
    } else {
        assert(tagged(entries, removing) =~= Seq::<Option<S>>::empty());
    }
}

proof fn lemma_upstream_insert<S>(entries: Seq<S>, removing: Seq<bool>, i: int, e: S)
    requires
        entries.len() == removing.len(),
        0 <= i <= entries.len(),
    ensures
        upstream_of(entries.insert(i, e), removing.insert(i, false))
            == upstream_of(entries, removing).insert(rank(live(removing), i) as int, e),
{
    let t = tagged(entries, removing);
    assert(tagged(entries.insert(i, e), removing.insert(i, false)) =~= t.insert(i, Some(e)));
    lemma_filter_some_insert(t, i, Some(e));
    lemma_tagged_mask(entries, removing);
}

proof fn lemma_upstream_remove<S>(entries: Seq<S>, removing: Seq<bool>, i: int)
    requires
        entries.len() == removing.len(),
        0 <= i < entries.len(),
    ensures
        upstream_of(entries.remove(i), removing.remove(i)) == if removing[i] {
            upstream_of(entries, removing)
        } else {
            upstream_of(entries, removing).remove(rank(live(removing), i) as int)
        },
{
    let t = tagged(entries, removing);
    assert(tagged(entries.remove(i), removing.remove(i)) =~= t.remove(i));
    lemma_filter_some_remove(t, i);
    lemma_tagged_mask(entries, removing);
}

proof fn lemma_upstream_mark<S>(entries: Seq<S>, removing: Seq<bool>, i: int)
    requires
        entries.len() == removing.len(),
        0 <= i < entries.len(),
        !removing[i],
    ensures
        upstream_of(entries, removing.update(i, true))
            == upstream_of(entries, removing).remove(rank(live(removing), i) as int),
{
    let t = tagged(entries, removing);
    assert(tagged(entries, removing.update(i, true)) =~= t.update(i, None));
    lemma_filter_some_update(t, i, None);
    lemma_tagged_mask(entries, removing);
}

/// A live entry is the upstream entry whose index is its rank among the
/// live entries.
proof fn lemma_upstream_at<S>(entries: Seq<S>, removing: Seq<bool>, i: int)
    requires
        entries.len() == removing.len(),
        0 <= i < entries.len(),
        !removing[i],
    ensures
        rank(live(removing), i) < upstream_of(entries, removing).len(),
        upstream_of(entries, removing)[rank(live(removing), i) as int] == entries[i],
{
    let t = tagged(entries, removing);
    let a = t.take(i);
    let c = t.skip(i + 1);
    assert(t =~= a + seq![t[i]] + c);
    lemma_filter_some_append(a + seq![t[i]], c);
    lemma_filter_some_append(a, seq![t[i]]);
    assert(filter_some(seq![t[i]]) =~= seq![entries[i]]) by {
        assert(t[i] == Some(entries[i]));
        assert(seq![t[i]].drop_last() =~= Seq::<Option<S>>::empty());
        assert(filter_some(Seq::<Option<S>>::empty()) =~= Seq::<S>::empty());
        assert(filter_some(seq![t[i]]) == filter_some(seq![t[i]].drop_last()).push(entries[i]));
    }
    lemma_filter_some_len(a);
    lemma_tagged_mask(entries, removing);
    assert(mask_of(a) =~= live(removing).take(i));
}

/// Past the last live entry, the rank stays the count.
proof fn lemma_rank_tail(m: Seq<bool>, r: int)
    requires
        0 <= r < m.len(),
        m[r],
        forall|j: int| r < j < m.len() ==> !m[j],
    ensures
        rank(m, r) + 1 == count_true(m),
    decreases m.len() - r,
{
    if r == m.len() - 1 {
        lemma_rank_step(m, r);
        lemma_rank_full(m);
    } else {
        let d = m.drop_last();
        lemma_rank_tail(d, r);
        assert(d.take(r) =~= m.take(r));
        assert(count_true(m) == count_true(d));
    }
}

/// The entries of an animated vector: one per upstream entry, plus those
/// that the upstream vector removed and that still animate out.
#[verifier::reject_recursive_types(S)]
pub struct AnimatedEntries<S> {
    entries: Vec<S>,
    removing: Vec<bool>,
}

impl<S> AnimatedEntries<S> {
    pub closed spec fn entries(&self) -> Seq<S> {
        self.entries@
    }

    pub closed spec fn removing(&self) -> Seq<bool> {
        self.removing@
    }

    /// One flag per entry.
    pub open spec fn wf(&self) -> bool {
        self.entries().len() == self.removing().len()
    }

    /// How many entries stand for upstream entries.
    pub open spec fn live_count(&self) -> nat {
        count_true(live(self.removing()))
    }

    /// The entries that stand for upstream entries, in order.
    pub open spec fn upstream(&self) -> Seq<S> {
        upstream_of(self.entries(), self.removing())
    }

    pub fn new() -> (r: Self)
        ensures
            r.wf(),
            r.entries() == Seq::<S>::empty(),
            r.live_count() == 0,
            r.upstream() == Seq::<S>::empty(),
    {
        let r = AnimatedEntries { entries: Vec::new(), removing: Vec::new() };
        assert(live(r.removing@) =~= Seq::<bool>::empty());
        proof { lemma_upstream_all_live(r.entries@, r.removing@); }
        r
    }

    /// The removal flags, to read.
    pub fn removing_flags(&self) -> (r: &Vec<bool>)
        ensures
            r@ == self.removing(),
    {
        &self.removing
    }

    /// The entries, to poll their animations.
    pub fn entries_mut(&mut self) -> (r: &mut Vec<S>)
        ensures
            r@ == old(self).entries(),
            final(self).removing() == old(self).removing(),
            final(self).entries() == final(r)@,
    {
        &mut self.entries
    }

    /// Replaces every entry with `entries`, none of them animating out.
    pub fn replace(&mut self, entries: Vec<S>)
        ensures
            final(self).wf(),
            final(self).entries() == entries@,
            final(self).live_count() == entries@.len(),
            final(self).upstream() == entries@,
    {
        let n = entries.len();
        let mut removing: Vec<bool> = Vec::new();
        let mut i: usize = 0;
        while i < n
            invariant
                i <= n,
                removing@.len() == i,
                forall|j: int| 0 <= j < i ==> !removing@[j],
            decreases n - i,
        {
            removing.push(false);
            i = i + 1;
        }
        self.entries = entries;
        self.removing = removing;
        proof {
            lemma_all_live(self.removing@);
            lemma_upstream_all_live(self.entries@, self.removing@);
        }
    }

    /// Puts a new entry at the position of the upstream entry `index`: just
    /// before the live entry with `index` live entries before it, so after
    /// any entries animating out in between (at the end where the upstream
    /// vector has no entry there), and returns that position.
    pub fn insert(&mut self, index: usize, entry: S) -> (r: usize)
        requires
            old(self).wf(),
        ensures
            final(self).wf(),
            r <= old(self).entries().len(),
            index < old(self).live_count() ==> {
                &&& !old(self).removing()[r as int]
                &&& rank(live(old(self).removing()), r as int) == index
            },
            index >= old(self).live_count() ==> r == old(self).entries().len(),
            final(self).entries() == old(self).entries().insert(r as int, entry),
            final(self).removing() == old(self).removing().insert(r as int, false),
            final(self).live_count() == old(self).live_count() + 1,
            final(self).upstream() == old(self).upstream().insert(
                if index <= old(self).live_count() { index as int } else { old(self).live_count() as int },
                entry,
            ),
    {
        let i = match find_index(&self.removing, index) {
            Some(i) => i,
            None => self.removing.len(),
        };
        let ghost before = self.removing@;
        let ghost old_entries = self.entries@;
        proof {
            lemma_rank_full(live(before));
            if i < before.len() {
                lemma_rank_step(live(before), i as int);
                crate::signals::masks::lemma_rank_mono(live(before), i + 1, before.len() as int);
            }
            lemma_upstream_insert(old_entries, before, i as int, entry);
        }
        self.entries.insert(i, entry);
        self.removing.insert(i, false);
        proof { lemma_live_insert(before, i as int); }
        i
    }

    /// Puts a new entry at the end.
    pub fn push(&mut self, entry: S)
        requires
            old(self).wf(),
        ensures
            final(self).wf(),
            final(self).entries() == old(self).entries().push(entry),
            final(self).removing() == old(self).removing().push(false),
            final(self).live_count() == old(self).live_count() + 1,
            final(self).upstream() == old(self).upstream().push(entry),
    {
        let ghost before = self.removing@;
        let ghost old_entries = self.entries@;
        proof {
            lemma_rank_full(live(before));
            lemma_upstream_insert(old_entries, before, before.len() as int, entry);
            lemma_upstream_len(old_entries, before);
            assert(old_entries.insert(before.len() as int, entry) =~= old_entries.push(entry));
            assert(before.insert(before.len() as int, false) =~= before.push(false));
            let u = upstream_of(old_entries, before);
            assert(u.insert(u.len() as int, entry) =~= u.push(entry));
        }
        self.entries.push(entry);
        self.removing.push(false);
        proof {
            assert(live(before.push(false)) =~= live(before).push(true));
            crate::signals::masks::lemma_count_true_push(live(before), true);
        }
    }

    /// The position of the upstream entry `index`, which exists.
    pub fn position(&self, index: usize) -> (r: usize)
        requires
            self.wf(),
            index < self.live_count(),
        ensures
            r < self.removing().len(),
            !self.removing()[r as int],
            rank(live(self.removing()), r as int) == index,
            self.entries()[r as int] == self.upstream()[index as int],
    {
        let found = find_index(&self.removing, index);
        proof {
            if let Some(i) = found {
                lemma_upstream_at(self.entries@, self.removing@, i as int);
            }
        }
        match found {
            Some(i) => i,
            None => 0,
        }
    }

    /// The position of the last upstream entry, which exists.
    pub fn last_position(&self) -> (r: usize)
        requires
            self.wf(),
            self.live_count() > 0,
        ensures
            r < self.removing().len(),
            !self.removing()[r as int],
            forall|j: int| r < j < self.removing().len() ==> self.removing()[j],
            rank(live(self.removing()), r as int) + 1 == self.live_count(),
            self.entries()[r as int] == self.upstream().last(),
    {
        proof {
            if forall|j: int| 0 <= j < self.removing@.len() ==> self.removing@[j] {
                lemma_none_live(self.removing@);
            }
        }
        let found = find_last_index(&self.removing);
        proof {
            if let Some(i) = found {
                lemma_rank_tail(live(self.removing@), i as int);
                lemma_upstream_at(self.entries@, self.removing@, i as int);
                lemma_upstream_len(self.entries@, self.removing@);
            }
        }
        match found {
            Some(i) => i,
            None => 0,
        }
    }

    /// Moves the upstream entry `old_index` to become the upstream entry
    /// `new_index`, and returns the positions it moved from and to.
    pub fn move_entry(&mut self, old_index: usize, new_index: usize) -> (r: (usize, usize))
        requires
            old(self).wf(),
            old_index < old(self).live_count(),
        ensures
            final(self).wf(),
            r.0 < old(self).entries().len(),
            final(self).entries() == old(self).entries().remove(r.0 as int).insert(r.1 as int, old(self).entries()[r.0 as int]),
            final(self).live_count() == old(self).live_count(),
            final(self).upstream() == old(self).upstream().remove(old_index as int).insert(
                if new_index + 1 <= old(self).live_count() { new_index as int } else { old(self).live_count() - 1 },
                old(self).upstream()[old_index as int],
            ),
    {
        let from = self.position(old_index);
        let ghost before = self.removing@;
        let ghost old_entries = self.entries@;
        let entry = self.entries.remove(from);
        let flag = self.removing.remove(from);
        proof {
            lemma_live_remove(before, from as int);
            lemma_upstream_remove(old_entries, before, from as int);
        }
        let to = match find_index(&self.removing, new_index) {
            Some(i) => i,
            None => self.removing.len(),
        };
        let ghost mid = self.removing@;
        let ghost mid_entries = self.entries@;
        proof {
            lemma_rank_full(live(mid));
            if to < mid.len() {
                lemma_rank_step(live(mid), to as int);
                crate::signals::masks::lemma_rank_mono(live(mid), to + 1, mid.len() as int);
            }
            lemma_upstream_insert(mid_entries, mid, to as int, entry);
        }
        self.entries.insert(to, entry);
        self.removing.insert(to, flag);
        proof { lemma_live_insert(mid, to as int); }
        (from, to)
    }

    /// Marks the entry at `position` as animating out.
    pub fn start_removing(&mut self, position: usize)
        requires
            old(self).wf(),
            position < old(self).removing().len(),
            !old(self).removing()[position as int],
        ensures
            final(self).wf(),
            final(self).entries() == old(self).entries(),
            final(self).removing() == old(self).removing().update(position as int, true),
            final(self).live_count() + 1 == old(self).live_count(),
            final(self).upstream() == old(self).upstream().remove(rank(live(old(self).removing()), position as int) as int),
    {
        let ghost before = self.removing@;
        proof { lemma_upstream_mark(self.entries@, before, position as int); }
        self.removing.set(position, true);
        proof { lemma_live_mark(before, position as int); }
    }

    /// Drops the entry at `position` (live or animating out) and returns the
    /// change to send for it.
    pub fn remove_at(&mut self, position: usize) -> (r: VecDiff<()>)
        requires
            old(self).wf(),
            position < old(self).entries().len(),
        ensures
            final(self).wf(),
            final(self).entries() == old(self).entries().remove(position as int),
            final(self).removing() == old(self).removing().remove(position as int),
            position == old(self).entries().len() - 1 ==> (r is Pop),
            position != old(self).entries().len() - 1 ==> r == (VecDiff::<()>::RemoveAt { index: position }),
            final(self).upstream() == if old(self).removing()[position as int] {
                old(self).upstream()
            } else {
                old(self).upstream().remove(rank(live(old(self).removing()), position as int) as int)
            },
    {
        proof { lemma_upstream_remove(self.entries@, self.removing@, position as int); }
        self.removing.remove(position);
        remove_index(&mut self.entries, position)
    }

    /// Takes out the upstream entry at `position`, whose removal animation
    /// `finished` says has already run to its end: it is dropped and the
    /// change for it is returned; otherwise it starts animating out and
    /// nothing is returned yet.
    pub fn remove_or_animate(&mut self, position: usize, finished: bool) -> (r: Option<VecDiff<()>>)
        requires
            old(self).wf(),
            position < old(self).removing().len(),
            !old(self).removing()[position as int],
        ensures
            final(self).wf(),
            final(self).upstream() == old(self).upstream().remove(rank(live(old(self).removing()), position as int) as int),
            finished ==> {
                &&& final(self).entries() == old(self).entries().remove(position as int)
                &&& final(self).removing() == old(self).removing().remove(position as int)
                &&& position == old(self).entries().len() - 1 ==> r == Some(VecDiff::<()>::Pop {})
                &&& position != old(self).entries().len() - 1 ==> r == Some(VecDiff::<()>::RemoveAt { index: position })
            },
            !finished ==> {
                &&& r is None
                &&& final(self).entries() == old(self).entries()
                &&& final(self).removing() == old(self).removing().update(position as int, true)
            },
    {
        if finished {
            Some(self.remove_at(position))
        } else {
            self.start_removing(position);
            None
        }
    }

    /// Once the source has nothing now: `finished[i]` says whether the entry
    /// `i`, where it is animating out, has run its animation to the end. The
    /// last such entry is dropped and its change returned; where there is
    /// none, the map ends once the source has ended (`source_done`) and no
    /// entry is animating out, and waits otherwise.
    pub fn settle(&mut self, finished: &Vec<bool>, source_done: bool) -> (r: Settled)
        requires
            old(self).wf(),
            finished@.len() == old(self).entries().len(),
        ensures
            final(self).wf(),
            match r {
                Settled::Removed(d) => exists|p: int| {
                    &&& 0 <= p < old(self).entries().len()
                    &&& old(self).removing()[p] && finished@[p]
                    &&& forall|j: int| p < j < old(self).entries().len() ==> !(old(self).removing()[j] && #[trigger] finished@[j])
                    &&& final(self).entries() == old(self).entries().remove(p)
                    &&& final(self).removing() == old(self).removing().remove(p)
                    &&& final(self).upstream() == old(self).upstream()
                    &&& p == old(self).entries().len() - 1 ==> d == VecDiff::<()>::Pop {}
                    &&& p != old(self).entries().len() - 1 ==> d == (VecDiff::<()>::RemoveAt { index: p as usize })
                },
                Settled::Ended => {
                    &&& source_done
                    &&& forall|j: int| 0 <= j < old(self).entries().len() ==> !#[trigger] old(self).removing()[j]
                    &&& *final(self) == *old(self)
                },
                Settled::Waiting => {
                    &&& forall|j: int| 0 <= j < old(self).entries().len() ==> !(old(self).removing()[j] && #[trigger] finished@[j])
                    &&& !source_done || exists|j: int| 0 <= j < old(self).entries().len() && #[trigger] old(self).removing()[j]
                    &&& *final(self) == *old(self)
                },
            },
    {
        let n = self.removing.len();
        let mut i = n;
        let mut any_removing = false;
        while i > 0
            invariant
                i <= n,
                n == self.removing@.len(),
                n == finished@.len(),
                old(self).wf(),
                *self == *old(self),
                forall|j: int| i <= j < n ==> !(self.removing@[j] && #[trigger] finished@[j]),
                any_removing <==> exists|j: int| i <= j < n && #[trigger] self.removing@[j],
            decreases i,
        {
            i = i - 1;
            if self.removing[i] {
                any_removing = true;
                if finished[i] {
                    let ghost p = i as int;
                    let d = self.remove_at(i);
                    assert(old(self).removing()[p] && finished@[p]);
                    assert(forall|j: int| p < j < old(self).entries().len() ==> !(old(self).removing()[j] && #[trigger] finished@[j]));
                    return Settled::Removed(d);
                }
            }
        }
        if source_done && !any_removing {
            Settled::Ended
        } else {
            Settled::Waiting
        }
    }

    /// Drops every entry.
    pub fn clear(&mut self)
        ensures
            final(self).wf(),
            final(self).entries() == Seq::<S>::empty(),
            final(self).live_count() == 0,
            final(self).upstream() == Seq::<S>::empty(),
    {
        self.entries.clear();
        self.removing.clear();
        assert(live(self.removing@) =~= Seq::<bool>::empty());
        proof { lemma_upstream_all_live(self.entries@, self.removing@); }
    }
}

proof fn lemma_all_live(removing: Seq<bool>)
    requires
        forall|j: int| 0 <= j < removing.len() ==> !removing[j],
    ensures
        count_true(live(removing)) == removing.len(),
    decreases removing.len(),
{
    if removing.len() > 0 {
        assert(live(removing.drop_last()) =~= live(removing).drop_last());
        lemma_all_live(removing.drop_last());
    }
}

proof fn lemma_none_live(removing: Seq<bool>)
    requires
        forall|j: int| 0 <= j < removing.len() ==> removing[j],
    ensures
        count_true(live(removing)) == 0,
    decreases removing.len(),
{
    if removing.len() > 0 {
        assert(live(removing.drop_last()) =~= live(removing).drop_last());
        lemma_none_live(removing.drop_last());
    }
}

proof fn lemma_live_insert(removing: Seq<bool>, i: int)
    requires
        0 <= i <= removing.len(),
    ensures
        count_true(live(removing.insert(i, false))) == count_true(live(removing)) + 1,
{
    let m = live(removing);
    assert(live(removing.insert(i, false)) =~= m.insert(i, true));
    crate::signals::masks::lemma_rank_insert(m, i, true, (m.len() + 1) as int);
    crate::signals::masks::lemma_rank_full(m);
    crate::signals::masks::lemma_rank_full(m.insert(i, true));
}

proof fn lemma_live_remove(removing: Seq<bool>, i: int)
    requires
        0 <= i < removing.len(),
    ensures
        count_true(live(removing.remove(i))) + (if removing[i] { 0int } else { 1int }) == count_true(live(removing)),
{
    let m = live(removing);
    assert(live(removing.remove(i)) =~= m.remove(i));
    crate::signals::masks::lemma_rank_remove(m, i, (m.len() - 1) as int);
    crate::signals::masks::lemma_rank_step(m, i);
    assert(m[i] == !removing[i]);
    crate::signals::masks::lemma_rank_full(m);
    crate::signals::masks::lemma_rank_full(m.remove(i));
    if m[i] {
        crate::signals::masks::lemma_rank_strict(m, i, m.len() as int);
    }
    if i < m.len() - 1 {
        assert(rank(m.remove(i), m.len() - 1) == rank(m, m.len() as int) - (if m[i] { 1int } else { 0int }));
    } else {
        assert(rank(m.remove(i), m.len() - 1) == rank(m, m.len() - 1));
    }
}

proof fn lemma_live_mark(removing: Seq<bool>, i: int)
    requires
        0 <= i < removing.len(),
        !removing[i],
    ensures
        count_true(live(removing.update(i, true))) + 1 == count_true(live(removing)),
{
    let m = live(removing);
    assert(live(removing.update(i, true)) =~= m.update(i, false));
    crate::signals::masks::lemma_rank_update(m, i, false, m.len() as int);
    crate::signals::masks::lemma_rank_full(m);
    crate::signals::masks::lemma_rank_full(m.update(i, false));
}

/// Removing an upstream entry through its animation: marking the live entry
/// at `p` as animating out removes, from the upstream vector, the entry whose
/// index is its rank; dropping it later, once its animation ends, leaves the
/// upstream vector as it is.
pub proof fn lemma_animated_removal<S>(entries: Seq<S>, removing: Seq<bool>, p: int)
    requires
        entries.len() == removing.len(),
        0 <= p < entries.len(),
        !removing[p],
    ensures
        upstream_of(entries, removing.update(p, true))
            == upstream_of(entries, removing).remove(rank(live(removing), p) as int),
        upstream_of(entries.remove(p), removing.update(p, true).remove(p))
            == upstream_of(entries, removing.update(p, true)),
        upstream_of(entries, removing)[rank(live(removing), p) as int] == entries[p],
{
    lemma_upstream_mark(entries, removing, p);
    lemma_upstream_remove(entries, removing.update(p, true), p);
    lemma_upstream_at(entries, removing, p);
}

} // verus!

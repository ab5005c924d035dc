//! Keeping the children of a DOM node in step with a signal: the decisions
//! that turn each change of the children into node operations.
use vstd::prelude::*;
use crate::callbacks::Callbacks;

verus! {

/// One change of a vector of children, as the signal vectors of the DOM
/// builder send them.
#[derive(Debug, Clone, PartialEq, Eq)]
pub enum VecDiff<A> {
    Replace { values: Vec<A> },
    InsertAt { index: usize, value: A },
    UpdateAt { index: usize, value: A },
    RemoveAt { index: usize },
    Move { old_index: usize, new_index: usize },
    Push { value: A },
    Pop {},
    Clear {},
}

/// Whether `c` can be applied to a vector of length `len`.
pub open spec fn diff_fits<A>(c: VecDiff<A>, len: nat) -> bool {
    match c {
        VecDiff::InsertAt { index, .. } => index <= len,
        VecDiff::UpdateAt { index, .. } => index < len,
        VecDiff::RemoveAt { index } => index < len,
        VecDiff::Move { old_index, new_index } => old_index < len && new_index < len,
        VecDiff::Pop {} => len > 0,
        _ => true,
    }
}

/// Whether `change` can be applied to `len` children.
pub fn fits<A>(change: &VecDiff<A>, len: usize) -> (r: bool)
    ensures
        r == diff_fits(*change, len as nat),
{
    match change {
        VecDiff::InsertAt { index, .. } => *index <= len,
        VecDiff::UpdateAt { index, .. } => *index < len,
        VecDiff::RemoveAt { index } => *index < len,
        VecDiff::Move { old_index, new_index } => *old_index < len && *new_index < len,
        VecDiff::Pop {} => len > 0,
        _ => true,
    }
}

/// The vector that results from applying `c` to `v`.
pub open spec fn apply_diff<A>(v: Seq<A>, c: VecDiff<A>) -> Seq<A> {
    match c {
        VecDiff::Replace { values } => values@,
        VecDiff::InsertAt { index, value } => v.insert(index as int, value),
        VecDiff::UpdateAt { index, value } => v.update(index as int, value),
        VecDiff::RemoveAt { index } => v.remove(index as int),
        VecDiff::Move { old_index, new_index } => v.remove(old_index as int).insert(
            new_index as int,
            v[old_index as int],
        ),
        VecDiff::Push { value } => v.push(value),
        VecDiff::Pop {} => v.drop_last(),
        VecDiff::Clear {} => Seq::empty(),
    }
}

/// One operation on the child nodes of the parent. Positions and children
/// are those of the children vector after the change; removed children are
/// handed over so that their removal callbacks can run.
#[derive(Debug, Clone, PartialEq, Eq)]
pub enum ChildOp<D> {
    /// Remove every child node, then discard each of `removed`.
    RemoveAll { removed: Vec<D> },
    /// Append the node of the new child `index`, and run its insertion.
    Append { index: usize },
    /// Insert the node of the new child `index` before the node of child
    /// `index + 1`, and run its insertion.
    InsertBefore { index: usize },
    /// Put the node of the new child `index` in place of the node of `old`,
    /// run its insertion, and discard `old`.
    Replace { index: usize, old: D },
    /// Remove the node of `node` (child `index` before the change), and
    /// discard it.
    Remove { index: usize, node: D },
    /// Move the node of child `index`, which stood at `from`, before the node
    /// of child `index + 1`, or to the end where there is none.
    Reinsert { from: usize, index: usize },
}

/// Replays `ops` on the model `dom` of the parent's child nodes, where
/// `children` is the children vector the operations refer to; `None` where
/// an operation finds a different node than the one it names.
pub open spec fn replay_ops<D>(dom: Seq<D>, children: Seq<D>, ops: Seq<ChildOp<D>>) -> Option<Seq<D>>
    decreases ops.len(),
{
    if ops.len() == 0 {
        Some(dom)
    } else {
        match replay_ops(dom, children, ops.drop_last()) {
            None => None,
            Some(d) => replay_op(d, children, ops.last()),
        }
    }
}

pub open spec fn replay_op<D>(d: Seq<D>, children: Seq<D>, op: ChildOp<D>) -> Option<Seq<D>> {
    match op {
        ChildOp::RemoveAll { removed } => if d == removed@ { Some(Seq::empty()) } else { None },
        ChildOp::Append { index } => if index < children.len() {
            Some(d.push(children[index as int]))
        } else {
            None
        },
        ChildOp::InsertBefore { index } => if index + 1 < children.len() && index < d.len() && d[index as int]
            == children[index + 1] {
            Some(d.insert(index as int, children[index as int]))
        } else {
            None
        },
        ChildOp::Replace { index, old } => if index < children.len() && index < d.len() && d[index as int]
            == old {
            Some(d.update(index as int, children[index as int]))
        } else {
            None
        },
        ChildOp::Remove { index, node } => if index < d.len() && d[index as int] == node {
            Some(d.remove(index as int))
        } else {
            None
        },
        ChildOp::Reinsert { from, index } => if from < d.len() && index < children.len() && d[from as int]
            == children[index as int] {
            let rest = d.remove(from as int);
            if index + 1 < children.len() {
                if index < rest.len() && rest[index as int] == children[index + 1] {
                    Some(rest.insert(index as int, children[index as int]))
                } else {
                    None
                }
            } else {
                Some(rest.push(children[index as int]))
            }
        } else {
            None
        },
    }
}

/// The children of a node whose children follow a signal vector, and whether
/// the node has been inserted into the document.
pub struct ChildrenState<D> {
    is_inserted: bool,
    children: Vec<D>,
}

impl<D> ChildrenState<D> {
    pub closed spec fn children(&self) -> Seq<D> {
        self.children@
    }

    pub closed spec fn is_inserted(&self) -> bool {
        self.is_inserted
    }

    pub fn new() -> (r: Self)
        ensures
            r.children() == Seq::<D>::empty(),
            !r.is_inserted(),
    {
        ChildrenState { is_inserted: false, children: Vec::new() }
    }

    /// Whether the node is in the document, to read.
    pub fn inserted(&self) -> (r: bool)
        ensures
            r == self.is_inserted(),
    {
        self.is_inserted
    }

    /// The children, to read.
    pub fn children_ref(&self) -> (r: &Vec<D>)
        ensures
            r@ == self.children(),
    {
        &self.children
    }

    /// The children, to run their insertion callbacks.
    pub fn children_mut(&mut self) -> (r: &mut Vec<D>)
        ensures
            r@ == old(self).children(),
            final(self).is_inserted() == old(self).is_inserted(),
            final(self).children() == final(r)@,
    {
        &mut self.children
    }

    /// Notes that the node has been inserted; `true` the first time, when
    /// the insertion of every child has to run.
    pub fn mark_inserted(&mut self) -> (first: bool)
        ensures
            first == !old(self).is_inserted(),
            final(self).is_inserted(),
            final(self).children() == old(self).children(),
    {
        if !self.is_inserted {
            self.is_inserted = true;
            true
        } else {
            false
        }
    }

    /// Applies one change to the children and returns the node operations
    /// that bring the child nodes in step: replayed on child nodes that stood
    /// as the children did before, they give the children after.
    pub fn process_change(&mut self, change: VecDiff<D>) -> (ops: Vec<ChildOp<D>>)
        requires
            diff_fits(change, old(self).children().len()),
        ensures
            final(self).children() == apply_diff(old(self).children(), change),
            final(self).is_inserted() == old(self).is_inserted(),
            replay_ops(old(self).children(), final(self).children(), ops@) == Some(final(self).children()),
            !(change is Replace) && !(change is Clear) ==> ops@.len() <= 2,
    {
        let mut ops: Vec<ChildOp<D>> = Vec::new();
        let ghost old_children = self.children@;
        let len = self.children.len();
        match change {
            VecDiff::Replace { values } => {
                if len > 0 {
                    let mut removed: Vec<D> = Vec::new();
                    std::mem::swap(&mut removed, &mut self.children);
                    ops.push(ChildOp::RemoveAll { removed });
                    proof { lemma_replay_push(old_children, values@, Seq::empty(), ops@[0]); }
                    assert(ops@ =~= Seq::<ChildOp<D>>::empty().push(ops@[0]));
                } else {
                    assert(old_children =~= Seq::<D>::empty());
                }
                self.children = values;
                let n = self.children.len();
                let mut i: usize = 0;
                assert(self.children@.take(0) =~= Seq::<D>::empty());
                while i < n
                    invariant
                        i <= n,
                        n == self.children@.len(),
                        replay_ops(old_children, self.children@, ops@) == Some(self.children@.take(i as int)),
                    decreases n - i,
                {
                    let ghost before = ops@;
                    ops.push(ChildOp::Append { index: i });
                    proof {
                        lemma_replay_push(old_children, self.children@, before, ChildOp::Append { index: i });
                        assert(ops@ == before.push(ChildOp::Append { index: i }));
                        assert(self.children@.take(i as int).push(self.children@[i as int]) =~= self.children@.take(i + 1));
                    }
                    i = i + 1;
                }
                assert(self.children@.take(n as int) =~= self.children@);
            },
            VecDiff::InsertAt { index, value } => {
                self.children.insert(index, value);
                if index < len {
                    ops.push(ChildOp::InsertBefore { index });
                } else {
                    ops.push(ChildOp::Append { index });
                    assert(old_children.insert(index as int, value) =~= old_children.push(value));
                }
                proof { lemma_replay_push(old_children, self.children@, Seq::empty(), ops@[0]); }
                assert(ops@ =~= Seq::<ChildOp<D>>::empty().push(ops@[0]));
            },
            VecDiff::Push { value } => {
                self.children.push(value);
                ops.push(ChildOp::Append { index: len });
                proof { lemma_replay_push(old_children, self.children@, Seq::empty(), ops@[0]); }
                assert(ops@ =~= Seq::<ChildOp<D>>::empty().push(ops@[0]));
            },
            VecDiff::UpdateAt { index, value } => {
                let old = self.children.remove(index);
                self.children.insert(index, value);
                ops.push(ChildOp::Replace { index, old });
                proof { lemma_replay_push(old_children, self.children@, Seq::empty(), ops@[0]); }
                assert(ops@ =~= Seq::<ChildOp<D>>::empty().push(ops@[0]));
                assert(old_children.remove(index as int).insert(index as int, value) =~= old_children.update(index as int, value));
            },
            VecDiff::Move { old_index, new_index } => {
                let value = self.children.remove(old_index);
                self.children.insert(new_index, value);
                ops.push(ChildOp::Reinsert { from: old_index, index: new_index });
                proof {
                    lemma_replay_push(old_children, self.children@, Seq::empty(), ops@[0]);
                    let fin = self.children@;
                    let rest = old_children.remove(old_index as int);
                    assert(rest =~= fin.remove(new_index as int));
                    if new_index + 1 < fin.len() {
                        assert(rest.insert(new_index as int, fin[new_index as int]) =~= fin);
                    } else {
                        assert(rest.push(fin[new_index as int]) =~= fin);
                    }
                }
                assert(ops@ =~= Seq::<ChildOp<D>>::empty().push(ops@[0]));
            },
            VecDiff::RemoveAt { index } => {
                let removed = self.children.remove(index);
                ops.push(ChildOp::Remove { index, node: removed });
                proof { lemma_replay_push(old_children, self.children@, Seq::empty(), ops@[0]); }
                assert(ops@ =~= Seq::<ChildOp<D>>::empty().push(ops@[0]));
            },
            VecDiff::Pop {} => {
                let removed = self.children.pop().unwrap();
                ops.push(ChildOp::Remove { index: len - 1, node: removed });
                proof { lemma_replay_push(old_children, self.children@, Seq::empty(), ops@[0]); }
                assert(ops@ =~= Seq::<ChildOp<D>>::empty().push(ops@[0]));
                assert(old_children.remove(len - 1) =~= old_children.drop_last());
            },
            VecDiff::Clear {} => {
                if len > 0 {
                    let mut removed: Vec<D> = Vec::new();
                    std::mem::swap(&mut removed, &mut self.children);
                    ops.push(ChildOp::RemoveAll { removed });
                    proof { lemma_replay_push(old_children, self.children@, Seq::empty(), ops@[0]); }
                    assert(ops@ =~= Seq::<ChildOp<D>>::empty().push(ops@[0]));
                } else {
                    assert(old_children =~= Seq::<D>::empty());
                }
                assert(self.children@ =~= Seq::<D>::empty());
            },
        }
        ops
    }
}


proof fn lemma_replay_push<D>(dom: Seq<D>, children: Seq<D>, ops: Seq<ChildOp<D>>, op: ChildOp<D>)
    ensures
        replay_ops(dom, children, ops.push(op)) == match replay_ops(dom, children, ops) {
            None => None,
            Some(d) => replay_op(d, children, op),
        },
{
    assert(ops.push(op).drop_last() =~= ops);
}


/// What a child does once it has been put into its parent: its removal
/// callbacks now belong to the parent's bookkeeping, and where the parent is
/// in the document, its insertion callbacks run.
pub fn after_insert(is_inserted: bool, callbacks: &mut Callbacks)
    ensures
        !final(callbacks).triggers_remove(),
        is_inserted ==> final(callbacks).inserts() == 0,
        !is_inserted ==> final(callbacks).inserts() == old(callbacks).inserts()
            && final(callbacks).removes() == old(callbacks).removes(),
{
    callbacks.leak();
    if is_inserted {
        callbacks.trigger_after_insert();
    }
}

/// The one optional child of a node whose child follows a signal, and
/// whether the node has been inserted into the document.
pub struct ChildSlot<D> {
    is_inserted: bool,
    child: Option<D>,
}

impl<D> ChildSlot<D> {
    pub closed spec fn child(&self) -> Option<D> {
        self.child
    }

    pub closed spec fn is_inserted(&self) -> bool {
        self.is_inserted
    }

    pub fn new() -> (r: Self)
        ensures
            r.child() is None,
            !r.is_inserted(),
    {
        ChildSlot { is_inserted: false, child: None }
    }

    /// Whether the node is in the document, to read.
    pub fn inserted(&self) -> (r: bool)
        ensures
            r == self.is_inserted(),
    {
        self.is_inserted
    }

    /// The child, to run its callbacks.
    pub fn child_mut(&mut self) -> (r: &mut Option<D>)
        ensures
            *r == old(self).child(),
            final(self).is_inserted() == old(self).is_inserted(),
            final(self).child() == *final(r),
    {
        &mut self.child
    }

    /// Puts `child` in the slot and hands back the child it replaces, whose
    /// node has to leave the parent and whose removal callbacks have to run.
    pub fn set_child(&mut self, child: Option<D>) -> (removed: Option<D>)
        ensures
            removed == old(self).child(),
            final(self).child() == child,
            final(self).is_inserted() == old(self).is_inserted(),
    {
        let mut child = child;
        std::mem::swap(&mut child, &mut self.child);
        child
    }

    /// Notes that the node has been inserted; `true` the first time, when
    /// the child's insertion callbacks have to run.
    pub fn mark_inserted(&mut self) -> (first: bool)
        ensures
            first == !old(self).is_inserted(),
            final(self).is_inserted(),
            final(self).child() == old(self).child(),
    {
        if !self.is_inserted {
            self.is_inserted = true;
            true
        } else {
            false
        }
    }
}

} // verus!

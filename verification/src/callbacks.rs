//! The callbacks that a DOM node runs once it is inserted into the document
//! and once it is removed from it.
use vstd::prelude::*;

verus! {

/// Something to run once, when a node is removed.
pub trait IRemove {
    /// Whether running it now is within its contract.
    spec fn ready(&self) -> bool;

    /// What holds once it has run.
    spec fn done(&self) -> bool;

    fn remove(self: Box<Self>)
        requires
            self.ready(),
        ensures
            self.done(),
    ;
}

/// Something to run once, when a node is inserted; it takes the removal
/// callbacks that wait and gives them back, with any it registers.
pub trait IInsertCallback {
    /// Whether running it now is within its contract.
    spec fn ready(&self) -> bool;

    /// What holds once it has run on the removal callbacks `before` and
    /// given back `after`.
    spec fn done(&self, before: Vec<RemoveCallback>, after: Vec<RemoveCallback>) -> bool;

    fn call(self: Box<Self>, after_remove: Vec<RemoveCallback>) -> (r: Vec<RemoveCallback>)
        requires
            self.ready(),
        ensures
            self.done(after_remove, r),
    ;
}

/// A value that is kept alive until the node is removed, and dropped then.
pub struct ValueDiscard<A> {
    value: A,
}

impl<A> ValueDiscard<A> {
    pub fn new(value: A) -> (r: Self)
        ensures
            r.value() == value,
    {
        ValueDiscard { value }
    }

    pub closed spec fn value(&self) -> A {
        self.value
    }
}

impl<A> IRemove for ValueDiscard<A> {
    open spec fn ready(&self) -> bool {
        true
    }

    /// Dropping the value is all it does.
    open spec fn done(&self) -> bool {
        true
    }

    fn remove(self: Box<Self>) {
    }
}

/// A function that runs once, when the node is removed.
pub struct FnDiscard<F> {
    f: F,
}

impl<F: FnOnce()> FnDiscard<F> {
    pub fn new(f: F) -> (r: Self)
        ensures
            r.function() == f,
    {
        FnDiscard { f }
    }

    pub closed spec fn function(&self) -> F {
        self.f
    }
}

impl<F: FnOnce()> IRemove for FnDiscard<F> {
    closed spec fn ready(&self) -> bool {
        self.f.requires(())
    }

    /// The function has run to its end.
    closed spec fn done(&self) -> bool {
        self.f.ensures((), ())
    }

    fn remove(self: Box<Self>) {
        (self.f)()
    }
}

/// A function that runs once, when the node is inserted.
pub struct InsertFn<F> {
    f: F,
}

impl<F> InsertFn<F> {
    /// The function.
    pub closed spec fn function(&self) -> F {
        self.f
    }
}

impl<F: FnOnce(Vec<RemoveCallback>) -> Vec<RemoveCallback>> IInsertCallback for InsertFn<F> {
    closed spec fn ready(&self) -> bool {
        forall|v: Vec<RemoveCallback>| #[trigger] self.f.requires((v,))
    }

    /// The function has run to its end on `before` and returned `after`.
    open spec fn done(&self, before: Vec<RemoveCallback>, after: Vec<RemoveCallback>) -> bool {
        self.function().ensures((before,), after)
    }

    fn call(self: Box<Self>, after_remove: Vec<RemoveCallback>) -> (r: Vec<RemoveCallback>) {
        (self.f)(after_remove)
    }
}

/// A boxed removal callback that is ready to run.
pub struct RemoveCallback(Box<dyn IRemove>);

impl RemoveCallback {
    #[verifier::type_invariant]
    spec fn inv(self) -> bool {
        self.0.ready()
    }

    /// What holds once the callback has run.
    pub closed spec fn ran(&self) -> bool {
        self.0.done()
    }

    /// A callback that runs `f`.
    pub fn from_fn<F: FnOnce() + 'static>(f: F) -> (r: Self)
        requires
            f.requires(()),
        ensures
            r.ran() == f.ensures((), ()),
    {
        let d = FnDiscard { f };
        assert(d.ready());
        RemoveCallback(Box::new(d))
    }

    /// A callback that drops `value`, and does nothing more.
    pub fn from_value<A: 'static>(value: A) -> (r: Self)
        ensures
            r.ran(),
    {
        let d = ValueDiscard { value };
        assert(d.ready());
        RemoveCallback(Box::new(d))
    }

    /// Runs the callback.
    pub fn run(self)
        ensures
            self.ran(),
    {
        proof { use_type_invariant(&self); }
        self.0.remove();
    }
}

/// A boxed insertion callback that is ready to run.
pub struct InsertCallback(Box<dyn IInsertCallback>);

impl InsertCallback {
    #[verifier::type_invariant]
    spec fn inv(self) -> bool {
        self.0.ready()
    }

    /// What holds once the callback has run on the removal callbacks
    /// `before` and given back `after`.
    pub closed spec fn ran(&self, before: Vec<RemoveCallback>, after: Vec<RemoveCallback>) -> bool {
        self.0.done(before, after)
    }

    /// A callback that runs `f`, which takes the removal callbacks and gives
    /// them back, with any it registers.
    pub fn from_fn<F: FnOnce(Vec<RemoveCallback>) -> Vec<RemoveCallback> + 'static>(f: F) -> (r: Self)
        requires
            forall|v: Vec<RemoveCallback>| #[trigger] f.requires((v,)),
        ensures
            forall|v: Vec<RemoveCallback>, w: Vec<RemoveCallback>| #[trigger] r.ran(v, w) == f.ensures((v,), w),
    {
        let d = InsertFn { f };
        assert(d.ready());
        InsertCallback(Box::new(d))
    }

    /// Runs the callback on `after_remove`, and gives back the removal
    /// callbacks it leaves.
    pub fn run(self, after_remove: Vec<RemoveCallback>) -> (r: Vec<RemoveCallback>)
        ensures
            self.ran(after_remove, r),
    {
        proof { use_type_invariant(&self); }
        self.0.call(after_remove)
    }
}


/// The callbacks of a node: those to run once it is inserted, those to run
/// once it is removed, and whether dropping it should run the latter.
pub struct Callbacks {
    after_insert: Vec<InsertCallback>,
    after_remove: Vec<RemoveCallback>,
    trigger_remove: bool,
}

impl Callbacks {
    /// The insertion callbacks that wait, in the order they run.
    pub closed spec fn insert_callbacks(&self) -> Seq<InsertCallback> {
        self.after_insert@
    }

    /// The removal callbacks that wait, in the order they run.
    pub closed spec fn remove_callbacks(&self) -> Seq<RemoveCallback> {
        self.after_remove@
    }

    /// How many insertion callbacks wait.
    pub open spec fn inserts(&self) -> nat {
        self.insert_callbacks().len()
    }

    /// How many removal callbacks wait.
    pub open spec fn removes(&self) -> nat {
        self.remove_callbacks().len()
    }

    /// Whether the removal callbacks still belong to this node (they do not
    /// once it has been leaked into the document for good).
    pub closed spec fn triggers_remove(&self) -> bool {
        self.trigger_remove
    }

    pub fn new() -> (r: Self)
        ensures
            r.insert_callbacks() == Seq::<InsertCallback>::empty(),
            r.remove_callbacks() == Seq::<RemoveCallback>::empty(),
            r.triggers_remove(),
    {
        Callbacks { after_insert: Vec::new(), after_remove: Vec::new(), trigger_remove: true }
    }

    /// Adds `callback` after the insertion callbacks that wait.
    pub fn after_insert(&mut self, callback: InsertCallback)
        ensures
            final(self).insert_callbacks() == old(self).insert_callbacks().push(callback),
            final(self).remove_callbacks() == old(self).remove_callbacks(),
            final(self).triggers_remove() == old(self).triggers_remove(),
    {
        self.after_insert.push(callback);
    }

    /// Adds `callback` after the removal callbacks that wait.
    pub fn after_remove(&mut self, callback: RemoveCallback)
        ensures
            final(self).insert_callbacks() == old(self).insert_callbacks(),
            final(self).remove_callbacks() == old(self).remove_callbacks().push(callback),
            final(self).triggers_remove() == old(self).triggers_remove(),
    {
        self.after_remove.push(callback);
    }

    /// Moves every callback of `other` after those of this node.
    pub fn transfer(&mut self, other: &mut Callbacks)
        ensures
            final(self).insert_callbacks() == old(self).insert_callbacks() + old(other).insert_callbacks(),
            final(self).remove_callbacks() == old(self).remove_callbacks() + old(other).remove_callbacks(),
            final(self).triggers_remove() == old(self).triggers_remove(),
            final(other).insert_callbacks() == Seq::<InsertCallback>::empty(),
            final(other).remove_callbacks() == Seq::<RemoveCallback>::empty(),
            final(other).triggers_remove() == old(other).triggers_remove(),
    {
        self.after_insert.append(&mut other.after_insert);
        self.after_remove.append(&mut other.after_remove);
    }

    /// Runs the insertion callbacks once each, in order, each of which may
    /// register removal callbacks; afterwards none waits. The `i`-th callback
    /// runs on the removal callbacks `states[i]` and leaves `states[i + 1]`:
    /// the first are those that waited, the last are those that wait now.
    pub fn trigger_after_insert(&mut self)
        ensures
            final(self).insert_callbacks() == Seq::<InsertCallback>::empty(),
            final(self).triggers_remove() == old(self).triggers_remove(),
            exists|states: Seq<Vec<RemoveCallback>>| {
                &&& states.len() == old(self).inserts() + 1
                &&& states[0]@ == old(self).remove_callbacks()
                &&& states.last()@ == final(self).remove_callbacks()
                &&& forall|i: int| 0 <= i < old(self).inserts() ==>
                    #[trigger] old(self).insert_callbacks()[i].ran(states[i], states[i + 1])
            },
    {
        let ghost orig = self.after_insert@;
        let ghost states: Seq<Vec<RemoveCallback>> = seq![self.after_remove];
        if self.after_insert.len() > 0 {
            let mut removes: Vec<RemoveCallback> = Vec::new();
            std::mem::swap(&mut removes, &mut self.after_remove);
            let mut inserts: Vec<InsertCallback> = Vec::new();
            std::mem::swap(&mut inserts, &mut self.after_insert);
            let n: usize = inserts.len();
            let mut pending = crate::signals::signal_vec::into_reversed(inserts);
            let mut k: usize = 0;
            while pending.len() > 0
                invariant
                    orig.len() == n,
                    k + pending@.len() == orig.len(),
                    states[0]@ == old(self).remove_callbacks(),
                    forall|j: int| 0 <= j < pending@.len() ==> pending@[j] == orig[orig.len() - 1 - j],
                    states.len() == k + 1,
                    states.last() == removes,
                    forall|i: int| 0 <= i < k ==> #[trigger] orig[i].ran(states[i], states[i + 1]),
                decreases pending@.len(),
            {
                let f = pending.pop().unwrap();
                assert(f == orig[k as int]);
                let ghost before = removes;
                removes = f.run(removes);
                proof {
                    let ghost prev = states;
                    states = states.push(removes);
                    assert forall|i: int| 0 <= i < k + 1 implies #[trigger] orig[i].ran(states[i], states[i + 1]) by {
                        if i < k {
                            assert(states[i] == prev[i]);
                            assert(states[i + 1] == prev[i + 1]);
                            assert(orig[i].ran(prev[i], prev[i + 1]));
                        } else {
                            assert(states[i] == before);
                            assert(states[i + 1] == removes);
                        }
                    }
                }
                k = k + 1;
            }
            self.after_insert = Vec::new();
            std::mem::swap(&mut removes, &mut self.after_remove);
            assert(states.last() == self.after_remove);
        }
        assert(states.len() == orig.len() + 1);
        assert(states[0]@ == old(self).remove_callbacks());
        assert(states.last()@ == self.after_remove@);
    }

    /// Runs each removal callback once, in order; afterwards none waits.
    pub fn trigger_after_remove(&mut self)
        ensures
            final(self).remove_callbacks() == Seq::<RemoveCallback>::empty(),
            final(self).insert_callbacks() == old(self).insert_callbacks(),
            final(self).triggers_remove() == old(self).triggers_remove(),
            forall|i: int| 0 <= i < old(self).removes() ==> #[trigger] old(self).remove_callbacks()[i].ran(),
    {
        let ghost orig = self.after_remove@;
        let mut removes: Vec<RemoveCallback> = Vec::new();
        std::mem::swap(&mut removes, &mut self.after_remove);
        let n: usize = removes.len();
        let mut pending = crate::signals::signal_vec::into_reversed(removes);
        let mut k: usize = 0;
        while pending.len() > 0
            invariant
                orig.len() == n,
                k + pending@.len() == orig.len(),
                forall|j: int| 0 <= j < pending@.len() ==> pending@[j] == orig[orig.len() - 1 - j],
                forall|i: int| 0 <= i < k ==> #[trigger] orig[i].ran(),
            decreases pending@.len(),
        {
            let f = pending.pop().unwrap();
            assert(f == orig[k as int]);
            f.run();
            k = k + 1;
        }
    }

    /// Gives up the removal callbacks: dropping the node no longer runs them.
    pub fn leak(&mut self)
        ensures
            final(self).insert_callbacks() == old(self).insert_callbacks(),
            final(self).remove_callbacks() == old(self).remove_callbacks(),
            !final(self).triggers_remove(),
    {
        self.trigger_remove = false;
    }

    /// Runs each removal callback once, in order, and drops the rest.
    pub fn discard(self)
        ensures
            forall|i: int| 0 <= i < self.removes() ==> #[trigger] self.remove_callbacks()[i].ran(),
    {
        let mut this = self;
        this.trigger_after_remove();
    }

    /// Whether the removal callbacks still belong to this node.
    pub fn should_trigger_remove(&self) -> (r: bool)
        ensures
            r == self.triggers_remove(),
    {
        self.trigger_remove
    }
}

} // verus!

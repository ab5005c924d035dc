//! Small shared helpers: a reference-counted lazily made value.
use vstd::prelude::*;

verus! {

/// Data that is made on the first use and dropped once the last user is
/// gone, with the count of users.
pub struct RefCounter<A> {
    data: Option<A>,
    counter: usize,
}

impl<A> RefCounter<A> {
    pub closed spec fn data(&self) -> Option<A> {
        self.data
    }

    pub closed spec fn count(&self) -> usize {
        self.counter
    }

    /// The data exists exactly while some user is left.
    pub open spec fn wf(&self) -> bool {
        self.data() is Some <==> self.count() > 0
    }

    /// Neither data nor users.
    pub fn new() -> (r: Self)
        ensures
            r.data() is None,
            r.count() == 0,
            r.wf(),
    {
        RefCounter { data: None, counter: 0 }
    }

    /// How many users there are.
    pub fn users(&self) -> (r: usize)
        ensures
            r == self.count(),
    {
        self.counter
    }

    /// The data, where it has been made.
    pub fn try_borrow(&self) -> (r: &Option<A>)
        ensures
            *r == self.data(),
    {
        &self.data
    }

    /// One user fewer; once none is left, the data is dropped.
    pub fn decrement(&mut self)
        requires
            old(self).count() > 0,
        ensures
            old(self).wf() ==> final(self).wf(),
            final(self).count() == old(self).count() - 1,
            final(self).count() == 0 ==> final(self).data() is None,
            final(self).count() > 0 ==> final(self).data() == old(self).data(),
    {
        let counter = self.counter - 1;
        self.counter = counter;
        if counter == 0 {
            self.data = None;
        }
    }

    /// One user more; the data is made with `f` where it does not exist yet.
    /// Returns the data.
    pub fn increment<F>(&mut self, f: F) -> (r: &mut A)
        where F: FnOnce() -> A,
        requires
            old(self).count() < usize::MAX,
            old(self).data() is None ==> f.requires(()),
        ensures
            final(self).wf(),
            final(self).count() == old(self).count() + 1,
            old(self).data() matches Some(d) ==> *r == d,
            old(self).data() is None ==> f.ensures((), *r),
            final(self).data() == Some(*final(r)),
    {
        if self.data.is_none() {
            self.data = Some(f());
        }
        self.counter = self.counter + 1;
        self.data.as_mut().unwrap()
    }
}

} // verus!

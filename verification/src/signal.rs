//! The first signal interface of the DOM builder: signals whose poll answers
//! a new value or not-ready.
use vstd::prelude::*;
use std::rc::Rc;
use crate::signals::signal_vec::Async;

verus! {

/// A signal that has one value and is ready once, with that value.
pub struct Always<A> {
    value: Option<A>,
}

impl<A> Always<A> {
    /// The value that the next poll hands out, if any.
    pub closed spec fn pending(&self) -> Option<A> {
        self.value
    }

    /// Hands out the value once; after that, it is never ready again.
    pub fn poll(&mut self) -> (r: Async<A>)
        ensures
            match old(self).pending() {
                Some(v) => r == Async::Ready(v),
                None => r is NotReady,
            },
            final(self).pending() is None,
    {
        match self.value.take() {
            Some(value) => Async::Ready(value),
            None => Async::NotReady,
        }
    }
}

/// A signal that is ready once, with `value`.
pub fn always<A>(value: A) -> (r: Always<A>)
    ensures
        r.pending() == Some(value),
{
    Always { value: Some(value) }
}

/// The bookkeeping of a signal filtered through a callback that returns
/// `Option`s: the first value always passes, as `None` where the callback
/// refused it; later values pass only where the callback accepts them.
pub struct FilterMap {
    first: bool,
}

impl FilterMap {
    pub closed spec fn is_first(&self) -> bool {
        self.first
    }

    pub fn new() -> (r: Self)
        ensures
            r.is_first(),
    {
        FilterMap { first: true }
    }

    /// Takes the callback's result for one upstream value: `Some` with the
    /// signal's answer where it passes, `None` where the upstream signal has
    /// to be polled again.
    pub fn process_value<C>(&mut self, value: Option<C>) -> (r: Option<Async<Option<C>>>)
        ensures
            !final(self).is_first(),
            match value {
                Some(v) => r == Some(Async::Ready(Some(v))),
                None => if old(self).is_first() {
                    r == Some(Async::<Option<C>>::Ready(None))
                } else {
                    r is None
                },
            },
    {
        match value {
            Some(value) => {
                self.first = false;
                Some(Async::Ready(Some(value)))
            },
            None => {
                if self.first {
                    self.first = false;
                    Some(Async::Ready(None))
                } else {
                    None
                }
            },
        }
    }
}

/// Copies of the two shared pointers, which stay as they were.
pub fn pair_rc<A, B>(left: &mut Rc<A>, right: &mut Rc<B>) -> (r: (Rc<A>, Rc<B>))
    ensures
        *final(left) == *old(left),
        *final(right) == *old(right),
        r.0 == *old(left),
        r.1 == *old(right),
{
    (left.clone(), right.clone())
}

} // verus!

//! Declarative DOM building on top of FRP signals: the change-list algebra of
//! signal vectors, the bookkeeping of filtered, sorted and mapped vectors,
//! and the state machines that keep a DOM node in step with a signal.
use vstd::prelude::*;

pub mod signals;
pub mod callbacks;
pub mod dom;
pub mod operations;
pub mod utils;
pub mod signal;
pub mod events;
pub mod animation;
pub mod traits;

verus! {

} // verus!

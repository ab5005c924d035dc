//! Signals: values that change over time, and vectors whose changes are
//! described by change records.
pub mod masks;
pub mod channel;
pub mod signal;
pub mod signal_vec;
pub mod signal_list;
pub mod mutable_vec;
pub mod sort_by;
pub mod adapters;

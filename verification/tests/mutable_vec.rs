use dominator::signals::mutable_vec::{received, MutableSignalVec, MutableVec};
use dominator::signals::signal_vec::{Async, SignalVec, VecChange};

fn apply<A: Clone>(v: &mut Vec<A>, c: VecChange<A>) {
    match c {
        VecChange::Replace { values } => *v = values,
        VecChange::InsertAt { index, value } => v.insert(index, value),
        VecChange::UpdateAt { index, value } => v[index] = value,
        VecChange::RemoveAt { index } => { v.remove(index); },
        VecChange::Push { value } => v.push(value),
        VecChange::Pop {} => { v.pop(); },
        VecChange::Clear {} => v.clear(),
    }
}

/// Drains the changes that arrived so far.
fn drain<A>(signal: &mut MutableSignalVec<A>) -> Vec<VecChange<A>> {
    let mut out = vec![];
    while let Async::Ready(Some(c)) = signal.poll() {
        out.push(c);
    }
    out
}

#[test]
fn mutable_vec_replica_follows() {
    let mut v = MutableVec::new_with_values(vec![1u32, 2, 3]);
    let mut signal = v.signal_vec();
    let mut replica: Vec<u32> = vec![];

    v.push(4);
    v.insert(0, 0);
    v.set(2, 20);
    assert_eq!(v.remove(1), 1);
    assert_eq!(v.pop(), Some(4));
    v.insert(v.len(), 9);
    v.retain(|x| *x != 20);
    for c in drain(&mut signal) {
        apply(&mut replica, c);
    }
    assert_eq!(replica, v.as_slice().to_vec());
    assert_eq!(v.as_slice(), &[0, 3, 9]);

    v.clear();
    for c in drain(&mut signal) {
        apply(&mut replica, c);
    }
    assert!(replica.is_empty());
    assert!(v.is_empty());
}

#[test]
fn mutable_vec_sends_expected_changes() {
    let mut v = MutableVec::new_with_values(vec![5u32, 6]);
    let mut signal = v.signal_vec();
    v.remove(1);
    v.remove(0);
    v.clear();
    v.push(1);
    v.insert(0, 2);
    assert_eq!(drain(&mut signal), vec![
        VecChange::Replace { values: vec![5, 6] },
        VecChange::Pop {},
        VecChange::Pop {},
        VecChange::Push { value: 1 },
        VecChange::InsertAt { index: 0, value: 2 },
    ]);
}

#[test]
fn mutable_vec_retain_sends_removals_in_order() {
    let mut v = MutableVec::new_with_values(vec![1u32, 2, 3, 4, 5, 6]);
    let mut signal = v.signal_vec();
    let _ = drain(&mut signal);
    v.retain(|x| x % 2 == 1);
    assert_eq!(v.as_slice(), &[1, 3, 5]);
    assert_eq!(drain(&mut signal), vec![
        VecChange::RemoveAt { index: 1 },
        VecChange::RemoveAt { index: 2 },
        VecChange::Pop {},
    ]);
}

#[test]
fn mutable_vec_empty_signal_starts_without_replace() {
    let mut v: MutableVec<u32> = MutableVec::new();
    let mut signal = v.signal_vec();
    assert_eq!(signal.poll(), Async::NotReady);
    assert_eq!(v.pop(), None);
    v.clear();
    assert_eq!(signal.poll(), Async::NotReady);
}

#[test]
fn mutable_vec_signal_ends_when_dropped() {
    let mut v = MutableVec::new_with_values(vec![1u32]);
    let mut signal = v.signal_vec();
    drop(v);
    assert_eq!(signal.poll(), Async::Ready(Some(VecChange::Replace { values: vec![1] })));
    assert_eq!(signal.poll(), Async::Ready(None));
}

#[test]
fn received_messages() {
    assert_eq!(received::<u8>(None), Async::NotReady);
    assert_eq!(received::<u8>(Some(None)), Async::Ready(None));
    assert_eq!(received(Some(Some(VecChange::Push { value: 3u8 }))), Async::Ready(Some(VecChange::Push { value: 3 })));
}

use dominator::signals::adapters::{FilterMapSignalVec, LenSignal};
use dominator::signals::signal::{Signal, State};
use dominator::signals::signal_vec::{Async, FilterMap, Len, SignalVec, VecChange};

fn keep(x: u32) -> Option<u32> {
    if x == 3 || x == 4 || x > 5 {
        Some(x + 100)
    } else {
        None
    }
}

#[derive(Debug, PartialEq, Eq)]
struct Change {
    length: usize,
    indexes: Vec<Option<usize>>,
    change: VecChange<u32>,
}

/// A source that answers the given items in order, then ends.
struct Source {
    items: std::collections::VecDeque<Async<VecChange<u32>>>,
}

impl SignalVec for Source {
    type Item = u32;

    fn poll(&mut self) -> Async<Option<VecChange<u32>>> {
        match self.items.pop_front() {
            Some(Async::Ready(change)) => Async::Ready(Some(change)),
            Some(Async::NotReady) => Async::NotReady,
            None => Async::Ready(None),
        }
    }
}

/// Polls the filtered vec until its source ends; each emitted change is
/// recorded with the filter's bookkeeping.
fn run(output: &mut FilterMapSignalVec<Source, u32, fn(u32) -> Option<u32>>) -> Vec<Change> {
    let mut changes = vec![];
    loop {
        match output.poll() {
            Async::Ready(Some(change)) => {
                changes.push(Change {
                    change,
                    length: output.state().length(),
                    indexes: output.state().indexes().clone(),
                });
            },
            Async::Ready(None) => break,
            Async::NotReady => {},
        }
    }
    changes
}

#[test]
fn signal_vec_filter_map() {
    let input = vec![
        Async::Ready(VecChange::Replace { values: vec![0, 1, 2, 3, 4, 5] }),
        Async::NotReady,
        Async::Ready(VecChange::InsertAt { index: 0, value: 6 }),
        Async::Ready(VecChange::InsertAt { index: 2, value: 7 }),
        Async::NotReady,
        Async::NotReady,
        Async::NotReady,
        Async::Ready(VecChange::InsertAt { index: 5, value: 8 }),
        Async::Ready(VecChange::InsertAt { index: 7, value: 9 }),
        Async::Ready(VecChange::InsertAt { index: 9, value: 10 }),
        Async::NotReady,
        Async::Ready(VecChange::InsertAt { index: 11, value: 11 }),
        Async::NotReady,
        Async::Ready(VecChange::InsertAt { index: 0, value: 0 }),
        Async::NotReady,
        Async::NotReady,
        Async::Ready(VecChange::InsertAt { index: 1, value: 0 }),
        Async::Ready(VecChange::InsertAt { index: 5, value: 0 }),
        Async::NotReady,
        Async::Ready(VecChange::InsertAt { index: 5, value: 12 }),
        Async::NotReady,
        Async::Ready(VecChange::RemoveAt { index: 0 }),
        Async::Ready(VecChange::RemoveAt { index: 0 }),
        Async::NotReady,
        Async::Ready(VecChange::RemoveAt { index: 0 }),
        Async::Ready(VecChange::RemoveAt { index: 1 }),
        Async::NotReady,
        Async::Ready(VecChange::RemoveAt { index: 0 }),
        Async::NotReady,
        Async::Ready(VecChange::RemoveAt { index: 0 }),
    ];

    let mut output = FilterMapSignalVec::new(Source { items: input.into_iter().collect() }, keep as fn(u32) -> Option<u32>);

    assert_eq!(output.state().length(), 0);
    assert_eq!(output.state().indexes(), &vec![]);

    let changes = run(&mut output);

    assert_eq!(changes, vec![
        Change { length: 2, indexes: vec![None, None, None, Some(0), Some(1), None], change: VecChange::Replace { values: vec![103, 104] } },
        Change { length: 3, indexes: vec![Some(0), None, None, None, Some(1), Some(2), None], change: VecChange::InsertAt { index: 0, value: 106 } },
        Change { length: 4, indexes: vec![Some(0), None, Some(1), None, None, Some(2), Some(3), None], change: VecChange::InsertAt { index: 1, value: 107 } },
        Change { length: 5, indexes: vec![Some(0), None, Some(1), None, None, Some(2), Some(3), Some(4), None], change: VecChange::InsertAt { index: 2, value: 108 } },
        Change { length: 6, indexes: vec![Some(0), None, Some(1), None, None, Some(2), Some(3), Some(4), Some(5), None], change: VecChange::InsertAt { index: 4, value: 109 } },
        Change { length: 7, indexes: vec![Some(0), None, Some(1), None, None, Some(2), Some(3), Some(4), Some(5), Some(6), None], change: VecChange::InsertAt { index: 6, value: 110 } },
        Change { length: 8, indexes: vec![Some(0), None, Some(1), None, None, Some(2), Some(3), Some(4), Some(5), Some(6), None, Some(7)], change: VecChange::InsertAt { index: 7, value: 111 } },
        Change { length: 9, indexes: vec![None, None, Some(0), None, Some(1), Some(2), None, None, None, Some(3), Some(4), Some(5), Some(6), Some(7), None, Some(8)], change: VecChange::InsertAt { index: 2, value: 112 } },
        Change { length: 8, indexes: vec![None, Some(0), Some(1), None, None, None, Some(2), Some(3), Some(4), Some(5), Some(6), None, Some(7)], change: VecChange::RemoveAt { index: 0 } },
        Change { length: 7, indexes: vec![None, Some(0), None, None, None, Some(1), Some(2), Some(3), Some(4), Some(5), None, Some(6)], change: VecChange::RemoveAt { index: 0 } },
        Change { length: 6, indexes: vec![None, None, None, Some(0), Some(1), Some(2), Some(3), Some(4), None, Some(5)], change: VecChange::RemoveAt { index: 0 } },
    ]);
}

/// Applies a vector change to a plain vector, as a listener does.
fn apply<A: Clone>(v: &mut Vec<A>, c: VecChange<A>) {
    match c {
        VecChange::Replace { values } => *v = values,
        VecChange::InsertAt { index, value } => v.insert(index, value),
        VecChange::UpdateAt { index, value } => v[index] = value,
        VecChange::RemoveAt { index } => { v.remove(index); },
        VecChange::Push { value } => v.push(value),
        VecChange::Pop {} => { v.pop(); },
        VecChange::Clear {} => v.clear(),
    }
}

#[test]
fn filter_map_follows_upstream_updates() {
    // The filtered vector, kept by applying the emitted changes, always equals
    // the upstream vector filtered.
    let ops = vec![
        VecChange::Replace { values: vec![1, 3, 6, 2] },
        VecChange::UpdateAt { index: 0, value: 7 },
        VecChange::UpdateAt { index: 2, value: 1 },
        VecChange::UpdateAt { index: 1, value: 8 },
        VecChange::Push { value: 9 },
        VecChange::Push { value: 0 },
        VecChange::RemoveAt { index: 3 },
        VecChange::InsertAt { index: 2, value: 4 },
        VecChange::Clear {},
        VecChange::Push { value: 6 },
    ];
    let mut upstream: Vec<u32> = vec![];
    let mut filtered: Vec<u32> = vec![];
    let mut output = FilterMap::new();
    for op in ops {
        apply(&mut upstream, op.clone());
        if let Some(c) = output.process_change(op.map(keep)) {
            apply(&mut filtered, c);
        }
        let expected: Vec<u32> = upstream.iter().filter_map(|x| keep(*x)).collect();
        assert_eq!(filtered, expected);
        assert_eq!(output.length(), expected.len());
    }
}

#[test]
fn filter_map_pop_lowers_count() {
    // Popping a present entry lowers the count; a later insertion at the
    // front then lands at index 0 of the emptied filtered vector.
    let mut output = FilterMap::new();
    output.process_change(VecChange::Replace { values: vec![Some(1u32), None] });
    assert_eq!(output.process_change::<u32>(VecChange::Pop {}), None);
    assert_eq!(output.length(), 1);
    assert_eq!(output.process_change::<u32>(VecChange::Pop {}), Some(VecChange::Pop {}));
    assert_eq!(output.length(), 0);
    assert_eq!(output.indexes(), &vec![]);
    assert_eq!(
        output.process_change(VecChange::InsertAt { index: 0, value: Some(5u32) }),
        Some(VecChange::InsertAt { index: 0, value: 5 })
    );
}

#[test]
fn vec_change_map_keeps_indexes() {
    let c = VecChange::InsertAt { index: 3, value: 2u32 }.map(|x| x * 10);
    assert_eq!(c, VecChange::InsertAt { index: 3, value: 20 });
    let c = VecChange::Replace { values: vec![1u32, 2, 3] }.map(|x| x + 1);
    assert_eq!(c, VecChange::Replace { values: vec![2, 3, 4] });
    let c: VecChange<u32> = VecChange::<u32>::RemoveAt { index: 1 }.map(|x| x + 1);
    assert_eq!(c, VecChange::RemoveAt { index: 1 });
}

#[test]
fn len_follows_vector() {
    let mut len = Len::new();
    assert_eq!(len.settle(false), State::Changed(0));
    assert_eq!(len.settle(false), State::NotChanged);
    let mut changed = len.process_change(&VecChange::Replace { values: vec![1u32, 2, 3] });
    changed |= len.process_change(&VecChange::<u32>::Pop {});
    assert_eq!(len.settle(changed), State::Changed(2));
    assert!(!len.process_change(&VecChange::UpdateAt { index: 0, value: 5u32 }));
    assert!(!len.process_change(&VecChange::Replace { values: vec![7u32, 8] }));
    assert_eq!(len.settle(false), State::NotChanged);
    assert!(len.process_change(&VecChange::Push { value: 1u32 }));
    assert!(len.process_change(&VecChange::<u32>::Clear {}));
    assert!(!len.process_change(&VecChange::<u32>::Clear {}));
    assert_eq!(len.settle(true), State::Changed(0));
}

#[test]
fn len_signal_settles_after_each_burst() {
    let items = vec![
        Async::Ready(VecChange::Replace { values: vec![1u32, 2, 3] }),
        Async::Ready(VecChange::Pop {}),
        Async::NotReady,
        Async::Ready(VecChange::UpdateAt { index: 0, value: 5 }),
        Async::NotReady,
        Async::Ready(VecChange::Push { value: 4 }),
        Async::Ready(VecChange::Pop {}),
        Async::NotReady,
    ];
    let mut len = LenSignal::new(Source { items: items.into_iter().collect() });
    assert_eq!(len.poll(), State::Changed(2));
    assert_eq!(len.poll(), State::NotChanged);
    // a push then a pop: the length moved, so it is handed out again
    assert_eq!(len.poll(), State::Changed(2));
    // the source has ended
    assert_eq!(len.poll(), State::NotChanged);
}

#[test]
fn filter_map_signal_vec_ends_on_a_change_out_of_range() {
    let items = vec![
        Async::Ready(VecChange::Push { value: 3u32 }),
        Async::Ready(VecChange::RemoveAt { index: 4 }),
        Async::Ready(VecChange::Push { value: 6 }),
    ];
    let mut output = FilterMapSignalVec::new(Source { items: items.into_iter().collect() }, keep as fn(u32) -> Option<u32>);
    assert_eq!(output.poll(), Async::Ready(Some(VecChange::Push { value: 103 })));
    assert_eq!(output.poll(), Async::Ready(None));
}

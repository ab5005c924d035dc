use dominator::signals::adapters::FilterMapSignalList;
use dominator::signals::signal_list::{decrement_indexes, increment_indexes, ListChange, SignalList};
use dominator::signals::signal_vec::Async;

fn keep(x: u32) -> Option<u32> {
    if x == 3 || x == 4 || x > 5 {
        Some(x + 100)
    } else {
        None
    }
}

#[derive(Debug, PartialEq, Eq)]
struct Change {
    length: usize,
    indexes: Vec<Option<usize>>,
    change: ListChange<u32>,
}

/// A source that answers the given items in order, then ends.
struct Source {
    items: std::collections::VecDeque<Async<ListChange<u32>>>,
}

impl SignalList for Source {
    type Item = u32;

    fn poll(&mut self) -> Async<Option<ListChange<u32>>> {
        match self.items.pop_front() {
            Some(Async::Ready(change)) => Async::Ready(Some(change)),
            Some(Async::NotReady) => Async::NotReady,
            None => Async::Ready(None),
        }
    }
}

/// Polls the filtered list until its source ends; each emitted change is
/// recorded with the filter's bookkeeping.
fn run(output: &mut FilterMapSignalList<Source, u32, fn(u32) -> Option<u32>>) -> Vec<Change> {
    let mut changes = vec![];
    loop {
        match output.poll() {
            Async::Ready(Some(change)) => {
                changes.push(Change {
                    change,
                    length: output.state().length(),
                    indexes: output.state().indexes().clone(),
                });
            },
            Async::Ready(None) => break,
            Async::NotReady => {},
        }
    }
    changes
}

#[test]
fn signal_list_filter_map() {
    let input = vec![
        Async::Ready(ListChange::Replace { values: vec![0, 1, 2, 3, 4, 5] }),
        Async::NotReady,
        Async::Ready(ListChange::InsertAt { index: 0, value: 6 }),
        Async::Ready(ListChange::InsertAt { index: 2, value: 7 }),
        Async::NotReady,
        Async::NotReady,
        Async::NotReady,
        Async::Ready(ListChange::InsertAt { index: 5, value: 8 }),
        Async::Ready(ListChange::InsertAt { index: 7, value: 9 }),
        Async::Ready(ListChange::InsertAt { index: 9, value: 10 }),
        Async::NotReady,
        Async::Ready(ListChange::InsertAt { index: 11, value: 11 }),
        Async::NotReady,
        Async::Ready(ListChange::InsertAt { index: 0, value: 0 }),
        Async::NotReady,
        Async::NotReady,
        Async::Ready(ListChange::InsertAt { index: 1, value: 0 }),
        Async::Ready(ListChange::InsertAt { index: 5, value: 0 }),
        Async::NotReady,
        Async::Ready(ListChange::InsertAt { index: 5, value: 12 }),
        Async::NotReady,
        Async::Ready(ListChange::RemoveAt { index: 0 }),
        Async::Ready(ListChange::RemoveAt { index: 0 }),
        Async::NotReady,
        Async::Ready(ListChange::RemoveAt { index: 0 }),
        Async::Ready(ListChange::RemoveAt { index: 1 }),
        Async::NotReady,
        Async::Ready(ListChange::RemoveAt { index: 0 }),
        Async::NotReady,
        Async::Ready(ListChange::RemoveAt { index: 0 }),
    ];

    let mut output = FilterMapSignalList::new(Source { items: input.into_iter().collect() }, keep as fn(u32) -> Option<u32>);

    assert_eq!(output.state().length(), 0);
    assert_eq!(output.state().indexes(), &vec![]);

    let changes = run(&mut output);

    assert_eq!(changes, vec![
        Change { length: 2, indexes: vec![None, None, None, Some(0), Some(1), None], change: ListChange::Replace { values: vec![103, 104] } },
        Change { length: 3, indexes: vec![Some(0), None, None, None, Some(1), Some(2), None], change: ListChange::InsertAt { index: 0, value: 106 } },
        Change { length: 4, indexes: vec![Some(0), None, Some(1), None, None, Some(2), Some(3), None], change: ListChange::InsertAt { index: 1, value: 107 } },
        Change { length: 5, indexes: vec![Some(0), None, Some(1), None, None, Some(2), Some(3), Some(4), None], change: ListChange::InsertAt { index: 2, value: 108 } },
        Change { length: 6, indexes: vec![Some(0), None, Some(1), None, None, Some(2), Some(3), Some(4), Some(5), None], change: ListChange::InsertAt { index: 4, value: 109 } },
        Change { length: 7, indexes: vec![Some(0), None, Some(1), None, None, Some(2), Some(3), Some(4), Some(5), Some(6), None], change: ListChange::InsertAt { index: 6, value: 110 } },
        Change { length: 8, indexes: vec![Some(0), None, Some(1), None, None, Some(2), Some(3), Some(4), Some(5), Some(6), None, Some(7)], change: ListChange::InsertAt { index: 7, value: 111 } },
        Change { length: 9, indexes: vec![None, None, Some(0), None, Some(1), Some(2), None, None, None, Some(3), Some(4), Some(5), Some(6), Some(7), None, Some(8)], change: ListChange::InsertAt { index: 2, value: 112 } },
        Change { length: 8, indexes: vec![None, Some(0), Some(1), None, None, None, Some(2), Some(3), Some(4), Some(5), Some(6), None, Some(7)], change: ListChange::RemoveAt { index: 0 } },
        Change { length: 7, indexes: vec![None, Some(0), None, None, None, Some(1), Some(2), Some(3), Some(4), Some(5), None, Some(6)], change: ListChange::RemoveAt { index: 0 } },
        Change { length: 6, indexes: vec![None, None, None, Some(0), Some(1), Some(2), Some(3), Some(4), None, Some(5)], change: ListChange::RemoveAt { index: 0 } },
    ]);
}


#[test]
fn list_increment_indexes_returns_first() {
    let mut v = vec![None, Some(2), None, Some(3)];
    assert_eq!(increment_indexes(&mut v[1..]), Some(2));
    assert_eq!(v, vec![None, Some(3), None, Some(4)]);
    let mut w: Vec<Option<usize>> = vec![None, None];
    assert_eq!(increment_indexes(&mut w), None);
    assert_eq!(w, vec![None, None]);
}

#[test]
fn list_decrement_indexes_shifts_down() {
    let mut v = vec![Some(1), None, Some(5)];
    decrement_indexes(&mut v);
    assert_eq!(v, vec![Some(0), None, Some(4)]);
}

#[test]
fn list_change_map_keeps_kind() {
    assert_eq!(ListChange::Push { value: 4u32 }.map(|x| x + 1), ListChange::Push { value: 5 });
    assert_eq!(ListChange::<u32>::Pop {}.map(|x| x + 1), ListChange::Pop {});
}

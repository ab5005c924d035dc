use std::collections::VecDeque;

use dominator::animation::{AnimatedEntries, Settled};
use dominator::signals::adapters::{FilterMapSignal, MapDedupe, MapSignalVec, SortBySignalVec};
use dominator::signals::signal::{always, Always, Signal, State};
use dominator::signals::signal_vec::{report, Async, Len, LenStep, MapSignal, SignalVec, VecChange};
use dominator::signals::sort_by::Order;
use dominator::operations::VecDiff;

/// A signal that answers the given states in order, then no change.
struct Values {
    items: VecDeque<State<u32>>,
}

impl Signal for Values {
    type Item = u32;

    fn poll(&mut self) -> State<u32> {
        self.items.pop_front().unwrap_or(State::NotChanged)
    }
}

fn values(items: Vec<State<u32>>) -> Values {
    Values { items: items.into_iter().collect() }
}

/// A vector source that answers the given items in order, then ends.
struct Changes {
    items: VecDeque<Async<VecChange<u32>>>,
}

impl SignalVec for Changes {
    type Item = u32;

    fn poll(&mut self) -> Async<Option<VecChange<u32>>> {
        match self.items.pop_front() {
            Some(Async::Ready(change)) => Async::Ready(Some(change)),
            Some(Async::NotReady) => Async::NotReady,
            None => Async::Ready(None),
        }
    }
}

fn changes(items: Vec<Async<VecChange<u32>>>) -> Changes {
    Changes { items: items.into_iter().collect() }
}

fn even_half(x: u32) -> Option<u32> {
    if x % 2 == 0 {
        Some(x / 2)
    } else {
        None
    }
}

#[test]
fn filter_map_signal_skips_values_that_do_not_pass() {
    let source = values(vec![State::Changed(3), State::Changed(5), State::Changed(8), State::Changed(7), State::Changed(4)]);
    let mut f = FilterMapSignal::new(source, even_half as fn(u32) -> Option<u32>);
    // the first value does not pass: `None` is handed out once
    assert_eq!(f.poll(), State::Changed(None));
    // 5 does not pass and is skipped within the same poll
    assert_eq!(f.poll(), State::Changed(Some(4)));
    assert_eq!(f.poll(), State::Changed(Some(2)));
    assert_eq!(f.poll(), State::NotChanged);
}

fn times_ten(x: &u32) -> u32 {
    x * 10
}

#[test]
fn map_dedupe_skips_repeated_values() {
    let source = values(vec![
        State::Changed(1),
        State::Changed(1),
        State::Changed(2),
        State::NotChanged,
        State::Changed(2),
        State::Changed(1),
    ]);
    let mut m = MapDedupe::new(source, times_ten as fn(&u32) -> u32);
    assert_eq!(m.poll(), State::Changed(10));
    // the repeated 1 is skipped
    assert_eq!(m.poll(), State::Changed(20));
    assert_eq!(m.poll(), State::NotChanged);
    assert_eq!(m.poll(), State::Changed(10));
    assert_eq!(m.poll(), State::NotChanged);
}

fn by_value(a: &u32, b: &u32) -> Order {
    if a < b {
        Order::Less
    } else if a > b {
        Order::Greater
    } else {
        Order::Equal
    }
}

#[test]
fn sort_by_signal_vec_hands_out_moves_in_two_polls() {
    let source = changes(vec![
        Async::Ready(VecChange::Replace { values: vec![5, 1, 4] }),
        Async::Ready(VecChange::UpdateAt { index: 0, value: 0 }),
        Async::NotReady,
        Async::Ready(VecChange::Push { value: 3 }),
    ]);
    let mut s = SortBySignalVec::new(source, by_value as fn(&u32, &u32) -> Order);
    assert_eq!(s.poll(), Async::Ready(Some(VecChange::Replace { values: vec![1, 4, 5] })));
    // 5 becomes 0 and moves from the end to the front: a pop, then an insertion
    assert_eq!(s.poll(), Async::Ready(Some(VecChange::Pop {})));
    assert_eq!(s.poll(), Async::Ready(Some(VecChange::InsertAt { index: 0, value: 0 })));
    assert_eq!(s.poll(), Async::NotReady);
    assert_eq!(s.poll(), Async::Ready(Some(VecChange::InsertAt { index: 2, value: 3 })));
    assert_eq!(s.poll(), Async::Ready(None));
}

fn to_signal(x: u32) -> Always<u32> {
    always(x * 10)
}

#[test]
fn map_signal_vec_hands_out_first_values() {
    let source = changes(vec![
        Async::Ready(VecChange::Replace { values: vec![1, 2] }),
        Async::Ready(VecChange::Push { value: 3 }),
    ]);
    let mut m = MapSignalVec::new(source, to_signal as fn(u32) -> Always<u32>);
    assert_eq!(m.poll(), Async::Ready(Some(VecChange::Replace { values: vec![10, 20] })));
    assert_eq!(m.poll(), Async::Ready(Some(VecChange::Push { value: 30 })));
    // the source has ended, but signals are left: nothing changes now
    assert_eq!(m.poll(), Async::NotReady);
}

#[test]
fn map_signal_vec_ends_once_the_source_ends_empty() {
    let mut m = MapSignalVec::new(changes(vec![]), to_signal as fn(u32) -> Always<u32>);
    assert_eq!(m.poll(), Async::Ready(None));
}

#[test]
fn report_gives_an_update_only_for_a_change() {
    assert_eq!(report(2, State::Changed(7u32)), Some(VecChange::UpdateAt { index: 2, value: 7 }));
    assert_eq!(report(2, State::<u32>::NotChanged), None);
}

#[test]
fn animated_entries_remove_or_animate() {
    let mut a = AnimatedEntries::new();
    a.replace(vec!['a', 'b', 'c']);
    // an animation that has already ended: the entry goes at once
    assert_eq!(a.remove_or_animate(2, true), Some(VecDiff::Pop {}));
    // otherwise it starts animating out
    assert_eq!(a.remove_or_animate(0, false), None);
    assert_eq!(a.removing_flags(), &vec![true, false]);
    assert_eq!(a.entries_mut().clone(), vec!['a', 'b']);
}

#[test]
fn animated_entries_settle() {
    let mut a = AnimatedEntries::new();
    a.replace(vec!['a', 'b', 'c', 'd']);
    a.start_removing(0);
    a.start_removing(2);
    // both are animating out and neither has finished: wait
    match a.settle(&vec![false, false, false, false], true) {
        Settled::Waiting => {},
        _ => panic!("expected to wait"),
    }
    // both finished: the last one goes first
    match a.settle(&vec![true, false, true, false], true) {
        Settled::Removed(d) => assert_eq!(d, VecDiff::RemoveAt { index: 2 }),
        _ => panic!("expected a removal"),
    }
    match a.settle(&vec![true, false, false], false) {
        Settled::Removed(d) => assert_eq!(d, VecDiff::RemoveAt { index: 0 }),
        _ => panic!("expected a removal"),
    }
    // nothing animates out: the map ends once its source has
    match a.settle(&vec![false, false], false) {
        Settled::Waiting => {},
        _ => panic!("expected to wait"),
    }
    match a.settle(&vec![false, false], true) {
        Settled::Ended => {},
        _ => panic!("expected the end"),
    }
}

fn apply(v: &mut Vec<u32>, c: VecChange<u32>) {
    match c {
        VecChange::Replace { values } => *v = values,
        VecChange::InsertAt { index, value } => v.insert(index, value),
        VecChange::UpdateAt { index, value } => v[index] = value,
        VecChange::RemoveAt { index } => {
            v.remove(index);
        },
        VecChange::Push { value } => v.push(value),
        VecChange::Pop {} => {
            v.pop();
        },
        VecChange::Clear {} => v.clear(),
    }
}

#[test]
fn filter_map_signal_vec_follows_its_source_over_each_poll() {
    let ops = vec![
        VecChange::Replace { values: vec![1, 2, 3, 4] },
        VecChange::InsertAt { index: 1, value: 6 },
        VecChange::UpdateAt { index: 0, value: 8 },
        VecChange::RemoveAt { index: 2 },
        VecChange::Push { value: 5 },
        VecChange::UpdateAt { index: 3, value: 10 },
    ];
    let mut upstream = vec![];
    for op in ops.clone() {
        apply(&mut upstream, op);
    }
    let source = changes(ops.into_iter().map(Async::Ready).collect());
    let mut f = dominator::signals::adapters::FilterMapSignalVec::new(source, even_half as fn(u32) -> Option<u32>);
    let mut filtered = vec![];
    loop {
        match f.poll() {
            Async::Ready(Some(c)) => apply(&mut filtered, c),
            Async::Ready(None) => break,
            Async::NotReady => {},
        }
    }
    let expected: Vec<u32> = upstream.iter().filter_map(|x| even_half(*x)).collect();
    assert_eq!(filtered, expected);
    assert_eq!(f.state().length(), expected.len());
}

#[test]
fn len_signal_follows_its_source_over_a_poll() {
    let source = changes(vec![
        Async::Ready(VecChange::Replace { values: vec![1, 2] }),
        Async::Ready(VecChange::InsertAt { index: 0, value: 3 }),
        Async::Ready(VecChange::RemoveAt { index: 1 }),
        Async::Ready(VecChange::Push { value: 4 }),
        Async::NotReady,
    ]);
    let mut len = dominator::signals::adapters::LenSignal::new(source);
    assert_eq!(len.poll(), State::Changed(3));
}

#[test]
fn flatten_takes_the_new_inner_signal() {
    let mut f: dominator::signals::signal::Flatten<Always<Always<u32>>> = dominator::signals::signal::Flatten::new(always(always(1)));
    assert_eq!(f.poll(), State::Changed(1));
    assert_eq!(f.poll(), State::NotChanged);
    // a new inner signal replaces the one followed
    f.take_inner(State::Changed(always(7)));
    assert_eq!(f.poll(), State::Changed(7));
    // no change keeps the one followed
    f.take_inner(State::NotChanged);
    assert_eq!(f.poll(), State::NotChanged);
}

#[test]
fn len_take_follows_one_answer_at_a_time() {
    let mut len = Len::new();
    assert_eq!(len.take(Async::Ready(Some(VecChange::Push { value: 1u32 })), false), LenStep::Continue(true));
    assert_eq!(len.take(Async::Ready(Some(VecChange::UpdateAt { index: 0, value: 2u32 })), false), LenStep::Continue(false));
    assert_eq!(len.take(Async::<Option<VecChange<u32>>>::NotReady, true), LenStep::Done(State::Changed(1)));
    assert_eq!(len.take(Async::<Option<VecChange<u32>>>::NotReady, false), LenStep::Done(State::NotChanged));
    // a pop of an empty vector does not keep the length within `usize`
    let mut empty = Len::new();
    assert_eq!(empty.take(Async::Ready(Some(VecChange::<u32>::Pop {})), false), LenStep::Done(State::NotChanged));
    assert_eq!(empty.take(Async::<Option<VecChange<u32>>>::Ready(None), true), LenStep::Done(State::NotChanged));
}

#[test]
fn filter_map_signal_answers_no_change_when_the_source_has_none() {
    let mut f = FilterMapSignal::new(values(vec![State::NotChanged, State::Changed(2)]), even_half as fn(u32) -> Option<u32>);
    assert_eq!(f.poll(), State::NotChanged);
    assert_eq!(f.poll(), State::Changed(Some(1)));
}

#[test]
fn map_signal_reports_the_lowest_changed_signal() {
    let mut m: MapSignal<Values> = MapSignal::new();
    m.process_change(VecChange::Replace {
        values: vec![
            (values(vec![State::NotChanged, State::Changed(3)]), 0u32),
            (values(vec![State::Changed(5)]), 0),
        ],
    });
    assert_eq!(m.poll_signals(), Some(VecChange::UpdateAt { index: 1, value: 5 }));
    assert_eq!(m.poll_signals(), Some(VecChange::UpdateAt { index: 0, value: 3 }));
    assert_eq!(m.poll_signals(), None);
}

use dominator::dom::{Attempts, LoadStage, LoadWatch};
use dominator::signals::signal::{always, compact_children, Always, Dedupe, Flatten, Map2, Mapped, Signal, State};
use dominator::signals::signal_list::{ListChange, MappedList, SignalList};
use dominator::signals::signal_vec::{replace_with, Async, MapSignal, MappedVec, SignalSignalVec, SignalVec, VecChange};

fn add(a: &u32, b: &u32) -> u32 {
    a + b
}

#[test]
fn map2_polls_both() {
    let mut m = Map2::new(always(1u32), always(2u32), add);
    assert_eq!(m.poll(), State::Changed(3));
    assert_eq!(m.poll(), State::NotChanged);
}

#[test]
fn map2_combine_waits_for_both() {
    let mut m: Map2<Always<u32>, Always<u32>, fn(&u32, &u32) -> u32> = Map2::new(always(0), always(0), add);
    // the first signal has no value and did not change: the second is not polled
    assert!(!m.wants_second(&State::NotChanged));
    assert_eq!(m.combine(State::NotChanged, None), State::NotChanged);
    // the first changes, the second has no value yet
    assert!(m.wants_second(&State::Changed(5)));
    assert_eq!(m.combine(State::Changed(5), Some(State::NotChanged)), State::NotChanged);
    // now the first has a value, so the second is polled even without a change
    assert!(m.wants_second(&State::NotChanged));
    assert_eq!(m.combine(State::NotChanged, Some(State::Changed(7))), State::Changed(12));
    assert_eq!(m.combine(State::NotChanged, Some(State::NotChanged)), State::NotChanged);
    assert_eq!(m.combine(State::Changed(1), Some(State::NotChanged)), State::Changed(8));
    assert_eq!(m.combine(State::Changed(2), Some(State::Changed(3))), State::Changed(5));
}

#[test]
fn dedupe_drops_repeats() {
    let mut d = Dedupe::new();
    assert!(d.is_new(&1));
    d.keep(1);
    assert!(!d.is_new(&1));
    assert!(d.is_new(&2));
    d.keep(2);
    assert!(d.is_new(&1));
}

#[test]
fn map_signal_keeps_signals_in_step() {
    let mut m: MapSignal<Always<u32>> = MapSignal::new();
    let out = m.process_change(VecChange::Replace { values: vec![(always(10), 1u32), (always(20), 2)] });
    assert_eq!(out, VecChange::Replace { values: vec![1, 2] });
    assert_eq!(m.len(), 2);
    let out = m.process_change(VecChange::InsertAt { index: 1, value: (always(30), 3) });
    assert_eq!(out, VecChange::InsertAt { index: 1, value: 3 });
    // the signals hand out their values in order, one update per poll
    assert_eq!(m.poll_signals(), Some(VecChange::UpdateAt { index: 0, value: 10 }));
    assert_eq!(m.poll_signals(), Some(VecChange::UpdateAt { index: 1, value: 30 }));
    assert_eq!(m.poll_signals(), Some(VecChange::UpdateAt { index: 2, value: 20 }));
    assert_eq!(m.poll_signals(), None);
    let out = m.process_change(VecChange::<(Always<u32>, u32)>::RemoveAt { index: 0 });
    assert_eq!(out, VecChange::RemoveAt { index: 0 });
    let out = m.process_change(VecChange::Push { value: (always(40), 4) });
    assert_eq!(out, VecChange::Push { value: 4 });
    let out = m.process_change(VecChange::UpdateAt { index: 0, value: (always(50), 5) });
    assert_eq!(out, VecChange::UpdateAt { index: 0, value: 5 });
    assert_eq!(m.poll_signals(), Some(VecChange::UpdateAt { index: 0, value: 50 }));
    let out = m.process_change(VecChange::<(Always<u32>, u32)>::Pop {});
    assert_eq!(out, VecChange::Pop {});
    assert_eq!(m.len(), 2);
    let out = m.process_change(VecChange::<(Always<u32>, u32)>::Clear {});
    assert_eq!(out, VecChange::Clear {});
    assert_eq!(m.len(), 0);
}

#[test]
fn load_watch_complete_at_once() {
    let mut w = LoadWatch::new();
    assert_eq!(w.current(), LoadStage::Initial);
    assert_eq!(w.start(true), (false, Async::Ready(Some(true))));
    assert_eq!(w.current(), LoadStage::Done);
    assert_eq!(w.finished(), Async::Ready(None));
}

#[test]
fn load_watch_waits_for_load() {
    let mut w = LoadWatch::new();
    assert_eq!(w.start(false), (true, Async::Ready(Some(false))));
    assert_eq!(w.current(), LoadStage::Pending);
    assert_eq!(w.receive(Async::NotReady), Async::NotReady);
    assert_eq!(w.current(), LoadStage::Pending);
    assert_eq!(w.receive(Async::Ready(Some(true))), Async::Ready(Some(true)));
    assert_eq!(w.current(), LoadStage::Done);
}

#[test]
fn attempts_try_names_then_values() {
    let mut a = Attempts::new(2, 2);
    assert_eq!(a.next(), Some((0, 0)));
    a.record(false);
    assert_eq!(a.next(), Some((0, 1)));
    a.record(false);
    assert_eq!(a.next(), Some((1, 0)));
    a.record(true);
    assert_eq!(a.next(), None);
    assert_eq!(a.result(), Some((1, 0)));
}

#[test]
fn attempts_exhausted() {
    let mut a = Attempts::new(1, 2);
    a.record(false);
    a.record(false);
    assert_eq!(a.next(), None);
    assert_eq!(a.result(), None);
    assert_eq!(Attempts::new(3, 0).next(), None);
}

#[test]
fn compact_children_drops_dead() {
    // every child alive: nothing moves
    let mut v = vec![1, 2, 3];
    assert_eq!(compact_children(&mut v, &|_: &i32| true), 3);
    assert_eq!(v, vec![1, 2, 3]);
    // dead children at the front are replaced by later ones
    let mut v = vec![0, 0, 5];
    assert_eq!(compact_children(&mut v, &|x: &i32| *x != 0), 1);
    assert_eq!(v, vec![5]);
    let mut v = vec![7, 0, 8];
    assert_eq!(compact_children(&mut v, &|x: &i32| *x != 0), 2);
    assert_eq!(v, vec![7, 8]);
}

#[test]
fn compact_children_after_dead_first_child() {
    // a dead first child leaves; the others are visited once each and stay,
    // in order
    let mut v = vec![0, 7, 8];
    let visits = std::cell::RefCell::new(Vec::new());
    let kept = compact_children(&mut v, &|x: &i32| {
        visits.borrow_mut().push(*x);
        *x != 0
    });
    assert_eq!(kept, 2);
    assert_eq!(v, vec![7, 8]);
    assert_eq!(*visits.borrow(), vec![0, 7, 8]);
}

#[test]
fn flatten_follows_latest_inner() {
    let mut f = Flatten::new(always(always(3u32)));
    assert_eq!(f.poll(), State::Changed(3));
    assert_eq!(f.poll(), State::NotChanged);
    let mut none: Flatten<Always<Always<u32>>> = Flatten::new(always(always(1)));
    assert_eq!(none.poll(), State::Changed(1));
}

#[test]
fn signal_of_vectors_replaces() {
    assert_eq!(replace_with(State::Changed(vec![1, 2])), Async::Ready(Some(VecChange::Replace { values: vec![1, 2] })));
    assert_eq!(replace_with::<u8>(State::NotChanged), Async::NotReady);
    let mut s = SignalSignalVec::new(always(vec![5u8]));
    assert_eq!(s.poll(), Async::Ready(Some(VecChange::Replace { values: vec![5] })));
    assert_eq!(s.poll(), Async::NotReady);
}

#[test]
fn mapped_signal_maps_values() {
    let mut m = Mapped::new(always(20u32), |x: u32| x + 1);
    assert_eq!(m.poll(), State::Changed(21));
    assert_eq!(m.poll(), State::NotChanged);
    assert_eq!(m.map_state(State::Changed(1)), State::Changed(2));
    assert_eq!(m.map_state(State::NotChanged), State::NotChanged);
}

#[test]
fn mapped_vec_maps_changes() {
    let m = MappedVec::new(SignalSignalVec::new(always(vec![1u32])), |x: u32| x * 10);
    assert_eq!(m.map_change(VecChange::InsertAt { index: 0, value: 2 }), VecChange::InsertAt { index: 0, value: 20 });
    assert_eq!(m.map_change(VecChange::Replace { values: vec![1, 2] }), VecChange::Replace { values: vec![10, 20] });
    let mut m = m;
    assert_eq!(m.poll(), Async::Ready(Some(VecChange::Replace { values: vec![10] })));
    assert_eq!(m.poll(), Async::NotReady);
}

struct Changes(Vec<ListChange<u32>>);

impl SignalList for Changes {
    type Item = u32;

    fn poll(&mut self) -> Async<Option<ListChange<u32>>> {
        if self.0.is_empty() {
            Async::Ready(None)
        } else {
            Async::Ready(Some(self.0.remove(0)))
        }
    }
}

#[test]
fn mapped_list_maps_changes() {
    let mut m = MappedList::new(Changes(vec![ListChange::Push { value: 4 }, ListChange::Pop {}]), |x: u32| x + 100);
    assert_eq!(m.poll(), Async::Ready(Some(ListChange::Push { value: 104 })));
    assert_eq!(m.poll(), Async::Ready(Some(ListChange::Pop {})));
    assert_eq!(m.poll(), Async::Ready(None));
}

use std::rc::Rc;

use dominator::animation::{find_index, find_last_index, remove_index};
use dominator::events::{mouse_button, MouseButton};
use dominator::operations::VecDiff;
use dominator::signal::{always as always_ready, pair_rc, FilterMap as ReadyFilterMap};
use dominator::signals::signal::{always, pair_clone, FilterMap, Signal, State};
use dominator::signals::signal_vec::Async;
use dominator::utils::RefCounter;

#[test]
fn always_changes_once() {
    let mut a = always(1u32);
    assert_eq!(a.poll(), State::Changed(1));
    assert_eq!(a.poll(), State::NotChanged);
    let mut b = always_ready(2u32);
    assert_eq!(b.poll(), Async::Ready(2));
    assert_eq!(b.poll(), Async::NotReady);
}

#[test]
fn state_map() {
    assert_eq!(State::Changed(2u32).map(|x| x + 1), State::Changed(3));
    assert_eq!(State::<u32>::NotChanged.map(|x| x + 1), State::NotChanged);
}

#[test]
fn pairs_copy() {
    let mut a = 1u32;
    let mut b = String::from("x");
    assert_eq!(pair_clone(&mut a, &mut b), (1, String::from("x")));
    let mut l = Rc::new(1u32);
    let mut r = Rc::new(2u32);
    let (x, y) = pair_rc(&mut l, &mut r);
    assert!(Rc::ptr_eq(&x, &l) && Rc::ptr_eq(&y, &r));
}

#[test]
fn signal_filter_map_first_value_passes() {
    let mut f = FilterMap::new();
    assert_eq!(f.process_value::<u32>(None), Some(State::Changed(None)));
    assert_eq!(f.process_value::<u32>(None), None);
    assert_eq!(f.process_value(Some(3u32)), Some(State::Changed(Some(3))));
    let mut g = ReadyFilterMap::new();
    assert_eq!(g.process_value(Some(1u32)), Some(Async::Ready(Some(1))));
    assert_eq!(g.process_value::<u32>(None), None);
}

#[test]
fn animated_index_skips_removing() {
    let removing = vec![true, false, true, false, false];
    assert_eq!(find_index(&removing, 0), Some(1));
    assert_eq!(find_index(&removing, 1), Some(3));
    assert_eq!(find_index(&removing, 2), Some(4));
    assert_eq!(find_index(&removing, 3), None);
    assert_eq!(find_last_index(&removing), Some(4));
    assert_eq!(find_last_index(&vec![false, true]), Some(0));
    assert_eq!(find_last_index(&vec![true, true]), None);
    let mut v = vec![1u32, 2, 3];
    assert_eq!(remove_index::<u32, u32>(&mut v, 1), VecDiff::RemoveAt { index: 1 });
    assert_eq!(remove_index::<u32, u32>(&mut v, 1), VecDiff::Pop {});
    assert_eq!(v, vec![1]);
}

#[test]
fn mouse_buttons() {
    assert_eq!(mouse_button(0), MouseButton::Left);
    assert_eq!(mouse_button(1), MouseButton::Middle);
    assert_eq!(mouse_button(2), MouseButton::Right);
    assert_eq!(mouse_button(3), MouseButton::Button4);
    assert_eq!(mouse_button(4), MouseButton::Button5);
}

#[test]
fn ref_counter_keeps_data_while_used() {
    let mut c: RefCounter<String> = RefCounter::new();
    assert_eq!(*c.try_borrow(), None);
    c.increment(|| String::from("a")).push('b');
    assert_eq!(c.increment(|| String::from("z")).as_str(), "ab");
    c.decrement();
    assert_eq!(c.try_borrow().as_deref(), Some("ab"));
    c.decrement();
    assert_eq!(*c.try_borrow(), None);
}

use std::cell::RefCell;

use dominator::dom::Pseudo;
use dominator::traits::{AsStr, Mixin, MultiStr, OptionStr};

#[test]
fn as_str_reads_strings() {
    let s = String::from("abc");
    assert_eq!(AsStr::as_str(&s), "abc");
    assert_eq!(AsStr::as_str(&"xy"), "xy");
    assert_eq!(s.with_str(|x| x.len()), 3);
    assert_eq!((&&s).with_str(|x| x.to_uppercase()), "ABC");
}

#[test]
fn multi_str_tries_in_order() {
    let names = ["display", "-webkit-display", "-ms-display"];
    assert_eq!(names.find_map(|x| if x.starts_with("-webkit") { Some(x.len()) } else { None }), Some(15));
    assert_eq!(names.find_map(|x| if x == "none" { Some(()) } else { None }), None);
    assert_eq!("one".find_map(|x| Some(x.len())), Some(3));
    let seen = RefCell::new(vec![]);
    names.each(|x| seen.borrow_mut().push(String::from(x)));
    assert_eq!(*seen.borrow(), vec!["display", "-webkit-display", "-ms-display"]);
}

#[test]
fn option_str_wraps() {
    assert_eq!("a".into_option(), Some("a"));
    assert_eq!(Some("b").into_option(), Some("b"));
    assert_eq!(None::<&str>.into_option(), None);
}

#[test]
fn mixin_applies_function() {
    let add_one = |x: u32| x + 1;
    assert_eq!(Mixin::apply(add_one, 41u32), 42);
}

#[test]
fn pseudo_selectors_in_order() {
    let p = Pseudo::new("__class_3__", vec![":hover", "::before"]);
    assert_eq!(p.find_map(|s| if s.ends_with("before") { Some(String::from(s)) } else { None }), Some(String::from(".__class_3__::before")));
    let seen = RefCell::new(vec![]);
    p.each(|s| seen.borrow_mut().push(String::from(s)));
    assert_eq!(*seen.borrow(), vec![".__class_3__:hover", ".__class_3__::before"]);
}

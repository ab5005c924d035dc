use std::cell::RefCell;
use std::rc::Rc;

use dominator::dom::{make_class_id, ClassToggle, DomBuilder, EventOptions, OptionSetter, Pseudo, RefFn, HIGHEST_ZINDEX};

#[test]
fn event_options() {
    assert_eq!(EventOptions::bubbles(), EventOptions { bubbles: true, preventable: false });
    assert_eq!(EventOptions::preventable(), EventOptions { bubbles: false, preventable: true });
    assert_eq!(EventOptions::default(), EventOptions { bubbles: false, preventable: false });
}

#[test]
fn class_ids_count_up() {
    let mut next = 0u32;
    assert_eq!(make_class_id(&mut next), "__class_0__");
    assert_eq!(make_class_id(&mut next), "__class_1__");
    let mut next = 1234u32;
    assert_eq!(make_class_id(&mut next), "__class_1234__");
    assert_eq!(next, 1235);
    let mut next = u32::MAX;
    assert_eq!(make_class_id(&mut next), "__class_4294967295__");
    assert_eq!(next, 0);
}

#[test]
fn pseudo_selectors() {
    let p = Pseudo::new("__class_3__", vec![":hover", "::before"]);
    assert_eq!(p.selectors(), vec![".__class_3__:hover".to_string(), ".__class_3__::before".to_string()]);
}

#[test]
fn ref_fn_borrows() {
    let r = RefFn::new(String::from("foo"), |x: &String| x.as_str());
    assert_eq!(r.call_ref(), "foo");
}

#[test]
fn zindex_is_largest_i32() {
    assert_eq!(HIGHEST_ZINDEX, i32::MAX.to_string());
}

#[test]
fn builder_apply_and_apply_if() {
    let b = DomBuilder::new(1u32).apply(|b| DomBuilder::new(*b.element_ref() + 1));
    assert_eq!(*b.element_ref(), 2);
    let b = b.apply_if(false, |_| DomBuilder::new(10));
    assert_eq!(*b.element_ref(), 2);
    let b = b.apply_if(true, |_| DomBuilder::new(10));
    assert_eq!(*b.element_ref(), 10);
    assert_eq!(b.__internal_element(), 10);
    let sum = b.with_element(|b, e| *b.element_ref() + e);
    assert_eq!(sum, 20);
}

#[test]
fn builder_callbacks_run_with_element() {
    let log = Rc::new(RefCell::new(Vec::new()));
    let l1 = log.clone();
    let l2 = log.clone();
    let l3 = log.clone();
    let b = DomBuilder::new(7u32)
        .before_inserted(move |e| l1.borrow_mut().push(format!("before {}", e)))
        .after_inserted(move |e| l2.borrow_mut().push(format!("inserted {}", e)))
        .after_removed(move |e| l3.borrow_mut().push(format!("removed {}", e)));
    assert_eq!(*log.borrow(), vec!["before 7"]);
    let (_, mut callbacks) = b.into_parts();
    callbacks.trigger_after_insert();
    callbacks.trigger_after_remove();
    assert_eq!(*log.borrow(), vec!["before 7", "inserted 7", "removed 7"]);
}

#[test]
fn transfer_callbacks_from_shadow() {
    let log = Rc::new(RefCell::new(0));
    let l = log.clone();
    let shadow = DomBuilder::new(0u32).after_removed(move |_| *l.borrow_mut() += 1);
    let b = DomBuilder::new(1u32).__internal_transfer_callbacks(shadow);
    let (_, callbacks) = b.into_parts();
    callbacks.discard();
    assert_eq!(*log.borrow(), 1);
}

#[test]
fn option_setter_updates_only_when_needed() {
    let mut s = OptionSetter::new();
    assert!(!s.step(false));
    assert!(s.step(true));
    assert!(s.step(true));
    assert!(s.step(false));
    assert!(!s.step(false));
}

#[test]
fn class_toggle_adds_and_removes_once() {
    let mut t = ClassToggle::new();
    assert_eq!(t.step(false), None);
    assert_eq!(t.step(true), Some(true));
    assert_eq!(t.step(true), None);
    assert_eq!(t.step(false), Some(false));
    assert_eq!(t.step(false), None);
}

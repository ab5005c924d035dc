use std::cell::RefCell;
use std::rc::Rc;

use dominator::callbacks::{Callbacks, InsertCallback, RemoveCallback};
use dominator::operations::after_insert;

#[test]
fn callbacks_run_in_order() {
    let log = Rc::new(RefCell::new(Vec::new()));
    let mut callbacks = Callbacks::new();
    for i in 0..3 {
        let log = log.clone();
        callbacks.after_insert(InsertCallback::from_fn(move |mut removes: Vec<RemoveCallback>| {
            log.borrow_mut().push(format!("insert {}", i));
            let log = log.clone();
            removes.push(RemoveCallback::from_fn(move || log.borrow_mut().push(format!("remove {}", i))));
            removes
        }));
    }
    callbacks.trigger_after_insert();
    callbacks.trigger_after_insert();
    callbacks.trigger_after_remove();
    callbacks.trigger_after_remove();
    assert_eq!(*log.borrow(), vec!["insert 0", "insert 1", "insert 2", "remove 0", "remove 1", "remove 2"]);
}

#[test]
fn transfer_moves_every_callback() {
    let log = Rc::new(RefCell::new(Vec::new()));
    let mut a = Callbacks::new();
    let mut b = Callbacks::new();
    let l = log.clone();
    a.after_remove(RemoveCallback::from_fn(move || l.borrow_mut().push("a")));
    let l = log.clone();
    b.after_remove(RemoveCallback::from_fn(move || l.borrow_mut().push("b")));
    a.transfer(&mut b);
    b.trigger_after_remove();
    assert!(log.borrow().is_empty());
    a.discard();
    assert_eq!(*log.borrow(), vec!["a", "b"]);
}

#[test]
fn after_insert_leaks_and_runs_only_when_inserted() {
    let log = Rc::new(RefCell::new(0));
    let mut c = Callbacks::new();
    let l = log.clone();
    c.after_insert(InsertCallback::from_fn(move |removes: Vec<RemoveCallback>| {
        *l.borrow_mut() += 1;
        removes
    }));
    after_insert(false, &mut c);
    assert!(!c.should_trigger_remove());
    assert_eq!(*log.borrow(), 0);
    after_insert(true, &mut c);
    assert_eq!(*log.borrow(), 1);
}

#[test]
fn value_discard_drops_value_on_remove() {
    let value = Rc::new(5u32);
    let mut c = Callbacks::new();
    c.after_remove(RemoveCallback::from_value(value.clone()));
    assert_eq!(Rc::strong_count(&value), 2);
    c.trigger_after_remove();
    assert_eq!(Rc::strong_count(&value), 1);
}

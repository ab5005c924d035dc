use dominator::signals::signal_vec::VecChange;
use dominator::signals::sort_by::{Order, SortBy};

fn by_value(a: &i32, b: &i32) -> Order {
    if a < b {
        Order::Less
    } else if a > b {
        Order::Greater
    } else {
        Order::Equal
    }
}

fn by_tens(a: &(i32, char), b: &(i32, char)) -> Order {
    by_value(&(a.0 / 10), &(b.0 / 10))
}

fn apply<A: Clone>(v: &mut Vec<A>, c: VecChange<A>) {
    match c {
        VecChange::Replace { values } => *v = values,
        VecChange::InsertAt { index, value } => v.insert(index, value),
        VecChange::UpdateAt { index, value } => v[index] = value,
        VecChange::RemoveAt { index } => {
            v.remove(index);
        },
        VecChange::Push { value } => v.push(value),
        VecChange::Pop {} => {
            v.pop();
        },
        VecChange::Clear {} => v.clear(),
    }
}

/// Feeds every change to the sorted vector and replays what comes out.
fn run<A: Clone + Ord + std::fmt::Debug, F: Fn(&A, &A) -> Order>(
    sort: &mut SortBy<A, F>,
    upstream: &mut Vec<A>,
    out: &mut Vec<A>,
    change: VecChange<A>,
) -> Vec<VecChange<usize>> {
    apply(upstream, change.clone());
    let first = sort.process_change(change);
    let mut emitted = vec![first.clone()];
    apply(out, sort.resolve(&first));
    if let Some(next) = sort.take_pending() {
        emitted.push(next.clone());
        apply(out, sort.resolve(&next));
    }
    emitted
}

#[test]
fn sort_by_follows_changes() {
    let mut sort = SortBy::new(by_value);
    let mut upstream = vec![];
    let mut out = vec![];
    run(&mut sort, &mut upstream, &mut out, VecChange::Replace { values: vec![5, 1, 4] });
    assert_eq!(out, vec![1, 4, 5]);
    run(&mut sort, &mut upstream, &mut out, VecChange::Push { value: 3 });
    assert_eq!(out, vec![1, 3, 4, 5]);
    run(&mut sort, &mut upstream, &mut out, VecChange::InsertAt { index: 0, value: 9 });
    assert_eq!(out, vec![1, 3, 4, 5, 9]);
    run(&mut sort, &mut upstream, &mut out, VecChange::UpdateAt { index: 2, value: 0 });
    assert_eq!(upstream, vec![9, 5, 0, 4, 3]);
    assert_eq!(out, vec![0, 3, 4, 5, 9]);
    run(&mut sort, &mut upstream, &mut out, VecChange::RemoveAt { index: 1 });
    assert_eq!(out, vec![0, 3, 4, 9]);
    run(&mut sort, &mut upstream, &mut out, VecChange::Pop {});
    assert_eq!(out, vec![0, 4, 9]);
    run(&mut sort, &mut upstream, &mut out, VecChange::Clear {});
    assert_eq!(out, Vec::<i32>::new());
}

#[test]
fn sort_by_exact_changes() {
    let mut sort = SortBy::new(by_value);
    let mut upstream = vec![];
    let mut out = vec![];
    let e = run(&mut sort, &mut upstream, &mut out, VecChange::Replace { values: vec![30, 10, 20] });
    assert_eq!(e, vec![VecChange::Replace { values: vec![1, 2, 0] }]);
    // the largest goes to the end: a push
    let e = run(&mut sort, &mut upstream, &mut out, VecChange::Push { value: 40 });
    assert_eq!(e, vec![VecChange::Push { value: 3 }]);
    // an insertion upstream lands in the middle
    let e = run(&mut sort, &mut upstream, &mut out, VecChange::InsertAt { index: 0, value: 15 });
    assert_eq!(e, vec![VecChange::InsertAt { index: 1, value: 0 }]);
    assert_eq!(out, vec![10, 15, 20, 30, 40]);
    // an update that keeps its place is an update
    let e = run(&mut sort, &mut upstream, &mut out, VecChange::UpdateAt { index: 0, value: 16 });
    assert_eq!(e, vec![VecChange::UpdateAt { index: 1, value: 0 }]);
    // an update that moves is a removal, then an insertion
    let e = run(&mut sort, &mut upstream, &mut out, VecChange::UpdateAt { index: 0, value: 50 });
    assert_eq!(e, vec![VecChange::RemoveAt { index: 1 }, VecChange::Push { value: 0 }]);
    assert_eq!(out, vec![10, 20, 30, 40, 50]);
    // removing the largest is a pop
    let e = run(&mut sort, &mut upstream, &mut out, VecChange::RemoveAt { index: 0 });
    assert_eq!(e, vec![VecChange::Pop {}]);
    assert_eq!(out, vec![10, 20, 30, 40]);
}

#[test]
fn sort_by_is_stable() {
    let mut sort = SortBy::new(by_tens);
    let mut upstream = vec![];
    let mut out = vec![];
    run(&mut sort, &mut upstream, &mut out, VecChange::Replace { values: vec![(21, 'a'), (12, 'b'), (25, 'c'), (10, 'd')] });
    assert_eq!(out, vec![(12, 'b'), (10, 'd'), (21, 'a'), (25, 'c')]);
    run(&mut sort, &mut upstream, &mut out, VecChange::InsertAt { index: 0, value: (19, 'e') });
    assert_eq!(out, vec![(19, 'e'), (12, 'b'), (10, 'd'), (21, 'a'), (25, 'c')]);
    run(&mut sort, &mut upstream, &mut out, VecChange::Push { value: (11, 'f') });
    assert_eq!(out, vec![(19, 'e'), (12, 'b'), (10, 'd'), (11, 'f'), (21, 'a'), (25, 'c')]);
}

#[test]
fn sort_by_value_and_pending() {
    let mut sort = SortBy::new(by_value);
    assert_eq!(sort.take_pending(), None);
    let _ = sort.process_change(VecChange::Replace { values: vec![2, 1] });
    assert_eq!(*sort.value(0), 2);
    assert_eq!(sort.resolve(&VecChange::InsertAt { index: 0, value: 1 }), VecChange::InsertAt { index: 0, value: 1 });
    let first = sort.process_change(VecChange::UpdateAt { index: 1, value: 3 });
    assert_eq!(first, VecChange::RemoveAt { index: 0 });
    assert_eq!(sort.take_pending(), Some(VecChange::Push { value: 1 }));
    assert_eq!(sort.take_pending(), None);
}

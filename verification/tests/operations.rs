use dominator::operations::{ChildOp, ChildSlot, ChildrenState, VecDiff};

/// Replays node operations on a model of the parent's child nodes.
fn replay(dom: &mut Vec<u32>, children: &[u32], ops: Vec<ChildOp<u32>>) {
    for op in ops {
        match op {
            ChildOp::RemoveAll { removed } => {
                assert_eq!(*dom, removed);
                dom.clear();
            },
            ChildOp::Append { index } => dom.push(children[index]),
            ChildOp::InsertBefore { index } => {
                let pos = dom.iter().position(|x| *x == children[index + 1]).unwrap();
                dom.insert(pos, children[index]);
            },
            ChildOp::Replace { index, old } => {
                let pos = dom.iter().position(|x| *x == old).unwrap();
                dom[pos] = children[index];
            },
            ChildOp::Remove { node: removed, .. } => {
                let pos = dom.iter().position(|x| *x == removed).unwrap();
                dom.remove(pos);
            },
            ChildOp::Reinsert { from, index } => {
                let node = dom.remove(from);
                if index + 1 < children.len() {
                    let pos = dom.iter().position(|x| *x == children[index + 1]).unwrap();
                    dom.insert(pos, node);
                } else {
                    dom.push(node);
                }
            },
        }
    }
}

#[test]
fn children_follow_changes() {
    let mut state: ChildrenState<u32> = ChildrenState::new();
    let mut dom: Vec<u32> = vec![];
    let changes = vec![
        VecDiff::Replace { values: vec![1, 2, 3] },
        VecDiff::InsertAt { index: 1, value: 4 },
        VecDiff::InsertAt { index: 4, value: 5 },
        VecDiff::Push { value: 6 },
        VecDiff::UpdateAt { index: 0, value: 7 },
        VecDiff::Move { old_index: 0, new_index: 3 },
        VecDiff::Move { old_index: 2, new_index: 5 },
        VecDiff::RemoveAt { index: 1 },
        VecDiff::Pop {},
        VecDiff::Replace { values: vec![8, 9] },
        VecDiff::Clear {},
        VecDiff::Push { value: 10 },
    ];
    for c in changes {
        let ops = state.process_change(c);
        let children = state.children_ref().clone();
        replay(&mut dom, &children, ops);
        assert_eq!(dom, children);
    }
    assert_eq!(dom, vec![10]);
}

#[test]
fn insert_before_names_the_next_child() {
    let mut state: ChildrenState<u32> = ChildrenState::new();
    state.process_change(VecDiff::Replace { values: vec![1, 2] });
    let ops = state.process_change(VecDiff::InsertAt { index: 0, value: 3 });
    assert_eq!(ops, vec![ChildOp::InsertBefore { index: 0 }]);
    let ops = state.process_change(VecDiff::InsertAt { index: 3, value: 4 });
    assert_eq!(ops, vec![ChildOp::Append { index: 3 }]);
    let ops = state.process_change(VecDiff::Clear {});
    assert_eq!(ops, vec![ChildOp::RemoveAll { removed: vec![3, 1, 2, 4] }]);
    let ops = state.process_change(VecDiff::Clear {});
    assert!(ops.is_empty());
}

#[test]
fn children_mark_inserted_once() {
    let mut state: ChildrenState<u32> = ChildrenState::new();
    assert!(!state.inserted());
    assert!(state.mark_inserted());
    assert!(!state.mark_inserted());
    assert!(state.inserted());
}

#[test]
fn child_slot_hands_back_replaced_child() {
    let mut slot: ChildSlot<u32> = ChildSlot::new();
    assert_eq!(slot.set_child(Some(1)), None);
    assert_eq!(slot.set_child(Some(2)), Some(1));
    assert_eq!(slot.set_child(None), Some(2));
    assert_eq!(*slot.child_mut(), None);
    assert!(slot.mark_inserted());
    assert!(!slot.mark_inserted());
}

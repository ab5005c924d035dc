use dominator::animation::AnimatedEntries;
use dominator::operations::VecDiff;

fn entries(a: &mut AnimatedEntries<char>) -> Vec<char> {
    a.entries_mut().clone()
}

#[test]
fn animated_entries_skip_removing_ones() {
    let mut a = AnimatedEntries::new();
    a.replace(vec!['a', 'b', 'c']);
    assert_eq!(a.removing_flags(), &vec![false, false, false]);
    // 'b' (upstream index 1) starts animating out
    let p = a.position(1);
    assert_eq!(p, 1);
    a.start_removing(p);
    assert_eq!(a.removing_flags(), &vec![false, true, false]);
    // upstream index 1 is now 'c', at position 2
    assert_eq!(a.position(1), 2);
    assert_eq!(a.last_position(), 2);
    // an insertion at upstream index 1 lands before 'c', after the removing 'b'
    assert_eq!(a.insert(1, 'x'), 2);
    assert_eq!(entries(&mut a), vec!['a', 'b', 'x', 'c']);
    // past the live entries, an insertion goes to the end
    assert_eq!(a.insert(9, 'y'), 4);
    a.push('z');
    assert_eq!(entries(&mut a), vec!['a', 'b', 'x', 'c', 'y', 'z']);
    // once its animation ends, 'b' is dropped
    assert_eq!(a.remove_at(1), VecDiff::RemoveAt { index: 1 });
    assert_eq!(entries(&mut a), vec!['a', 'x', 'c', 'y', 'z']);
    assert_eq!(a.remove_at(4), VecDiff::Pop {});
    a.clear();
    assert_eq!(entries(&mut a), Vec::<char>::new());
}

#[test]
fn animated_entries_move() {
    let mut a = AnimatedEntries::new();
    a.replace(vec!['a', 'b', 'c', 'd']);
    a.start_removing(1);
    // upstream: a c d; move 'a' (0) to upstream index 1
    assert_eq!(a.move_entry(0, 1), (0, 2));
    assert_eq!(entries(&mut a), vec!['b', 'c', 'a', 'd']);
    assert_eq!(a.removing_flags(), &vec![true, false, false, false]);
    // move 'd' (upstream 2) past the end: it goes last
    assert_eq!(a.move_entry(2, 5), (3, 3));
    assert_eq!(entries(&mut a), vec!['b', 'c', 'a', 'd']);
}

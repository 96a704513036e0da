use dashcam_hud::reorder::ReorderBuffer;

#[test]
fn frames_in_order_pass_straight_through() {
    let mut b: ReorderBuffer<&str> = ReorderBuffer::new();
    assert_eq!(b.accept(0, "a"), vec!["a"]);
    assert_eq!(b.accept(1, "b"), vec!["b"]);
    assert_eq!(b.next_index(), 2);
    assert!(b.take_rest().is_empty());
}

#[test]
fn late_frames_release_the_waiting_run() {
    let mut b = ReorderBuffer::new();
    assert!(b.accept(2, 'c').is_empty());
    assert!(b.accept(1, 'b').is_empty());
    assert_eq!(b.next_index(), 0);
    assert_eq!(b.accept(0, 'a'), vec!['a', 'b', 'c']);
    assert_eq!(b.next_index(), 3);
    assert!(b.accept(4, 'e').is_empty());
    assert_eq!(b.accept(3, 'd'), vec!['d', 'e']);
}

#[test]
fn any_arrival_order_comes_out_in_index_order() {
    let order = [5usize, 0, 3, 1, 2, 7, 4, 6];
    let mut b = ReorderBuffer::new();
    let mut out = Vec::new();
    for i in order {
        out.extend(b.accept(i, i * 10));
    }
    assert_eq!(out, vec![0, 10, 20, 30, 40, 50, 60, 70]);
}

#[test]
fn pop_ready_waits_for_the_next_index() {
    let mut b = ReorderBuffer::new();
    b.insert(1, "one");
    assert_eq!(b.pop_ready(), None);
    b.insert(0, "zero");
    assert_eq!(b.pop_ready(), Some("zero"));
    assert_eq!(b.pop_ready(), Some("one"));
    assert_eq!(b.pop_ready(), None);
    assert_eq!(b.next_index(), 2);
}

#[test]
fn leftovers_come_out_in_index_order() {
    let mut b = ReorderBuffer::new();
    assert!(b.accept(9, 9).is_empty());
    assert!(b.accept(4, 4).is_empty());
    assert!(b.accept(6, 6).is_empty());
    assert_eq!(b.take_rest(), vec![4, 6, 9]);
}

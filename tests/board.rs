use philosophers::board::Board;

#[test]
fn new_board_is_empty() {
    let mut b = Board::new(4);
    assert_eq!(4, b.get_size());
    assert!(!b.is_end_row());
    for c in 0..4 {
        assert!(b.is_safe(c));
    }
}

#[test]
fn queen_marks_later_rows() {
    let mut b = Board::new(4);
    b.set_queen(1);
    assert!(!b.is_safe(0));
    assert!(!b.is_safe(1));
    assert!(!b.is_safe(2));
    assert!(b.is_safe(3));
    b.set_queen(3);
    // Row 2: column 1 (vertical of the first), 3 (vertical), 2 (diagonal).
    assert!(b.is_safe(0));
    assert!(!b.is_safe(1));
    assert!(!b.is_safe(2));
    assert!(!b.is_safe(3));
}

#[test]
fn board_of_one_is_solved_by_one_queen() {
    let mut b = Board::new(1);
    assert!(b.is_safe(0));
    b.set_queen(0);
    assert!(b.is_end_row());
    assert!(!b.is_safe(0));
}

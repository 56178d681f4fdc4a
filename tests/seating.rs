use philosophers::seating::{fork_ids, NoSeatAvailable, SeatingState};

#[test]
fn five_requests_then_none() {
    let mut s = SeatingState::new();
    assert_eq!(5, s.available_seats());
    for k in 0..5 {
        assert!(s.request_seat().is_ok());
        assert_eq!(4 - k, s.available_seats());
    }
    assert_eq!(Err(NoSeatAvailable), s.request_seat());
}

#[test]
fn first_request_takes_both_forks() {
    let mut s = SeatingState::new();
    assert_eq!(Ok(0), s.request_seat());
    let seat = s.seat(0);
    assert!(seat.occupied && seat.has_left && seat.has_right);
    assert_eq!(4, s.available_seats());
    assert!(!s.fork_is_free(4));
    assert!(!s.fork_is_free(0));
    assert!(s.fork_is_free(1));
}

#[test]
fn requests_follow_free_forks() {
    let mut s = SeatingState::new();
    // Seat 0 takes forks 4 and 0; seat 1 lacks fork 0, seat 2 has 1 and 2.
    assert_eq!(Ok(0), s.request_seat());
    assert_eq!(Ok(2), s.request_seat());
    let seat = s.seat(2);
    assert!(seat.has_left && seat.has_right);
    // Nothing is ready now: seat 1 is given without forks.
    assert_eq!(Ok(1), s.request_seat());
    let seat = s.seat(1);
    assert!(seat.occupied && !seat.has_left && !seat.has_right);
}

#[test]
fn release_restores_the_table() {
    let mut s = SeatingState::new();
    assert_eq!(Ok(0), s.request_seat());
    assert_eq!(Ok(2), s.request_seat());
    assert_eq!(Ok(1), s.request_seat());
    assert!(!s.pick_up_forks(1));
    s.release_seat(0);
    assert!(!s.pick_up_forks(1));
    let seat = s.seat(1);
    assert!(seat.has_left && !seat.has_right);
    s.release_seat(2);
    assert!(s.pick_up_forks(1));
    s.release_seat(1);
    assert_eq!(5, s.available_seats());
    for f in 0..5 {
        assert!(s.fork_is_free(f));
    }
}

#[test]
fn forks_of_each_seat() {
    assert_eq!((4, 0), fork_ids(0));
    assert_eq!((0, 1), fork_ids(1));
    assert_eq!((2, 3), fork_ids(3));
    assert_eq!((4, 3), fork_ids(4));
}

use philosophers::seating::NoSeatAvailable;
use philosophers::table::{
    choose_seat, claim_place, claim_setting, count_free, LockId, Philosopher, PhilosopherState,
    SeatingResult, Table,
};

fn hungry(name: &str) -> Philosopher {
    Philosopher { state: PhilosopherState::Hungry, name: name.to_string() }
}

#[test]
fn count() {
    let table = Table::new();

    assert_eq!(5, table.count());
}

#[test]
fn available_settings() {
    let table = Table::new();

    assert_eq!(5, table.available_settings());
}

#[test]
fn seat_one_philosopher() {
    let table = Table::new();
    let philosopher = hungry("Alice");

    let seated = philosopher.take_seat(&table);
    assert!(seated.is_ok());

    let available_settings = table.available_settings();
    assert_eq!(4, available_settings);
}

#[test]
fn seat_all_philosophers() {
    let table = Table::new();
    let mut seats = 5;
    let names = ["Alice", "Bob", "Charlie", "Dave", "Edgar"];
    let mut occupied_seats: Vec<SeatingResult> = Vec::new();

    for name in &names {
        let philosopher = hungry(name);
        let seated = philosopher.take_seat(&table);
        assert!(seated.is_ok());
        occupied_seats.push(seated);

        seats = seats - 1;
        assert_eq!(seats, table.available_settings());
    }

    assert_eq!(0, table.available_settings());
}

#[test]
fn seat_too_many_philosophers() {
    let table = Table::new();
    let names = ["Alice", "Bob", "Charlie", "Dave", "Edgar"];
    let mut occupied_seats: Vec<SeatingResult> = Vec::new();

    for name in &names {
        let philosopher = hungry(name);
        let seated = philosopher.take_seat(&table);
        assert!(seated.is_ok());
        occupied_seats.push(seated);
    }

    assert_eq!(0, table.available_settings());

    let philosopher = hungry("Ringo");
    let seated = philosopher.take_seat(&table);
    match seated {
        Err(e) => assert_eq!(e, NoSeatAvailable),
        Ok(_) => assert!(false),
    }
}

#[test]
fn philosopher_eats() {
    let table = Table::new();
    let mut philosopher = hungry("Alice");

    let seated = philosopher.take_seat(&table);
    assert!(seated.is_ok());
    let forks_and_place = seated.ok().unwrap();
    assert_eq!(0, forks_and_place.place_index);
    assert!(forks_and_place.left.is_some());
    assert!(forks_and_place.right.is_some());

    philosopher.eat(forks_and_place, || {});
    assert!(match philosopher.state {
        PhilosopherState::Thinking => true,
        PhilosopherState::Hungry => false,
        PhilosopherState::Eating => false,
        PhilosopherState::Waiting => false,
    });

    let left_fork = table.try_take_fork(0);
    let right_fork = table.try_take_fork(1);
    assert!(left_fork.is_some());
    assert!(right_fork.is_some());
}

#[test]
fn eating_frees_the_seat_again() {
    let table = Table::new();
    let mut philosopher = hungry("Alice");
    let seating = philosopher.take_seat(&table).ok().unwrap();
    assert_eq!(4, table.available_settings());
    let mut ran = false;
    philosopher.eat(seating, || ran = true);
    assert!(ran);
    assert_eq!(5, table.available_settings());
    assert_eq!("Alice", philosopher.name);
}

#[test]
fn fallback_seat_holds_no_fork() {
    let table = Table::new();
    let held_fork = table.try_take_fork(4).unwrap();
    let held_other = table.try_take_fork(1);
    assert!(held_other.is_some());
    let p = hungry("A");
    // Seats 0 and 4 need fork 4, seats 1 and 2 need fork 1: seat 3 is ready.
    let first = p.take_seat(&table).ok().unwrap();
    assert_eq!(3, first.place_index);
    assert!(first.left.is_some() && first.right.is_some());
    // Now no seat has both forks free: the first vacant seat is given bare.
    let second = p.take_seat(&table).ok().unwrap();
    assert_eq!(0, second.place_index);
    assert!(second.left.is_none() && second.right.is_none());
    drop(held_fork);
}

#[test]
fn settings_form_a_ring_with_one_left_handed_seat() {
    let table = Table::new();
    assert_eq!((4, 0), table.setting_forks(0));
    assert_eq!((0, 1), table.setting_forks(1));
    assert_eq!((1, 2), table.setting_forks(2));
    assert_eq!((2, 3), table.setting_forks(3));
    assert_eq!((4, 3), table.setting_forks(4));
}

#[test]
fn all_seated_before_any_fork_still_all_eat() {
    let table = Table::new();
    let mut held = Vec::new();
    for f in 0..5 {
        held.push(table.try_take_fork(f).unwrap());
    }
    let mut people: Vec<Philosopher> = ["A", "B", "C", "D", "E"].iter().map(|n| hungry(n)).collect();
    let mut seatings = Vec::new();
    for p in &people {
        let s = p.take_seat(&table).ok().unwrap();
        assert!(s.left.is_none() && s.right.is_none());
        seatings.push(s);
    }
    assert_eq!(0, table.available_settings());
    held.clear();
    for (p, mut s) in people.iter_mut().zip(seatings.into_iter()) {
        assert!(p.pick_up_forks(&mut s, &table));
        assert_eq!(PhilosopherState::Eating, p.state);
        p.eat(s, || {});
    }
    for p in &people {
        assert_eq!(PhilosopherState::Thinking, p.state);
    }
    assert_eq!(5, table.available_settings());
}

#[test]
fn a_setting_is_claimed_only_with_all_three_locks() {
    let table = Table::new();
    let full = claim_setting(table.try_take_fork(0), table.try_take_fork(1), table.try_take_fork(2), 3);
    let o = full.unwrap();
    assert_eq!(3, o.place_index);
    assert!(o.left.is_some() && o.right.is_some());
    drop(o);
    let partial = claim_setting(table.try_take_fork(0), table.try_take_fork(1), None, 1);
    assert!(partial.is_none());
    // What the failed claim held was given back.
    assert!(table.try_take_fork(0).is_some());
    assert!(table.try_take_fork(1).is_some());
}

#[test]
fn a_place_alone_is_claimed_without_forks() {
    let table = Table::new();
    let o = claim_place(table.try_take_fork(2), 4).unwrap();
    assert_eq!(4, o.place_index);
    assert!(o.left.is_none() && o.right.is_none());
    assert!(claim_place(None, 0).is_none());
}

#[test]
fn seat_choice_prefers_a_full_seat_then_a_free_place() {
    let none = [false; 5];
    assert_eq!(Some((2, true)), choose_seat(&[false, false, true, true, false], &[true; 5]));
    assert_eq!(Some((3, false)), choose_seat(&none, &[false, false, false, true, true]));
    assert_eq!(None, choose_seat(&none, &none));
}

#[test]
fn free_places_are_counted() {
    assert_eq!(0, count_free(&[false; 5]));
    assert_eq!(3, count_free(&[true, false, true, true, false]));
    assert_eq!(5, count_free(&[true; 5]));
}

#[test]
fn a_seating_names_the_locks_it_holds() {
    let table = Table::new();
    let o = hungry("A").take_seat(&table).ok().unwrap();
    assert_eq!(LockId::Place(0), o.place.lock_id());
    assert_eq!(LockId::Fork(4), o.left.as_ref().unwrap().lock_id());
    assert_eq!(LockId::Fork(0), o.right.as_ref().unwrap().lock_id());
    assert!(table.try_take_fork(4).is_none());
    assert!(table.try_take_fork(0).is_none());
    assert_eq!(LockId::Fork(2), table.try_take_fork(2).unwrap().lock_id());
}

#[test]
fn forks_are_picked_up_left_first() {
    let table = Table::new();
    let right_of_seat_1 = table.try_take_fork(1).unwrap();
    let blocker = table.try_take_fork(4).unwrap();
    let mut p = hungry("A");
    // Forks 4 and 1 are taken: seats 0, 1, 2, 4 are not ready; seat 3 is.
    let first = p.take_seat(&table).ok().unwrap();
    assert_eq!(3, first.place_index);
    let mut s = p.take_seat(&table).ok().unwrap();
    assert_eq!(0, s.place_index);
    // Seat 0 takes fork 4 first; it is held, so nothing is taken.
    assert!(!p.pick_up_forks(&mut s, &table));
    assert_eq!(PhilosopherState::Waiting, p.state);
    assert!(s.left.is_none() && s.right.is_none());
    assert!(table.try_take_fork(0).is_some());
    drop(blocker);
    assert!(p.pick_up_forks(&mut s, &table));
    assert_eq!(LockId::Fork(4), s.left.as_ref().unwrap().lock_id());
    assert_eq!(LockId::Fork(0), s.right.as_ref().unwrap().lock_id());
    drop(right_of_seat_1);
    p.eat(s, || {});
    assert_eq!(PhilosopherState::Thinking, p.state);
    assert!(table.try_take_fork(4).is_some());
    assert!(table.try_take_fork(0).is_some());
}

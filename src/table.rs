use vstd::prelude::*;
use parking_lot::{Mutex, ReentrantMutex};
use crate::locks::{acquire_reentrant, new_lock, new_reentrant_lock, try_acquire, Guard};
use crate::seating::{
    first_ready_from, first_vacant_from, fork_ids, left_fork, ready, request, right_fork, well_formed,
    NoSeatAvailable, SeatStatus, SEATS,
};

verus! {

/// Which mutex of a table a `Held` holds.
#[derive(Clone, Copy, PartialEq, Eq, Structural, Debug)]
pub enum LockId {
    Fork(usize),
    Place(usize),
}

/// One held fork or place of a table, with the name of what it holds.
/// Dropping it releases the mutex.
pub struct Held<'a> {
    guard: Guard<'a>,
    lock: LockId,
}

impl<'a> Held<'a> {
    pub closed spec fn id(&self) -> LockId {
        self.lock
    }

    /// Which mutex this holds.
    pub fn lock_id(&self) -> (r: LockId)
        ensures
            r == self.id(),
    {
        self.lock
    }
}

/// A place at the table: two forks and a lock that marks the place taken.
pub struct Setting {
    left_fork: usize,
    right_fork: usize,
    place_index: usize,
    place: Mutex<()>,
}

/// What a seated philosopher holds: each fork if it was free when the seat
/// was found, and always the place itself.
pub struct ForksAndPlace<'a> {
    pub left: Option<Held<'a>>,
    pub right: Option<Held<'a>>,
    pub place: Held<'a>,
    pub place_index: usize,
}

/// Each part of `o` holds what seat `k` owns: its place, and each fork that
/// is present is that seat's fork on that side.
pub open spec fn holds_seat(o: &ForksAndPlace, k: int) -> bool {
    &&& 0 <= k < 5
    &&& o.place_index == k
    &&& o.place.id() == LockId::Place(k as usize)
    &&& o.left is Some ==> o.left->0.id() == LockId::Fork(left_fork(k) as usize)
    &&& o.right is Some ==> o.right->0.id() == LockId::Fork(right_fork(k) as usize)
}

pub type SeatingResult<'a> = Result<ForksAndPlace<'a>, NoSeatAvailable>;

/// Five forks, five settings in a ring, and a lock that lets one philosopher
/// at a time search for a seat.
pub struct Table {
    forks: [Mutex<()>; 5],
    settings: [Setting; 5],
    is_seating: ReentrantMutex<()>,
}

#[derive(Clone, Copy, PartialEq, Eq, Structural, Debug)]
pub enum PhilosopherState {
    Hungry,
    Eating,
    Thinking,
    Waiting,
}

#[derive(Clone)]
pub struct Philosopher {
    pub state: PhilosopherState,
    pub name: String,
}

/// The first index at or after `i` where `a` is true, or 5 if there is none.
pub open spec fn first_true_from(a: Seq<bool>, i: int) -> int
    decreases 5 - i,
{
    if i >= 5 { 5 } else if a[i] { i } else { first_true_from(a, i + 1) }
}

/// The number of true entries of `a` below index `k`.
pub open spec fn count_true(a: Seq<bool>, k: int) -> int
    decreases k,
{
    if k <= 0 { 0 } else { count_true(a, k - 1) + if a[k - 1] { 1int } else { 0 } }
}

/// The seating choice from what the probes found: the first seat whose place
/// and both forks were taken, with its forks; else the first seat whose place
/// was free, without forks; else none.
pub fn choose_seat(full: &[bool; 5], place_free: &[bool; 5]) -> (r: Option<(usize, bool)>)
    ensures
        first_true_from(full@, 0) < 5 ==> r == Some((first_true_from(full@, 0) as usize, true)),
        first_true_from(full@, 0) == 5 && first_true_from(place_free@, 0) < 5 ==> r == Some(
            (first_true_from(place_free@, 0) as usize, false),
        ),
        first_true_from(full@, 0) == 5 && first_true_from(place_free@, 0) == 5 ==> r is None,
{
    let mut i: usize = 0;
    while i < SEATS
        invariant
            i <= SEATS,
            first_true_from(full@, 0) == first_true_from(full@, i as int),
        decreases SEATS - i,
    {
        if full[i] {
            return Some((i, true));
        }
        i += 1;
    }
    let mut i: usize = 0;
    while i < SEATS
        invariant
            i <= SEATS,
            first_true_from(full@, 0) == 5,
            first_true_from(place_free@, 0) == first_true_from(place_free@, i as int),
        decreases SEATS - i,
    {
        if place_free[i] {
            return Some((i, false));
        }
        i += 1;
    }
    None
}

/// When the probes see a table in state `v` (a seat counts as full when it is
/// ready in `v`, a place as free when its seat is vacant), `choose_seat`
/// picks the seat and path that the resource model's `request` picks.
pub proof fn lemma_choice_is_request(v: Seq<SeatStatus>, full: Seq<bool>, place_free: Seq<bool>)
    requires
        well_formed(v),
        full.len() == 5,
        place_free.len() == 5,
        forall|i: int| 0 <= i < 5 ==> #[trigger] full[i] == ready(v, i),
        forall|i: int| 0 <= i < 5 ==> #[trigger] place_free[i] == !v[i].occupied,
    ensures
        first_true_from(full, 0) == first_ready_from(v, 0),
        first_true_from(place_free, 0) == first_vacant_from(v, 0),
        first_true_from(full, 0) < 5 ==> request(v).1 == Some(first_true_from(full, 0)),
        first_true_from(full, 0) == 5 && first_true_from(place_free, 0) < 5 ==> request(v).1 == Some(
            first_true_from(place_free, 0),
        ),
        first_true_from(full, 0) == 5 && first_true_from(place_free, 0) == 5 ==> request(v).1 is None,
{
    reveal_with_fuel(first_true_from, 6);
    reveal_with_fuel(first_ready_from, 6);
    reveal_with_fuel(first_vacant_from, 6);
}

/// The number of places that the probes found free.
pub fn count_free(probes: &[bool; 5]) -> (r: usize)
    ensures
        r == count_true(probes@, 5),
        r <= SEATS,
{
    let mut n: usize = 0;
    let mut i: usize = 0;
    while i < SEATS
        invariant
            i <= SEATS,
            n <= i,
            n == count_true(probes@, i as int),
        decreases SEATS - i,
    {
        if probes[i] {
            n += 1;
        }
        i += 1;
    }
    n
}

impl Table {
    /// Each setting takes the forks that the ring assigns to it, in the order
    /// of acquisition; the fifth is left-handed.
    #[verifier::type_invariant]
    spec fn settings_form_ring(&self) -> bool {
        forall|i: int|
            0 <= i < 5 ==> {
                &&& (#[trigger] self.settings@[i]).left_fork == left_fork(i)
                &&& self.settings@[i].right_fork == right_fork(i)
                &&& self.settings@[i].place_index == i
            }
    }

    /// The two forks of setting `i`, in the order in which they are taken.
    pub closed spec fn fork_pair(&self, i: int) -> (int, int) {
        (self.settings@[i].left_fork as int, self.settings@[i].right_fork as int)
    }

    pub fn new() -> (r: Table)
        ensures
            forall|i: int| 0 <= i < 5 ==> #[trigger] r.fork_pair(i) == (left_fork(i), right_fork(i)),
    {
        Table {
            forks: [new_lock(), new_lock(), new_lock(), new_lock(), new_lock()],
            settings: [
                Setting { left_fork: 4, right_fork: 0, place_index: 0, place: new_lock() },
                Setting { left_fork: 0, right_fork: 1, place_index: 1, place: new_lock() },
                Setting { left_fork: 1, right_fork: 2, place_index: 2, place: new_lock() },
                Setting { left_fork: 2, right_fork: 3, place_index: 3, place: new_lock() },
                // Left-handed: takes fork 4 before fork 3.
                Setting { left_fork: 4, right_fork: 3, place_index: 4, place: new_lock() },
            ],
            is_seating: new_reentrant_lock(),
        }
    }

    /// The total number of place settings.
    pub fn count(&self) -> (r: usize)
        ensures
            r == SEATS,
    {
        self.settings.len()
    }

    /// The two forks of setting `i`, in the order in which they are taken.
    pub fn setting_forks(&self, i: usize) -> (r: (usize, usize))
        requires
            i < SEATS,
        ensures
            r.0 == left_fork(i as int),
            r.1 == right_fork(i as int),
            (r.0 as int, r.1 as int) == self.fork_pair(i as int),
    {
        proof {
            use_type_invariant(self);
        }
        (self.settings[i].left_fork, self.settings[i].right_fork)
    }

    /// Takes the place of setting `i` if it is free at this moment.
    fn try_take_place(&self, i: usize) -> (r: Option<Held<'_>>)
        requires
            i < SEATS,
        ensures
            r is Some ==> r->0.id() == LockId::Place(i),
    {
        match try_acquire(&self.settings[i].place) {
            Some(guard) => Some(Held { guard, lock: LockId::Place(i) }),
            None => None,
        }
    }

    /// Takes fork `f` if it is free at this moment.
    pub fn try_take_fork(&self, f: usize) -> (r: Option<Held<'_>>)
        requires
            f < SEATS,
        ensures
            r is Some ==> r->0.id() == LockId::Fork(f),
    {
        match try_acquire(&self.forks[f]) {
            Some(guard) => Some(Held { guard, lock: LockId::Fork(f) }),
            None => None,
        }
    }

    /// The number of settings whose place was free when probed; each probe
    /// that succeeds is released at once.
    pub fn available_settings(&self) -> (r: usize)
        ensures
            r <= SEATS,
    {
        let probes = [
            self.try_take_place(0).is_some(),
            self.try_take_place(1).is_some(),
            self.try_take_place(2).is_some(),
            self.try_take_place(3).is_some(),
            self.try_take_place(4).is_some(),
        ];
        count_free(&probes)
    }
}

/// A setting is taken with both forks only if its place and both forks were
/// all acquired; otherwise whatever was acquired is released.
pub fn claim_setting<'a>(
    place: Option<Held<'a>>,
    left: Option<Held<'a>>,
    right: Option<Held<'a>>,
    index: usize,
) -> (r: Option<ForksAndPlace<'a>>)
    ensures
        r is Some <==> (place is Some && left is Some && right is Some),
        r is Some ==> ({
            let o = r->0;
            &&& o.place_index == index
            &&& o.place.id() == place->0.id()
            &&& o.left is Some && o.left->0.id() == left->0.id()
            &&& o.right is Some && o.right->0.id() == right->0.id()
        }),
{
    match (place, left, right) {
        (Some(place), Some(left), Some(right)) => Some(
            ForksAndPlace { left: Some(left), right: Some(right), place, place_index: index },
        ),
        _ => None,
    }
}

/// A setting is taken without forks exactly when its place was acquired.
pub fn claim_place<'a>(place: Option<Held<'a>>, index: usize) -> (r: Option<ForksAndPlace<'a>>)
    ensures
        r is Some <==> place is Some,
        r is Some ==> ({
            let o = r->0;
            &&& o.place_index == index
            &&& o.place.id() == place->0.id()
            &&& o.left is None
            &&& o.right is None
        }),
{
    match place {
        Some(place) => Some(ForksAndPlace { left: None, right: None, place, place_index: index }),
        None => None,
    }
}

impl Philosopher {
    /// Seats the philosopher. Only one philosopher searches at a time. First
    /// each setting in order is probed for its place, then its left fork,
    /// then its right fork, and everything is released again on a miss; the
    /// first setting with all three is kept. Else each place is probed in
    /// order and the first free one is kept, with no fork.
    pub fn take_seat<'a>(&self, table: &'a Table) -> (r: SeatingResult<'a>)
        ensures
            match r {
                Ok(o) => {
                    &&& holds_seat(&o, o.place_index as int)
                    &&& o.left is Some <==> o.right is Some
                },
                Err(_) => true,
            },
    {
        proof {
            use_type_invariant(table);
        }
        let _searching = acquire_reentrant(&table.is_seating);
        let mut fast: Option<ForksAndPlace<'a>> = None;
        let mut hit: usize = 0;
        while hit < SEATS
            invariant_except_break
                fast is None,
            invariant
                hit <= SEATS,
            ensures
                hit <= SEATS,
                fast is Some <==> hit < SEATS,
                fast is Some ==> holds_seat(&fast->0, hit as int) && fast->0.left is Some
                    && fast->0.right is Some,
            decreases SEATS - hit,
        {
            proof {
                use_type_invariant(table);
            }
            let (l, r) = table.setting_forks(hit);
            let place = table.try_take_place(hit);
            let left = if place.is_some() {
                table.try_take_fork(l)
            } else {
                None
            };
            let right = if left.is_some() {
                table.try_take_fork(r)
            } else {
                None
            };
            fast = claim_setting(place, left, right, hit);
            if fast.is_some() {
                break;
            }
            hit += 1;
        }
        let mut bare: Option<ForksAndPlace<'a>> = None;
        let mut free: usize = SEATS;
        if fast.is_none() {
            free = 0;
            while free < SEATS
                invariant_except_break
                    bare is None,
                invariant
                    free <= SEATS,
                ensures
                    free <= SEATS,
                    bare is Some <==> free < SEATS,
                    bare is Some ==> holds_seat(&bare->0, free as int) && bare->0.left is None
                        && bare->0.right is None,
                decreases SEATS - free,
            {
                bare = claim_place(table.try_take_place(free), free);
                if bare.is_some() {
                    break;
                }
                free += 1;
            }
        }
        let full = [hit == 0, hit == 1, hit == 2, hit == 3, hit == 4];
        let place_free = [free == 0, free == 1, free == 2, free == 3, free == 4];
        proof {
            reveal_with_fuel(first_true_from, 6);
        }
        match choose_seat(&full, &place_free) {
            Some((_, true)) => match fast {
                Some(o) => Ok(o),
                None => Err(NoSeatAvailable),
            },
            Some((_, false)) => match bare {
                Some(o) => Ok(o),
                None => Err(NoSeatAvailable),
            },
            None => Err(NoSeatAvailable),
        }
    }

    /// Tries, without waiting, to take the forks that the seating lacks:
    /// the left one first, and the right one only once the left one is held.
    /// Returns whether both are now held; the philosopher waits until then.
    pub fn pick_up_forks<'a>(&mut self, seating: &mut ForksAndPlace<'a>, table: &'a Table) -> (r:
        bool)
        requires
            holds_seat(old(seating), old(seating).place_index as int),
            old(seating).right is Some ==> old(seating).left is Some,
        ensures
            holds_seat(final(seating), old(seating).place_index as int),
            final(seating).place == old(seating).place,
            old(seating).left is Some ==> final(seating).left == old(seating).left,
            old(seating).right is Some ==> final(seating).right == old(seating).right,
            final(seating).right is Some ==> final(seating).left is Some,
            r == (final(seating).left is Some && final(seating).right is Some),
            final(self).state == if r {
                PhilosopherState::Eating
            } else {
                PhilosopherState::Waiting
            },
            final(self).name == old(self).name,
    {
        let (l, rf) = fork_ids(seating.place_index);
        if seating.left.is_none() {
            seating.left = table.try_take_fork(l);
        }
        if seating.left.is_some() && seating.right.is_none() {
            seating.right = table.try_take_fork(rf);
        }
        let done = seating.left.is_some() && seating.right.is_some();
        self.state = if done {
            PhilosopherState::Eating
        } else {
            PhilosopherState::Waiting
        };
        done
    }

    /// Eats: runs `activity` while holding both forks and the place, then
    /// releases all three and turns to thinking.
    pub fn eat<'a, F: FnOnce()>(&mut self, seating: ForksAndPlace<'a>, activity: F)
        requires
            holds_seat(&seating, seating.place_index as int),
            seating.left is Some,
            seating.right is Some,
            activity.requires(()),
        ensures
            activity.ensures((), ()),
            final(self).state == PhilosopherState::Thinking,
            final(self).name == old(self).name,
    {
        self.state = PhilosopherState::Eating;
        activity();
        // The forks and the place are released when `seating` goes out of
        // scope at the end of this call.
        self.state = PhilosopherState::Thinking;
    }
}

/// The one-letter name of the `i`th philosopher of the roster.
pub open spec fn roster_name(i: int) -> Seq<char> {
    seq![((65 + i) as u8) as char]
}

/// Twenty-four hungry philosophers, named "A" to "X" in order.
pub fn gen_philosophers() -> (r: Vec<Philosopher>)
    ensures
        r.len() == 24,
        forall|i: int| 0 <= i < 24 ==> (#[trigger] r@[i]).state == PhilosopherState::Hungry,
        forall|i: int| 0 <= i < 24 ==> (#[trigger] r@[i]).name@ == roster_name(i),
{
    let names: [&str; 24] = ["A", "B", "C", "D", "E", "F", "G", "H", "I", "J", "K", "L", "M", "N", "O", "P", "Q", "R", "S", "T", "U", "V", "W", "X"];
    proof {
            reveal_strlit("A");
            reveal_strlit("B");
            reveal_strlit("C");
            reveal_strlit("D");
            reveal_strlit("E");
            reveal_strlit("F");
            reveal_strlit("G");
            reveal_strlit("H");
            reveal_strlit("I");
            reveal_strlit("J");
            reveal_strlit("K");
            reveal_strlit("L");
            reveal_strlit("M");
            reveal_strlit("N");
            reveal_strlit("O");
            reveal_strlit("P");
            reveal_strlit("Q");
            reveal_strlit("R");
            reveal_strlit("S");
            reveal_strlit("T");
            reveal_strlit("U");
            reveal_strlit("V");
            reveal_strlit("W");
            reveal_strlit("X");
    }
    assert(forall|i: int| 0 <= i < 24 ==> (#[trigger] names@[i])@ == roster_name(i));
    let mut philosophers: Vec<Philosopher> = Vec::new();
    let mut i: usize = 0;
    while i < 24
        invariant
            i <= 24,
            philosophers.len() == i,
            forall|j: int| 0 <= j < 24 ==> (#[trigger] names@[j])@ == roster_name(j),
            forall|j: int|
                0 <= j < i ==> (#[trigger] philosophers@[j]).state == PhilosopherState::Hungry,
            forall|j: int| 0 <= j < i ==> (#[trigger] philosophers@[j]).name@ == roster_name(j),
        decreases 24 - i,
    {
        philosophers.push(Philosopher { name: names[i].to_owned(), state: PhilosopherState::Hungry });
        i += 1;
    }
    philosophers
}

} // verus!

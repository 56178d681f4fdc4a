use vstd::prelude::*;

verus! {

/// Number of seats at the table, and of forks.
pub const SEATS: usize = 5;

/// The fork that the seat at `i` takes first.
pub open spec fn left_fork(i: int) -> int {
    if i == 0 || i == 4 { 4 } else { i - 1 }
}

/// The fork that the seat at `i` takes second. The seat at 4 is left-handed:
/// its two forks come in the reverse of the ring's order.
pub open spec fn right_fork(i: int) -> int {
    if i == 0 { 0 } else if i == 4 { 3 } else { i }
}

/// A position of a fork in one global order of acquisition.
pub open spec fn fork_rank(f: int) -> int {
    if f == 4 { 0 } else { f + 1 }
}

/// What one seat holds: its occupancy token and each of its two forks.
#[derive(Clone, Copy, PartialEq, Eq, Structural, Debug)]
pub struct SeatStatus {
    pub occupied: bool,
    pub has_left: bool,
    pub has_right: bool,
}

/// The resource state of the whole table: one status per seat.
pub struct SeatingState {
    seats: Vec<SeatStatus>,
}

/// Returned when every seat is occupied.
#[derive(Clone, Copy, PartialEq, Eq, Structural, Debug)]
pub struct NoSeatAvailable;

pub open spec fn vacant() -> SeatStatus {
    SeatStatus { occupied: false, has_left: false, has_right: false }
}

pub open spec fn holds_fork(s: SeatStatus, i: int, f: int) -> bool {
    (s.has_left && left_fork(i) == f) || (s.has_right && right_fork(i) == f)
}

pub open spec fn fork_free(v: Seq<SeatStatus>, f: int) -> bool {
    forall|i: int| 0 <= i < v.len() ==> !holds_fork(#[trigger] v[i], i, f)
}

/// Seat `i` is vacant and both of its forks are free.
pub open spec fn ready(v: Seq<SeatStatus>, i: int) -> bool {
    !v[i].occupied && fork_free(v, left_fork(i)) && fork_free(v, right_fork(i))
}

/// Forks are taken only by an occupied seat, the right one only after the
/// left one, and no fork is held by two seats.
pub open spec fn well_formed(v: Seq<SeatStatus>) -> bool {
    &&& v.len() == 5
    &&& forall|i: int| 0 <= i < 5 ==> (#[trigger] v[i]).has_left ==> v[i].occupied
    &&& forall|i: int| 0 <= i < 5 ==> (#[trigger] v[i]).has_right ==> v[i].has_left
    &&& forall|i: int, j: int, f: int|
        0 <= i < 5 && 0 <= j < 5 && i != j && #[trigger] holds_fork(v[i], i, f)
            ==> !#[trigger] holds_fork(v[j], j, f)
}

/// The first seat at or after `i` that is ready, or 5 if there is none.
pub open spec fn first_ready_from(v: Seq<SeatStatus>, i: int) -> int
    decreases 5 - i,
{
    if i >= 5 { 5 } else if ready(v, i) { i } else { first_ready_from(v, i + 1) }
}

/// The first vacant seat at or after `i`, or 5 if there is none.
pub open spec fn first_vacant_from(v: Seq<SeatStatus>, i: int) -> int
    decreases 5 - i,
{
    if i >= 5 { 5 } else if !v[i].occupied { i } else { first_vacant_from(v, i + 1) }
}

/// A seat request: the first ready seat with both of its forks; else the
/// first vacant seat alone; else nothing changes and no seat is given.
pub open spec fn request(v: Seq<SeatStatus>) -> (Seq<SeatStatus>, Option<int>) {
    let r = first_ready_from(v, 0);
    let f = first_vacant_from(v, 0);
    if r < 5 {
        (v.update(r, SeatStatus { occupied: true, has_left: true, has_right: true }), Some(r))
    } else if f < 5 {
        (v.update(f, SeatStatus { occupied: true, has_left: false, has_right: false }), Some(f))
    } else {
        (v, None)
    }
}

/// The seated philosopher at `i` takes what it lacks, left fork first: each
/// fork only if it is free, and the right one only once the left one is held.
pub open spec fn pick_up(v: Seq<SeatStatus>, i: int) -> Seq<SeatStatus> {
    let s = v[i];
    let left = s.has_left || fork_free(v, left_fork(i));
    let right = s.has_right || (left && fork_free(v, right_fork(i)));
    v.update(i, SeatStatus { occupied: true, has_left: left, has_right: right })
}

/// The seat at `i` can take its next step: it holds both forks, or the fork
/// it waits for next is free.
pub open spec fn can_progress(v: Seq<SeatStatus>, i: int) -> bool {
    v[i].occupied && if v[i].has_left {
        v[i].has_right || fork_free(v, right_fork(i))
    } else {
        fork_free(v, left_fork(i))
    }
}

/// The seat at `i` gives back its forks and its occupancy.
pub open spec fn release(v: Seq<SeatStatus>, i: int) -> Seq<SeatStatus> {
    v.update(i, vacant())
}

pub open spec fn vacancy(s: SeatStatus) -> int {
    if s.occupied { 0 } else { 1 }
}

pub open spec fn count_vacant(v: Seq<SeatStatus>) -> int {
    vacancy(v[0]) + vacancy(v[1]) + vacancy(v[2]) + vacancy(v[3]) + vacancy(v[4])
}

pub open spec fn tokens(s: SeatStatus) -> int {
    (if s.has_left { 1int } else { 0 }) + (if s.has_right { 1int } else { 0 })
}

/// The number of fork tokens held over the whole table.
pub open spec fn forks_in_use(v: Seq<SeatStatus>) -> int {
    tokens(v[0]) + tokens(v[1]) + tokens(v[2]) + tokens(v[3]) + tokens(v[4])
}

pub open spec fn empty_table() -> Seq<SeatStatus> {
    seq![vacant(), vacant(), vacant(), vacant(), vacant()]
}

/// The state after `n` seat requests on an empty table.
pub open spec fn after_requests(n: nat) -> Seq<SeatStatus>
    decreases n,
{
    if n == 0 { empty_table() } else { request(after_requests((n - 1) as nat)).0 }
}

impl View for SeatingState {
    type V = Seq<SeatStatus>;

    closed spec fn view(&self) -> Seq<SeatStatus> {
        self.seats@
    }
}

impl SeatingState {
    pub closed spec fn wf(&self) -> bool {
        well_formed(self@)
    }

    /// A table with every seat vacant and every fork free.
    pub fn new() -> (r: SeatingState)
        ensures
            r@ == empty_table(),
            r.wf(),
    {
        let v = SeatStatus { occupied: false, has_left: false, has_right: false };
        let seats = vec![v, v, v, v, v];
        let r = SeatingState { seats };
        assert(r@ =~= empty_table());
        r
    }

    /// The status of the seat at `i`.
    pub fn seat(&self, i: usize) -> (r: SeatStatus)
        requires
            self.wf(),
            i < SEATS,
        ensures
            r == self@[i as int],
    {
        self.seats[i]
    }

    /// Whether no seat holds fork `f`.
    pub fn fork_is_free(&self, f: usize) -> (r: bool)
        requires
            self.wf(),
        ensures
            r == fork_free(self@, f as int),
    {
        let mut i: usize = 0;
        while i < SEATS
            invariant
                self.wf(),
                i <= SEATS,
                forall|j: int| 0 <= j < i ==> !holds_fork(#[trigger] self@[j], j, f as int),
            decreases SEATS - i,
        {
            let s = self.seats[i];
            let (l, r) = fork_ids(i);
            if (s.has_left && l == f) || (s.has_right && r == f) {
                assert(holds_fork(self@[i as int], i as int, f as int));
                return false;
            }
            i += 1;
        }
        true
    }

    /// Whether the seat at `i` is vacant with both of its forks free.
    fn is_ready(&self, i: usize) -> (r: bool)
        requires
            self.wf(),
            i < SEATS,
        ensures
            r == ready(self@, i as int),
    {
        let (l, r) = fork_ids(i);
        !self.seats[i].occupied && self.fork_is_free(l) && self.fork_is_free(r)
    }

    /// Seats one philosopher: the first seat whose two forks are free, taken
    /// with both forks; otherwise the first vacant seat, taken without forks.
    /// Fails only when every seat is occupied.
    pub fn request_seat(&mut self) -> (r: Result<usize, NoSeatAvailable>)
        requires
            old(self).wf(),
        ensures
            final(self).wf(),
            final(self)@ == request(old(self)@).0,
            match r {
                Ok(i) => request(old(self)@).1 == Some(i as int),
                Err(_) => request(old(self)@).1 is None,
            },
            r is Err <==> count_vacant(old(self)@) == 0,
    {
        proof {
            lemma_request_keeps_well_formed(self@);
        }
        let mut i: usize = 0;
        while i < SEATS
            invariant
                self.wf(),
                i <= SEATS,
                self@ == old(self)@,
                first_ready_from(self@, 0) == first_ready_from(self@, i as int),
            decreases SEATS - i,
        {
            if self.is_ready(i) {
                self.seats.set(i, SeatStatus { occupied: true, has_left: true, has_right: true });
                return Ok(i);
            }
            i += 1;
        }
        let mut i: usize = 0;
        while i < SEATS
            invariant
                self.wf(),
                i <= SEATS,
                self@ == old(self)@,
                first_ready_from(self@, 0) == 5,
                first_vacant_from(self@, 0) == first_vacant_from(self@, i as int),
            decreases SEATS - i,
        {
            if !self.seats[i].occupied {
                self.seats.set(i, SeatStatus { occupied: true, has_left: false, has_right: false });
                return Ok(i);
            }
            i += 1;
        }
        Err(NoSeatAvailable)
    }

    /// The philosopher at `i` takes the forks it lacks, left one first, each
    /// only if it is free. Returns whether it now holds both.
    pub fn pick_up_forks(&mut self, i: usize) -> (r: bool)
        requires
            old(self).wf(),
            i < SEATS,
            old(self)@[i as int].occupied,
        ensures
            final(self).wf(),
            final(self)@ == pick_up(old(self)@, i as int),
            r == (final(self)@[i as int].has_left && final(self)@[i as int].has_right),
    {
        proof {
            lemma_pick_up_keeps_well_formed(self@, i as int);
        }
        let (l, rf) = fork_ids(i);
        let s = self.seats[i];
        let left = s.has_left || self.fork_is_free(l);
        let right = s.has_right || (left && self.fork_is_free(rf));
        self.seats.set(i, SeatStatus { occupied: true, has_left: left, has_right: right });
        left && right
    }

    /// The philosopher at `i` has eaten: its forks and its seat are released.
    pub fn release_seat(&mut self, i: usize)
        requires
            old(self).wf(),
            i < SEATS,
        ensures
            final(self).wf(),
            final(self)@ == release(old(self)@, i as int),
    {
        proof {
            lemma_release_keeps_well_formed(self@, i as int);
        }
        self.seats.set(i, SeatStatus { occupied: false, has_left: false, has_right: false });
    }

    /// The number of vacant seats.
    pub fn available_seats(&self) -> (r: usize)
        requires
            self.wf(),
        ensures
            r == count_vacant(self@),
    {
        let mut n: usize = 0;
        let mut i: usize = 0;
        while i < SEATS
            invariant
                self.wf(),
                i <= SEATS,
                n <= i,
                n == count_vacant_below(self@, i as int),
            decreases SEATS - i,
        {
            if !self.seats[i].occupied {
                n += 1;
            }
            i += 1;
        }
        proof {
            reveal_with_fuel(count_vacant_below, 6);
        }
        n
    }
}

/// The number of vacant seats among the first `k`.
pub open spec fn count_vacant_below(v: Seq<SeatStatus>, k: int) -> int
    decreases k,
{
    if k <= 0 { 0 } else { count_vacant_below(v, k - 1) + vacancy(v[k - 1]) }
}

/// The two forks of the seat at `i`, in the order in which it takes them.
pub fn fork_ids(i: usize) -> (r: (usize, usize))
    requires
        i < SEATS,
    ensures
        r.0 == left_fork(i as int),
        r.1 == right_fork(i as int),
{
    if i == 0 {
        (4, 0)
    } else if i == 4 {
        (4, 3)
    } else {
        (i - 1, i)
    }
}

proof fn lemma_request_keeps_well_formed(v: Seq<SeatStatus>)
    requires
        well_formed(v),
    ensures
        well_formed(request(v).0),
        request(v).1 is None <==> count_vacant(v) == 0,
        request(v).1 is None ==> request(v).0 == v,
{
    lemma_first_ready(v, 0);
    lemma_first_vacant(v, 0);
    let r = first_ready_from(v, 0);
    let w = request(v).0;
    if r < 5 {
        assert forall|i: int, j: int, f: int|
            0 <= i < 5 && 0 <= j < 5 && i != j && #[trigger] holds_fork(w[i], i, f)
                implies !#[trigger] holds_fork(w[j], j, f) by {
            if i == r {
                assert(!holds_fork(v[j], j, f));
            } else if j == r {
                if holds_fork(w[r], r, f) {
                    assert(fork_free(v, f));
                    assert(!holds_fork(v[i], i, f));
                }
            }
        }
    }
}

proof fn lemma_first_ready(v: Seq<SeatStatus>, i: int)
    requires
        v.len() == 5,
        0 <= i <= 5,
    ensures
        i <= first_ready_from(v, i) <= 5,
        first_ready_from(v, i) < 5 ==> ready(v, first_ready_from(v, i)),
    decreases 5 - i,
{
    if i < 5 && !ready(v, i) {
        lemma_first_ready(v, i + 1);
    }
}

proof fn lemma_first_vacant(v: Seq<SeatStatus>, i: int)
    requires
        v.len() == 5,
        0 <= i <= 5,
    ensures
        i <= first_vacant_from(v, i) <= 5,
        first_vacant_from(v, i) < 5 ==> !v[first_vacant_from(v, i)].occupied,
        first_vacant_from(v, i) == 5 ==> forall|j: int| i <= j < 5 ==> (#[trigger] v[j]).occupied,
    decreases 5 - i,
{
    if i < 5 && v[i].occupied {
        lemma_first_vacant(v, i + 1);
    }
}

proof fn lemma_pick_up_keeps_well_formed(v: Seq<SeatStatus>, k: int)
    requires
        well_formed(v),
        0 <= k < 5,
        v[k].occupied,
    ensures
        well_formed(pick_up(v, k)),
{
    let w = pick_up(v, k);
    assert forall|i: int, j: int, f: int|
        0 <= i < 5 && 0 <= j < 5 && i != j && #[trigger] holds_fork(w[i], i, f)
            implies !#[trigger] holds_fork(w[j], j, f) by {
        if i == k {
            if !holds_fork(v[k], k, f) {
                assert(fork_free(v, f));
            }
            assert(!holds_fork(v[j], j, f));
        } else if j == k {
            if holds_fork(w[k], k, f) && !holds_fork(v[k], k, f) {
                assert(fork_free(v, f));
                assert(!holds_fork(v[i], i, f));
            }
        }
    }
}

proof fn lemma_release_keeps_well_formed(v: Seq<SeatStatus>, k: int)
    requires
        well_formed(v),
        0 <= k < 5,
    ensures
        well_formed(release(v, k)),
{
    let w = release(v, k);
    assert forall|i: int, j: int, f: int|
        0 <= i < 5 && 0 <= j < 5 && i != j && #[trigger] holds_fork(w[i], i, f)
            implies !#[trigger] holds_fork(w[j], j, f) by {
        if i != k && j != k {
            assert(holds_fork(v[i], i, f));
        }
    }
}

/// A request succeeds exactly when some seat is vacant, and each success
/// takes one vacant seat: so on a table of five seats, requests succeed until
/// the sixth concurrent holder asks.
pub proof fn lemma_request_succeeds_iff_vacant(v: Seq<SeatStatus>)
    requires
        well_formed(v),
    ensures
        well_formed(request(v).0),
        request(v).1 is Some <==> count_vacant(v) > 0,
        request(v).1 is Some ==> count_vacant(request(v).0) == count_vacant(v) - 1,
        request(v).1 is None ==> request(v).0 == v,
{
    lemma_request_keeps_well_formed(v);
    lemma_first_ready(v, 0);
    lemma_first_vacant(v, 0);
}

/// On an empty table the first five requests succeed, leaving `5 - n` vacant
/// seats after the `n`th, and the sixth fails.
pub proof fn lemma_five_seats_then_none(n: nat)
    requires
        n <= 5,
    ensures
        well_formed(after_requests(n)),
        count_vacant(after_requests(n)) == 5 - n,
        n < 5 ==> request(after_requests(n)).1 is Some,
        n == 5 ==> request(after_requests(n)).1 is None,
    decreases n,
{
    if n == 0 {
        assert(well_formed(empty_table()));
    } else {
        lemma_five_seats_then_none((n - 1) as nat);
        lemma_request_succeeds_iff_vacant(after_requests((n - 1) as nat));
    }
    lemma_request_succeeds_iff_vacant(after_requests(n));
}

/// A seat that was requested, then used to pick up forks, then released,
/// leaves the table exactly as it was before the request: nothing leaks.
pub proof fn lemma_eat_restores(v: Seq<SeatStatus>)
    requires
        well_formed(v),
        request(v).1 is Some,
    ensures
        release(request(v).0, request(v).1->0) == v,
        release(pick_up(request(v).0, request(v).1->0), request(v).1->0) == v,
        count_vacant(release(pick_up(request(v).0, request(v).1->0), request(v).1->0))
            == count_vacant(v),
{
    lemma_first_ready(v, 0);
    lemma_first_vacant(v, 0);
    let i = request(v).1->0;
    assert(v[i] == vacant());
    assert(release(request(v).0, i) =~= v);
    assert(release(pick_up(request(v).0, i), i) =~= v);
}

/// Seat accounting in any order of events: a release frees exactly the seat
/// it names, picking up forks frees or takes no seat, and a granted request
/// takes one; so once every granted seat has been released again, as many
/// seats are vacant as before the first request.
pub proof fn lemma_vacancy_accounting(v: Seq<SeatStatus>, i: int)
    requires
        well_formed(v),
        0 <= i < 5,
    ensures
        v[i].occupied ==> count_vacant(release(v, i)) == count_vacant(v) + 1,
        v[i].occupied ==> count_vacant(pick_up(v, i)) == count_vacant(v),
        request(v).1 is Some ==> count_vacant(request(v).0) == count_vacant(v) - 1,
{
    lemma_request_succeeds_iff_vacant(v);
}

/// No more fork tokens are held than there are forks.
pub proof fn lemma_forks_in_use_bounded(v: Seq<SeatStatus>)
    requires
        well_formed(v),
    ensures
        forks_in_use(v) <= 5,
{
    assert(holds_fork(v[0], 0, 4) ==> !holds_fork(v[4], 4, 4));
    assert(holds_fork(v[0], 0, 0) ==> !holds_fork(v[1], 1, 0));
    assert(holds_fork(v[1], 1, 1) ==> !holds_fork(v[2], 2, 1));
    assert(holds_fork(v[2], 2, 2) ==> !holds_fork(v[3], 3, 2));
    assert(holds_fork(v[3], 3, 3) ==> !holds_fork(v[4], 4, 3));
}

/// Every seat takes its two forks in increasing rank: the order of fork
/// acquisition is one global order, so no cycle of waiting seats can form.
pub proof fn lemma_acquisition_order_is_global()
    ensures
        forall|i: int| 0 <= i < 5 ==> fork_rank(left_fork(i)) < fork_rank(right_fork(i)),
        forall|i: int| 0 <= i < 5 ==> left_fork(i) != right_fork(i),
        forall|i: int| 0 <= i < 5 ==> 0 <= #[trigger] left_fork(i) < 5 && 0 <= right_fork(i) < 5,
{
}

/// Deadlock freedom: whenever some seat is occupied, some occupied seat can
/// take its next step, even when every seat was taken before any fork was.
pub proof fn lemma_some_seat_can_progress(v: Seq<SeatStatus>)
    requires
        well_formed(v),
        exists|i: int| 0 <= i < 5 && (#[trigger] v[i]).occupied,
    ensures
        exists|i: int| 0 <= i < 5 && can_progress(v, i),
{
    assert(holds_fork(v[0], 0, 4) ==> !holds_fork(v[4], 4, 4));
    assert(holds_fork(v[0], 0, 0) ==> !holds_fork(v[1], 1, 0));
    assert(holds_fork(v[1], 1, 1) ==> !holds_fork(v[2], 2, 1));
    assert(holds_fork(v[2], 2, 2) ==> !holds_fork(v[3], 3, 2));
    assert(holds_fork(v[3], 3, 3) ==> !holds_fork(v[4], 4, 3));
    if !(exists|i: int| 0 <= i < 5 && can_progress(v, i)) {
        assert(!can_progress(v, 0));
        assert(!can_progress(v, 1));
        assert(!can_progress(v, 2));
        assert(!can_progress(v, 3));
        assert(!can_progress(v, 4));
        assert(false);
    }
}

} // verus!

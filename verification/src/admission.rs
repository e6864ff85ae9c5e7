//! Admitting a conversation into the live-session table, displacing a user's
//! older sessions to make room, and deciding which sessions the reaper
//! retires.
//!
//! The table itself, its lock and the child processes stay with the caller;
//! what lives here is every decision made while the lock is held, as a
//! function of what the table held at that moment.
use vstd::prelude::*;

use crate::decimal::{decimal, u64_to_string};

verus! {

/// One entry of the live-session table, as the decisions here see it.
pub struct SessionEntry {
    pub conversation_id: String,
    pub user_id: String,
    /// Time since the session started, in milliseconds.
    pub age_ms: u64,
    /// Time since the session last saw activity, in milliseconds.
    pub idle_ms: u64,
    /// Whether the child has already exited.
    pub closed: bool,
}

/// Why a session could not be created. A cap is "try later", a spawn or
/// credential failure is "misconfigured".
#[derive(Debug)]
pub enum SpawnError {
    PerUserCap(usize),
    TotalCap(usize),
    Credential(String),
    Io(String),
}

/// How many entries belong to `user`.
pub open spec fn count_user(s: Seq<SessionEntry>, user: Seq<char>) -> nat
    decreases s.len(),
{
    if s.len() == 0 {
        0
    } else {
        count_user(s.drop_last(), user) + if s.last().user_id@ == user {
            1nat
        } else {
            0nat
        }
    }
}

/// The admission check run under the table lock.
pub open spec fn reserve_spec(
    s: Seq<SessionEntry>,
    user: Seq<char>,
    max_total: usize,
    max_per_user: usize,
) -> Result<(), SpawnError> {
    if s.len() >= max_total {
        Err(SpawnError::TotalCap(max_total))
    } else if count_user(s, user) >= max_per_user {
        Err(SpawnError::PerUserCap(max_per_user))
    } else {
        Ok(())
    }
}

proof fn lemma_count_user_bound(s: Seq<SessionEntry>, user: Seq<char>)
    ensures
        count_user(s, user) <= s.len(),
    decreases s.len(),
{
    if s.len() > 0 {
        lemma_count_user_bound(s.drop_last(), user);
    }
}

/// How many of `sessions` belong to `user`.
pub fn count_for_user(sessions: &Vec<SessionEntry>, user: &String) -> (n: usize)
    ensures
        n == count_user(sessions@, user@),
{
    let mut n: usize = 0;
    let mut i: usize = 0;
    while i < sessions.len()
        invariant
            i <= sessions.len(),
            n == count_user(sessions@.take(i as int), user@),
        decreases sessions.len() - i,
    {
        proof {
            let t = sessions@.take(i + 1);
            assert(t.drop_last() =~= sessions@.take(i as int));
            lemma_count_user_bound(sessions@.take(i as int), user@);
        }
        if sessions[i].user_id == *user {
            n = n + 1;
        }
        i = i + 1;
    }
    assert(sessions@.take(sessions.len() as int) =~= sessions@);
    n
}

/// Check the caps: the table as a whole first, then the user's own share.
pub fn reserve(
    sessions: &Vec<SessionEntry>,
    user: &String,
    max_total: usize,
    max_per_user: usize,
) -> (r: Result<(), SpawnError>)
    ensures
        r == reserve_spec(sessions@, user@, max_total, max_per_user),
{
    if sessions.len() >= max_total {
        return Err(SpawnError::TotalCap(max_total));
    }
    let mine = count_for_user(sessions, user);
    if mine >= max_per_user {
        return Err(SpawnError::PerUserCap(max_per_user));
    }
    Ok(())
}

/// One seat of the session table: a conversation, its user, and whether its
/// child is running yet (a seat that is not is the placeholder an admission
/// holds while it starts one).
pub struct Seat {
    pub conversation_id: String,
    pub user_id: String,
    pub live: bool,
}

/// A seat as the contracts see it: conversation, user, live.
pub type SeatV = (Seq<char>, Seq<char>, bool);

pub open spec fn seat_view(s: Seat) -> SeatV {
    (s.conversation_id@, s.user_id@, s.live)
}

/// The live-session table, placeholders included.
pub struct SeatTable {
    seats: Vec<Seat>,
}

impl View for SeatTable {
    type V = Seq<SeatV>;

    closed spec fn view(&self) -> Seq<SeatV> {
        self.seats@.map_values(|s: Seat| seat_view(s))
    }
}

/// How many seats `user` holds, placeholders included.
pub open spec fn count_seats(t: Seq<SeatV>, user: Seq<char>) -> nat
    decreases t.len(),
{
    if t.len() == 0 {
        0
    } else {
        count_seats(t.drop_last(), user) + if t.last().1 == user {
            1nat
        } else {
            0nat
        }
    }
}

/// Admitting `id` for `user`: refused by the table's cap, then by the user's,
/// leaving the table as it was; otherwise a placeholder seat is added, so a
/// second admission checked after it counts it.
pub open spec fn reserve_seat_spec(
    t: Seq<SeatV>,
    id: Seq<char>,
    user: Seq<char>,
    max_total: usize,
    max_per_user: usize,
) -> (Seq<SeatV>, Result<(), SpawnError>) {
    if t.len() >= max_total {
        (t, Err(SpawnError::TotalCap(max_total)))
    } else if count_seats(t, user) >= max_per_user {
        (t, Err(SpawnError::PerUserCap(max_per_user)))
    } else {
        (t.push((id, user, false)), Ok(()))
    }
}

/// The seats other than `id`'s, in order.
pub open spec fn release_spec(t: Seq<SeatV>, id: Seq<char>) -> Seq<SeatV>
    decreases t.len(),
{
    if t.len() == 0 {
        t
    } else {
        let p = release_spec(t.drop_last(), id);
        if t.last().0 == id {
            p
        } else {
            p.push(t.last())
        }
    }
}

/// The table once `id`'s child is running: its seats marked live.
pub open spec fn live_spec(t: Seq<SeatV>, id: Seq<char>) -> Seq<SeatV>
    decreases t.len(),
{
    if t.len() == 0 {
        t
    } else {
        let p = live_spec(t.drop_last(), id);
        if t.last().0 == id {
            p.push((t.last().0, t.last().1, true))
        } else {
            p.push(t.last())
        }
    }
}

/// The table holds no more than `max_total` seats, nor more than
/// `max_per_user` for any one user.
pub open spec fn within_caps(t: Seq<SeatV>, max_total: usize, max_per_user: usize) -> bool {
    &&& t.len() <= max_total
    &&& forall|u: Seq<char>| #[trigger] count_seats(t, u) <= max_per_user
}

proof fn lemma_count_seats_push(t: Seq<SeatV>, x: SeatV, u: Seq<char>)
    ensures
        count_seats(t.push(x), u) == count_seats(t, u) + if x.1 == u {
            1nat
        } else {
            0nat
        },
{
    assert(t.push(x).drop_last() =~= t);
}

fn seats_of(seats: &Vec<Seat>, user: &str) -> (n: usize)
    ensures
        n == count_seats(seats@.map_values(|s: Seat| seat_view(s)), user@),
{
    let ghost v = seats@.map_values(|s: Seat| seat_view(s));
    let wanted = crate::text::chars_of(user);
    let mut n: usize = 0;
    let mut i: usize = 0;
    assert(v.take(0) =~= Seq::<SeatV>::empty());
    while i < seats.len()
        invariant
            i <= seats.len(),
            v == seats@.map_values(|s: Seat| seat_view(s)),
            wanted@ == user@,
            n == count_seats(v.take(i as int), user@),
            n <= i,
        decreases seats.len() - i,
    {
        proof {
            let t = v.take(i + 1);
            assert(t.drop_last() =~= v.take(i as int));
            assert(t.last() == seat_view(seats@[i as int]));
        }
        let u = crate::text::chars_of(seats[i].user_id.as_str());
        if crate::text::chars_eq(&u, &wanted) {
            n = n + 1;
        }
        i = i + 1;
    }
    assert(v.take(seats.len() as int) =~= v);
    n
}

impl SeatTable {
    /// No seats.
    pub fn new() -> (t: SeatTable)
        ensures
            t@ == Seq::<SeatV>::empty(),
    {
        let t = SeatTable { seats: Vec::new() };
        assert(t@ =~= Seq::<SeatV>::empty());
        t
    }

    /// How many seats are taken, placeholders included.
    pub fn len(&self) -> (n: usize)
        ensures
            n == self@.len(),
    {
        self.seats.len()
    }

    /// Checks the caps and, when they allow it, takes a placeholder seat for
    /// `id`, all in one step: the check and the seat it guards cannot be
    /// separated, so two admissions cannot both pass a cap of one. A refusal
    /// leaves the table exactly as it was.
    pub fn reserve(&mut self, id: &str, user: &str, max_total: usize, max_per_user: usize) -> (r: Result<
        (),
        SpawnError,
    >)
        ensures
            (final(self)@, r) == reserve_seat_spec(old(self)@, id@, user@, max_total, max_per_user),
    {
        if self.seats.len() >= max_total {
            return Err(SpawnError::TotalCap(max_total));
        }
        let mine = seats_of(&self.seats, user);
        if mine >= max_per_user {
            return Err(SpawnError::PerUserCap(max_per_user));
        }
        let ghost before = self.seats@;
        self.seats.push(
            Seat { conversation_id: String::from_str(id), user_id: String::from_str(user), live: false },
        );
        assert(self@ =~= before.map_values(|s: Seat| seat_view(s)).push((id@, user@, false)));
        Ok(())
    }

    /// Gives up `id`'s seat, as an admission that failed after reserving must.
    pub fn release(&mut self, id: &str)
        ensures
            final(self)@ == release_spec(old(self)@, id@),
    {
        let ghost all = self@;
        let mut rest: Vec<Seat> = Vec::new();
        std::mem::swap(&mut rest, &mut self.seats);
        let ghost raw = rest@;
        let wanted = crate::text::chars_of(id);
        let n = rest.len();
        let mut kept: Vec<Seat> = Vec::new();
        let mut i: usize = 0;
        assert(rest@ =~= raw.skip(0));
        assert(kept@.map_values(|s: Seat| seat_view(s)) =~= release_spec(all.take(0), id@));
        while i < n
            invariant
                i <= n,
                n == raw.len(),
                rest.len() == n - i,
                rest@ == raw.skip(i as int),
                all == raw.map_values(|s: Seat| seat_view(s)),
                wanted@ == id@,
                kept@.map_values(|s: Seat| seat_view(s)) == release_spec(all.take(i as int), id@),
            decreases n - i,
        {
            let ghost before = rest@;
            let e = rest.remove(0);
            assert(e == raw[i as int]);
            assert(rest@ =~= raw.skip(i + 1));
            proof {
                let t = all.take(i + 1);
                assert(t.drop_last() =~= all.take(i as int));
                assert(t.last() == seat_view(e));
            }
            let key = crate::text::chars_of(e.conversation_id.as_str());
            if !crate::text::chars_eq(&key, &wanted) {
                let ghost kv = kept@;
                kept.push(e);
                assert(kept@.map_values(|s: Seat| seat_view(s)) =~= kv.map_values(|s: Seat| seat_view(s)).push(
                    seat_view(e),
                ));
            }
            i = i + 1;
        }
        assert(all.take(n as int) =~= all);
        self.seats = kept;
    }

    /// Marks `id`'s seat live once its child is running.
    pub fn go_live(&mut self, id: &str)
        ensures
            final(self)@ == live_spec(old(self)@, id@),
    {
        let ghost all = self@;
        let wanted = crate::text::chars_of(id);
        let mut i: usize = 0;
        assert(all.take(0) =~= Seq::<SeatV>::empty());
        while i < self.seats.len()
            invariant
                i <= self.seats.len(),
                self.seats.len() == all.len(),
                wanted@ == id@,
                forall|k: int| i <= k < all.len() ==> seat_view(#[trigger] self.seats@[k]) == all[k],
                self@.take(i as int) == live_spec(all.take(i as int), id@),
            decreases self.seats.len() - i,
        {
            proof {
                let t = all.take(i + 1);
                assert(t.drop_last() =~= all.take(i as int));
                assert(t.last() == all[i as int]);
            }
            let key = crate::text::chars_of(self.seats[i].conversation_id.as_str());
            let ghost before = self@;
            if crate::text::chars_eq(&key, &wanted) {
                let s = Seat {
                    conversation_id: self.seats[i].conversation_id.clone(),
                    user_id: self.seats[i].user_id.clone(),
                    live: true,
                };
                self.seats.set(i, s);
                assert(self@ =~= before.update(i as int, (all[i as int].0, all[i as int].1, true)));
            }
            assert(self@.take(i + 1) =~= live_spec(all.take(i + 1), id@));
            i = i + 1;
        }
        assert(all.take(all.len() as int) =~= all);
        assert(self@.take(all.len() as int) =~= self@);
    }
}

/// Every admission goes through the cap check and its seat together, so a
/// table that respects the caps still does after any reservation.
pub proof fn law_reservations_keep_the_caps(
    t: Seq<SeatV>,
    id: Seq<char>,
    user: Seq<char>,
    max_total: usize,
    max_per_user: usize,
)
    requires
        within_caps(t, max_total, max_per_user),
    ensures
        within_caps(reserve_seat_spec(t, id, user, max_total, max_per_user).0, max_total, max_per_user),
{
    let r = reserve_seat_spec(t, id, user, max_total, max_per_user);
    if r.1 is Ok {
        assert forall|u: Seq<char>| #[trigger] count_seats(r.0, u) <= max_per_user by {
            lemma_count_seats_push(t, (id, user, false), u);
            assert(count_seats(t, u) <= max_per_user);
        }
    }
}

/// Two admissions for one user against a cap of one, checked one after the
/// other against the same table, cannot both pass.
pub proof fn law_two_admissions_cannot_share_a_cap_of_one(
    t: Seq<SeatV>,
    first: Seq<char>,
    second: Seq<char>,
    user: Seq<char>,
    max_total: usize,
)
    ensures
        ({
            let (t1, r1) = reserve_seat_spec(t, first, user, max_total, 1);
            let (t2, r2) = reserve_seat_spec(t1, second, user, max_total, 1);
            !(r1 is Ok && r2 is Ok)
        }),
{
    let (t1, r1) = reserve_seat_spec(t, first, user, max_total, 1);
    if r1 is Ok {
        lemma_count_seats_push(t, (first, user, false), user);
    }
}

proof fn lemma_release_absent(t: Seq<SeatV>, id: Seq<char>)
    requires
        forall|k: int| 0 <= k < t.len() ==> (#[trigger] t[k]).0 != id,
    ensures
        release_spec(t, id) == t,
    decreases t.len(),
{
    if t.len() > 0 {
        let p = t.drop_last();
        assert forall|k: int| 0 <= k < p.len() implies (#[trigger] p[k]).0 != id by {
            assert(p[k] == t[k]);
        }
        lemma_release_absent(p, id);
        assert(t[t.len() - 1].0 != id);
        assert(p.push(t.last()) =~= t);
    }
}

/// A refused admission leaves the table as it found it, and one that
/// reserved and then failed leaves it so once it releases its seat.
pub proof fn law_a_failed_admission_leaves_the_table_as_it_was(
    t: Seq<SeatV>,
    id: Seq<char>,
    user: Seq<char>,
    max_total: usize,
    max_per_user: usize,
)
    requires
        forall|k: int| 0 <= k < t.len() ==> (#[trigger] t[k]).0 != id,
    ensures
        ({
            let (t1, r) = reserve_seat_spec(t, id, user, max_total, max_per_user);
            &&& r is Err ==> t1 == t
            &&& r is Ok ==> release_spec(t1, id) == t
        }),
{
    let (t1, r) = reserve_seat_spec(t, id, user, max_total, max_per_user);
    lemma_release_absent(t, id);
    if r is Ok {
        assert(t1.drop_last() =~= t);
    }
}

/// Where an admission stands between its awaits. A seat is held from
/// `Credential` on, and a gateway credential from `Spawn` on: every failure
/// after that gives back whatever is held.
pub enum AdmitPhase {
    /// The caps are being checked and a placeholder seat taken.
    Reserve,
    /// The seat is held; a gateway credential is being issued.
    Credential,
    /// The seat and the credential `key_id` are held; the child is starting.
    Spawn { key_id: String },
}

/// What the work of a phase came back with.
pub enum AdmitEvent {
    /// The seat reservation, or the cap that refused it.
    Reserved(Result<(), SpawnError>),
    /// The id of the issued credential, or why none could be issued.
    Issued(Result<String, String>),
    /// Whether the started child has a stdin, or why it could not start.
    Started(Result<bool, String>),
}

/// What the caller does after a step, in this order: give up the seat,
/// revoke the credential, kill the child, mark the seat live, and finish
/// with the outcome once there is one.
pub struct AdmitAction {
    pub release_seat: bool,
    pub revoke_key: Option<String>,
    pub kill_child: bool,
    pub go_live: bool,
    pub outcome: Option<Result<(), SpawnError>>,
}

/// The event is the answer to the work its phase asked for.
pub open spec fn admit_event_fits(phase: AdmitPhase, event: AdmitEvent) -> bool {
    match phase {
        AdmitPhase::Reserve => event is Reserved,
        AdmitPhase::Credential => event is Issued,
        AdmitPhase::Spawn { .. } => event is Started,
    }
}

/// A step that only moves on.
pub open spec fn quiet(a: AdmitAction) -> bool {
    !a.release_seat && a.revoke_key is None && !a.kill_child && !a.go_live && a.outcome is None
}

/// A step that ends the admission with `e` after giving back the seat (when
/// `release`) and the credential `key`, killing the child when `kill`.
pub open spec fn refused_with(a: AdmitAction, release: bool, key: Option<String>, kill: bool) -> bool {
    a.release_seat == release && a.revoke_key == key && a.kill_child == kill && !a.go_live
        && failed(a)
}

/// The step ended the admission with a refusal.
pub open spec fn failed(a: AdmitAction) -> bool {
    a.outcome matches Some(Err(_))
}

/// One step of an admission.
pub open spec fn admit_step_matches(phase: AdmitPhase, event: AdmitEvent, r: (Option<AdmitPhase>, AdmitAction)) -> bool {
    match (phase, event) {
        (AdmitPhase::Reserve, AdmitEvent::Reserved(Err(e))) => r.0 is None && refused_with(
            r.1,
            false,
            None,
            false,
        ) && r.1.outcome == Some(Err::<(), SpawnError>(e)),
        (AdmitPhase::Reserve, AdmitEvent::Reserved(Ok(()))) => r.0 == Some(AdmitPhase::Credential)
            && quiet(r.1),
        (AdmitPhase::Credential, AdmitEvent::Issued(Err(m))) => r.0 is None && refused_with(
            r.1,
            true,
            None,
            false,
        ) && r.1.outcome == Some(Err::<(), SpawnError>(SpawnError::Credential(m))),
        (AdmitPhase::Credential, AdmitEvent::Issued(Ok(k))) => r.0 == Some(
            AdmitPhase::Spawn { key_id: k },
        ) && quiet(r.1),
        (AdmitPhase::Spawn { key_id }, AdmitEvent::Started(Err(m))) => r.0 is None && refused_with(
            r.1,
            true,
            Some(key_id),
            false,
        ) && r.1.outcome == Some(Err::<(), SpawnError>(SpawnError::Io(m))),
        (AdmitPhase::Spawn { key_id }, AdmitEvent::Started(Ok(false))) => r.0 is None
            && refused_with(r.1, true, Some(key_id), true) && (r.1.outcome matches Some(
            Err(SpawnError::Io(m)),
        ) && m@ == "pi child has no stdin"@),
        (AdmitPhase::Spawn { .. }, AdmitEvent::Started(Ok(true))) => r.0 is None && !r.1.release_seat
            && r.1.revoke_key is None && !r.1.kill_child && r.1.go_live && r.1.outcome == Some(
            Ok::<(), SpawnError>(()),
        ),
        _ => false,
    }
}

fn moving_on() -> (a: AdmitAction)
    ensures
        quiet(a),
{
    AdmitAction { release_seat: false, revoke_key: None, kill_child: false, go_live: false, outcome: None }
}

/// The next step of an admission: what to do with what the last await
/// returned. A cap refuses before anything is held; a credential that
/// cannot be issued gives back the seat; a child that cannot start, or
/// starts without a stdin, gives back the seat and revokes the credential
/// (and a child without a stdin is killed).
pub fn admit_step(phase: AdmitPhase, event: AdmitEvent) -> (r: (Option<AdmitPhase>, AdmitAction))
    requires
        admit_event_fits(phase, event),
    ensures
        admit_step_matches(phase, event, r),
{
    match phase {
        AdmitPhase::Reserve => match event {
            AdmitEvent::Reserved(Err(e)) => (
                None,
                AdmitAction {
                    release_seat: false,
                    revoke_key: None,
                    kill_child: false,
                    go_live: false,
                    outcome: Some(Err(e)),
                },
            ),
            AdmitEvent::Reserved(Ok(())) => (Some(AdmitPhase::Credential), moving_on()),
            _ => (None, moving_on()),
        },
        AdmitPhase::Credential => match event {
            AdmitEvent::Issued(Err(m)) => (
                None,
                AdmitAction {
                    release_seat: true,
                    revoke_key: None,
                    kill_child: false,
                    go_live: false,
                    outcome: Some(Err(SpawnError::Credential(m))),
                },
            ),
            AdmitEvent::Issued(Ok(k)) => (Some(AdmitPhase::Spawn { key_id: k }), moving_on()),
            _ => (None, moving_on()),
        },
        AdmitPhase::Spawn { key_id } => match event {
            AdmitEvent::Started(Err(m)) => (
                None,
                AdmitAction {
                    release_seat: true,
                    revoke_key: Some(key_id),
                    kill_child: false,
                    go_live: false,
                    outcome: Some(Err(SpawnError::Io(m))),
                },
            ),
            AdmitEvent::Started(Ok(has_stdin)) => {
                if has_stdin {
                    (
                        None,
                        AdmitAction {
                            release_seat: false,
                            revoke_key: None,
                            kill_child: false,
                            go_live: true,
                            outcome: Some(Ok(())),
                        },
                    )
                } else {
                    (
                        None,
                        AdmitAction {
                            release_seat: true,
                            revoke_key: Some(key_id),
                            kill_child: true,
                            go_live: false,
                            outcome: Some(Err(SpawnError::Io(String::from_str("pi child has no stdin")))),
                        },
                    )
                }
            },
            _ => (None, moving_on()),
        },
    }
}

/// The table after a step's action: without the seat of `id` when the
/// action gives it back.
pub open spec fn table_after(t: Seq<SeatV>, id: Seq<char>, a: AdmitAction) -> Seq<SeatV> {
    if a.release_seat {
        release_spec(t, id)
    } else {
        t
    }
}

/// An admission that fails, at whichever step, leaves the session table as
/// it found it and revokes every gateway credential it issued; one that
/// succeeds keeps its seat, marks it live and revokes nothing. The run is
/// the reservation against `t`, then (while it goes on) the credential
/// issue `e2`, then the start of the child `e3`.
pub proof fn law_a_failed_admission_gives_back_what_it_took(
    t: Seq<SeatV>,
    id: Seq<char>,
    user: Seq<char>,
    max_total: usize,
    max_per_user: usize,
    r1: (Option<AdmitPhase>, AdmitAction),
    e2: AdmitEvent,
    r2: (Option<AdmitPhase>, AdmitAction),
    e3: AdmitEvent,
    r3: (Option<AdmitPhase>, AdmitAction),
)
    requires
        forall|k: int| 0 <= k < t.len() ==> (#[trigger] t[k]).0 != id,
        admit_step_matches(
            AdmitPhase::Reserve,
            AdmitEvent::Reserved(reserve_seat_spec(t, id, user, max_total, max_per_user).1),
            r1,
        ),
        r1.0 matches Some(p) ==> admit_event_fits(p, e2) && admit_step_matches(p, e2, r2),
        r1.0 is Some ==> (r2.0 matches Some(p) ==> admit_event_fits(p, e3) && admit_step_matches(
            p,
            e3,
            r3,
        )),
    ensures
        ({
            let t1 = reserve_seat_spec(t, id, user, max_total, max_per_user).0;
            &&& r1.0 is None ==> failed(r1.1) && table_after(t1, id, r1.1) == t
                && r1.1.revoke_key is None
            &&& r1.0 is Some && r2.0 is None ==> failed(r2.1) && table_after(
                t1,
                id,
                r2.1,
            ) == t && r2.1.revoke_key is None
            &&& r1.0 is Some && r2.0 is Some ==> {
                &&& r3.0 is None
                &&& e2 matches AdmitEvent::Issued(Ok(k))
                &&& failed(r3.1) ==> table_after(t1, id, r3.1) == t
                    && r3.1.revoke_key == Some(k)
                &&& r3.1.outcome == Some(Ok::<(), SpawnError>(())) ==> table_after(t1, id, r3.1)
                    == t1 && r3.1.go_live && r3.1.revoke_key is None
            }
        }),
{
    law_a_failed_admission_leaves_the_table_as_it_was(t, id, user, max_total, max_per_user);
}

/// The status and opaque message a refused admission is answered with: a cap
/// is a 429, anything else a 500 that says nothing about why.
pub open spec fn refusal_of(e: SpawnError) -> (u16, Seq<char>) {
    match e {
        SpawnError::PerUserCap(_) | SpawnError::TotalCap(_) => (429, "session limit reached"@),
        _ => (500, "could not start pi"@),
    }
}

/// The sentence a refusal carries.
pub open spec fn spawn_error_message(e: SpawnError) -> Seq<char> {
    match e {
        SpawnError::PerUserCap(n) => "you already have "@ + decimal(n as int)
            + " pi session(s) running"@,
        SpawnError::TotalCap(n) => "the server is at its limit of "@ + decimal(n as int)
            + " pi sessions"@,
        SpawnError::Credential(m) => "could not mint a gateway credential: "@ + m@,
        SpawnError::Io(m) => "could not start pi: "@ + m@,
    }
}

impl SpawnError {
    /// What the error says about itself.
    pub fn message(&self) -> (out: String)
        ensures
            out@ == spawn_error_message(*self),
    {
        match self {
            SpawnError::PerUserCap(n) => {
                let mut out = String::from_str("you already have ");
                let d = u64_to_string(*n as u64);
                out.append(d.as_str());
                out.append(" pi session(s) running");
                out
            },
            SpawnError::TotalCap(n) => {
                let mut out = String::from_str("the server is at its limit of ");
                let d = u64_to_string(*n as u64);
                out.append(d.as_str());
                out.append(" pi sessions");
                out
            },
            SpawnError::Credential(m) => {
                let mut out = String::from_str("could not mint a gateway credential: ");
                out.append(m.as_str());
                out
            },
            SpawnError::Io(m) => {
                let mut out = String::from_str("could not start pi: ");
                out.append(m.as_str());
                out
            },
        }
    }

    /// The HTTP status and the opaque message the widget is shown: a cap is
    /// a 429, anything else a 500 that says nothing about why.
    pub fn response(&self) -> (r: (u16, &'static str))
        ensures
            (r.0, r.1@) == refusal_of(*self),
    {
        match self {
            SpawnError::PerUserCap(_) | SpawnError::TotalCap(_) => (429, "session limit reached"),
            _ => (500, "could not start pi"),
        }
    }
}

/// How many of a user's sessions must go before a new one fits: all but
/// `max_per_user - 1` of them.
pub open spec fn surplus_count(mine: nat, max_per_user: usize) -> nat {
    let keep: nat = if max_per_user >= 1 {
        (max_per_user - 1) as nat
    } else {
        0
    };
    if mine > keep {
        (mine - keep) as nat
    } else {
        0
    }
}

/// The indices of the user's sessions in `s`.
pub open spec fn is_user_index(s: Seq<SessionEntry>, user: Seq<char>, i: int) -> bool {
    0 <= i < s.len() && s[i].user_id@ == user
}

/// What `surplus_for` picks: distinct indices of the user's own sessions,
/// `surplus_count` of them, oldest first, none younger than any session of
/// the user's left behind.
pub open spec fn is_surplus_choice(
    s: Seq<SessionEntry>,
    user: Seq<char>,
    max_per_user: usize,
    picked: Seq<usize>,
) -> bool {
    &&& picked.len() == surplus_count(count_user(s, user), max_per_user)
    &&& forall|k: int| 0 <= k < picked.len() ==> is_user_index(s, user, #[trigger] picked[k] as int)
    &&& forall|a: int, b: int| 0 <= a < b < picked.len() ==> picked[a] != picked[b]
    &&& forall|a: int, b: int|
        0 <= a < b < picked.len() ==> s[picked[a] as int].age_ms >= s[picked[b] as int].age_ms
    &&& forall|k: int, j: int|
        #![trigger picked[k], s[j]]
        0 <= k < picked.len() && is_user_index(s, user, j) && !picked.contains(j as usize)
            ==> s[picked[k] as int].age_ms >= s[j].age_ms
}

/// How many of `p` lie below `n`.
pub open spec fn count_below(p: Seq<usize>, n: int) -> nat
    decreases p.len(),
{
    if p.len() == 0 {
        0
    } else {
        count_below(p.drop_last(), n) + if (p.last() as int) < n {
            1nat
        } else {
            0nat
        }
    }
}

proof fn lemma_count_below_len(p: Seq<usize>, n: int)
    ensures
        count_below(p, n) <= p.len(),
    decreases p.len(),
{
    if p.len() > 0 {
        lemma_count_below_len(p.drop_last(), n);
    }
}

proof fn lemma_count_user_indices(s: Seq<SessionEntry>, user: Seq<char>, picked: Seq<usize>)
    requires
        forall|k: int| 0 <= k < picked.len() ==> is_user_index(s, user, #[trigger] picked[k] as int),
        forall|a: int, b: int| 0 <= a < b < picked.len() ==> picked[a] != picked[b],
        picked.len() < count_user(s, user),
        s.len() <= usize::MAX,
    ensures
        exists|j: int| is_user_index(s, user, j) && !picked.contains(j as usize),
{
    if forall|j: int| is_user_index(s, user, j) ==> picked.contains(j as usize) {
        lemma_count_covered(s, user, picked, s.len() as int);
        assert(s.take(s.len() as int) =~= s);
        lemma_count_below_len(picked, s.len() as int);
        assert(false);
    }
}

/// A set of distinct picks that covers every index of the user's sessions
/// below `n` has at least as many members below `n` as there are such
/// sessions.
proof fn lemma_count_covered(s: Seq<SessionEntry>, user: Seq<char>, picked: Seq<usize>, n: int)
    requires
        0 <= n <= s.len(),
        s.len() <= usize::MAX,
        forall|k: int| 0 <= k < picked.len() ==> is_user_index(s, user, #[trigger] picked[k] as int),
        forall|a: int, b: int| 0 <= a < b < picked.len() ==> picked[a] != picked[b],
        forall|j: int| 0 <= j < n && is_user_index(s, user, j) ==> picked.contains(j as usize),
    ensures
        count_user(s.take(n), user) <= count_below(picked, n),
    decreases n,
{
    if n == 0 {
        assert(s.take(0) =~= Seq::<SessionEntry>::empty());
    } else {
        lemma_count_covered(s, user, picked, n - 1);
        assert(s.take(n).drop_last() =~= s.take(n - 1));
        assert(s.take(n).last() == s[n - 1]);
        lemma_below_split(picked, n);
        if s[n - 1].user_id@ == user {
            assert(is_user_index(s, user, n - 1));
            assert(picked.contains((n - 1) as usize));
        }
    }
}

/// Splitting the picks below `n` into those below `n - 1` and `n - 1` itself.
proof fn lemma_below_split(picked: Seq<usize>, n: int)
    requires
        1 <= n <= usize::MAX,
        forall|a: int, b: int| 0 <= a < b < picked.len() ==> picked[a] != picked[b],
    ensures
        count_below(picked, n) == count_below(picked, n - 1) + if picked.contains(
            (n - 1) as usize,
        ) {
            1int
        } else {
            0int
        },
    decreases picked.len(),
{
    if picked.len() == 0 {
    } else {
        let p = picked.drop_last();
        assert forall|a: int, b: int| 0 <= a < b < p.len() implies p[a] != p[b] by {
            assert(p[a] == picked[a] && p[b] == picked[b]);
        }
        lemma_below_split(p, n);
        if picked.last() as int == n - 1 {
            if p.contains((n - 1) as usize) {
                let k = choose|k: int| 0 <= k < p.len() && p[k] == (n - 1) as usize;
                assert(picked[k] == picked[picked.len() - 1]);
            }
            assert(picked[picked.len() - 1] == (n - 1) as usize);
        } else {
            if picked.contains((n - 1) as usize) {
                let k = choose|k: int| 0 <= k < picked.len() && picked[k] == (n - 1) as usize;
                assert(picked.last() == picked[picked.len() - 1]);
                assert(k < p.len());
                assert(p[k] == (n - 1) as usize);
            }
            if p.contains((n - 1) as usize) {
                let k = choose|k: int| 0 <= k < p.len() && p[k] == (n - 1) as usize;
                assert(picked[k] == (n - 1) as usize);
            }
        }
    }
}

fn contains_index(picked: &Vec<usize>, j: usize) -> (r: bool)
    ensures
        r == picked@.contains(j),
{
    let mut i: usize = 0;
    while i < picked.len()
        invariant
            i <= picked.len(),
            forall|k: int| 0 <= k < i ==> picked@[k] != j,
        decreases picked.len() - i,
    {
        if picked[i] == j {
            return true;
        }
        i = i + 1;
    }
    false
}

/// The user's sessions that must be displaced for a new one to fit, oldest
/// first, by their position in `sessions`.
pub fn surplus_for(sessions: &Vec<SessionEntry>, user: &String, max_per_user: usize) -> (picked:
    Vec<usize>)
    ensures
        is_surplus_choice(sessions@, user@, max_per_user, picked@),
{
    let mine = count_for_user(sessions, user);
    let keep = if max_per_user >= 1 {
        max_per_user - 1
    } else {
        0
    };
    let want = if mine > keep {
        mine - keep
    } else {
        0
    };
    let mut picked: Vec<usize> = Vec::new();
    let ghost s = sessions@;
    let ghost u = user@;
    while picked.len() < want
        invariant
            want == surplus_count(count_user(s, u), max_per_user),
            want <= count_user(s, u),
            s == sessions@,
            u == user@,
            picked.len() <= want,
            forall|k: int| 0 <= k < picked.len() ==> is_user_index(s, u, #[trigger] picked@[k] as int),
            forall|a: int, b: int| 0 <= a < b < picked.len() ==> picked@[a] != picked@[b],
            forall|a: int, b: int|
                0 <= a < b < picked.len() ==> s[picked@[a] as int].age_ms >= s[picked@[b] as int].age_ms,
            forall|k: int, j: int|
                #![trigger picked@[k], s[j]]
                0 <= k < picked.len() && is_user_index(s, u, j) && !picked@.contains(j as usize)
                    ==> s[picked@[k] as int].age_ms >= s[j].age_ms,
        decreases want - picked.len(),
    {
        proof {
            assert(s.len() == sessions.len());
            lemma_count_user_bound(s, u);
            lemma_count_user_indices(s, u, picked@);
        }
        let mut best: usize = sessions.len();
        let mut j: usize = 0;
        while j < sessions.len()
            invariant
                s == sessions@,
                u == user@,
                j <= sessions.len(),
                best == sessions.len() || (best < j && is_user_index(s, u, best as int)
                    && !picked@.contains(best)),
                best < sessions.len() ==> forall|x: int|
                    0 <= x < j && is_user_index(s, u, x) && !picked@.contains(x as usize)
                        ==> s[best as int].age_ms >= #[trigger] s[x].age_ms,
                best == sessions.len() ==> forall|x: int|
                    0 <= x < j ==> !(is_user_index(s, u, x) && !picked@.contains(x as usize)),
            decreases sessions.len() - j,
        {
            if sessions[j].user_id == *user && !contains_index(&picked, j) {
                if best == sessions.len() || sessions[j].age_ms > sessions[best].age_ms {
                    best = j;
                }
            }
            j = j + 1;
        }
        assert(best < sessions.len()) by {
            if best == sessions.len() {
                let w = choose|w: int| is_user_index(s, u, w) && !picked@.contains(w as usize);
                assert(!(is_user_index(s, u, w) && !picked@.contains(w as usize)));
            }
        }
        let ghost old_picked = picked@;
        picked.push(best);
        proof {
            assert forall|k: int, x: int|
                #![trigger picked@[k], s[x]]
                0 <= k < picked.len() && is_user_index(s, u, x) && !picked@.contains(x as usize)
                    implies s[picked@[k] as int].age_ms >= s[x].age_ms by {
                assert(!old_picked.contains(x as usize)) by {
                    if old_picked.contains(x as usize) {
                        let q = choose|q: int| 0 <= q < old_picked.len() && old_picked[q] == x as usize;
                        assert(picked@[q] == x as usize);
                    }
                }
                if k < old_picked.len() {
                    assert(picked@[k] == old_picked[k]);
                }
            }
            assert forall|a: int, b: int| 0 <= a < b < picked.len() implies picked@[a]
                != picked@[b] by {
                if b == picked.len() - 1 {
                    assert(picked@[a] == old_picked[a]);
                    if picked@[a] == best {
                        assert(old_picked.contains(best));
                    }
                }
            }
            assert forall|a: int, b: int| 0 <= a < b < picked.len() implies s[picked@[a] as int].age_ms
                >= s[picked@[b] as int].age_ms by {
                if b == picked.len() - 1 {
                    assert(picked@[a] == old_picked[a]);
                    assert(!old_picked.contains(best));
                }
            }
        }
    }
    picked
}

/// The first `n` entries of `s`, without those at the `picked` positions.
pub open spec fn kept_upto(s: Seq<SessionEntry>, picked: Seq<usize>, n: int) -> Seq<SessionEntry>
    decreases n,
{
    if n <= 0 {
        seq![]
    } else if picked.contains((n - 1) as usize) {
        kept_upto(s, picked, n - 1)
    } else {
        kept_upto(s, picked, n - 1).push(s[n - 1])
    }
}

/// The table once the `picked` sessions are displaced.
pub open spec fn kept(s: Seq<SessionEntry>, picked: Seq<usize>) -> Seq<SessionEntry> {
    kept_upto(s, picked, s.len() as int)
}

proof fn lemma_kept_counts(s: Seq<SessionEntry>, user: Seq<char>, picked: Seq<usize>, other: Seq<char>, n: int)
    requires
        0 <= n <= s.len(),
        s.len() <= usize::MAX,
        forall|k: int| 0 <= k < picked.len() ==> is_user_index(s, user, #[trigger] picked[k] as int),
        forall|a: int, b: int| 0 <= a < b < picked.len() ==> picked[a] != picked[b],
    ensures
        count_user(kept_upto(s, picked, n), user) + count_below(picked, n) == count_user(s.take(n), user),
        other != user ==> count_user(kept_upto(s, picked, n), other) == count_user(s.take(n), other),
    decreases n,
{
    if n == 0 {
        assert(s.take(0) =~= Seq::<SessionEntry>::empty());
        lemma_count_below_zero(picked);
    } else {
        lemma_kept_counts(s, user, picked, other, n - 1);
        assert(s.take(n).drop_last() =~= s.take(n - 1));
        assert(s.take(n).last() == s[n - 1]);
        lemma_below_split(picked, n);
        if picked.contains((n - 1) as usize) {
            let k = choose|k: int| 0 <= k < picked.len() && picked[k] == (n - 1) as usize;
            assert(is_user_index(s, user, picked[k] as int));
        } else {
            let t = kept_upto(s, picked, n);
            assert(t.drop_last() =~= kept_upto(s, picked, n - 1));
        }
    }
}

proof fn lemma_count_below_zero(p: Seq<usize>)
    ensures
        count_below(p, 0) == 0,
    decreases p.len(),
{
    if p.len() > 0 {
        lemma_count_below_zero(p.drop_last());
    }
}

proof fn lemma_count_below_all(p: Seq<usize>, n: int)
    requires
        forall|k: int| 0 <= k < p.len() ==> (#[trigger] p[k] as int) < n,
    ensures
        count_below(p, n) == p.len(),
    decreases p.len(),
{
    if p.len() > 0 {
        let q = p.drop_last();
        assert forall|k: int| 0 <= k < q.len() implies (#[trigger] q[k] as int) < n by {
            assert(q[k] == p[k]);
        }
        lemma_count_below_all(q, n);
        assert(p.last() == p[p.len() - 1]);
    }
}

/// Displacing what `surplus_for` picks leaves the user with at most
/// `max_per_user - 1` sessions, so the new one then clears the per-user cap,
/// and it touches no one else's sessions.
pub proof fn law_making_room_leaves_room(
    s: Seq<SessionEntry>,
    user: Seq<char>,
    max_per_user: usize,
    max_total: usize,
    picked: Seq<usize>,
    other: Seq<char>,
)
    requires
        is_surplus_choice(s, user, max_per_user, picked),
        s.len() <= usize::MAX,
    ensures
        count_user(kept(s, picked), user) == count_user(s, user) - surplus_count(count_user(s, user), max_per_user),
        other != user ==> count_user(kept(s, picked), other) == count_user(s, other),
        max_per_user >= 1 ==> !(reserve_spec(kept(s, picked), user, max_total, max_per_user) matches Err(
            SpawnError::PerUserCap(_),
        )),
{
    lemma_kept_counts(s, user, picked, other, s.len() as int);
    assert(s.take(s.len() as int) =~= s);
    assert forall|k: int| 0 <= k < picked.len() implies (#[trigger] picked[k] as int) < s.len() by {
        assert(is_user_index(s, user, picked[k] as int));
    }
    lemma_count_below_all(picked, s.len() as int);
}

/// Why the reaper retires a session.
#[derive(PartialEq, Eq, Structural, Clone, Copy, Debug)]
pub enum ReapReason {
    StaleReservation,
    ChildExited,
    MaxLifetime,
    Idle,
}

impl ReapReason {
    /// The reason as it is logged.
    pub fn label(&self) -> (s: &'static str)
        ensures
            s@ == reap_label(*self),
    {
        match self {
            ReapReason::StaleReservation => "stale reservation",
            ReapReason::ChildExited => "child exited",
            ReapReason::MaxLifetime => "max lifetime",
            ReapReason::Idle => "idle",
        }
    }
}

pub open spec fn reap_label(r: ReapReason) -> Seq<char> {
    match r {
        ReapReason::StaleReservation => "stale reservation"@,
        ReapReason::ChildExited => "child exited"@,
        ReapReason::MaxLifetime => "max lifetime"@,
        ReapReason::Idle => "idle"@,
    }
}

/// One slot of the table: a reservation made before the child started, or a
/// live session.
pub enum Slot {
    Reserving { conversation_id: String, held_ms: u64 },
    Live(SessionEntry),
}

/// The time limits the reaper enforces, in milliseconds.
#[derive(Clone, Copy)]
pub struct ReapLimits {
    pub stale_reservation_ms: u64,
    pub max_lifetime_ms: u64,
    pub idle_timeout_ms: u64,
}

/// Whether, and why, one slot is retired. A child that has exited goes first;
/// then age past the lifetime ceiling; then idleness.
pub open spec fn reap_reason(slot: Slot, limits: ReapLimits) -> Option<ReapReason> {
    match slot {
        Slot::Reserving { held_ms, .. } => if held_ms > limits.stale_reservation_ms {
            Some(ReapReason::StaleReservation)
        } else {
            None
        },
        Slot::Live(s) => if s.closed {
            Some(ReapReason::ChildExited)
        } else if s.age_ms > limits.max_lifetime_ms {
            Some(ReapReason::MaxLifetime)
        } else if s.idle_ms > limits.idle_timeout_ms {
            Some(ReapReason::Idle)
        } else {
            None
        },
    }
}

pub open spec fn slot_id(slot: Slot) -> Seq<char> {
    match slot {
        Slot::Reserving { conversation_id, .. } => conversation_id@,
        Slot::Live(s) => s.conversation_id@,
    }
}

/// The slots the reaper retires, in table order, each with its reason.
pub open spec fn expired_spec(slots: Seq<Slot>, limits: ReapLimits) -> Seq<(Seq<char>, ReapReason)>
    decreases slots.len(),
{
    if slots.len() == 0 {
        seq![]
    } else {
        let p = expired_spec(slots.drop_last(), limits);
        match reap_reason(slots.last(), limits) {
            Some(r) => p.push((slot_id(slots.last()), r)),
            None => p,
        }
    }
}

/// Decide which slots to retire.
pub fn reap_decision(slot: &Slot, limits: ReapLimits) -> (r: Option<ReapReason>)
    ensures
        r == reap_reason(*slot, limits),
{
    match slot {
        Slot::Reserving { held_ms, .. } => {
            if *held_ms > limits.stale_reservation_ms {
                Some(ReapReason::StaleReservation)
            } else {
                None
            }
        },
        Slot::Live(s) => {
            if s.closed {
                Some(ReapReason::ChildExited)
            } else if s.age_ms > limits.max_lifetime_ms {
                Some(ReapReason::MaxLifetime)
            } else if s.idle_ms > limits.idle_timeout_ms {
                Some(ReapReason::Idle)
            } else {
                None
            }
        },
    }
}

/// The conversations the reaper retires this tick, with the reason for each.
pub fn expired(slots: &Vec<Slot>, limits: ReapLimits) -> (out: Vec<(String, ReapReason)>)
    ensures
        out.len() == expired_spec(slots@, limits).len(),
        forall|i: int|
            0 <= i < out.len() ==> (#[trigger] out[i]).0@ == expired_spec(slots@, limits)[i].0
                && out[i].1 == expired_spec(slots@, limits)[i].1,
{
    let mut out: Vec<(String, ReapReason)> = Vec::new();
    let mut i: usize = 0;
    while i < slots.len()
        invariant
            i <= slots.len(),
            out.len() == expired_spec(slots@.take(i as int), limits).len(),
            forall|k: int|
                0 <= k < out.len() ==> (#[trigger] out[k]).0@ == expired_spec(
                    slots@.take(i as int),
                    limits,
                )[k].0 && out[k].1 == expired_spec(slots@.take(i as int), limits)[k].1,
        decreases slots.len() - i,
    {
        proof {
            let t = slots@.take(i + 1);
            assert(t.drop_last() =~= slots@.take(i as int));
            assert(t.last() == slots@[i as int]);
        }
        match reap_decision(&slots[i], limits) {
            Some(r) => {
                let id = match &slots[i] {
                    Slot::Reserving { conversation_id, .. } => conversation_id.clone(),
                    Slot::Live(s) => s.conversation_id.clone(),
                };
                out.push((id, r));
            },
            None => {},
        }
        i = i + 1;
    }
    assert(slots@.take(slots.len() as int) =~= slots@);
    out
}

/// How long a workspace directory with no session behind it is left alone,
/// so a sweep does not race a spawn that has written its files but not yet
/// registered.
pub const WORKSPACE_GRACE_MS: u64 = 600_000;

/// A directory under the workspace root: its name, and how long ago it was
/// last modified when the filesystem could say.
pub struct WorkspaceDir {
    pub name: String,
    pub age_ms: Option<u64>,
}

/// Whether a sweep removes the directory `name`: no live conversation owns it
/// and it is known to be older than the grace period. A directory whose age
/// cannot be read is kept.
pub open spec fn is_orphan(name: Seq<char>, age_ms: Option<u64>, live: Seq<Seq<char>>) -> bool {
    &&& !live.contains(name)
    &&& match age_ms {
        Some(a) => a >= WORKSPACE_GRACE_MS,
        None => false,
    }
}

/// The directories a sweep removes, in the order they were listed.
pub open spec fn orphans_spec(dirs: Seq<WorkspaceDir>, live: Seq<Seq<char>>) -> Seq<Seq<char>>
    decreases dirs.len(),
{
    if dirs.len() == 0 {
        seq![]
    } else {
        let p = orphans_spec(dirs.drop_last(), live);
        if is_orphan(dirs.last().name@, dirs.last().age_ms, live) {
            p.push(dirs.last().name@)
        } else {
            p
        }
    }
}

pub open spec fn names_view(v: Seq<String>) -> Seq<Seq<char>> {
    v.map_values(|s: String| s@)
}

fn is_live(live: &Vec<String>, name: &String) -> (b: bool)
    ensures
        b == names_view(live@).contains(name@),
{
    let ghost lv = names_view(live@);
    let n = crate::text::chars_of(name.as_str());
    let mut i: usize = 0;
    while i < live.len()
        invariant
            i <= live.len(),
            lv == names_view(live@),
            lv.len() == live.len(),
            n@ == name@,
            forall|k: int| 0 <= k < i ==> #[trigger] lv[k] != name@,
        decreases live.len() - i,
    {
        let c = crate::text::chars_of(live[i].as_str());
        if crate::text::chars_eq(&c, &n) {
            assert(lv[i as int] == name@);
            return true;
        }
        i = i + 1;
    }
    assert forall|k: int| 0 <= k < lv.len() implies #[trigger] lv[k] != name@ by {}
    false
}

/// The workspace directories a sweep removes: what a crash or a kill left
/// behind, past the grace period.
pub fn orphaned_workspaces(dirs: &Vec<WorkspaceDir>, live: &Vec<String>) -> (out: Vec<String>)
    ensures
        names_view(out@) == orphans_spec(dirs@, names_view(live@)),
{
    let ghost lv = names_view(live@);
    let mut out: Vec<String> = Vec::new();
    let mut i: usize = 0;
    assert(names_view(out@) =~= orphans_spec(dirs@.take(0), lv));
    while i < dirs.len()
        invariant
            i <= dirs.len(),
            lv == names_view(live@),
            names_view(out@) == orphans_spec(dirs@.take(i as int), lv),
        decreases dirs.len() - i,
    {
        proof {
            let t = dirs@.take(i + 1);
            assert(t.drop_last() =~= dirs@.take(i as int));
            assert(t.last() == dirs@[i as int]);
        }
        let d = &dirs[i];
        let old_enough = match d.age_ms {
            Some(a) => a >= WORKSPACE_GRACE_MS,
            None => false,
        };
        if old_enough && !is_live(live, &d.name) {
            let ghost before = out@;
            out.push(d.name.clone());
            assert(names_view(out@) =~= names_view(before).push(d.name@));
        }
        i = i + 1;
    }
    assert(dirs@.take(dirs.len() as int) =~= dirs@);
    out
}

} // verus!

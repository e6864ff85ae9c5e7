//! First-come-first-served admission when the session table is full.
//!
//! The line is heartbeat-kept: a waiter who has not been seen for longer than
//! the time-to-live is pruned, so an abandoned tab cannot hold a place. With
//! `free` slots open only the first `free` waiters may pass; a user who passes
//! leaves the line. Polling the line is the heartbeat. Times are milliseconds
//! on one monotonic clock, supplied by the caller.
use vstd::prelude::*;

verus! {

/// A waiter who has not been seen for this long has left.
pub const WAITLIST_TTL_MS: u64 = 30_000;

/// One place in line.
pub struct Waiter {
    pub user_id: String,
    pub last_seen_ms: u64,
}

/// The line itself.
pub struct Waitlist {
    queue: Vec<Waiter>,
}

/// A place in line, as the contracts see it: who, and when they were last seen.
pub type Place = (Seq<char>, u64);

pub open spec fn place_of(w: Waiter) -> Place {
    (w.user_id@, w.last_seen_ms)
}

impl View for Waitlist {
    type V = Seq<Place>;

    closed spec fn view(&self) -> Seq<Place> {
        self.queue@.map_values(|w: Waiter| place_of(w))
    }
}

/// What the admission gate decided.
#[derive(PartialEq, Eq, Structural, Clone, Copy, Debug)]
pub enum Gate {
    Admit,
    Wait { position: usize, queue_len: usize },
}

/// Time since `last`, or zero when `last` is not in the past.
pub open spec fn elapsed(now: u64, last: u64) -> int {
    if now >= last {
        now - last
    } else {
        0
    }
}

/// Whether a place is still held at `now`.
pub open spec fn alive(p: Place, now: u64) -> bool {
    elapsed(now, p.1) <= WAITLIST_TTL_MS
}

/// The line with every lapsed place removed, order kept.
pub open spec fn prune_spec(q: Seq<Place>, now: u64) -> Seq<Place>
    decreases q.len(),
{
    if q.len() == 0 {
        q
    } else {
        let p = prune_spec(q.drop_last(), now);
        if alive(q.last(), now) {
            p.push(q.last())
        } else {
            p
        }
    }
}

/// Where `user` stands in `q`, if anywhere.
pub open spec fn position_of(q: Seq<Place>, user: Seq<char>) -> Option<int> {
    if exists|i: int| 0 <= i < q.len() && q[i].0 == user {
        Some(choose|i: int| 0 <= i < q.len() && q[i].0 == user)
    } else {
        None
    }
}

/// No user holds two places.
pub open spec fn distinct_users(q: Seq<Place>) -> bool {
    forall|i: int, j: int| 0 <= i < j < q.len() ==> q[i].0 != q[j].0
}

/// The line after one admission check, and what that check decided.
pub open spec fn gate_spec(q: Seq<Place>, user: Seq<char>, free: usize, now: u64) -> (
    Seq<Place>,
    Gate,
) {
    let p = prune_spec(q, now);
    match position_of(p, user) {
        Some(i) => if i < free {
            (p.remove(i), Gate::Admit)
        } else {
            (p.update(i, (user, now)), Gate::Wait { position: i as usize, queue_len: p.len() as usize })
        },
        None => if p.len() < free {
            (p, Gate::Admit)
        } else {
            (
                p.push((user, now)),
                Gate::Wait { position: p.len() as usize, queue_len: (p.len() + 1) as usize },
            )
        },
    }
}

/// The line after one poll, and what the poll reports: its length and the
/// caller's position.
pub open spec fn status_spec(q: Seq<Place>, user: Option<Seq<char>>, join: bool, now: u64) -> (
    Seq<Place>,
    (usize, Option<usize>),
) {
    let p = prune_spec(q, now);
    match user {
        None => (p, (p.len() as usize, None)),
        Some(u) => match position_of(p, u) {
            Some(i) => (p.update(i, (u, now)), (p.len() as usize, Some(i as usize))),
            None => if join {
                (p.push((u, now)), ((p.len() + 1) as usize, Some(p.len() as usize)))
            } else {
                (p, (p.len() as usize, None))
            },
        },
    }
}

/// Whether a `POST /session` from this caller would be admitted now: signed
/// in, and either standing within the free slots or, not in line at all,
/// facing a line shorter than them.
pub open spec fn admissible_spec(
    signed_in: bool,
    position: Option<usize>,
    queue_len: usize,
    used: usize,
    max: usize,
) -> bool {
    let free = if max >= used {
        max - used
    } else {
        0
    };
    signed_in && match position {
        Some(p) => p < free,
        None => queue_len < free,
    }
}

/// The header meter's admissibility cue.
pub fn admissible(
    signed_in: bool,
    position: Option<usize>,
    queue_len: usize,
    used: usize,
    max: usize,
) -> (r: bool)
    ensures
        r == admissible_spec(signed_in, position, queue_len, used, max),
{
    let free = max.saturating_sub(used);
    signed_in && match position {
        Some(p) => p < free,
        None => queue_len < free,
    }
}

proof fn lemma_prune_props(q: Seq<Place>, now: u64)
    ensures
        prune_spec(q, now).len() <= q.len(),
        forall|i: int| 0 <= i < prune_spec(q, now).len() ==> alive(#[trigger] prune_spec(q, now)[i], now),
        forall|i: int|
            0 <= i < prune_spec(q, now).len() ==> q.contains(#[trigger] prune_spec(q, now)[i]),
        distinct_users(q) ==> distinct_users(prune_spec(q, now)),
        (forall|i: int| 0 <= i < q.len() ==> alive(#[trigger] q[i], now)) ==> prune_spec(q, now)
            == q,
    decreases q.len(),
{
    if q.len() > 0 {
        let q0 = q.drop_last();
        lemma_prune_props(q0, now);
        let p0 = prune_spec(q0, now);
        let p = prune_spec(q, now);
        assert forall|i: int| 0 <= i < p.len() implies q.contains(#[trigger] p[i]) by {
            if i < p0.len() {
                assert(p[i] == p0[i]);
                let k = choose|k: int| 0 <= k < q0.len() && q0[k] == p0[i];
                assert(q[k] == q0[k]);
            } else {
                assert(q[q.len() - 1] == p[i]);
            }
        }
        if distinct_users(q) {
            assert(distinct_users(q0)) by {
                assert forall|i: int, j: int| 0 <= i < j < q0.len() implies q0[i].0 != q0[j].0 by {
                    assert(q0[i] == q[i] && q0[j] == q[j]);
                }
            }
            if alive(q.last(), now) {
                assert forall|i: int, j: int| 0 <= i < j < p.len() implies p[i].0 != p[j].0 by {
                    if j == p.len() - 1 {
                        assert(p[i] == p0[i]);
                        let k = choose|k: int| 0 <= k < q0.len() && q0[k] == p0[i];
                        assert(q[k] == q0[k]);
                        assert(q[q.len() - 1] == p[j]);
                    } else {
                        assert(p[i] == p0[i] && p[j] == p0[j]);
                    }
                }
            }
        }
        if forall|i: int| 0 <= i < q.len() ==> alive(#[trigger] q[i], now) {
            assert forall|i: int| 0 <= i < q0.len() implies alive(#[trigger] q0[i], now) by {
                assert(q0[i] == q[i]);
            }
            assert(alive(q[q.len() - 1], now));
            assert(p =~= q);
        }
    }
}

proof fn lemma_position_unique(q: Seq<Place>, user: Seq<char>, i: int)
    requires
        distinct_users(q),
        0 <= i < q.len(),
        q[i].0 == user,
    ensures
        position_of(q, user) == Some(i),
{
    let j = choose|j: int| 0 <= j < q.len() && q[j].0 == user;
    if j != i {
        if j < i {
            assert(q[j].0 != q[i].0);
        } else {
            assert(q[i].0 != q[j].0);
        }
    }
}

impl Waitlist {
    /// Every user holds at most one place.
    pub open spec fn wf(&self) -> bool {
        distinct_users(self@)
    }

    /// An empty line.
    pub fn new() -> (w: Waitlist)
        ensures
            w@ == Seq::<Place>::empty(),
            w.wf(),
    {
        let w = Waitlist { queue: Vec::new() };
        assert(w@ =~= Seq::<Place>::empty());
        w
    }

    /// How many are in line.
    pub fn len(&self) -> (n: usize)
        ensures
            n == self@.len(),
    {
        self.queue.len()
    }

    proof fn lemma_view_push(q: Seq<Waiter>, w: Waiter)
        ensures
            q.push(w).map_values(|x: Waiter| place_of(x)) == q.map_values(|x: Waiter| place_of(x)).push(
                place_of(w),
            ),
    {
        assert(q.push(w).map_values(|x: Waiter| place_of(x)) =~= q.map_values(
            |x: Waiter| place_of(x),
        ).push(place_of(w)));
    }

    /// Drop every place not seen within the time-to-live.
    pub fn prune(&mut self, now: u64)
        requires
            old(self).wf(),
        ensures
            final(self)@ == prune_spec(old(self)@, now),
            final(self).wf(),
    {
        let ghost q = self@;
        let mut kept: Vec<Waiter> = Vec::new();
        let mut i: usize = 0;
        assert(q.take(0) =~= Seq::<Place>::empty());
        assert(kept@.map_values(|x: Waiter| place_of(x)) =~= Seq::<Place>::empty());
        while i < self.queue.len()
            invariant
                q == self@,
                i <= self.queue.len(),
                kept@.map_values(|x: Waiter| place_of(x)) == prune_spec(q.take(i as int), now),
            decreases self.queue.len() - i,
        {
            let last = self.queue[i].last_seen_ms;
            let e: u64 = if now >= last {
                now - last
            } else {
                0
            };
            proof {
                let t = q.take(i + 1);
                assert(t.drop_last() =~= q.take(i as int));
                assert(t.last() == place_of(self.queue@[i as int]));
            }
            if e <= WAITLIST_TTL_MS {
                let w = Waiter { user_id: self.queue[i].user_id.clone(), last_seen_ms: last };
                proof {
                    Self::lemma_view_push(kept@, w);
                }
                kept.push(w);
            }
            i = i + 1;
        }
        assert(q.take(self.queue.len() as int) =~= q);
        self.queue = kept;
        proof {
            lemma_prune_props(q, now);
        }
    }

    fn find(&self, user: &String) -> (r: Option<usize>)
        requires
            self.wf(),
        ensures
            match r {
                Some(i) => position_of(self@, user@) == Some(i as int),
                None => position_of(self@, user@) is None,
            },
    {
        let mut i: usize = 0;
        while i < self.queue.len()
            invariant
                self.wf(),
                i <= self.queue.len(),
                forall|k: int| 0 <= k < i ==> self@[k].0 != user@,
            decreases self.queue.len() - i,
        {
            if self.queue[i].user_id == *user {
                proof {
                    lemma_position_unique(self@, user@, i as int);
                }
                return Some(i);
            }
            i = i + 1;
        }
        None
    }

    /// One pass of the admission gate for `user` with `free` slots open.
    pub fn gate(&mut self, user: &String, free: usize, now: u64) -> (g: Gate)
        requires
            old(self).wf(),
        ensures
            (final(self)@, g) == gate_spec(old(self)@, user@, free, now),
            final(self).wf(),
    {
        self.prune(now);
        let ghost p = self@;
        proof {
            lemma_prune_props(p, now);
        }
        match self.find(user) {
            Some(i) => {
                if i < free {
                    self.queue.remove(i);
                    assert(self@ =~= p.remove(i as int));
                    assert(self.wf()) by {
                        assert forall|a: int, b: int| 0 <= a < b < self@.len() implies self@[a].0
                            != self@[b].0 by {
                            let a2 = if a < i {
                                a
                            } else {
                                a + 1
                            };
                            let b2 = if b < i {
                                b
                            } else {
                                b + 1
                            };
                            assert(self@[a] == p[a2] && self@[b] == p[b2]);
                        }
                    }
                    Gate::Admit
                } else {
                    self.queue[i] = Waiter { user_id: user.clone(), last_seen_ms: now };
                    assert(self@ =~= p.update(i as int, (user@, now)));
                    assert(self.wf()) by {
                        assert forall|a: int, b: int| 0 <= a < b < self@.len() implies self@[a].0
                            != self@[b].0 by {
                            assert(self@[a].0 == p[a].0 && self@[b].0 == p[b].0);
                        }
                    }
                    Gate::Wait { position: i, queue_len: self.queue.len() }
                }
            },
            None => {
                if self.queue.len() < free {
                    Gate::Admit
                } else {
                    let w = Waiter { user_id: user.clone(), last_seen_ms: now };
                    proof {
                        Self::lemma_view_push(self.queue@, w);
                    }
                    self.queue.push(w);
                    assert(self.wf()) by {
                        assert forall|a: int, b: int| 0 <= a < b < self@.len() implies self@[a].0
                            != self@[b].0 by {
                            if b == self@.len() - 1 {
                                assert(self@[a] == p[a]);
                            } else {
                                assert(self@[a] == p[a] && self@[b] == p[b]);
                            }
                        }
                    }
                    Gate::Wait { position: self.queue.len() - 1, queue_len: self.queue.len() }
                }
            },
        }
    }

    /// One poll of the line: refreshes the caller's place (joining when it
    /// has none and `join` is set) and reports `(queue_len, position)`.
    pub fn status(&mut self, user: Option<&String>, join: bool, now: u64) -> (r: (
        usize,
        Option<usize>,
    ))
        requires
            old(self).wf(),
        ensures
            (final(self)@, r) == status_spec(
                old(self)@,
                match user {
                    Some(u) => Some(u@),
                    None => None,
                },
                join,
                now,
            ),
            final(self).wf(),
    {
        self.prune(now);
        let ghost p = self@;
        match user {
            None => (self.queue.len(), None),
            Some(u) => match self.find(u) {
                Some(i) => {
                    self.queue[i] = Waiter { user_id: u.clone(), last_seen_ms: now };
                    assert(self@ =~= p.update(i as int, (u@, now)));
                    assert(self.wf()) by {
                        assert forall|a: int, b: int| 0 <= a < b < self@.len() implies self@[a].0
                            != self@[b].0 by {
                            assert(self@[a].0 == p[a].0 && self@[b].0 == p[b].0);
                        }
                    }
                    (self.queue.len(), Some(i))
                },
                None => {
                    if join {
                        let w = Waiter { user_id: u.clone(), last_seen_ms: now };
                        proof {
                            Self::lemma_view_push(self.queue@, w);
                        }
                        self.queue.push(w);
                        assert(self.wf()) by {
                            assert forall|a: int, b: int| 0 <= a < b < self@.len() implies self@[a].0
                                != self@[b].0 by {
                                if b == self@.len() - 1 {
                                    assert(self@[a] == p[a]);
                                } else {
                                    assert(self@[a] == p[a] && self@[b] == p[b]);
                                }
                            }
                        }
                        (self.queue.len(), Some(self.queue.len() - 1))
                    } else {
                        (self.queue.len(), None)
                    }
                },
            },
        }
    }
}

/// The admissibility cue the meter shows is what admission then does: for a
/// signed-in user, a poll at `now` followed by a session request at the same
/// `now` with the same free slots is admitted exactly when the poll said it
/// would be.
pub proof fn law_meter_predicts_gate(
    q: Seq<Place>,
    user: Seq<char>,
    join: bool,
    now: u64,
    used: usize,
    max: usize,
)
    requires
        distinct_users(q),
        q.len() < usize::MAX,
    ensures
        ({
            let (q1, (queue_len, position)) = status_spec(q, Some(user), join, now);
            let free = if max >= used {
                (max - used) as usize
            } else {
                0usize
            };
            admissible_spec(true, position, queue_len, used, max) == (gate_spec(
                q1,
                user,
                free,
                now,
            ).1 is Admit)
        }),
{
    let p = prune_spec(q, now);
    lemma_prune_props(q, now);
    let free = if max >= used {
        (max - used) as usize
    } else {
        0usize
    };
    match position_of(p, user) {
        Some(i) => {
            let q1 = p.update(i, (user, now));
            assert(alive((user, now), now));
            assert forall|k: int| 0 <= k < q1.len() implies alive(#[trigger] q1[k], now) by {}
            lemma_prune_props(q1, now);
            assert(distinct_users(q1)) by {
                assert forall|a: int, b: int| 0 <= a < b < q1.len() implies q1[a].0 != q1[b].0 by {
                    assert(q1[a].0 == p[a].0 && q1[b].0 == p[b].0);
                }
            }
            let w = choose|j: int| 0 <= j < p.len() && p[j].0 == user;
            assert(p[i].0 == user);
            lemma_position_unique(q1, user, i);
        },
        None => {
            if join {
                let q1 = p.push((user, now));
                assert forall|k: int| 0 <= k < q1.len() implies alive(#[trigger] q1[k], now) by {
                    if k < p.len() {
                        assert(q1[k] == p[k]);
                    }
                }
                lemma_prune_props(q1, now);
                assert(distinct_users(q1)) by {
                    assert forall|a: int, b: int| 0 <= a < b < q1.len() implies q1[a].0
                        != q1[b].0 by {
                        if b == q1.len() - 1 {
                            assert(q1[a] == p[a]);
                            if p[a].0 == user {
                                assert(exists|j: int| 0 <= j < p.len() && p[j].0 == user);
                            }
                        } else {
                            assert(q1[a] == p[a] && q1[b] == p[b]);
                        }
                    }
                }
                lemma_position_unique(q1, user, p.len() as int);
            } else {
                assert forall|k: int| 0 <= k < p.len() implies alive(#[trigger] p[k], now) by {}
                lemma_prune_props(p, now);
            }
        },
    }
}

proof fn lemma_prune_keeps_the_live(q: Seq<Place>, now: u64)
    ensures
        forall|i: int| 0 <= i < q.len() && alive(#[trigger] q[i], now) ==> prune_spec(q, now).contains(q[i]),
    decreases q.len(),
{
    if q.len() > 0 {
        let q0 = q.drop_last();
        lemma_prune_keeps_the_live(q0, now);
        let p0 = prune_spec(q0, now);
        let p = prune_spec(q, now);
        assert forall|i: int| 0 <= i < q.len() && alive(#[trigger] q[i], now) implies p.contains(q[i]) by {
            if i < q0.len() {
                assert(q[i] == q0[i]);
                let k = choose|k: int| 0 <= k < p0.len() && p0[k] == q0[i];
                if alive(q.last(), now) {
                    assert(p[k] == p0[k]);
                } else {
                    assert(p[k] == p0[k]);
                }
            } else {
                assert(p[p.len() - 1] == q[i]);
            }
        }
    }
}

/// The line holds exactly the places seen within the time-to-live: every
/// place seen within it at `now` is kept, every place kept was in the line
/// and was seen within it, and nothing is added.
pub proof fn law_the_line_keeps_exactly_the_live(q: Seq<Place>, now: u64)
    ensures
        prune_spec(q, now).len() <= q.len(),
        forall|i: int|
            0 <= i < q.len() && elapsed(now, q[i].1) <= WAITLIST_TTL_MS ==> prune_spec(q, now).contains(
                #[trigger] q[i],
            ),
        forall|i: int|
            0 <= i < prune_spec(q, now).len() ==> q.contains(#[trigger] prune_spec(q, now)[i])
                && elapsed(now, prune_spec(q, now)[i].1) <= WAITLIST_TTL_MS,
{
    lemma_prune_props(q, now);
    lemma_prune_keeps_the_live(q, now);
    assert forall|i: int| 0 <= i < prune_spec(q, now).len() implies q.contains(#[trigger] prune_spec(q, now)[i])
        && elapsed(now, prune_spec(q, now)[i].1) <= WAITLIST_TTL_MS by {
        assert(alive(prune_spec(q, now)[i], now));
    }
    assert forall|i: int|
        0 <= i < q.len() && elapsed(now, q[i].1) <= WAITLIST_TTL_MS implies prune_spec(q, now).contains(
            #[trigger] q[i],
        ) by {
        assert(alive(q[i], now));
    }
}

/// First come, first served: with `free` slots open, a user who is not in
/// the live line passes only when fewer than `free` are waiting, and a
/// waiter passes only from within the first `free` places, so no one is
/// admitted ahead of a live waiter. One who does not pass holds a place,
/// refreshed at `now`, and a newcomer's place is behind everyone waiting.
pub proof fn law_no_one_passes_a_live_waiter(q: Seq<Place>, user: Seq<char>, free: usize, now: u64)
    requires
        distinct_users(q),
        q.len() < usize::MAX,
    ensures
        ({
            let p = prune_spec(q, now);
            let (q1, g) = gate_spec(q, user, free, now);
            &&& (forall|i: int| 0 <= i < p.len() ==> (#[trigger] p[i]).0 != user) ==> {
                &&& (g is Admit <==> p.len() < free)
                &&& g is Wait ==> q1 == p.push((user, now)) && g == Gate::Wait {
                    position: p.len() as usize,
                    queue_len: (p.len() + 1) as usize,
                }
            }
            &&& forall|i: int| 0 <= i < p.len() && (#[trigger] p[i]).0 == user ==> {
                &&& (g is Admit <==> i < free)
                &&& g is Wait ==> q1.len() == p.len() && q1[i] == (user, now) && g == Gate::Wait {
                    position: i as usize,
                    queue_len: p.len() as usize,
                }
            }
        }),
{
    let p = prune_spec(q, now);
    lemma_prune_props(q, now);
    assert forall|i: int| 0 <= i < p.len() && (#[trigger] p[i]).0 == user implies {
        let (q1, g) = gate_spec(q, user, free, now);
        &&& (g is Admit <==> i < free)
        &&& g is Wait ==> q1.len() == p.len() && q1[i] == (user, now) && g == Gate::Wait {
            position: i as usize,
            queue_len: p.len() as usize,
        }
    } by {
        lemma_position_unique(p, user, i);
    }
    if forall|i: int| 0 <= i < p.len() ==> (#[trigger] p[i]).0 != user {
        assert(position_of(p, user) is None);
    }
}

/// The meter's cue never promises a slot that is spoken for: a caller
/// outside the line is shown admissible only when the line is shorter than
/// the free slots, and a waiter only when its place is among them.
pub proof fn law_the_cue_respects_the_line(
    signed_in: bool,
    position: Option<usize>,
    queue_len: usize,
    used: usize,
    max: usize,
)
    ensures
        admissible_spec(signed_in, position, queue_len, used, max) ==> signed_in && used <= max,
        admissible_spec(signed_in, None, queue_len, used, max) ==> queue_len + used < max,
        forall|p: usize| admissible_spec(signed_in, Some(p), queue_len, used, max) ==> #[trigger] (p
            + used) < max,
{
}

} // verus!

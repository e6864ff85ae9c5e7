//! The identity of a governed call, and how a later enforcement point
//! recognises one an earlier point already governed.
//!
//! Admission mints an entry for each call it governs; the proxy, judging the
//! same call again on arrival, may claim one. Entries are claim-once and
//! short-lived, and a description that matches nothing yields the fresh
//! identity the caller supplied — so the failure direction is to charge twice
//! rather than to charge nothing. Identities and times come from the caller:
//! identities are random, times milliseconds on one monotonic clock.
use vstd::prelude::*;

verus! {

/// How long an entry can be claimed, in milliseconds.
pub const TTL_MS: u64 = 10_000;

/// The most entries held; the oldest goes first.
pub const CAPACITY: usize = 64;

/// Whether an audit row is a first verdict or the re-check of one.
#[derive(PartialEq, Eq, Structural, Clone, Copy, Debug)]
pub enum AuditOrigin {
    Governed,
    Reverified,
}

/// One governed call.
pub struct Entry {
    pub call_id: String,
    pub tool_name: String,
    pub fingerprint: u64,
    pub minted_ms: u64,
    pub claimed: bool,
}

/// An entry as the contracts see it.
pub struct EntryV {
    pub call_id: Seq<char>,
    pub tool_name: Seq<char>,
    pub fingerprint: u64,
    pub minted_ms: u64,
    pub claimed: bool,
}

pub open spec fn entry_view(e: Entry) -> EntryV {
    EntryV {
        call_id: e.call_id@,
        tool_name: e.tool_name@,
        fingerprint: e.fingerprint,
        minted_ms: e.minted_ms,
        claimed: e.claimed,
    }
}

/// Recently governed calls, oldest first.
pub struct CallLedger {
    entries: Vec<Entry>,
}

impl View for CallLedger {
    type V = Seq<EntryV>;

    closed spec fn view(&self) -> Seq<EntryV> {
        self.entries@.map_values(|e: Entry| entry_view(e))
    }
}

/// Whether an entry is still claimable at `now`.
pub open spec fn fresh(e: EntryV, now: u64) -> bool {
    (if now >= e.minted_ms {
        now - e.minted_ms
    } else {
        0
    }) < TTL_MS
}

/// The entries still fresh at `now`, order kept.
pub open spec fn sweep_spec(q: Seq<EntryV>, now: u64) -> Seq<EntryV>
    decreases q.len(),
{
    if q.len() == 0 {
        q
    } else {
        let p = sweep_spec(q.drop_last(), now);
        if fresh(q.last(), now) {
            p.push(q.last())
        } else {
            p
        }
    }
}

/// The ledger after minting `call_id` for a call at `now`.
pub open spec fn mint_spec(
    q: Seq<EntryV>,
    call_id: Seq<char>,
    tool_name: Seq<char>,
    fingerprint: u64,
    now: u64,
) -> Seq<EntryV> {
    let p = sweep_spec(q, now);
    let p2 = if p.len() >= CAPACITY {
        p.drop_first()
    } else {
        p
    };
    p2.push(EntryV { call_id, tool_name, fingerprint, minted_ms: now, claimed: false })
}

/// Whether an entry describes the call and is still unclaimed.
pub open spec fn matches(e: EntryV, tool_name: Seq<char>, fingerprint: u64) -> bool {
    !e.claimed && e.tool_name == tool_name && e.fingerprint == fingerprint
}

/// The first entry that matches, if any.
pub open spec fn first_match(q: Seq<EntryV>, tool_name: Seq<char>, fingerprint: u64) -> Option<int>
    decreases q.len(),
{
    if q.len() == 0 {
        None
    } else {
        match first_match(q.drop_last(), tool_name, fingerprint) {
            Some(i) => Some(i),
            None => if matches(q.last(), tool_name, fingerprint) {
                Some(q.len() - 1)
            } else {
                None
            },
        }
    }
}

proof fn lemma_first_match_props(q: Seq<EntryV>, tool_name: Seq<char>, fingerprint: u64)
    ensures
        match first_match(q, tool_name, fingerprint) {
            Some(i) => 0 <= i < q.len() && matches(q[i], tool_name, fingerprint) && forall|j: int|
                0 <= j < i ==> !matches(#[trigger] q[j], tool_name, fingerprint),
            None => forall|j: int| 0 <= j < q.len() ==> !matches(#[trigger] q[j], tool_name, fingerprint),
        },
    decreases q.len(),
{
    if q.len() > 0 {
        let q0 = q.drop_last();
        lemma_first_match_props(q0, tool_name, fingerprint);
        match first_match(q0, tool_name, fingerprint) {
            Some(i) => {
                assert(q[i] == q0[i]);
                assert forall|j: int| 0 <= j < i implies !matches(#[trigger] q[j], tool_name, fingerprint) by {
                    assert(q[j] == q0[j]);
                }
            },
            None => {
                assert forall|j: int| 0 <= j < q.len() - 1 implies !matches(#[trigger] q[j], tool_name, fingerprint) by {
                    assert(q[j] == q0[j]);
                }
            },
        }
    }
}

/// The ledger after one claim, the identity handed out and its origin.
pub open spec fn claim_spec(
    q: Seq<EntryV>,
    tool_name: Seq<char>,
    fingerprint: u64,
    fresh_id: Seq<char>,
    now: u64,
) -> (Seq<EntryV>, Seq<char>, AuditOrigin) {
    let p = sweep_spec(q, now);
    match first_match(p, tool_name, fingerprint) {
        Some(i) => (
            p.update(i, EntryV { claimed: true, ..p[i] }),
            p[i].call_id,
            AuditOrigin::Reverified,
        ),
        None => (p, fresh_id, AuditOrigin::Governed),
    }
}

proof fn lemma_sweep_len(q: Seq<EntryV>, now: u64)
    ensures
        sweep_spec(q, now).len() <= q.len(),
    decreases q.len(),
{
    if q.len() > 0 {
        lemma_sweep_len(q.drop_last(), now);
    }
}

proof fn lemma_first_match_exists(q: Seq<EntryV>, tool_name: Seq<char>, fingerprint: u64, i: int)
    requires
        0 <= i < q.len(),
        matches(q[i], tool_name, fingerprint),
        forall|j: int| 0 <= j < i ==> !matches(#[trigger] q[j], tool_name, fingerprint),
    ensures
        first_match(q, tool_name, fingerprint) == Some(i),
{
    lemma_first_match_props(q, tool_name, fingerprint);
    match first_match(q, tool_name, fingerprint) {
        Some(k) => {
            if k < i {
                assert(!matches(q[k], tool_name, fingerprint));
            }
            if i < k {
                assert(!matches(q[i], tool_name, fingerprint));
            }
        },
        None => {
            assert(!matches(q[i], tool_name, fingerprint));
        },
    }
}

impl CallLedger {
    /// The ledger never holds more than [`CAPACITY`] entries.
    pub open spec fn wf(&self) -> bool {
        self@.len() <= CAPACITY
    }

    pub fn new() -> (l: CallLedger)
        ensures
            l@ == Seq::<EntryV>::empty(),
            l.wf(),
    {
        let l = CallLedger { entries: Vec::new() };
        assert(l@ =~= Seq::<EntryV>::empty());
        l
    }

    proof fn lemma_view_push(q: Seq<Entry>, e: Entry)
        ensures
            q.push(e).map_values(|x: Entry| entry_view(x)) == q.map_values(|x: Entry| entry_view(x)).push(
                entry_view(e),
            ),
    {
        assert(q.push(e).map_values(|x: Entry| entry_view(x)) =~= q.map_values(
            |x: Entry| entry_view(x),
        ).push(entry_view(e)));
    }

    fn sweep(&mut self, now: u64)
        ensures
            final(self)@ == sweep_spec(old(self)@, now),
    {
        let ghost q = self@;
        let mut kept: Vec<Entry> = Vec::new();
        let mut i: usize = 0;
        assert(q.take(0) =~= Seq::<EntryV>::empty());
        assert(kept@.map_values(|x: Entry| entry_view(x)) =~= Seq::<EntryV>::empty());
        while i < self.entries.len()
            invariant
                q == self@,
                i <= self.entries.len(),
                kept@.map_values(|x: Entry| entry_view(x)) == sweep_spec(q.take(i as int), now),
            decreases self.entries.len() - i,
        {
            proof {
                let t = q.take(i + 1);
                assert(t.drop_last() =~= q.take(i as int));
                assert(t.last() == entry_view(self.entries@[i as int]));
            }
            let minted = self.entries[i].minted_ms;
            let age: u64 = if now >= minted {
                now - minted
            } else {
                0
            };
            if age < TTL_MS {
                let e = Entry {
                    call_id: self.entries[i].call_id.clone(),
                    tool_name: self.entries[i].tool_name.clone(),
                    fingerprint: self.entries[i].fingerprint,
                    minted_ms: minted,
                    claimed: self.entries[i].claimed,
                };
                proof {
                    Self::lemma_view_push(kept@, e);
                }
                kept.push(e);
            }
            i = i + 1;
        }
        assert(q.take(self.entries.len() as int) =~= q);
        self.entries = kept;
    }

    /// Record a governed call under the identity `call_id`.
    pub fn mint(&mut self, tool_name: &str, fingerprint: u64, call_id: String, now: u64)
        requires
            old(self).wf(),
        ensures
            final(self)@ == mint_spec(old(self)@, call_id@, tool_name@, fingerprint, now),
            final(self).wf(),
    {
        self.sweep(now);
        let ghost p = self@;
        proof {
            lemma_sweep_len(old(self)@, now);
        }
        if self.entries.len() >= CAPACITY {
            self.entries.remove(0);
            assert(self@ =~= p.drop_first());
        }
        let e = Entry {
            call_id,
            tool_name: String::from_str(tool_name),
            fingerprint,
            minted_ms: now,
            claimed: false,
        };
        proof {
            Self::lemma_view_push(self.entries@, e);
        }
        self.entries.push(e);
    }

    /// Claim the first unclaimed entry describing this call, or hand back
    /// `fresh_id` when none does.
    pub fn claim(&mut self, tool_name: &str, fingerprint: u64, fresh_id: String, now: u64) -> (r: (
        String,
        AuditOrigin,
    ))
        requires
            old(self).wf(),
        ensures
            (final(self)@, r.0@, r.1) == claim_spec(
                old(self)@,
                tool_name@,
                fingerprint,
                fresh_id@,
                now,
            ),
            final(self).wf(),
    {
        self.sweep(now);
        proof {
            lemma_sweep_len(old(self)@, now);
        }
        let ghost p = self@;
        let wanted = String::from_str(tool_name);
        let mut i: usize = 0;
        while i < self.entries.len()
            invariant
                p == self@,
                p == sweep_spec(old(self)@, now),
                p.len() <= CAPACITY,
                wanted@ == tool_name@,
                i <= self.entries.len(),
                forall|j: int| 0 <= j < i ==> !matches(#[trigger] p[j], tool_name@, fingerprint),
            decreases self.entries.len() - i,
        {
            if !self.entries[i].claimed && self.entries[i].tool_name == wanted
                && self.entries[i].fingerprint == fingerprint {
                proof {
                    assert(p[i as int] == entry_view(self.entries@[i as int]));
                    lemma_first_match_exists(p, tool_name@, fingerprint, i as int);
                }
                let id = self.entries[i].call_id.clone();
                let e = Entry {
                    call_id: self.entries[i].call_id.clone(),
                    tool_name: self.entries[i].tool_name.clone(),
                    fingerprint,
                    minted_ms: self.entries[i].minted_ms,
                    claimed: true,
                };
                self.entries.set(i, e);
                assert(self@ =~= p.update(i as int, EntryV { claimed: true, ..p[i as int] }));
                return (id, AuditOrigin::Reverified);
            }
            proof {
                assert(p[i as int] == entry_view(self.entries@[i as int]));
            }
            i = i + 1;
        }
        proof {
            lemma_first_match_props(p, tool_name@, fingerprint);
        }
        (fresh_id, AuditOrigin::Governed)
    }
}

/// An entry is claimed at most once: once a claim has taken an entry, the
/// same description claimed again at the same moment is not handed that
/// entry's identity but the next unclaimed match, or the fresh identity.
pub proof fn law_claim_once(
    q: Seq<EntryV>,
    tool_name: Seq<char>,
    fingerprint: u64,
    fresh1: Seq<char>,
    fresh2: Seq<char>,
    now: u64,
)
    ensures
        ({
            let (q1, id1, o1) = claim_spec(q, tool_name, fingerprint, fresh1, now);
            let p = sweep_spec(q, now);
            o1 == AuditOrigin::Reverified ==> {
                let i = first_match(p, tool_name, fingerprint)->0;
                &&& q1[i].claimed
                &&& first_match(sweep_spec(q1, now), tool_name, fingerprint) != Some(i)
            }
        }),
{
    let p = sweep_spec(q, now);
    match first_match(p, tool_name, fingerprint) {
        Some(i) => {
            let q1 = p.update(i, EntryV { claimed: true, ..p[i] });
            lemma_sweep_all_fresh(q, now);
            lemma_first_match_props(p, tool_name, fingerprint);
            assert(0 <= i < p.len());
            assert forall|k: int| 0 <= k < q1.len() implies fresh(#[trigger] q1[k], now) by {
                assert(fresh(p[k], now));
                if k == i {
                    assert(q1[k].minted_ms == p[k].minted_ms);
                } else {
                    assert(q1[k] == p[k]);
                }
            }
            lemma_sweep_keeps_fresh(q1, now);
            lemma_first_match_props(q1, tool_name, fingerprint);
        },
        None => {},
    }
}

/// Once a claim has taken the only entry describing a call, claiming the
/// same call again finds nothing and is handed its fresh identity as a first
/// verdict; and a description that no claimable entry has (another tool, or
/// other arguments) is never matched.
pub proof fn law_a_second_claim_is_a_first_verdict(
    q: Seq<EntryV>,
    tool_name: Seq<char>,
    fingerprint: u64,
    fresh1: Seq<char>,
    fresh2: Seq<char>,
    now: u64,
)
    ensures
        ({
            let p = sweep_spec(q, now);
            let (q1, id1, o1) = claim_spec(q, tool_name, fingerprint, fresh1, now);
            let (q2, id2, o2) = claim_spec(q1, tool_name, fingerprint, fresh2, now);
            &&& (forall|j: int, k: int|
                0 <= j < p.len() && 0 <= k < p.len() && matches(#[trigger] p[j], tool_name, fingerprint)
                    && matches(#[trigger] p[k], tool_name, fingerprint) ==> j == k) ==> (id2 == fresh2
                && o2 == AuditOrigin::Governed)
            &&& (forall|j: int| 0 <= j < p.len() ==> !matches(#[trigger] p[j], tool_name, fingerprint)) ==> (
            id1 == fresh1 && o1 == AuditOrigin::Governed && q1 == p)
        }),
{
    let p = sweep_spec(q, now);
    lemma_first_match_props(p, tool_name, fingerprint);
    lemma_sweep_all_fresh(q, now);
    match first_match(p, tool_name, fingerprint) {
        Some(i) => {
            let q1 = p.update(i, EntryV { claimed: true, ..p[i] });
            assert forall|k: int| 0 <= k < q1.len() implies fresh(#[trigger] q1[k], now) by {
                assert(fresh(p[k], now));
                if k == i {
                    assert(q1[k].minted_ms == p[k].minted_ms);
                } else {
                    assert(q1[k] == p[k]);
                }
            }
            lemma_sweep_keeps_fresh(q1, now);
            if forall|j: int, k: int|
                0 <= j < p.len() && 0 <= k < p.len() && matches(#[trigger] p[j], tool_name, fingerprint)
                    && matches(#[trigger] p[k], tool_name, fingerprint) ==> j == k {
                assert forall|j: int| 0 <= j < q1.len() implies !matches(#[trigger] q1[j], tool_name, fingerprint) by {
                    if j != i {
                        assert(q1[j] == p[j]);
                        if matches(p[j], tool_name, fingerprint) {
                            assert(matches(p[i], tool_name, fingerprint));
                        }
                    }
                }
                lemma_first_match_props(q1, tool_name, fingerprint);
            }
        },
        None => {
            lemma_sweep_keeps_fresh(p, now);
        },
    }
}

proof fn lemma_sweep_all_fresh(q: Seq<EntryV>, now: u64)
    ensures
        forall|k: int| 0 <= k < sweep_spec(q, now).len() ==> fresh(#[trigger] sweep_spec(q, now)[k], now),
    decreases q.len(),
{
    if q.len() > 0 {
        lemma_sweep_all_fresh(q.drop_last(), now);
        let p = sweep_spec(q.drop_last(), now);
        let s = sweep_spec(q, now);
        assert forall|k: int| 0 <= k < s.len() implies fresh(#[trigger] s[k], now) by {
            if k < p.len() {
                assert(s[k] == p[k]);
            }
        }
    }
}

proof fn lemma_sweep_keeps_fresh(q: Seq<EntryV>, now: u64)
    requires
        forall|k: int| 0 <= k < q.len() ==> fresh(#[trigger] q[k], now),
    ensures
        sweep_spec(q, now) == q,
    decreases q.len(),
{
    if q.len() > 0 {
        let q0 = q.drop_last();
        assert forall|k: int| 0 <= k < q0.len() implies fresh(#[trigger] q0[k], now) by {
            assert(q0[k] == q[k]);
        }
        lemma_sweep_keeps_fresh(q0, now);
        assert(fresh(q[q.len() - 1], now));
        assert(q0.push(q.last()) =~= q);
    }
}

proof fn lemma_sweep_members(q: Seq<EntryV>, now: u64)
    ensures
        forall|k: int|
            0 <= k < sweep_spec(q, now).len() ==> q.contains(#[trigger] sweep_spec(q, now)[k]) && fresh(
                sweep_spec(q, now)[k],
                now,
            ),
    decreases q.len(),
{
    if q.len() > 0 {
        let q0 = q.drop_last();
        lemma_sweep_members(q0, now);
        let p = sweep_spec(q0, now);
        let s = sweep_spec(q, now);
        assert forall|k: int| 0 <= k < s.len() implies q.contains(#[trigger] s[k]) && fresh(s[k], now) by {
            if k < p.len() {
                assert(s[k] == p[k]);
                let j = choose|j: int| 0 <= j < q0.len() && q0[j] == p[k];
                assert(q[j] == q0[j]);
            } else {
                assert(s[k] == q[q.len() - 1]);
            }
        }
    }
}

/// A call governance admitted is recognised when the proxy judges it again
/// within the time an entry lives: the proxy's check is a re-verification,
/// not a second charge. When nothing else claimable then describes the same
/// call, the identity handed back is the one admission minted.
pub proof fn law_a_governed_call_is_recognised(
    q: Seq<EntryV>,
    call_id: Seq<char>,
    tool_name: Seq<char>,
    fingerprint: u64,
    now: u64,
    fresh_id: Seq<char>,
    later: u64,
)
    requires
        now <= later,
        later - now < TTL_MS,
    ensures
        ({
            let (q2, id, origin) = claim_spec(
                mint_spec(q, call_id, tool_name, fingerprint, now),
                tool_name,
                fingerprint,
                fresh_id,
                later,
            );
            &&& origin == AuditOrigin::Reverified
            &&& (forall|j: int|
                0 <= j < q.len() && fresh(q[j], later) ==> !matches(#[trigger] q[j], tool_name, fingerprint))
                ==> id == call_id
        }),
{
    let p = sweep_spec(q, now);
    let p2 = if p.len() >= CAPACITY {
        p.drop_first()
    } else {
        p
    };
    let e = EntryV { call_id, tool_name, fingerprint, minted_ms: now, claimed: false };
    let q1 = p2.push(e);
    assert(q1.drop_last() =~= p2);
    assert(fresh(e, later));
    let s0 = sweep_spec(p2, later);
    let s1 = sweep_spec(q1, later);
    assert(s1 == s0.push(e));
    assert(s1.drop_last() =~= s0);
    lemma_first_match_props(s0, tool_name, fingerprint);
    if forall|j: int| 0 <= j < q.len() && fresh(q[j], later) ==> !matches(#[trigger] q[j], tool_name, fingerprint) {
        lemma_sweep_members(q, now);
        lemma_sweep_members(p2, later);
        assert forall|k: int| 0 <= k < s0.len() implies !matches(#[trigger] s0[k], tool_name, fingerprint) by {
            let j = choose|j: int| 0 <= j < p2.len() && p2[j] == s0[k];
            let i = if p.len() >= CAPACITY {
                j + 1
            } else {
                j
            };
            assert(p2[j] == p[i]);
            let m = choose|m: int| 0 <= m < q.len() && q[m] == p[i];
            assert(fresh(q[m], later));
        }
        assert(first_match(s0, tool_name, fingerprint) is None);
        assert(first_match(s1, tool_name, fingerprint) == Some(s0.len() as int));
    }
}

/// What std's `DefaultHasher`, as `DefaultHasher::new` makes it, gives for a
/// string. Every hasher made that way starts from the same keys, so the
/// value depends on the text alone within one build; the algorithm itself is
/// std's and may change between Rust releases.
pub uninterp spec fn default_hash(text: Seq<char>) -> u64;

/// Calls `BuildHasher::hash_one` on `BuildHasherDefault<DefaultHasher>`,
/// which builds a hasher with `DefaultHasher::default()` (that is,
/// `DefaultHasher::new()`), feeds it `text` and finishes it. The contract
/// claims only that the result is the named hash of the text.
#[verifier::external_body]
fn hash_text(text: &str) -> (h: u64)
    ensures
        h == default_hash(text@),
{
    std::hash::BuildHasher::hash_one(
        &std::hash::BuildHasherDefault::<std::hash::DefaultHasher>::default(),
        text,
    )
}

/// The fingerprint of a call's arguments, given as their compact JSON text:
/// two calls of one tool are the same call when these agree. No arguments
/// hash as the empty text.
pub fn fingerprint(arguments: Option<&str>) -> (h: u64)
    ensures
        h == default_hash(
            match arguments {
                Some(t) => t@,
                None => ""@,
            },
        ),
{
    match arguments {
        Some(t) => hash_text(t),
        None => hash_text(""),
    }
}

} // verus!

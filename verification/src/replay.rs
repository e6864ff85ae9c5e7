//! A session's recent frames, kept so a reconnecting widget can resume.
//!
//! Every frame gets the next sequence number, per session and strictly
//! increasing, so a browser that reconnects with `Last-Event-ID` is handed
//! exactly the frames it has not seen, in order. Only the most recent
//! [`REPLAY_CAPACITY`] frames are kept; a viewer gone longer than that starts
//! from what is left.
use vstd::prelude::*;

verus! {

/// How many frames a session keeps for replay.
pub const REPLAY_CAPACITY: usize = 200;

/// The frames a session has emitted recently, each with its number.
pub struct ReplayLog<T> {
    last_seq: u64,
    entries: Vec<(u64, T)>,
}

impl<T> View for ReplayLog<T> {
    type V = (u64, Seq<(u64, T)>);

    /// The number of the last frame emitted, and the frames kept, oldest first.
    closed spec fn view(&self) -> (u64, Seq<(u64, T)>) {
        (self.last_seq, self.entries@)
    }
}

/// The frames kept after `entry` is added: the oldest is dropped to make
/// room once the log is full.
pub open spec fn keep_recent<T>(entries: Seq<(u64, T)>, entry: (u64, T)) -> Seq<(u64, T)> {
    if entries.len() >= REPLAY_CAPACITY {
        entries.drop_first().push(entry)
    } else {
        entries.push(entry)
    }
}

/// The kept frames numbered after `after`, in order.
pub open spec fn since<T>(entries: Seq<(u64, T)>, after: u64) -> Seq<(u64, T)>
    decreases entries.len(),
{
    if entries.len() == 0 {
        seq![]
    } else {
        let p = since(entries.drop_last(), after);
        if entries.last().0 > after {
            p.push(entries.last())
        } else {
            p
        }
    }
}

impl<T> ReplayLog<T> {
    /// What every log keeps true: at most [`REPLAY_CAPACITY`] frames, numbered
    /// consecutively and ending at the last number emitted.
    pub open spec fn wf(&self) -> bool {
        let (last, e) = self@;
        &&& e.len() <= REPLAY_CAPACITY
        &&& forall|i: int| 0 <= i < e.len() ==> #[trigger] e[i].0 == last - (e.len() - 1 - i)
    }

    /// An empty log whose next frame is numbered `start_seq + 1`, so a
    /// resumed conversation continues its numbering.
    pub fn new(start_seq: u64) -> (l: ReplayLog<T>)
        ensures
            l.wf(),
            l@ == (start_seq, Seq::<(u64, T)>::empty()),
    {
        ReplayLog { last_seq: start_seq, entries: Vec::new() }
    }

    /// The number of the last frame emitted.
    pub fn last_seq(&self) -> (n: u64)
        ensures
            n == self@.0,
    {
        self.last_seq
    }

    /// How many frames are kept.
    pub fn len(&self) -> (n: usize)
        ensures
            n == self@.1.len(),
    {
        self.entries.len()
    }

    /// The `i`th kept frame, oldest first.
    pub fn entry(&self, i: usize) -> (e: &(u64, T))
        requires
            i < self@.1.len(),
        ensures
            *e == self@.1[i as int],
    {
        &self.entries[i]
    }

    /// Records `body` as the next frame and returns its number.
    pub fn emit(&mut self, body: T) -> (seq: u64)
        requires
            old(self).wf(),
            old(self)@.0 < u64::MAX,
        ensures
            final(self).wf(),
            seq == old(self)@.0 + 1,
            final(self)@ == (seq, keep_recent(old(self)@.1, (seq, body))),
    {
        let seq = self.last_seq + 1;
        let ghost before = self.entries@;
        if self.entries.len() >= REPLAY_CAPACITY {
            self.entries.remove(0);
        }
        self.entries.push((seq, body));
        self.last_seq = seq;
        proof {
            let e = self.entries@;
            if before.len() >= REPLAY_CAPACITY {
                assert(e =~= before.drop_first().push((seq, body)));
                assert forall|i: int| 0 <= i < e.len() implies #[trigger] e[i].0 == seq - (e.len() - 1 - i) by {
                    if i < e.len() - 1 {
                        assert(e[i] == before[i + 1]);
                    }
                }
            } else {
                assert(e =~= before.push((seq, body)));
                assert forall|i: int| 0 <= i < e.len() implies #[trigger] e[i].0 == seq - (e.len() - 1 - i) by {
                    if i < e.len() - 1 {
                        assert(e[i] == before[i]);
                    }
                }
            }
        }
        seq
    }

    /// Where the frames after `after` begin among the kept ones: every frame
    /// from there on is numbered after `after`, and none before it is.
    pub fn replay_start(&self, after: u64) -> (i: usize)
        requires
            self.wf(),
        ensures
            i <= self@.1.len(),
            self@.1.skip(i as int) == since(self@.1, after),
            forall|k: int| 0 <= k < i ==> #[trigger] self@.1[k].0 <= after,
            forall|k: int| i <= k < self@.1.len() ==> #[trigger] self@.1[k].0 > after,
    {
        let n = self.entries.len();
        let mut i: usize = n;
        while i > 0 && self.entries[i - 1].0 > after
            invariant
                i <= n,
                n == self@.1.len(),
                self.wf(),
                forall|k: int| i <= k < n ==> #[trigger] self@.1[k].0 > after,
            decreases i,
        {
            i = i - 1;
        }
        proof {
            let e = self@.1;
            assert forall|k: int| 0 <= k < i implies #[trigger] e[k].0 <= after by {
                assert(e[i - 1].0 <= after);
                assert(e[k].0 == self@.0 - (e.len() - 1 - k));
                assert(e[i - 1].0 == self@.0 - (e.len() - 1 - (i - 1)));
            }
            lemma_since_split(e, after, i as int);
        }
        i
    }
}

proof fn lemma_since_split<T>(e: Seq<(u64, T)>, after: u64, i: int)
    requires
        0 <= i <= e.len(),
        forall|k: int| 0 <= k < i ==> #[trigger] e[k].0 <= after,
        forall|k: int| i <= k < e.len() ==> #[trigger] e[k].0 > after,
    ensures
        e.skip(i) == since(e, after),
    decreases e.len(),
{
    if e.len() == 0 {
        assert(e.skip(i) =~= Seq::<(u64, T)>::empty());
    } else if i == e.len() {
        let p = e.drop_last();
        assert forall|k: int| 0 <= k < p.len() implies #[trigger] p[k].0 <= after by {
            assert(p[k] == e[k]);
        }
        lemma_since_split(p, after, p.len() as int);
        assert(p.skip(p.len() as int) =~= Seq::<(u64, T)>::empty());
        assert(e.skip(i) =~= Seq::<(u64, T)>::empty());
    } else {
        let p = e.drop_last();
        assert forall|k: int| 0 <= k < i implies #[trigger] p[k].0 <= after by {
            assert(p[k] == e[k]);
        }
        assert forall|k: int| i <= k < p.len() implies #[trigger] p[k].0 > after by {
            assert(p[k] == e[k]);
        }
        lemma_since_split(p, after, i);
        assert(e.last().0 > after);
        assert(e.skip(i) =~= p.skip(i).push(e.last()));
    }
}

/// Frames come out numbered in order: after any emit, every kept frame's
/// number is below the one just issued, except the frame itself.
pub proof fn law_numbers_only_grow<T>(log: ReplayLog<T>, body: T, after: ReplayLog<T>, seq: u64)
    requires
        log.wf(),
        log@.0 < u64::MAX,
        seq == log@.0 + 1,
        after@ == (seq, keep_recent(log@.1, (seq, body))),
        after.wf(),
    ensures
        after@.1.last() == (seq, body),
        forall|k: int| 0 <= k < after@.1.len() - 1 ==> #[trigger] after@.1[k].0 < seq,
        forall|k: int| 0 <= k < log@.1.len() ==> #[trigger] log@.1[k].0 < seq,
{
}

/// A viewer that saw everything up to the last frame emitted is handed
/// nothing on reconnect, and one that saw nothing the log still keeps is
/// handed every kept frame.
pub proof fn law_resume_hands_over_exactly_the_unseen<T>(log: ReplayLog<T>, seen: u64)
    requires
        log.wf(),
    ensures
        since(log@.1, log@.0) == Seq::<(u64, T)>::empty(),
        log@.1.len() > 0 && seen < log@.1[0].0 ==> since(log@.1, seen) == log@.1,
{
    let e = log@.1;
    lemma_since_split(e, log@.0, e.len() as int);
    assert(e.skip(e.len() as int) =~= Seq::<(u64, T)>::empty());
    if e.len() > 0 && seen < e[0].0 {
        assert forall|k: int| 0 <= k < e.len() implies #[trigger] e[k].0 > seen by {
            assert(e[k].0 == log@.0 - (e.len() - 1 - k));
        }
        lemma_since_split(e, seen, 0);
        assert(e.skip(0) =~= e);
    }
}

/// A log that started at `start` after emitting `bodies` in order, as
/// `emit` leaves it.
pub open spec fn emit_run<T>(start: u64, bodies: Seq<T>) -> (u64, Seq<(u64, T)>)
    decreases bodies.len(),
{
    if bodies.len() == 0 {
        (start, Seq::empty())
    } else {
        let (last, e) = emit_run(start, bodies.drop_last());
        let seq = (last + 1) as u64;
        (seq, keep_recent(e, (seq, bodies.last())))
    }
}

/// The frames `bodies` become, each with its number: `start + 1` onwards.
pub open spec fn numbered<T>(start: u64, bodies: Seq<T>) -> Seq<(u64, T)> {
    Seq::new(bodies.len(), |i: int| ((start + 1 + i) as u64, bodies[i]))
}

/// How many of `k` frames the log still holds.
pub open spec fn kept_count(k: nat) -> nat {
    if k <= REPLAY_CAPACITY {
        k
    } else {
        REPLAY_CAPACITY as nat
    }
}

/// Numbering over a run of emits: after `k` frames from a log that started
/// at `start`, the last number is `start + k`, with no gap and no repeat,
/// and the log holds the most recent frames (at most [`REPLAY_CAPACITY`]) in
/// the order they were emitted, so a replay from zero hands them all over.
pub proof fn law_a_run_of_emits_is_numbered_without_gaps<T>(start: u64, bodies: Seq<T>)
    requires
        start + bodies.len() <= u64::MAX,
    ensures
        emit_run(start, bodies).0 == start + bodies.len(),
        emit_run(start, bodies).1 == numbered(start, bodies).skip(bodies.len() - kept_count(bodies.len())),
        since(emit_run(start, bodies).1, 0) == emit_run(start, bodies).1,
    decreases bodies.len(),
{
    let k = bodies.len();
    if k == 0 {
        assert(numbered(start, bodies).skip(0) =~= Seq::<(u64, T)>::empty());
    } else {
        let b0 = bodies.drop_last();
        law_a_run_of_emits_is_numbered_without_gaps(start, b0);
        let (last, e) = emit_run(start, b0);
        let seq = (last + 1) as u64;
        let n0 = numbered(start, b0);
        let n1 = numbered(start, bodies);
        assert(n1.drop_last() =~= n0);
        assert(n1.last() == (seq, bodies.last()));
        let r = keep_recent(e, (seq, bodies.last()));
        let want = n1.skip(k - kept_count(k));
        if e.len() >= REPLAY_CAPACITY {
            assert(r =~= want);
        } else {
            assert(r =~= want);
        }
    }
    let e = emit_run(start, bodies).1;
    assert forall|i: int| 0 <= i < e.len() implies #[trigger] e[i].0 > 0 by {
        assert(e[i] == numbered(start, bodies)[i + (k - kept_count(k))]);
    }
    lemma_since_split(e, 0, 0);
    assert(e.skip(0) =~= e);
}

} // verus!

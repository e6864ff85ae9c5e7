//! Per-address limits on the endpoints that mint things.
//!
//! A lane lets at most `limit` requests from one address through within any
//! trailing `window`; a request over the limit is refused and not counted.
//! Past a size threshold a check also drops every address with no hit left in
//! the window, so the table tracks active addresses rather than every address
//! ever seen. Times are milliseconds on one monotonic clock, supplied by the
//! caller.
use vstd::prelude::*;

use crate::text::{
    chars_of, lemma_split_nonempty, split, split_chars, string_of_range, trim, trim_bounds,
    trimmed,
};

verus! {

/// Past this many addresses, a check also sweeps idle ones.
pub const SWEEP_AT: usize = 1024;

/// The hits recorded for one address.
pub struct Bucket {
    pub key: String,
    pub hits: Vec<u64>,
}

/// One throttled endpoint.
pub struct Lane {
    limit: usize,
    window_ms: u64,
    buckets: Vec<Bucket>,
}

/// An address and its recorded hits.
pub type Hits = (Seq<char>, Seq<u64>);

pub open spec fn hits_of(b: Bucket) -> Hits {
    (b.key@, b.hits@)
}

impl View for Lane {
    type V = Seq<Hits>;

    closed spec fn view(&self) -> Seq<Hits> {
        self.buckets@.map_values(|b: Bucket| hits_of(b))
    }
}

/// The hits strictly after `cutoff`, order kept.
pub open spec fn recent(hits: Seq<u64>, cutoff: u64) -> Seq<u64>
    decreases hits.len(),
{
    if hits.len() == 0 {
        hits
    } else {
        let p = recent(hits.drop_last(), cutoff);
        if hits.last() > cutoff {
            p.push(hits.last())
        } else {
            p
        }
    }
}

/// The start of the window ending at `now`.
pub open spec fn cutoff_of(now: u64, window: u64) -> u64 {
    if now >= window {
        (now - window) as u64
    } else {
        now
    }
}

/// Every address's hits trimmed to the window, addresses left with none
/// dropped.
pub open spec fn sweep(b: Seq<Hits>, cutoff: u64) -> Seq<Hits>
    decreases b.len(),
{
    if b.len() == 0 {
        b
    } else {
        let p = sweep(b.drop_last(), cutoff);
        let r = recent(b.last().1, cutoff);
        if r.len() > 0 {
            p.push((b.last().0, r))
        } else {
            p
        }
    }
}

/// Where `key` is recorded, if it is.
pub open spec fn index_of(b: Seq<Hits>, key: Seq<char>) -> Option<int> {
    if exists|i: int| 0 <= i < b.len() && b[i].0 == key {
        Some(choose|i: int| 0 <= i < b.len() && b[i].0 == key)
    } else {
        None
    }
}

pub open spec fn distinct_keys(b: Seq<Hits>) -> bool {
    forall|i: int, j: int| 0 <= i < j < b.len() ==> b[i].0 != b[j].0
}

/// The table after one check of `key` at `now`, and whether it passed.
pub open spec fn allow_spec(b: Seq<Hits>, limit: usize, window: u64, key: Seq<char>, now: u64) -> (
    Seq<Hits>,
    bool,
) {
    let cutoff = cutoff_of(now, window);
    let b1 = if b.len() > SWEEP_AT {
        sweep(b, cutoff)
    } else {
        b
    };
    let b2 = if index_of(b1, key) is Some {
        b1
    } else {
        b1.push((key, Seq::<u64>::empty()))
    };
    let i = index_of(b2, key)->0;
    let hits = recent(b2[i].1, cutoff);
    if hits.len() >= limit {
        (b2.update(i, (key, hits)), false)
    } else {
        (b2.update(i, (key, hits.push(now))), true)
    }
}

proof fn lemma_recent_len(h: Seq<u64>, cutoff: u64)
    ensures
        recent(h, cutoff).len() <= h.len(),
    decreases h.len(),
{
    if h.len() > 0 {
        lemma_recent_len(h.drop_last(), cutoff);
    }
}

proof fn lemma_sweep_props(b: Seq<Hits>, cutoff: u64, limit: usize)
    requires
        forall|i: int| 0 <= i < b.len() ==> (#[trigger] b[i]).1.len() <= limit,
    ensures
        forall|i: int| 0 <= i < sweep(b, cutoff).len() ==> (#[trigger] sweep(b, cutoff)[i]).1.len()
            <= limit,
        forall|i: int|
            0 <= i < sweep(b, cutoff).len() ==> exists|j: int|
                0 <= j < b.len() && b[j].0 == (#[trigger] sweep(b, cutoff)[i]).0,
        distinct_keys(b) ==> distinct_keys(sweep(b, cutoff)),
        sweep(b, cutoff).len() <= b.len(),
    decreases b.len(),
{
    if b.len() > 0 {
        let b0 = b.drop_last();
        assert forall|i: int| 0 <= i < b0.len() implies (#[trigger] b0[i]).1.len() <= limit by {
            assert(b0[i] == b[i]);
        }
        lemma_sweep_props(b0, cutoff, limit);
        lemma_recent_len(b.last().1, cutoff);
        assert(b[b.len() - 1].1.len() <= limit);
        let p = sweep(b0, cutoff);
        let s = sweep(b, cutoff);
        assert forall|i: int| 0 <= i < s.len() implies exists|j: int|
            0 <= j < b.len() && b[j].0 == (#[trigger] s[i]).0 by {
            if i < p.len() {
                assert(s[i] == p[i]);
                let j = choose|j: int| 0 <= j < b0.len() && b0[j].0 == p[i].0;
                assert(b[j] == b0[j]);
            } else {
                assert(b[b.len() - 1].0 == s[i].0);
            }
        }
        if distinct_keys(b) {
            assert(distinct_keys(b0)) by {
                assert forall|i: int, j: int| 0 <= i < j < b0.len() implies b0[i].0 != b0[j].0 by {
                    assert(b0[i] == b[i] && b0[j] == b[j]);
                }
            }
            assert forall|i: int, j: int| 0 <= i < j < s.len() implies s[i].0 != s[j].0 by {
                if j == s.len() - 1 && s.len() > p.len() {
                    assert(s[i] == p[i]);
                    let k = choose|k: int| 0 <= k < b0.len() && b0[k].0 == p[i].0;
                    assert(b[k] == b0[k]);
                    assert(s[j].0 == b[b.len() - 1].0);
                } else {
                    assert(s[i] == p[i] && s[j] == p[j]);
                }
            }
        }
    }
}

proof fn lemma_index_unique(b: Seq<Hits>, key: Seq<char>, i: int)
    requires
        distinct_keys(b),
        0 <= i < b.len(),
        b[i].0 == key,
    ensures
        index_of(b, key) == Some(i),
{
    let j = choose|j: int| 0 <= j < b.len() && b[j].0 == key;
    if j != i {
        if j < i {
            assert(b[j].0 != b[i].0);
        } else {
            assert(b[i].0 != b[j].0);
        }
    }
}

fn recent_hits(hits: &Vec<u64>, cutoff: u64) -> (out: Vec<u64>)
    ensures
        out@ == recent(hits@, cutoff),
{
    let mut out: Vec<u64> = Vec::new();
    let mut i: usize = 0;
    assert(hits@.take(0) =~= Seq::<u64>::empty());
    while i < hits.len()
        invariant
            i <= hits.len(),
            out@ == recent(hits@.take(i as int), cutoff),
        decreases hits.len() - i,
    {
        proof {
            let t = hits@.take(i + 1);
            assert(t.drop_last() =~= hits@.take(i as int));
            assert(t.last() == hits@[i as int]);
        }
        if hits[i] > cutoff {
            out.push(hits[i]);
        }
        i = i + 1;
    }
    assert(hits@.take(hits.len() as int) =~= hits@);
    out
}

impl Lane {
    /// Every address appears once, and none holds more than `limit` hits.
    pub open spec fn wf(&self) -> bool {
        &&& distinct_keys(self@)
        &&& forall|i: int| 0 <= i < self@.len() ==> (#[trigger] self@[i]).1.len() <= self.limit_spec()
    }

    pub closed spec fn limit_spec(&self) -> usize {
        self.limit
    }

    pub closed spec fn window_spec(&self) -> u64 {
        self.window_ms
    }

    /// A lane letting `limit` requests through per `window_ms`.
    pub fn new(limit: usize, window_ms: u64) -> (l: Lane)
        ensures
            l.wf(),
            l@ == Seq::<Hits>::empty(),
            l.limit_spec() == limit,
            l.window_spec() == window_ms,
    {
        let l = Lane { limit, window_ms, buckets: Vec::new() };
        assert(l@ =~= Seq::<Hits>::empty());
        l
    }

    /// The per-window limit; zero means the lane lets everything through.
    pub fn limit(&self) -> (n: usize)
        ensures
            n == self.limit_spec(),
    {
        self.limit
    }

    /// The window, in milliseconds.
    pub fn window_ms(&self) -> (n: u64)
        ensures
            n == self.window_spec(),
    {
        self.window_ms
    }

    proof fn lemma_view_push(q: Seq<Bucket>, b: Bucket)
        ensures
            q.push(b).map_values(|x: Bucket| hits_of(x)) == q.map_values(|x: Bucket| hits_of(x)).push(
                hits_of(b),
            ),
    {
        assert(q.push(b).map_values(|x: Bucket| hits_of(x)) =~= q.map_values(
            |x: Bucket| hits_of(x),
        ).push(hits_of(b)));
    }

    fn sweep_idle(&mut self, cutoff: u64)
        requires
            old(self).wf(),
        ensures
            final(self)@ == sweep(old(self)@, cutoff),
            final(self).wf(),
            final(self).limit_spec() == old(self).limit_spec(),
            final(self).window_spec() == old(self).window_spec(),
    {
        let ghost b = self@;
        let mut kept: Vec<Bucket> = Vec::new();
        let mut i: usize = 0;
        assert(b.take(0) =~= Seq::<Hits>::empty());
        assert(kept@.map_values(|x: Bucket| hits_of(x)) =~= Seq::<Hits>::empty());
        while i < self.buckets.len()
            invariant
                b == self@,
                i <= self.buckets.len(),
                kept@.map_values(|x: Bucket| hits_of(x)) == sweep(b.take(i as int), cutoff),
            decreases self.buckets.len() - i,
        {
            proof {
                let t = b.take(i + 1);
                assert(t.drop_last() =~= b.take(i as int));
                assert(t.last() == hits_of(self.buckets@[i as int]));
            }
            let r = recent_hits(&self.buckets[i].hits, cutoff);
            if r.len() > 0 {
                let nb = Bucket { key: self.buckets[i].key.clone(), hits: r };
                proof {
                    Self::lemma_view_push(kept@, nb);
                }
                kept.push(nb);
            }
            i = i + 1;
        }
        assert(b.take(self.buckets.len() as int) =~= b);
        self.buckets = kept;
        proof {
            lemma_sweep_props(b, cutoff, self.limit);
        }
    }

    fn find(&self, key: &String) -> (r: Option<usize>)
        requires
            self.wf(),
        ensures
            match r {
                Some(i) => index_of(self@, key@) == Some(i as int),
                None => index_of(self@, key@) is None,
            },
    {
        let mut i: usize = 0;
        while i < self.buckets.len()
            invariant
                self.wf(),
                i <= self.buckets.len(),
                forall|k: int| 0 <= k < i ==> self@[k].0 != key@,
            decreases self.buckets.len() - i,
        {
            if self.buckets[i].key == *key {
                proof {
                    lemma_index_unique(self@, key@, i as int);
                }
                return Some(i);
            }
            i = i + 1;
        }
        None
    }

    /// Count one request from `key` at `now`, or refuse it: `true` when it is
    /// within the limit. A refused request is not recorded.
    pub fn allow(&mut self, key: &String, now: u64) -> (ok: bool)
        requires
            old(self).wf(),
        ensures
            (final(self)@, ok) == allow_spec(
                old(self)@,
                old(self).limit_spec(),
                old(self).window_spec(),
                key@,
                now,
            ),
            final(self).wf(),
            final(self).limit_spec() == old(self).limit_spec(),
            final(self).window_spec() == old(self).window_spec(),
            index_of(final(self)@, key@) is Some,
            ok ==> final(self)@[index_of(final(self)@, key@)->0].1.last() == now,
    {
        let cutoff: u64 = if now >= self.window_ms {
            now - self.window_ms
        } else {
            now
        };
        if self.buckets.len() > SWEEP_AT {
            self.sweep_idle(cutoff);
        }
        let ghost b1 = self@;
        let idx = match self.find(key) {
            Some(i) => i,
            None => {
                let nb = Bucket { key: key.clone(), hits: Vec::new() };
                proof {
                    Self::lemma_view_push(self.buckets@, nb);
                }
                self.buckets.push(nb);
                proof {
                    assert(self@ =~= b1.push((key@, Seq::<u64>::empty())));
                    assert(distinct_keys(self@)) by {
                        assert forall|a: int, c: int| 0 <= a < c < self@.len() implies self@[a].0
                            != self@[c].0 by {
                            if c == self@.len() - 1 {
                                assert(self@[a] == b1[a]);
                                if b1[a].0 == key@ {
                                    assert(exists|j: int| 0 <= j < b1.len() && b1[j].0 == key@);
                                }
                            } else {
                                assert(self@[a] == b1[a] && self@[c] == b1[c]);
                            }
                        }
                    }
                    lemma_index_unique(self@, key@, (self@.len() - 1) as int);
                }
                self.buckets.len() - 1
            },
        };
        let ghost b2 = self@;
        let r = recent_hits(&self.buckets[idx].hits, cutoff);
        proof {
            lemma_recent_len(b2[idx as int].1, cutoff);
        }
        let ok = r.len() < self.limit;
        let mut hits = r;
        if ok {
            hits.push(now);
        }
        let nb = Bucket { key: key.clone(), hits };
        self.buckets.set(idx, nb);
        proof {
            assert(self@ =~= b2.update(idx as int, hits_of(nb)));
            assert(b2[idx as int].0 == key@);
            assert(forall|i: int| 0 <= i < b2.len() ==> (#[trigger] b2[i]).1.len() <= self.limit);
            assert(forall|a: int, c: int| 0 <= a < c < b2.len() ==> b2[a].0 != b2[c].0);
            assert(distinct_keys(self@)) by {
                assert forall|a: int, c: int| 0 <= a < c < self@.len() implies self@[a].0
                    != self@[c].0 by {
                    assert(self@[a].0 == b2[a].0 && self@[c].0 == b2[c].0);
                }
            }
            lemma_index_unique(self@, key@, idx as int);
        }
        ok
    }
}

/// The hits recorded for `key`: those of its bucket, none when it has none.
pub open spec fn hits_for(b: Seq<Hits>, key: Seq<char>) -> Seq<u64>
    decreases b.len(),
{
    if b.len() == 0 {
        Seq::empty()
    } else if b.last().0 == key {
        b.last().1
    } else {
        hits_for(b.drop_last(), key)
    }
}

proof fn lemma_hits_for_absent(b: Seq<Hits>, key: Seq<char>)
    requires
        forall|j: int| 0 <= j < b.len() ==> b[j].0 != key,
    ensures
        hits_for(b, key) == Seq::<u64>::empty(),
    decreases b.len(),
{
    if b.len() > 0 {
        let b0 = b.drop_last();
        assert forall|j: int| 0 <= j < b0.len() implies b0[j].0 != key by {
            assert(b0[j] == b[j]);
        }
        assert(b[b.len() - 1].0 != key);
        lemma_hits_for_absent(b0, key);
    }
}

proof fn lemma_hits_for_at(b: Seq<Hits>, key: Seq<char>, i: int)
    requires
        distinct_keys(b),
        0 <= i < b.len(),
        b[i].0 == key,
    ensures
        hits_for(b, key) == b[i].1,
    decreases b.len(),
{
    let b0 = b.drop_last();
    if i < b.len() - 1 {
        assert(b[b.len() - 1].0 != key);
        assert(distinct_keys(b0)) by {
            assert forall|x: int, y: int| 0 <= x < y < b0.len() implies b0[x].0 != b0[y].0 by {
                assert(b0[x] == b[x] && b0[y] == b[y]);
            }
        }
        assert(b0[i] == b[i]);
        lemma_hits_for_at(b0, key, i);
    }
}

/// The hits recorded for `key`, read where the lane looks them up.
proof fn lemma_hits_for_index(b: Seq<Hits>, key: Seq<char>)
    requires
        distinct_keys(b),
    ensures
        match index_of(b, key) {
            Some(i) => 0 <= i < b.len() && b[i].0 == key && hits_for(b, key) == b[i].1,
            None => hits_for(b, key) == Seq::<u64>::empty(),
        },
{
    match index_of(b, key) {
        Some(i) => {
            lemma_hits_for_at(b, key, i);
        },
        None => {
            lemma_hits_for_absent(b, key);
        },
    }
}

proof fn lemma_recent_recent(h: Seq<u64>, d: u64, c: u64)
    requires
        d <= c,
    ensures
        recent(recent(h, d), c) == recent(h, c),
    decreases h.len(),
{
    if h.len() > 0 {
        lemma_recent_recent(h.drop_last(), d, c);
        let p = recent(h.drop_last(), d);
        if h.last() > d {
            assert(p.push(h.last()).drop_last() =~= p);
        }
    }
}

proof fn lemma_recent_push(h: Seq<u64>, x: u64, c: u64)
    ensures
        recent(h.push(x), c) == (if x > c {
            recent(h, c).push(x)
        } else {
            recent(h, c)
        }),
{
    assert(h.push(x).drop_last() =~= h);
}

proof fn lemma_sweep_keys(b: Seq<Hits>, d: u64)
    ensures
        forall|i: int|
            0 <= i < sweep(b, d).len() ==> exists|j: int| 0 <= j < b.len() && b[j].0 == (#[trigger] sweep(b, d)[i]).0,
    decreases b.len(),
{
    if b.len() > 0 {
        let b0 = b.drop_last();
        lemma_sweep_keys(b0, d);
        let p = sweep(b0, d);
        let s = sweep(b, d);
        assert forall|i: int| 0 <= i < s.len() implies exists|j: int|
            0 <= j < b.len() && b[j].0 == (#[trigger] s[i]).0 by {
            if i < p.len() {
                assert(s[i] == p[i]);
                let j = choose|j: int| 0 <= j < b0.len() && b0[j].0 == p[i].0;
                assert(b[j] == b0[j]);
            } else {
                assert(b[b.len() - 1].0 == s[i].0);
            }
        }
    }
}

proof fn lemma_sweep_hits(b: Seq<Hits>, d: u64, key: Seq<char>)
    requires
        distinct_keys(b),
    ensures
        hits_for(sweep(b, d), key) == recent(hits_for(b, key), d),
    decreases b.len(),
{
    if b.len() > 0 {
        let b0 = b.drop_last();
        assert(distinct_keys(b0)) by {
            assert forall|x: int, y: int| 0 <= x < y < b0.len() implies b0[x].0 != b0[y].0 by {
                assert(b0[x] == b[x] && b0[y] == b[y]);
            }
        }
        lemma_sweep_hits(b0, d, key);
        let p = sweep(b0, d);
        let r = recent(b.last().1, d);
        if r.len() > 0 {
            assert(sweep(b, d).drop_last() =~= p);
        }
        if b.last().0 == key {
            assert forall|j: int| 0 <= j < b0.len() implies b0[j].0 != key by {
                assert(b0[j] == b[j]);
                assert(b[j].0 != b[b.len() - 1].0);
            }
            lemma_hits_for_absent(b0, key);
            if r.len() == 0 {
                assert(r =~= Seq::<u64>::empty());
                lemma_sweep_keys(b0, d);
                assert forall|j: int| 0 <= j < p.len() implies p[j].0 != key by {
                    let m = choose|m: int| 0 <= m < b0.len() && b0[m].0 == p[j].0;
                }
                lemma_hits_for_absent(p, key);
            }
        }
    }
}

proof fn lemma_sweep_distinct(b: Seq<Hits>, d: u64)
    requires
        distinct_keys(b),
    ensures
        distinct_keys(sweep(b, d)),
    decreases b.len(),
{
    if b.len() > 0 {
        let b0 = b.drop_last();
        assert(distinct_keys(b0)) by {
            assert forall|x: int, y: int| 0 <= x < y < b0.len() implies b0[x].0 != b0[y].0 by {
                assert(b0[x] == b[x] && b0[y] == b[y]);
            }
        }
        lemma_sweep_distinct(b0, d);
        lemma_sweep_keys(b0, d);
        let p = sweep(b0, d);
        let s = sweep(b, d);
        assert forall|x: int, y: int| 0 <= x < y < s.len() implies s[x].0 != s[y].0 by {
            if y == s.len() - 1 && s.len() > p.len() {
                assert(s[x] == p[x]);
                let m = choose|m: int| 0 <= m < b0.len() && b0[m].0 == p[x].0;
                assert(b[m] == b0[m]);
                assert(s[y].0 == b[b.len() - 1].0);
            } else {
                assert(s[x] == p[x] && s[y] == p[y]);
            }
        }
    }
}

/// One check, as the table changes under it: the verdict is whether the
/// address had room in the window, the address gains `now` exactly when it
/// passes, and every other address keeps what it had in any later window.
proof fn lemma_allow_step(b: Seq<Hits>, limit: usize, window: u64, key: Seq<char>, now: u64, k: Seq<char>, c: u64)
    requires
        distinct_keys(b),
        cutoff_of(now, window) <= c,
    ensures
        distinct_keys(allow_spec(b, limit, window, key, now).0),
        allow_spec(b, limit, window, key, now).1 == (recent(hits_for(b, key), cutoff_of(now, window)).len()
            < limit),
        k != key ==> recent(hits_for(allow_spec(b, limit, window, key, now).0, k), c) == recent(
            hits_for(b, k),
            c,
        ),
        k == key ==> recent(hits_for(allow_spec(b, limit, window, key, now).0, k), c) == (if allow_spec(
            b,
            limit,
            window,
            key,
            now,
        ).1 && now > c {
            recent(hits_for(b, k), c).push(now)
        } else {
            recent(hits_for(b, k), c)
        }),
{
    let d = cutoff_of(now, window);
    let b1 = if b.len() > SWEEP_AT {
        sweep(b, d)
    } else {
        b
    };
    if b.len() > SWEEP_AT {
        lemma_sweep_distinct(b, d);
        lemma_sweep_hits(b, d, k);
        lemma_sweep_hits(b, d, key);
        lemma_recent_recent(hits_for(b, k), d, c);
        lemma_recent_recent(hits_for(b, key), d, d);
    }
    assert(recent(hits_for(b1, k), c) == recent(hits_for(b, k), c));
    assert(recent(hits_for(b1, key), d) == recent(hits_for(b, key), d));
    let b2 = if index_of(b1, key) is Some {
        b1
    } else {
        b1.push((key, Seq::<u64>::empty()))
    };
    if index_of(b1, key) is None {
        assert forall|j: int| 0 <= j < b1.len() implies b1[j].0 != key by {
            if b1[j].0 == key {
                assert(exists|m: int| 0 <= m < b1.len() && b1[m].0 == key);
            }
        }
        assert(distinct_keys(b2)) by {
            assert forall|x: int, y: int| 0 <= x < y < b2.len() implies b2[x].0 != b2[y].0 by {
                if y == b2.len() - 1 {
                    assert(b2[x] == b1[x]);
                } else {
                    assert(b2[x] == b1[x] && b2[y] == b1[y]);
                }
            }
        }
        lemma_hits_for_absent(b1, key);
        assert(b2.drop_last() =~= b1);
    }
    assert(hits_for(b2, k) == hits_for(b1, k));
    assert(hits_for(b2, key) == hits_for(b1, key));
    lemma_index_unique_exists(b2, key);
    lemma_hits_for_index(b2, key);
    let i = index_of(b2, key)->0;
    let hits = recent(b2[i].1, d);
    let ok = hits.len() < limit;
    let nh = if ok {
        hits.push(now)
    } else {
        hits
    };
    let r = b2.update(i, (key, nh));
    assert(allow_spec(b, limit, window, key, now) == (r, ok));
    assert(distinct_keys(r)) by {
        assert forall|x: int, y: int| 0 <= x < y < r.len() implies r[x].0 != r[y].0 by {
            assert(r[x].0 == b2[x].0 && r[y].0 == b2[y].0);
        }
    }
    lemma_hits_for_at(r, key, i);
    if k == key {
        lemma_recent_push(hits, now, c);
        lemma_recent_recent(b2[i].1, d, c);
        lemma_recent_recent(hits_for(b1, key), d, c);
        if b.len() > SWEEP_AT {
            lemma_recent_recent(hits_for(b, key), d, c);
        }
    } else {
        if exists|j: int| 0 <= j < b2.len() && b2[j].0 == k {
            let j = choose|j: int| 0 <= j < b2.len() && b2[j].0 == k;
            assert(j != i);
            assert(r[j] == b2[j]);
            lemma_hits_for_at(r, k, j);
            lemma_hits_for_at(b2, k, j);
        } else {
            assert forall|j: int| 0 <= j < r.len() implies r[j].0 != k by {
                assert(r[j].0 == b2[j].0);
            }
            lemma_hits_for_absent(r, k);
            lemma_hits_for_absent(b2, k);
        }
    }
}

/// After a key is given a bucket it has one.
proof fn lemma_index_unique_exists(b: Seq<Hits>, key: Seq<char>)
    requires
        distinct_keys(b),
        index_of(b, key) is Some || (b.len() > 0 && b.last().0 == key),
    ensures
        index_of(b, key) is Some,
{
    if index_of(b, key) is None {
        assert(b[b.len() - 1].0 == key);
        assert(exists|m: int| 0 <= m < b.len() && b[m].0 == key);
    }
}

/// Requests from a fresh lane, replayed in order as (address, time): the
/// table after, and each verdict in turn.
pub open spec fn replay(limit: usize, window: u64, reqs: Seq<(Seq<char>, u64)>) -> (Seq<Hits>, Seq<bool>)
    decreases reqs.len(),
{
    if reqs.len() == 0 {
        (Seq::empty(), Seq::empty())
    } else {
        let prev = replay(limit, window, reqs.drop_last());
        let step = allow_spec(prev.0, limit, window, reqs.last().0, reqs.last().1);
        (step.0, prev.1.push(step.1))
    }
}

/// The times at which `key`'s requests were let through, in order.
pub open spec fn passed(reqs: Seq<(Seq<char>, u64)>, oks: Seq<bool>, key: Seq<char>) -> Seq<u64>
    decreases reqs.len(),
{
    if reqs.len() == 0 || oks.len() == 0 {
        Seq::empty()
    } else {
        let p = passed(reqs.drop_last(), oks.drop_last(), key);
        if reqs.last().0 == key && oks.last() {
            p.push(reqs.last().1)
        } else {
            p
        }
    }
}

/// How many of `times` fall in the window `(lo, hi]`.
pub open spec fn count_in(times: Seq<u64>, lo: int, hi: int) -> nat
    decreases times.len(),
{
    if times.len() == 0 {
        0
    } else {
        count_in(times.drop_last(), lo, hi) + if lo < times.last() && times.last() <= hi {
            1nat
        } else {
            0nat
        }
    }
}

/// Requests whose times never go backwards.
pub open spec fn in_order(reqs: Seq<(Seq<char>, u64)>) -> bool {
    forall|i: int, j: int| 0 <= i <= j < reqs.len() ==> reqs[i].1 <= reqs[j].1
}

proof fn lemma_replay(limit: usize, window: u64, reqs: Seq<(Seq<char>, u64)>, k: Seq<char>, c: u64)
    requires
        forall|i: int| 0 <= i < reqs.len() ==> (#[trigger] reqs[i]).1 >= window,
        forall|i: int| 0 <= i < reqs.len() ==> (#[trigger] reqs[i]).1 - window <= c,
    ensures
        distinct_keys(replay(limit, window, reqs).0),
        replay(limit, window, reqs).1.len() == reqs.len(),
        recent(hits_for(replay(limit, window, reqs).0, k), c) == recent(
            passed(reqs, replay(limit, window, reqs).1, k),
            c,
        ),
    decreases reqs.len(),
{
    if reqs.len() > 0 {
        let pre = reqs.drop_last();
        assert forall|i: int| 0 <= i < pre.len() implies (#[trigger] pre[i]).1 >= window && pre[i].1 - window
            <= c by {
            assert(pre[i] == reqs[i]);
        }
        lemma_replay(limit, window, pre, k, c);
        let prev = replay(limit, window, pre);
        let last = reqs[reqs.len() - 1];
        assert(last == reqs.last());
        lemma_allow_step(prev.0, limit, window, last.0, last.1, k, c);
        let oks = replay(limit, window, reqs).1;
        assert(oks.drop_last() =~= prev.1);
        lemma_recent_push(passed(pre, prev.1, k), last.1, c);
    }
}

proof fn lemma_passed_bound(reqs: Seq<(Seq<char>, u64)>, oks: Seq<bool>, key: Seq<char>, m: u64)
    requires
        forall|i: int| 0 <= i < reqs.len() ==> (#[trigger] reqs[i]).1 <= m,
    ensures
        forall|i: int| 0 <= i < passed(reqs, oks, key).len() ==> #[trigger] passed(reqs, oks, key)[i] <= m,
    decreases reqs.len(),
{
    if reqs.len() > 0 && oks.len() > 0 {
        let pre = reqs.drop_last();
        assert forall|i: int| 0 <= i < pre.len() implies (#[trigger] pre[i]).1 <= m by {
            assert(pre[i] == reqs[i]);
        }
        lemma_passed_bound(pre, oks.drop_last(), key, m);
        assert(reqs[reqs.len() - 1] == reqs.last());
        let p = passed(pre, oks.drop_last(), key);
        let q = passed(reqs, oks, key);
        assert forall|i: int| 0 <= i < q.len() implies #[trigger] q[i] <= m by {
            if i < p.len() {
                assert(q[i] == p[i]);
            }
        }
    }
}

proof fn lemma_count_in_recent(times: Seq<u64>, lo: u64, hi: int)
    requires
        forall|i: int| 0 <= i < times.len() ==> #[trigger] times[i] <= hi,
    ensures
        count_in(times, lo as int, hi) == recent(times, lo).len(),
    decreases times.len(),
{
    if times.len() > 0 {
        let p = times.drop_last();
        assert forall|i: int| 0 <= i < p.len() implies #[trigger] p[i] <= hi by {
            assert(p[i] == times[i]);
        }
        lemma_count_in_recent(p, lo, hi);
        assert(times[times.len() - 1] == times.last());
    }
}

proof fn lemma_count_in_none(times: Seq<u64>, lo: int, hi: int)
    requires
        forall|i: int| 0 <= i < times.len() ==> #[trigger] times[i] <= lo,
    ensures
        count_in(times, lo, hi) == 0,
    decreases times.len(),
{
    if times.len() > 0 {
        let p = times.drop_last();
        assert forall|i: int| 0 <= i < p.len() implies #[trigger] p[i] <= lo by {
            assert(p[i] == times[i]);
        }
        lemma_count_in_none(p, lo, hi);
        assert(times[times.len() - 1] == times.last());
    }
}

proof fn lemma_recent_mono(times: Seq<u64>, lo: u64, hi: u64)
    requires
        lo <= hi,
    ensures
        recent(times, hi).len() <= recent(times, lo).len(),
    decreases times.len(),
{
    if times.len() > 0 {
        lemma_recent_mono(times.drop_last(), lo, hi);
    }
}

/// A lane lets at most `limit` requests from one address through within any
/// window of its length: however the requests of every address interleave,
/// those of `key` that passed with a time in `(t - window, t]` number at most
/// `limit`. Times are those of one clock that never goes backwards, each at
/// least one window past its origin.
pub proof fn law_at_most_limit_per_window(
    limit: usize,
    window: u64,
    reqs: Seq<(Seq<char>, u64)>,
    key: Seq<char>,
    t: u64,
)
    requires
        in_order(reqs),
        forall|i: int| 0 <= i < reqs.len() ==> (#[trigger] reqs[i]).1 >= window,
    ensures
        count_in(passed(reqs, replay(limit, window, reqs).1, key), t - window, t as int) <= limit,
    decreases reqs.len(),
{
    if reqs.len() > 0 {
        let pre = reqs.drop_last();
        let last = reqs[reqs.len() - 1];
        assert(last == reqs.last());
        assert forall|i: int| 0 <= i < pre.len() implies (#[trigger] pre[i]).1 >= window && pre[i].1
            <= last.1 by {
            assert(pre[i] == reqs[i]);
        }
        assert(in_order(pre)) by {
            assert forall|i: int, j: int| 0 <= i <= j < pre.len() implies pre[i].1 <= pre[j].1 by {
                assert(pre[i] == reqs[i] && pre[j] == reqs[j]);
            }
        }
        law_at_most_limit_per_window(limit, window, pre, key, t);
        let prev = replay(limit, window, pre);
        let oks = replay(limit, window, reqs).1;
        assert(oks.drop_last() =~= prev.1);
        let s = passed(pre, prev.1, key);
        let ok = oks.last();
        let cut = (last.1 - window) as u64;
        assert forall|i: int| 0 <= i < pre.len() implies (#[trigger] pre[i]).1 - window <= cut by {
            assert(pre[i] == reqs[i]);
        }
        lemma_replay(limit, window, pre, key, cut);
        lemma_allow_step(prev.0, limit, window, last.0, last.1, key, cut);
        let all = passed(reqs, oks, key);
        if last.0 == key && ok {
            assert(all == s.push(last.1));
            assert(all.drop_last() =~= s);
            lemma_passed_bound(pre, prev.1, key, last.1);
            if last.1 <= t {
                if last.1 <= t - window {
                    lemma_count_in_none(s, t - window, t as int);
                } else {
                    let lo = (t - window) as u64;
                    lemma_count_in_recent(s, lo, t as int);
                    lemma_recent_mono(s, cut, lo);
                }
            }
        } else {
            assert(all == s);
        }
    }
}

/// One check touches one address: whether it passes depends on that
/// address's hits in the window alone; a refused request records nothing
/// (the address keeps exactly the hits it had in any later window); and every
/// other address keeps exactly the hits it had in any later window.
pub proof fn law_each_address_is_counted_alone(
    b: Seq<Hits>,
    limit: usize,
    window: u64,
    key: Seq<char>,
    now: u64,
    other: Seq<char>,
    c: u64,
)
    requires
        distinct_keys(b),
        cutoff_of(now, window) <= c,
    ensures
        allow_spec(b, limit, window, key, now).1 == (recent(hits_for(b, key), cutoff_of(now, window)).len()
            < limit),
        !allow_spec(b, limit, window, key, now).1 ==> recent(
            hits_for(allow_spec(b, limit, window, key, now).0, key),
            c,
        ) == recent(hits_for(b, key), c),
        other != key ==> recent(hits_for(allow_spec(b, limit, window, key, now).0, other), c) == recent(
            hits_for(b, other),
            c,
        ),
{
    lemma_allow_step(b, limit, window, key, now, other, c);
    lemma_allow_step(b, limit, window, key, now, key, c);
}

/// Requests from one address within one window, on a fresh lane: the first
/// `limit` pass and every later one is refused.
pub proof fn law_the_first_limit_requests_pass(
    limit: usize,
    window: u64,
    key: Seq<char>,
    reqs: Seq<(Seq<char>, u64)>,
)
    requires
        reqs.len() > 0,
        in_order(reqs),
        forall|i: int| 0 <= i < reqs.len() ==> (#[trigger] reqs[i]).0 == key,
        forall|i: int| 0 <= i < reqs.len() ==> (#[trigger] reqs[i]).1 >= window,
        forall|i: int| 0 <= i < reqs.len() ==> (#[trigger] reqs[i]).1 - window < reqs[0].1,
    ensures
        replay(limit, window, reqs).1.len() == reqs.len(),
        forall|i: int| 0 <= i < reqs.len() ==> #[trigger] replay(limit, window, reqs).1[i] == (i < limit),
        passed(reqs, replay(limit, window, reqs).1, key).len() == if reqs.len() < limit {
            reqs.len() as int
        } else {
            limit as int
        },
        forall|i: int|
            0 <= i < passed(reqs, replay(limit, window, reqs).1, key).len() ==> #[trigger] passed(
                reqs,
                replay(limit, window, reqs).1,
                key,
            )[i] >= reqs[0].1,
    decreases reqs.len(),
{
    let n = reqs.len();
    let last = reqs[n - 1];
    assert(last == reqs.last());
    let cut = (last.1 - window) as u64;
    let pre = reqs.drop_last();
    assert forall|i: int| 0 <= i < pre.len() implies (#[trigger] pre[i]).1 - window <= cut && pre[i].1 >= window by {
        assert(pre[i] == reqs[i]);
    }
    lemma_replay(limit, window, pre, key, cut);
    let prev = replay(limit, window, pre);
    lemma_allow_step(prev.0, limit, window, last.0, last.1, key, cut);
    let oks = replay(limit, window, reqs).1;
    assert(oks.drop_last() =~= prev.1);
    let sp = passed(pre, prev.1, key);
    if n == 1 {
        assert(sp =~= Seq::<u64>::empty());
        assert(hits_for(prev.0, key) =~= Seq::<u64>::empty());
        assert(recent(Seq::<u64>::empty(), cut) =~= Seq::<u64>::empty());
        let all = passed(reqs, oks, key);
        if oks.last() {
            assert(all == sp.push(last.1));
        } else {
            assert(all == sp);
        }
        assert(reqs[0] == last);
    } else {
        assert(in_order(pre)) by {
            assert forall|i: int, j: int| 0 <= i <= j < pre.len() implies pre[i].1 <= pre[j].1 by {
                assert(pre[i] == reqs[i] && pre[j] == reqs[j]);
            }
        }
        assert forall|i: int| 0 <= i < pre.len() implies (#[trigger] pre[i]).0 == key && pre[i].1 >= window
            && pre[i].1 - window < pre[0].1 by {
            assert(pre[i] == reqs[i]);
            assert(pre[0] == reqs[0]);
        }
        law_the_first_limit_requests_pass(limit, window, key, pre);
        assert(pre[0] == reqs[0]);
        assert(reqs[0].1 > cut);
        assert forall|i: int| 0 <= i < sp.len() implies #[trigger] sp[i] > cut by {}
        lemma_recent_all(sp, cut);
        let all = passed(reqs, oks, key);
        if oks.last() {
            assert(all == sp.push(last.1));
            assert(last.1 >= reqs[0].1);
            assert forall|i: int| 0 <= i < all.len() implies #[trigger] all[i] >= reqs[0].1 by {
                if i < sp.len() {
                    assert(all[i] == sp[i]);
                }
            }
        } else {
            assert(all == sp);
        }
        assert forall|i: int| 0 <= i < n implies #[trigger] oks[i] == (i < limit) by {
            if i < n - 1 {
                assert(oks[i] == prev.1[i]);
            }
        }
    }
}

proof fn lemma_recent_all(h: Seq<u64>, c: u64)
    requires
        forall|i: int| 0 <= i < h.len() ==> #[trigger] h[i] > c,
    ensures
        recent(h, c) == h,
    decreases h.len(),
{
    if h.len() > 0 {
        let p = h.drop_last();
        assert forall|i: int| 0 <= i < p.len() implies #[trigger] p[i] > c by {
            assert(p[i] == h[i]);
        }
        lemma_recent_all(p, c);
        assert(h[h.len() - 1] == h.last());
        assert(p.push(h.last()) =~= h);
    }
}

/// The address a request is counted against: the first hop of
/// `x-forwarded-for`, else `x-real-ip`, trimmed; `unknown` when neither header
/// is readable.
pub open spec fn client_ip_spec(forwarded_for: Option<Seq<char>>, real_ip: Option<Seq<char>>) -> Seq<
    char,
> {
    match forwarded_for {
        Some(v) => trim(split(v, ',')[0]),
        None => match real_ip {
            Some(r) => trim(r),
            None => "unknown"@,
        },
    }
}

/// What the limiter answers a refused request with: the status, the
/// `Retry-After` seconds (the window's length) and the text.
pub open spec fn refusal(window_ms: u64) -> (u16, u64, Seq<char>) {
    (429, window_ms / 1000, "too many requests from this address"@)
}

impl Lane {
    /// The middleware's verdict on one request from `key` at `now`: a lane
    /// with no limit lets everything through untouched; otherwise the request
    /// passes or is refused as [`Lane::allow`] decides.
    pub fn per_ip(&mut self, key: &String, now: u64) -> (r: Result<(), (u16, u64, &'static str)>)
        requires
            old(self).wf(),
        ensures
            final(self).wf(),
            final(self).limit_spec() == old(self).limit_spec(),
            final(self).window_spec() == old(self).window_spec(),
            old(self).limit_spec() == 0 ==> r is Ok && final(self)@ == old(self)@,
            old(self).limit_spec() != 0 ==> {
                let (t, ok) = allow_spec(
                    old(self)@,
                    old(self).limit_spec(),
                    old(self).window_spec(),
                    key@,
                    now,
                );
                &&& final(self)@ == t
                &&& (r is Ok <==> ok)
            },
            r matches Err(e) ==> (e.0, e.1, e.2@) == refusal(old(self).window_spec()),
    {
        if self.limit == 0 {
            return Ok(());
        }
        if self.allow(key, now) {
            Ok(())
        } else {
            Err((429, self.window_ms / 1000, "too many requests from this address"))
        }
    }
}

/// The address to count a request against, from the two proxy headers (each
/// `None` when absent or not visible ASCII).
pub fn client_ip(forwarded_for: Option<&str>, real_ip: Option<&str>) -> (out: String)
    ensures
        out@ == client_ip_spec(
            match forwarded_for {
                Some(v) => Some(v@),
                None => None,
            },
            match real_ip {
                Some(v) => Some(v@),
                None => None,
            },
        ),
{
    match forwarded_for {
        Some(v) => {
            let cs = chars_of(v);
            let parts = split_chars(&cs, ',');
            proof {
                lemma_split_nonempty(v@, ',');
            }
            let first = &parts[0];
            let (a, b) = trim_bounds(first);
            string_of_range(first, a, b)
        },
        None => match real_ip {
            Some(r) => trimmed(r),
            None => String::from_str("unknown"),
        },
    }
}

} // verus!

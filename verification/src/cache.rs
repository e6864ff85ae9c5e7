//! The short-lived cache of rendered stats bodies, keyed by conversation.
//!
//! A pane that polls every few seconds and a push after each turn would
//! otherwise both run the same queries; a body computed for a conversation is
//! served again for [`CACHE_TTL_MS`]. The map is swept of stale bodies once it
//! grows past [`SWEEP_AT`], so conversations that ended do not accumulate.
//! Times are milliseconds on one monotonic clock, supplied by the caller.
use vstd::prelude::*;

verus! {

/// How long a body is served after it was stored.
pub const CACHE_TTL_MS: u64 = 2_000;

/// How many bodies the cache holds before it sweeps.
pub const SWEEP_AT: usize = 64;

/// How old a body must be for a sweep to drop it.
pub const STALE_MS: u64 = 60_000;

/// One cached body: the conversation, when it was stored, and the body.
pub struct CachedBody {
    pub key: String,
    pub stored_ms: u64,
    pub body: String,
}

/// The cache.
pub struct BodyCache {
    entries: Vec<CachedBody>,
}

/// An entry as the contracts see it.
pub type EntryV = (Seq<char>, u64, Seq<char>);

pub open spec fn entry_view(e: CachedBody) -> EntryV {
    (e.key@, e.stored_ms, e.body@)
}

impl View for BodyCache {
    type V = Seq<EntryV>;

    closed spec fn view(&self) -> Seq<EntryV> {
        self.entries@.map_values(|e: CachedBody| entry_view(e))
    }
}

/// How long ago `at` was, or zero when it is not in the past.
pub open spec fn age(now: u64, at: u64) -> int {
    if now >= at {
        now - at
    } else {
        0
    }
}

/// Where `key` is cached, if it is.
pub open spec fn find(c: Seq<EntryV>, key: Seq<char>) -> Option<int>
    decreases c.len(),
{
    if c.len() == 0 {
        None
    } else if c.last().0 == key {
        Some(c.len() - 1)
    } else {
        find(c.drop_last(), key)
    }
}

/// The entries a sweep keeps: those younger than [`STALE_MS`], in order.
pub open spec fn sweep(c: Seq<EntryV>, now: u64) -> Seq<EntryV>
    decreases c.len(),
{
    if c.len() == 0 {
        c
    } else {
        let p = sweep(c.drop_last(), now);
        if age(now, c.last().1) < STALE_MS {
            p.push(c.last())
        } else {
            p
        }
    }
}

/// The body served for `key` at `now`: the cached one while it is younger
/// than [`CACHE_TTL_MS`].
pub open spec fn get_spec(c: Seq<EntryV>, key: Seq<char>, now: u64) -> Option<Seq<char>> {
    match find(c, key) {
        Some(i) => if age(now, c[i].1) < CACHE_TTL_MS {
            Some(c[i].2)
        } else {
            None
        },
        None => None,
    }
}

/// The cache after `body` is stored for `key` at `now`: swept first when it
/// has grown past [`SWEEP_AT`], then the key's entry replaced or added.
pub open spec fn store_spec(c: Seq<EntryV>, key: Seq<char>, body: Seq<char>, now: u64) -> Seq<EntryV> {
    let s = if c.len() > SWEEP_AT {
        sweep(c, now)
    } else {
        c
    };
    match find(s, key) {
        Some(i) => s.update(i, (key, now, body)),
        None => s.push((key, now, body)),
    }
}

proof fn lemma_find(c: Seq<EntryV>, key: Seq<char>)
    ensures
        match find(c, key) {
            Some(i) => 0 <= i < c.len() && c[i].0 == key && forall|j: int|
                i < j < c.len() ==> #[trigger] c[j].0 != key,
            None => forall|j: int| 0 <= j < c.len() ==> #[trigger] c[j].0 != key,
        },
    decreases c.len(),
{
    if c.len() > 0 && c.last().0 != key {
        let p = c.drop_last();
        lemma_find(p, key);
        match find(p, key) {
            Some(i) => {
                assert(c[i] == p[i]);
                assert forall|j: int| i < j < c.len() implies #[trigger] c[j].0 != key by {
                    if j < p.len() {
                        assert(c[j] == p[j]);
                    }
                }
            },
            None => {
                assert forall|j: int| 0 <= j < c.len() implies #[trigger] c[j].0 != key by {
                    if j < p.len() {
                        assert(c[j] == p[j]);
                    }
                }
            },
        }
    }
}

fn same_key(a: &String, b: &str) -> (r: bool)
    ensures
        r == (a@ == b@),
{
    let x = crate::text::chars_of(a.as_str());
    let y = crate::text::chars_of(b);
    crate::text::chars_eq(&x, &y)
}

impl BodyCache {
    /// An empty cache.
    pub fn new() -> (c: BodyCache)
        ensures
            c@ == Seq::<EntryV>::empty(),
    {
        let c = BodyCache { entries: Vec::new() };
        assert(c@ =~= Seq::<EntryV>::empty());
        c
    }

    fn position(&self, key: &str) -> (r: Option<usize>)
        ensures
            self@.len() == self.entries.len(),
            match r {
                Some(i) => find(self@, key@) == Some(i as int) && i < self.entries.len(),
                None => find(self@, key@) is None,
            },
    {
        let mut i = self.entries.len();
        assert(self@.take(i as int) =~= self@);
        while i > 0
            invariant
                i <= self.entries.len(),
                self@ == self.entries@.map_values(|e: CachedBody| entry_view(e)),
                find(self@, key@) == find(self@.take(i as int), key@),
            decreases i,
        {
            proof {
                let t = self@.take(i as int);
                assert(t.drop_last() =~= self@.take(i - 1));
                assert(t.last() == entry_view(self.entries@[i - 1]));
            }
            if same_key(&self.entries[i - 1].key, key) {
                return Some(i - 1);
            }
            i = i - 1;
        }
        assert(self@.take(0) =~= Seq::<EntryV>::empty());
        None
    }

    /// The body cached for `key`, while it is fresh.
    pub fn get(&self, key: &str, now: u64) -> (r: Option<String>)
        ensures
            match r {
                Some(b) => get_spec(self@, key@, now) == Some(b@),
                None => get_spec(self@, key@, now) is None,
            },
    {
        match self.position(key) {
            Some(i) => {
                let e = &self.entries[i];
                let a: u64 = if now >= e.stored_ms {
                    now - e.stored_ms
                } else {
                    0
                };
                assert(entry_view(self.entries@[i as int]) == self@[i as int]);
                if a < CACHE_TTL_MS {
                    Some(e.body.clone())
                } else {
                    None
                }
            },
            None => None,
        }
    }

    fn sweep_stale(&mut self, now: u64)
        ensures
            final(self)@ == sweep(old(self)@, now),
    {
        let ghost old_view = self@;
        let mut kept: Vec<CachedBody> = Vec::new();
        let mut rest: Vec<CachedBody> = Vec::new();
        std::mem::swap(&mut rest, &mut self.entries);
        let ghost all = rest@;
        assert(old_view == all.map_values(|e: CachedBody| entry_view(e)));
        let mut i: usize = 0;
        let n = rest.len();
        assert(old_view.take(0) =~= Seq::<EntryV>::empty());
        assert(rest@ =~= all.skip(0));
        while i < n
            invariant
                i <= n,
                n == all.len(),
                rest@ == all.skip(i as int),
                old_view == all.map_values(|e: CachedBody| entry_view(e)),
                kept@.map_values(|e: CachedBody| entry_view(e)) == sweep(old_view.take(i as int), now),
            decreases n - i,
        {
            let e = rest.remove(0);
            assert(e == all[i as int]);
            assert(rest@ =~= all.skip(i + 1));
            proof {
                let t = old_view.take(i + 1);
                assert(t.drop_last() =~= old_view.take(i as int));
                assert(t.last() == entry_view(e));
            }
            let a: u64 = if now >= e.stored_ms {
                now - e.stored_ms
            } else {
                0
            };
            let ghost before = kept@;
            if a < STALE_MS {
                kept.push(e);
                assert(kept@.map_values(|x: CachedBody| entry_view(x)) =~= before.map_values(
                    |x: CachedBody| entry_view(x),
                ).push(entry_view(e)));
            }
            i = i + 1;
        }
        assert(old_view.take(n as int) =~= old_view);
        self.entries = kept;
    }

    /// Stores `body` for `key` at `now`.
    pub fn store(&mut self, key: &str, body: String, now: u64)
        ensures
            final(self)@ == store_spec(old(self)@, key@, body@, now),
    {
        if self.entries.len() > SWEEP_AT {
            self.sweep_stale(now);
        }
        let ghost s = self@;
        let ghost bv = body@;
        match self.position(key) {
            Some(i) => {
                let ghost before = self.entries@;
                self.entries.set(i, CachedBody { key: String::from_str(key), stored_ms: now, body });
                assert(self@ =~= s.update(i as int, (key@, now, bv)));
            },
            None => {
                let ghost before = self.entries@;
                self.entries.push(CachedBody { key: String::from_str(key), stored_ms: now, body });
                assert(self@ =~= s.push((key@, now, bv)));
            },
        }
    }

    /// Drops the body cached for `key`, so the next read recomputes it.
    pub fn invalidate(&mut self, key: &str)
        ensures
            get_spec(final(self)@, key@, 0) is None,
            forall|k: Seq<char>, now: u64|
                k != key@ ==> #[trigger] get_spec(final(self)@, k, now) == get_spec(old(self)@, k, now),
    {
        let ghost old_view = self@;
        let mut kept: Vec<CachedBody> = Vec::new();
        let mut rest: Vec<CachedBody> = Vec::new();
        std::mem::swap(&mut rest, &mut self.entries);
        let ghost all = rest@;
        let n = rest.len();
        let mut i: usize = 0;
        assert(rest@ =~= all.skip(0));
        while i < n
            invariant
                i <= n,
                n == all.len(),
                rest@ == all.skip(i as int),
                old_view == all.map_values(|e: CachedBody| entry_view(e)),
                kept@.map_values(|e: CachedBody| entry_view(e)) == drop_key(old_view.take(i as int), key@),
            decreases n - i,
        {
            let e = rest.remove(0);
            assert(e == all[i as int]);
            assert(rest@ =~= all.skip(i + 1));
            proof {
                let t = old_view.take(i + 1);
                assert(t.drop_last() =~= old_view.take(i as int));
                assert(t.last() == entry_view(e));
            }
            let ghost before = kept@;
            if !same_key(&e.key, key) {
                kept.push(e);
                assert(kept@.map_values(|x: CachedBody| entry_view(x)) =~= before.map_values(
                    |x: CachedBody| entry_view(x),
                ).push(entry_view(e)));
            }
            i = i + 1;
        }
        assert(old_view.take(n as int) =~= old_view);
        self.entries = kept;
        proof {
            lemma_drop_key(old_view, key@);
            assert forall|k: Seq<char>, now: u64| k != key@ implies #[trigger] get_spec(self@, k, now)
                == get_spec(old_view, k, now) by {
                assert(same_hit(drop_key(old_view, key@), old_view, k));
            }
        }
    }
}

/// The entries whose key is not `key`, in order.
pub open spec fn drop_key(c: Seq<EntryV>, key: Seq<char>) -> Seq<EntryV>
    decreases c.len(),
{
    if c.len() == 0 {
        c
    } else {
        let p = drop_key(c.drop_last(), key);
        if c.last().0 == key {
            p
        } else {
            p.push(c.last())
        }
    }
}

/// Whether `k` finds the same entry in `d` as in `c`.
pub open spec fn same_hit(d: Seq<EntryV>, c: Seq<EntryV>, k: Seq<char>) -> bool {
    match (find(d, k), find(c, k)) {
        (Some(i), Some(j)) => d[i] == c[j],
        (None, None) => true,
        _ => false,
    }
}

proof fn lemma_drop_key(c: Seq<EntryV>, key: Seq<char>)
    ensures
        find(drop_key(c, key), key) is None,
        forall|k: Seq<char>| k != key ==> #[trigger] same_hit(drop_key(c, key), c, k),
    decreases c.len(),
{
    if c.len() > 0 {
        let q = c.drop_last();
        lemma_drop_key(q, key);
        let p = drop_key(q, key);
        let d = drop_key(c, key);
        if c.last().0 != key {
            assert(d == p.push(c.last()));
            assert(d.drop_last() =~= p);
            assert forall|k: Seq<char>| k != key implies #[trigger] same_hit(d, c, k) by {
                assert(same_hit(p, q, k));
                if c.last().0 != k {
                    assert(find(d, k) == find(p, k));
                    assert(find(c, k) == find(q, k));
                    match find(p, k) {
                        Some(i) => {
                            lemma_find(p, k);
                            assert(d[i] == p[i]);
                            lemma_find(q, k);
                            let j = find(q, k)->0;
                            assert(c[j] == q[j]);
                        },
                        None => {},
                    }
                }
            }
        } else {
            assert(d == p);
            assert forall|k: Seq<char>| k != key implies #[trigger] same_hit(d, c, k) by {
                assert(same_hit(p, q, k));
                assert(find(c, k) == find(q, k));
                match find(q, k) {
                    Some(j) => {
                        lemma_find(q, k);
                        assert(c[j] == q[j]);
                    },
                    None => {},
                }
            }
        }
    }
}

/// What was just stored is what is served, until its time is up.
pub proof fn law_a_stored_body_is_served_while_fresh(c: Seq<EntryV>, key: Seq<char>, body: Seq<char>, now: u64, later: u64)
    requires
        now <= later,
        later - now < CACHE_TTL_MS,
    ensures
        get_spec(store_spec(c, key, body, now), key, later) == Some(body),
{
    let s = if c.len() > SWEEP_AT {
        sweep(c, now)
    } else {
        c
    };
    lemma_find(s, key);
    let t = store_spec(c, key, body, now);
    match find(s, key) {
        Some(i) => {
            lemma_find(t, key);
            assert forall|j: int| i < j < t.len() implies #[trigger] t[j].0 != key by {
                assert(t[j] == s[j]);
            }
            lemma_find_last(t, key, i);
        },
        None => {
            assert(t.drop_last() =~= s);
        },
    }
}

proof fn lemma_find_last(c: Seq<EntryV>, key: Seq<char>, i: int)
    requires
        0 <= i < c.len(),
        c[i].0 == key,
        forall|j: int| i < j < c.len() ==> #[trigger] c[j].0 != key,
    ensures
        find(c, key) == Some(i),
    decreases c.len(),
{
    if i < c.len() - 1 {
        let p = c.drop_last();
        assert forall|j: int| i < j < p.len() implies #[trigger] p[j].0 != key by {
            assert(p[j] == c[j]);
        }
        assert(c.last() == c[c.len() - 1]);
        lemma_find_last(p, key, i);
    }
}

} // verus!

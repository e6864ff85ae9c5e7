//! The approval requests of one session that wait on a person.
//!
//! When a tool call needs a human, governance parks the call under its
//! approval id with whatever will carry the verdict back to it, and the
//! approval endpoint resolves the id. A parked call is answered at most
//! once: resolving takes the entry out, so a second answer for the same id,
//! or an answer for an id that was never parked or is already forgotten,
//! reaches nothing. Closing the session drops every waiting entry.
use vstd::prelude::*;

verus! {

/// What waits under each approval id, in the order it was parked.
pub struct PendingApprovals<T> {
    parked: Vec<(String, T)>,
}

pub open spec fn entries_view<T>(v: Seq<(String, T)>) -> Seq<(Seq<char>, T)> {
    v.map_values(|e: (String, T)| (e.0@, e.1))
}

impl<T> View for PendingApprovals<T> {
    type V = Seq<(Seq<char>, T)>;

    closed spec fn view(&self) -> Seq<(Seq<char>, T)> {
        entries_view(self.parked@)
    }
}

/// What waits under `id`: the most recent entry parked under it.
pub open spec fn lookup<T>(s: Seq<(Seq<char>, T)>, id: Seq<char>) -> Option<T>
    decreases s.len(),
{
    if s.len() == 0 {
        None
    } else if s.last().0 == id {
        Some(s.last().1)
    } else {
        lookup(s.drop_last(), id)
    }
}

/// The entries not under `id`, in order.
pub open spec fn without<T>(s: Seq<(Seq<char>, T)>, id: Seq<char>) -> Seq<(Seq<char>, T)>
    decreases s.len(),
{
    if s.len() == 0 {
        s
    } else {
        let p = without(s.drop_last(), id);
        if s.last().0 == id {
            p
        } else {
            p.push(s.last())
        }
    }
}

/// Parking `item` under `id` replaces whatever waited there.
pub open spec fn park_spec<T>(s: Seq<(Seq<char>, T)>, id: Seq<char>, item: T) -> Seq<(Seq<char>, T)> {
    without(s, id).push((id, item))
}

pub proof fn lemma_without<T>(s: Seq<(Seq<char>, T)>, id: Seq<char>)
    ensures
        lookup(without(s, id), id) is None,
        forall|k: Seq<char>| k != id ==> #[trigger] lookup(without(s, id), k) == lookup(s, k),
    decreases s.len(),
{
    if s.len() > 0 {
        let p = without(s.drop_last(), id);
        lemma_without(s.drop_last(), id);
        if s.last().0 != id {
            assert(without(s, id).drop_last() =~= p);
        }
        assert forall|k: Seq<char>| k != id implies #[trigger] lookup(without(s, id), k) == lookup(s, k) by {
            assert(lookup(p, k) == lookup(s.drop_last(), k));
        }
    }
}

/// A parked call is answered at most once: after `id` is resolved nothing
/// waits under it, whatever waited under any other id still does, and what
/// was parked last under `id` is what the resolution reached.
pub proof fn law_an_approval_is_answered_once<T>(s: Seq<(Seq<char>, T)>, id: Seq<char>, item: T)
    ensures
        lookup(park_spec(s, id, item), id) == Some(item),
        lookup(without(park_spec(s, id, item), id), id) is None,
        forall|k: Seq<char>|
            k != id ==> #[trigger] lookup(without(park_spec(s, id, item), id), k) == lookup(s, k),
{
    let p = park_spec(s, id, item);
    assert(p.drop_last() =~= without(s, id));
    lemma_without(s, id);
    lemma_without(p, id);
    assert forall|k: Seq<char>| k != id implies #[trigger] lookup(without(p, id), k) == lookup(s, k) by {
        assert(lookup(p, k) == lookup(without(s, id), k));
    }
}

impl<T> PendingApprovals<T> {
    /// Nothing waiting.
    pub fn new() -> (a: PendingApprovals<T>)
        ensures
            a@ == Seq::<(Seq<char>, T)>::empty(),
    {
        let a = PendingApprovals { parked: Vec::new() };
        assert(a@ =~= Seq::<(Seq<char>, T)>::empty());
        a
    }

    /// How many calls wait.
    pub fn len(&self) -> (n: usize)
        ensures
            n == self@.len(),
    {
        self.parked.len()
    }

    /// Takes every entry under `id` out, returning the last one parked.
    fn take(&mut self, id: &str) -> (r: Option<T>)
        ensures
            r == lookup(old(self)@, id@),
            final(self)@ == without(old(self)@, id@),
    {
        let ghost all = self@;
        let mut rest: Vec<(String, T)> = Vec::new();
        std::mem::swap(&mut rest, &mut self.parked);
        let ghost raw = rest@;
        let wanted = crate::text::chars_of(id);
        let n = rest.len();
        let mut kept: Vec<(String, T)> = Vec::new();
        let mut found: Option<T> = None;
        let mut i: usize = 0;
        assert(rest@ =~= raw.skip(0));
        assert(all.take(0) =~= Seq::<(Seq<char>, T)>::empty());
        assert(entries_view(kept@) =~= Seq::<(Seq<char>, T)>::empty());
        while i < n
            invariant
                i <= n,
                n == raw.len(),
                rest.len() == n - i,
                rest@ == raw.skip(i as int),
                all == entries_view(raw),
                wanted@ == id@,
                entries_view(kept@) == without(all.take(i as int), id@),
                found == lookup(all.take(i as int), id@),
            decreases n - i,
        {
            let ghost before = rest@;
            let e = rest.remove(0);
            assert(e == raw[i as int]);
            assert(rest@ =~= raw.skip(i + 1));
            proof {
                let t = all.take(i + 1);
                assert(t.drop_last() =~= all.take(i as int));
                assert(t.last() == (e.0@, e.1));
            }
            let key = crate::text::chars_of(e.0.as_str());
            if crate::text::chars_eq(&key, &wanted) {
                found = Some(e.1);
            } else {
                let ghost kv = kept@;
                kept.push(e);
                assert(entries_view(kept@) =~= entries_view(kv).push((e.0@, e.1)));
            }
            i = i + 1;
        }
        assert(all.take(n as int) =~= all);
        self.parked = kept;
        found
    }

    /// Parks `item` under `id`, in place of whatever waited there.
    pub fn park(&mut self, id: String, item: T)
        ensures
            final(self)@ == park_spec(old(self)@, id@, item),
    {
        let _ = self.take(id.as_str());
        let ghost before = self.parked@;
        self.parked.push((id, item));
        assert(self@ =~= entries_view(before).push((id@, item)));
    }

    /// Takes out what waits under `id`, for its verdict; `None` when nothing
    /// does.
    pub fn resolve(&mut self, id: &str) -> (r: Option<T>)
        ensures
            r == lookup(old(self)@, id@),
            final(self)@ == without(old(self)@, id@),
    {
        self.take(id)
    }

    /// Drops what waits under `id` without answering it.
    pub fn forget(&mut self, id: &str)
        ensures
            final(self)@ == without(old(self)@, id@),
    {
        let _ = self.take(id);
    }

    /// Drops everything waiting, as closing the session does.
    pub fn clear(&mut self)
        ensures
            final(self)@ == Seq::<(Seq<char>, T)>::empty(),
    {
        self.parked = Vec::new();
        assert(self@ =~= Seq::<(Seq<char>, T)>::empty());
    }
}

} // verus!

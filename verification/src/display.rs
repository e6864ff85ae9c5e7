//! Display rules shared by the pi stats endpoint.
//!
//! Costs arrive as microdollars because that is the only unit the provider
//! spine records without rounding. A pane that printed them raw would show
//! `$0.000000` for every early turn, so the scale of the number decides how
//! many decimals it keeps. Printing the decimals themselves is float
//! formatting and happens at the edge; which scale applies, and how a grant's
//! trailing zeros are trimmed, is decided here.
use vstd::prelude::*;
use vstd::relations::{sorted_by, total_ordering};

verus! {

/// How many decimals a dollar figure keeps.
#[derive(PartialEq, Eq, Structural, Clone, Copy, Debug)]
pub enum CostScale {
    /// Exactly zero: `$0`.
    Zero,
    /// Under a cent (or negative): six decimals, so early turns are not `$0.0000`.
    Micro,
    /// A cent or more: four decimals.
    Cents,
}

/// The scale for an amount of microdollars: a cent is ten thousand of them.
pub open spec fn cost_scale_spec(microdollars: int) -> CostScale {
    if microdollars == 0 {
        CostScale::Zero
    } else if microdollars < 10_000 {
        CostScale::Micro
    } else {
        CostScale::Cents
    }
}

/// The number of decimals `cost` shows for `microdollars`.
pub fn cost_scale(microdollars: i64) -> (s: CostScale)
    ensures
        s == cost_scale_spec(microdollars as int),
{
    if microdollars == 0 {
        CostScale::Zero
    } else if microdollars < 10_000 {
        CostScale::Micro
    } else {
        CostScale::Cents
    }
}

/// `s` without trailing copies of `c`.
pub open spec fn trim_end_char(s: Seq<char>, c: char) -> Seq<char>
    decreases s.len(),
{
    if s.len() > 0 && s.last() == c {
        trim_end_char(s.drop_last(), c)
    } else {
        s
    }
}

/// A rendered amount with the zeros after its decimal point trimmed, and the
/// point itself when nothing is left after it; an amount with no decimal point
/// is left alone.
pub open spec fn round_figure(s: Seq<char>) -> Seq<char> {
    if s.contains('.') {
        trim_end_char(trim_end_char(s, '0'), '.')
    } else {
        s
    }
}

fn trim_end_index(s: &Vec<char>, upto: usize, c: char) -> (e: usize)
    requires
        upto <= s.len(),
    ensures
        e <= upto,
        s@.take(e as int) == trim_end_char(s@.take(upto as int), c),
{
    let mut e = upto;
    while e > 0 && s[e - 1] == c
        invariant
            e <= upto <= s.len(),
            trim_end_char(s@.take(upto as int), c) == trim_end_char(s@.take(e as int), c),
        decreases e,
    {
        proof {
            let t = s@.take(e as int);
            assert(t.drop_last() =~= s@.take(e - 1));
        }
        e = e - 1;
    }
    e
}

/// A grant rendered as a round figure: `$5.0000` is `$5`, `$0.500000` is
/// `$0.5`. A grant is a figure someone chose, and trailing zeros would make a
/// deliberate round number look like a measurement.
pub fn round_figure_of(rendered: &str) -> (out: String)
    ensures
        out@ == round_figure(rendered@),
{
    let cs = crate::text::chars_of(rendered);
    let mut has_point = false;
    let mut i: usize = 0;
    while i < cs.len()
        invariant
            i <= cs.len(),
            has_point == exists|j: int| 0 <= j < i && cs@[j] == '.',
        decreases cs.len() - i,
    {
        if cs[i] == '.' {
            has_point = true;
        }
        i = i + 1;
    }
    if !has_point {
        assert forall|j: int| 0 <= j < cs@.len() implies cs@[j] != '.' by {}
        assert(!rendered@.contains('.'));
        return crate::text::string_of_chars(&cs);
    }
    assert(cs@.take(cs.len() as int) =~= cs@);
    let e0 = trim_end_index(&cs, cs.len(), '0');
    let e1 = trim_end_index(&cs, e0, '.');
    assert(cs@.take(e0 as int).take(e1 as int) =~= cs@.take(e1 as int));
    let out = crate::text::string_of_range(&cs, 0, e1);
    assert(out@ =~= cs@.take(e1 as int));
    out
}

proof fn lemma_trim_end_shape(s: Seq<char>, c: char)
    ensures
        trim_end_char(s, c).len() <= s.len(),
        trim_end_char(s, c) == s.take(trim_end_char(s, c).len() as int),
        forall|j: int| trim_end_char(s, c).len() <= j < s.len() ==> #[trigger] s[j] == c,
        trim_end_char(s, c).len() > 0 ==> trim_end_char(s, c).last() != c,
    decreases s.len(),
{
    if s.len() > 0 && s.last() == c {
        let s0 = s.drop_last();
        lemma_trim_end_shape(s0, c);
        let t = trim_end_char(s0, c);
        assert(s0.take(t.len() as int) =~= s.take(t.len() as int));
        assert forall|j: int| t.len() <= j < s.len() implies #[trigger] s[j] == c by {
            if j < s0.len() {
                assert(s[j] == s0[j]);
            }
        }
    } else {
        assert(s.take(s.len() as int) =~= s);
    }
}

/// Making a grant a round figure only ever trims the fractional part: for an
/// amount with one decimal point, the result is the amount cut after some
/// position no earlier than the point, everything cut away is a zero or the
/// point itself, and a result that keeps the point ends in a non-zero digit.
/// So `$10.0000` is `$10` and `$0.500000` is `$0.5`; no digit before the
/// point is ever lost.
pub proof fn law_round_figure_keeps_the_whole_part(s: Seq<char>, point: int)
    requires
        0 <= point < s.len(),
        s[point] == '.',
        forall|j: int| 0 <= j < s.len() && j != point ==> s[j] != '.',
    ensures
        ({
            let r = round_figure(s);
            &&& point <= r.len() <= s.len()
            &&& r == s.take(r.len() as int)
            &&& forall|j: int| r.len() <= j < s.len() ==> (#[trigger] s[j] == '0' || s[j] == '.')
            &&& r.len() > point ==> r.last() != '0' && r.last() != '.'
        }),
{
    assert(s.contains('.'));
    let t1 = trim_end_char(s, '0');
    lemma_trim_end_shape(s, '0');
    if t1.len() <= point {
        assert(s[point] == '0');
    }
    let t2 = trim_end_char(t1, '.');
    lemma_trim_end_shape(t1, '.');
    if t2.len() < point {
        assert(t1[t2.len() as int] == '.');
        assert(t1[t2.len() as int] == s[t2.len() as int]);
    }
    if t2.len() > point && t2.len() < t1.len() {
        assert(t1[t2.len() as int] == '.');
        assert(t1[t2.len() as int] == s[t2.len() as int]);
    }
    assert(t1.take(t2.len() as int) =~= s.take(t2.len() as int));
    assert forall|j: int| t2.len() <= j < s.len() implies (#[trigger] s[j] == '0' || s[j] == '.') by {
        if j < t1.len() {
            assert(t1[j] == s[j]);
        }
    }
}

/// An amount without a decimal point is already a round figure and is
/// shown as it is.
pub proof fn law_a_whole_amount_is_left_alone(s: Seq<char>)
    requires
        forall|j: int| 0 <= j < s.len() ==> s[j] != '.',
    ensures
        round_figure(s) == s,
{
}

/// The order a median is taken in.
pub open spec fn ascending() -> spec_fn(i32, i32) -> bool {
    |a: i32, b: i32| a <= b
}

/// The middle value once sorted (the upper of the two middles for an even
/// count), or `None` when nothing has completed. The median rather than the
/// mean: one cold start would drag an average far enough to misrepresent
/// every turn after it.
pub open spec fn median_spec(values: Seq<i32>) -> Option<i32> {
    if values.len() == 0 {
        None
    } else {
        Some(values.sort_by(ascending())[(values.len() / 2) as int])
    }
}

proof fn lemma_ascending_total()
    ensures
        total_ordering(ascending()),
{
    let leq = ascending();
    assert(vstd::relations::reflexive(leq));
    assert(vstd::relations::antisymmetric(leq));
    assert(vstd::relations::transitive(leq));
    assert(vstd::relations::strongly_connected(leq));
}

fn sorted_copy(values: &Vec<i32>) -> (out: Vec<i32>)
    ensures
        out@ == values@.sort_by(ascending()),
{
    let ghost leq = ascending();
    let mut out: Vec<i32> = Vec::new();
    let mut i: usize = 0;
    assert(values@.take(0) =~= Seq::<i32>::empty());
    proof {
        Seq::<i32>::empty().to_multiset_ensures();
    }
    while i < values.len()
        invariant
            i <= values.len(),
            leq == ascending(),
            sorted_by(out@, leq),
            out@.to_multiset() == values@.take(i as int).to_multiset(),
        decreases values.len() - i,
    {
        let x = values[i];
        let mut pos: usize = 0;
        while pos < out.len() && out[pos] <= x
            invariant
                pos <= out.len(),
                forall|k: int| 0 <= k < pos ==> out@[k] <= x,
            decreases out.len() - pos,
        {
            pos = pos + 1;
        }
        let ghost before = out@;
        out.insert(pos, x);
        proof {
            assert(out@ == before.insert(pos as int, x));
            assert forall|a: int, b: int| 0 <= a < b < out@.len() implies #[trigger] leq(
                out@[a],
                out@[b],
            ) by {
                if pos < before.len() {
                    assert(x < before[pos as int]);
                }
                if a < pos && b < pos {
                    assert(leq(before[a], before[b]));
                } else if a < pos && b == pos {
                } else if a < pos && b > pos {
                    assert(leq(before[a], before[b - 1]));
                } else if a == pos {
                    assert(leq(before[pos as int], before[b - 1]) || b - 1 == pos);
                } else {
                    assert(leq(before[a - 1], before[b - 1]));
                }
            }
            assert(values@.take(i + 1) =~= values@.take(i as int).push(x));
            vstd::seq_lib::to_multiset_insert(before, pos as int, x);
            vstd::seq_lib::to_multiset_build(values@.take(i as int), x);

        }
        i = i + 1;
    }
    proof {
        assert(values@.take(values.len() as int) =~= values@);
        lemma_ascending_total();
        values@.lemma_sort_by_ensures(leq);
        vstd::seq_lib::lemma_sorted_unique(out@, values@.sort_by(leq), leq);
    }
    out
}

/// The median of a set of latencies, or `None` when nothing has completed.
pub fn median(values: Vec<i32>) -> (r: Option<i32>)
    ensures
        r == median_spec(values@),
{
    if values.len() == 0 {
        return None;
    }
    let sorted = sorted_copy(&values);
    proof {
        lemma_ascending_total();
        values@.lemma_sort_by_ensures(ascending());
        vstd::seq_lib::to_multiset_len(values@);
        vstd::seq_lib::to_multiset_len(sorted@);
    }
    Some(sorted[values.len() / 2])
}

/// How many of `s` lie below `x`.
pub open spec fn count_below(s: Seq<i32>, x: i32) -> nat
    decreases s.len(),
{
    if s.len() == 0 {
        0
    } else {
        count_below(s.drop_last(), x) + if s.last() < x {
            1nat
        } else {
            0nat
        }
    }
}

/// How many of `s` lie above `x`.
pub open spec fn count_above(s: Seq<i32>, x: i32) -> nat
    decreases s.len(),
{
    if s.len() == 0 {
        0
    } else {
        count_above(s.drop_last(), x) + if s.last() > x {
            1nat
        } else {
            0nat
        }
    }
}

proof fn lemma_counts_add(a: Seq<i32>, b: Seq<i32>, x: i32)
    ensures
        count_below(a + b, x) == count_below(a, x) + count_below(b, x),
        count_above(a + b, x) == count_above(a, x) + count_above(b, x),
    decreases b.len(),
{
    if b.len() == 0 {
        assert(a + b =~= a);
    } else {
        lemma_counts_add(a, b.drop_last(), x);
        assert((a + b).drop_last() =~= a + b.drop_last());
        assert((a + b).last() == b.last());
    }
}

proof fn lemma_counts_len(s: Seq<i32>, x: i32)
    ensures
        count_below(s, x) <= s.len(),
        count_above(s, x) <= s.len(),
    decreases s.len(),
{
    if s.len() > 0 {
        lemma_counts_len(s.drop_last(), x);
    }
}

proof fn lemma_counts_none(s: Seq<i32>, x: i32)
    ensures
        (forall|i: int| 0 <= i < s.len() ==> #[trigger] s[i] >= x) ==> count_below(s, x) == 0,
        (forall|i: int| 0 <= i < s.len() ==> #[trigger] s[i] <= x) ==> count_above(s, x) == 0,
    decreases s.len(),
{
    if s.len() > 0 {
        let p = s.drop_last();
        lemma_counts_none(p, x);
        if forall|i: int| 0 <= i < s.len() ==> #[trigger] s[i] >= x {
            assert forall|i: int| 0 <= i < p.len() implies #[trigger] p[i] >= x by {
                assert(p[i] == s[i]);
            }
            assert(s[s.len() - 1] == s.last());
        }
        if forall|i: int| 0 <= i < s.len() ==> #[trigger] s[i] <= x {
            assert forall|i: int| 0 <= i < p.len() implies #[trigger] p[i] <= x by {
                assert(p[i] == s[i]);
            }
            assert(s[s.len() - 1] == s.last());
        }
    }
}

proof fn lemma_counts_remove(s: Seq<i32>, i: int, x: i32)
    requires
        0 <= i < s.len(),
    ensures
        count_below(s, x) == count_below(s.remove(i), x) + if s[i] < x {
            1nat
        } else {
            0nat
        },
        count_above(s, x) == count_above(s.remove(i), x) + if s[i] > x {
            1nat
        } else {
            0nat
        },
{
    let a = s.take(i);
    let b = s.skip(i);
    let c = s.skip(i + 1);
    assert(s =~= a + b);
    assert(s.remove(i) =~= a + c);
    assert(b =~= seq![s[i]] + c);
    lemma_counts_add(a, b, x);
    lemma_counts_add(a, c, x);
    let one = seq![s[i]];
    lemma_counts_add(one, c, x);
    assert(one.drop_last() =~= Seq::<i32>::empty());
    assert(one.last() == s[i]);
    assert(count_below(one.drop_last(), x) == 0);
    assert(count_above(one.drop_last(), x) == 0);
}

proof fn lemma_below_bound(s: Seq<i32>, m: int)
    requires
        sorted_by(s, ascending()),
        0 <= m < s.len(),
    ensures
        count_below(s, s[m]) <= m,
{
    let x = s[m];
    let lo = s.take(m);
    let hi = s.skip(m);
    assert(s =~= lo + hi);
    lemma_counts_add(lo, hi, x);
    assert forall|i: int| 0 <= i < hi.len() implies #[trigger] hi[i] >= x by {
        assert(hi[i] == s[m + i]);
        if i > 0 {
            assert(ascending()(s[m], s[m + i]));
        }
    }
    lemma_counts_none(hi, x);
    lemma_counts_len(lo, x);
}

proof fn lemma_above_bound(s: Seq<i32>, m: int)
    requires
        sorted_by(s, ascending()),
        0 <= m < s.len(),
    ensures
        count_above(s, s[m]) <= s.len() - 1 - m,
{
    let x = s[m];
    let lo = s.take(m + 1);
    let hi = s.skip(m + 1);
    assert(s =~= lo + hi);
    lemma_counts_add(lo, hi, x);
    assert forall|i: int| 0 <= i < lo.len() implies #[trigger] lo[i] <= x by {
        assert(lo[i] == s[i]);
        if i < m {
            assert(ascending()(s[i], s[m]));
        }
    }
    lemma_counts_none(lo, x);
    lemma_counts_len(hi, x);
}

proof fn lemma_counts_permute(a: Seq<i32>, b: Seq<i32>, x: i32)
    requires
        a.to_multiset() == b.to_multiset(),
    ensures
        count_below(a, x) == count_below(b, x),
        count_above(a, x) == count_above(b, x),
    decreases a.len(),
{
    vstd::seq_lib::to_multiset_len(a);
    vstd::seq_lib::to_multiset_len(b);
    if a.len() > 0 {
        let y = a.last();
        assert(a.contains(y)) by {
            assert(a[a.len() - 1] == y);
        }
        vstd::seq_lib::to_multiset_contains(a, y);
        vstd::seq_lib::to_multiset_contains(b, y);
        let j = choose|j: int| 0 <= j < b.len() && b[j] == y;
        vstd::seq_lib::to_multiset_remove(a, a.len() - 1);
        vstd::seq_lib::to_multiset_remove(b, j);
        assert(a.remove(a.len() - 1) =~= a.drop_last());
        lemma_counts_permute(a.drop_last(), b.remove(j), x);
        lemma_counts_remove(b, j, x);
    }
}

/// The median does not depend on the order the values came in.
pub proof fn law_median_ignores_order(a: Seq<i32>, b: Seq<i32>)
    requires
        a.to_multiset() == b.to_multiset(),
    ensures
        median_spec(a) == median_spec(b),
{
    lemma_ascending_total();
    a.lemma_sort_by_ensures(ascending());
    b.lemma_sort_by_ensures(ascending());
    vstd::seq_lib::to_multiset_len(a);
    vstd::seq_lib::to_multiset_len(b);
    vstd::seq_lib::lemma_sorted_unique(a.sort_by(ascending()), b.sort_by(ascending()), ascending());
}

/// The median is one of the values, with at most half of them (rounded
/// down) below it and at most half of the rest above it.
pub proof fn law_median_is_a_middle_value(values: Seq<i32>)
    requires
        values.len() > 0,
    ensures
        median_spec(values) matches Some(x) && values.contains(x) && count_below(values, x) <= values.len()
            / 2 && count_above(values, x) <= (values.len() - 1) / 2,
{
    let leq = ascending();
    lemma_ascending_total();
    values.lemma_sort_by_ensures(leq);
    let s = values.sort_by(leq);
    vstd::seq_lib::to_multiset_len(values);
    vstd::seq_lib::to_multiset_len(s);
    let n = values.len();
    let m = (n / 2) as int;
    let x = s[m];
    assert(median_spec(values) == Some(x));
    assert(s.contains(x));
    vstd::seq_lib::to_multiset_contains(s, x);
    vstd::seq_lib::to_multiset_contains(values, x);
    lemma_counts_permute(values, s, x);
    lemma_below_bound(s, m);
    lemma_above_bound(s, m);
}

} // verus!

//! Rounding and suppression for the signed-in tier of the pulse.
//!
//! A signed-in visitor is shown the deployment's activity as an order of
//! magnitude, not as digits: an exact counter that moves by one while only
//! one other person is on the site becomes an observation of that person. So
//! the member tier gets buckets. Below [`MIN_PEOPLE`] distinct accounts a
//! window is withheld entirely, because a visitor who knows they are one of two
//! learns the other's usage by subtracting their own whatever bucket is shown.
//!
//! Figures of a thousand and up are printed with one decimal (`1.2k`), which
//! is float formatting and happens at the edge; which band a figure falls in,
//! and the label of every band below a thousand, are decided here.
use vstd::prelude::*;

use crate::decimal::{decimal, i64_to_string};

verus! {

/// The fewest distinct accounts a window may describe.
pub const MIN_PEOPLE: i64 = 3;

/// Whether a window with `people` distinct accounts may be published.
pub fn window_is_publishable(people: i64) -> (b: bool)
    ensures
        b == (people >= MIN_PEOPLE),
{
    people >= MIN_PEOPLE
}

/// `n` rounded to the nearest multiple of `step`, halves up, and never below
/// one step: a small non-zero count must not round to nothing.
pub open spec fn round_to_spec(n: int, step: int) -> int {
    let rounded = (n + step / 2) / step * step;
    if rounded >= step {
        rounded
    } else {
        step
    }
}

proof fn lemma_multiple_below(a: int, step: int)
    requires
        a >= 0,
        step >= 1,
    ensures
        0 <= (a / step) * step <= a,
{
    assert(0 <= (a / step) * step <= a) by (nonlinear_arith)
        requires
            a >= 0,
            step >= 1,
    ;
}

fn round_to(n: i64, step: i64) -> (r: i64)
    requires
        0 <= n <= 1_000_000,
        1 <= step <= 1_000,
    ensures
        r == round_to_spec(n as int, step as int),
{
    let half_up = n + step / 2;
    let q = half_up / step;
    proof {
        lemma_multiple_below(half_up as int, step as int);
    }
    let rounded = q * step;
    if rounded >= step {
        rounded
    } else {
        step
    }
}

/// How a count is shown to a member.
pub enum Bucket {
    /// A label settled by the count alone: `0`, `<10`, `<1k`, or a rounded
    /// whole number.
    Label(String),
    /// Thousands with one decimal (`1.2k`), or none for tokens (`12k`).
    Thousands,
    /// Millions with one decimal (`3.4M`).
    Millions,
}

/// What a bucket stands for: the label's text, or which of the two
/// printed scales.
pub open spec fn bucket_view(b: Bucket) -> Result<Seq<char>, bool> {
    match b {
        Bucket::Label(s) => Ok(s@),
        Bucket::Thousands => Err(false),
        Bucket::Millions => Err(true),
    }
}

/// The bucket for a request count: `0`, `<10`, tens, fifties, then thousands
/// and millions.
pub open spec fn bucket_spec(n: int) -> Result<Seq<char>, bool> {
    if n <= 0 {
        Ok("0"@)
    } else if n < 10 {
        Ok("<10"@)
    } else if n < 100 {
        Ok(decimal(round_to_spec(n, 10)))
    } else if n < 1_000 {
        Ok(decimal(round_to_spec(n, 50)))
    } else if n < 1_000_000 {
        Err(false)
    } else {
        Err(true)
    }
}

/// The bucket a member sees for a count of requests.
pub fn bucket(n: i64) -> (b: Bucket)
    ensures
        bucket_view(b) == bucket_spec(n as int),
{
    if n <= 0 {
        Bucket::Label(String::from_str("0"))
    } else if n < 10 {
        Bucket::Label(String::from_str("<10"))
    } else if n < 100 {
        Bucket::Label(i64_to_string(round_to(n, 10)))
    } else if n < 1_000 {
        Bucket::Label(i64_to_string(round_to(n, 50)))
    } else if n < 1_000_000 {
        Bucket::Thousands
    } else {
        Bucket::Millions
    }
}

/// The bucket for a token count: anything under a thousand is `<1k`.
pub open spec fn bucket_tokens_spec(n: int) -> Result<Seq<char>, bool> {
    if n < 1_000 {
        Ok("<1k"@)
    } else if n < 1_000_000 {
        Err(false)
    } else {
        Err(true)
    }
}

/// The bucket a member sees for a count of tokens.
pub fn bucket_tokens(n: i64) -> (b: Bucket)
    ensures
        bucket_view(b) == bucket_tokens_spec(n as int),
{
    if n < 1_000 {
        Bucket::Label(String::from_str("<1k"))
    } else if n < 1_000_000 {
        Bucket::Thousands
    } else {
        Bucket::Millions
    }
}

/// Who is asking, which decides how much of the pulse comes back.
#[derive(PartialEq, Eq, Structural, Clone, Copy, Debug)]
pub enum Tier {
    /// Lifetime totals only: a window is where the identifiable numbers live.
    Anonymous,
    /// The 24h window, bucketed, and withheld when too few people are in it.
    Member,
    /// The window unrounded, plus the operator block.
    Admin,
}

/// Models listed in a member's mix; beyond a handful the tail is noise.
pub const MODEL_LIMIT: i64 = 5;

/// Models listed in an admin's mix, where a misrouted model shows up.
pub const ADMIN_MODEL_LIMIT: i64 = 12;

/// Refused tools listed for an admin; a member sees the single worst.
pub const ADMIN_BLOCKED_LIMIT: i64 = 10;

/// How long a member or anonymous snapshot is served, in seconds.
pub const CACHE_TTL_SECS: u64 = 60;

/// How long an admin snapshot is served, in seconds: it costs far more.
pub const ADMIN_CACHE_TTL_SECS: u64 = 120;

/// What the window section of the pulse holds for a tier.
#[derive(PartialEq, Eq, Structural, Clone, Copy, Debug)]
pub enum WindowPlan {
    /// No window at all.
    Withheld,
    /// The window, with figures exact (admin) or bucketed, and how many
    /// models and refused tools to list.
    Shown { exact: bool, model_limit: i64, blocked_limit: i64 },
}

/// The window a tier sees, given how many distinct accounts are in it.
pub open spec fn window_plan_spec(tier: Tier, people: int) -> WindowPlan {
    match tier {
        Tier::Anonymous => WindowPlan::Withheld,
        Tier::Member => if people >= MIN_PEOPLE {
            WindowPlan::Shown { exact: false, model_limit: MODEL_LIMIT, blocked_limit: 1 }
        } else {
            WindowPlan::Withheld
        },
        Tier::Admin => WindowPlan::Shown {
            exact: true,
            model_limit: ADMIN_MODEL_LIMIT,
            blocked_limit: ADMIN_BLOCKED_LIMIT,
        },
    }
}

/// The window a tier sees. Suppression comes before any further query: a
/// window this sparse is not going to be sent.
pub fn window_plan(tier: Tier, people: i64) -> (p: WindowPlan)
    ensures
        p == window_plan_spec(tier, people as int),
{
    match tier {
        Tier::Anonymous => WindowPlan::Withheld,
        Tier::Member => if window_is_publishable(people) {
            WindowPlan::Shown { exact: false, model_limit: MODEL_LIMIT, blocked_limit: 1 }
        } else {
            WindowPlan::Withheld
        },
        Tier::Admin => WindowPlan::Shown {
            exact: true,
            model_limit: ADMIN_MODEL_LIMIT,
            blocked_limit: ADMIN_BLOCKED_LIMIT,
        },
    }
}

/// Below the admin tier, a window is sent only when at least
/// [`MIN_PEOPLE`] accounts are in it, its figures are never exact, and an
/// anonymous caller never gets one.
pub proof fn law_sparse_windows_stay_home(tier: Tier, people: int)
    requires
        tier != Tier::Admin,
    ensures
        window_plan_spec(tier, people) matches WindowPlan::Shown { exact, .. } ==> !exact && people
            >= MIN_PEOPLE && tier == Tier::Member,
{
}

/// How long a tier's snapshot is served before it is recomputed.
pub fn ttl(tier: Tier) -> (s: u64)
    ensures
        s == (if tier == Tier::Admin {
            ADMIN_CACHE_TTL_SECS
        } else {
            CACHE_TTL_SECS
        }),
{
    match tier {
        Tier::Admin => ADMIN_CACHE_TTL_SECS,
        _ => CACHE_TTL_SECS,
    }
}

/// Whether a snapshot taken `age_secs` ago may still be served to `tier`.
pub fn is_fresh(tier: Tier, age_secs: u64) -> (b: bool)
    ensures
        b == (age_secs < (if tier == Tier::Admin {
            ADMIN_CACHE_TTL_SECS
        } else {
            CACHE_TTL_SECS
        })),
{
    age_secs < ttl(tier)
}

/// `v` clamped to the range of an `i64`, as the saturating operations give it.
pub open spec fn saturate(v: int) -> int {
    if v > i64::MAX {
        i64::MAX as int
    } else if v < i64::MIN {
        i64::MIN as int
    } else {
        v
    }
}

/// `part` as a whole percentage of `whole`, the multiplication saturating
/// and the division truncating toward zero.
pub open spec fn percent_of(part: int, whole: int) -> int {
    let p = saturate(part * 100);
    if p >= 0 {
        p / whole
    } else {
        -((-p) / whole)
    }
}

fn percent(part: i64, whole: i64) -> (r: i64)
    requires
        whole > 0,
    ensures
        r == percent_of(part as int, whole as int),
{
    let p: i64 = if part > 92_233_720_368_547_758 {
        i64::MAX
    } else if part < -92_233_720_368_547_758 {
        i64::MIN
    } else {
        part * 100
    };
    assert(p == saturate(part * 100)) by (nonlinear_arith)
        requires
            part > 92_233_720_368_547_758 ==> p == i64::MAX,
            part < -92_233_720_368_547_758 ==> p == i64::MIN,
            -92_233_720_368_547_758 <= part <= 92_233_720_368_547_758 ==> p == part * 100,
    ;
    if p >= 0 {
        let q = p / whole;
        assert(q == (p as int) / (whole as int));
        q
    } else if p == i64::MIN {
        let a = -(p + whole);
        proof {
            lemma_shift_quotient(a as int, whole as int);
        }
        let q = a / whole;
        assert(q == (a as int) / (whole as int));
        -q - 1
    } else {
        let a = -p;
        let q = a / whole;
        assert(q == (a as int) / (whole as int));
        -q
    }
}

proof fn lemma_shift_quotient(a: int, w: int)
    requires
        a >= -w,
        w > 0,
    ensures
        (a + w) / w == a / w + 1,
{
    assert((a + w) / w == a / w + 1) by (nonlinear_arith)
        requires
            w > 0,
    ;
}

/// Whole percent of governed calls that policy let through, or `None` when
/// nothing was decided: 100% of nothing is not a reassuring claim.
pub fn allow_rate_percent(allowed: i64, denied: i64) -> (r: Option<i64>)
    requires
        i64::MIN <= allowed + denied <= i64::MAX,
    ensures
        r == (if allowed + denied > 0 {
            Some(percent_of(allowed as int, (allowed + denied) as int) as i64)
        } else {
            None
        }),
{
    let decided = allowed + denied;
    if decided > 0 {
        Some(percent(allowed, decided))
    } else {
        None
    }
}

/// A model's whole percentage of the listed models' requests; zero when
/// they total nothing.
pub fn share_percent(requests: i64, total: i64) -> (r: i64)
    ensures
        r == (if total > 0 {
            percent_of(requests as int, total as int)
        } else {
            0
        }),
{
    if total > 0 {
        percent(requests, total)
    } else {
        0
    }
}

/// A count as a tier sees it: the integer for an admin, the bucket for
/// anyone else.
pub open spec fn count_spec(n: int, exact: bool) -> Result<Seq<char>, bool> {
    if exact {
        Ok(decimal(n))
    } else {
        bucket_spec(n)
    }
}

/// A request or account count rendered for the caller's tier.
pub fn count(n: i64, exact: bool) -> (b: Bucket)
    ensures
        bucket_view(b) == count_spec(n as int, exact),
{
    if exact {
        Bucket::Label(i64_to_string(n))
    } else {
        bucket(n)
    }
}

/// A token count rendered for the caller's tier.
pub fn tokens(n: i64, exact: bool) -> (b: Bucket)
    ensures
        bucket_view(b) == (if exact {
            Ok(decimal(n as int))
        } else {
            bucket_tokens_spec(n as int)
        }),
{
    if exact {
        Bucket::Label(i64_to_string(n))
    } else {
        bucket_tokens(n)
    }
}

} // verus!

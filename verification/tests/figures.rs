use web_admin::display::{cost_scale, median, round_figure_of, CostScale};
use web_admin::pulse::{
    allow_rate_percent, bucket, bucket_tokens, count, is_fresh, share_percent, tokens, ttl,
    window_is_publishable, window_plan, Bucket, Tier, WindowPlan, MIN_PEOPLE,
};

fn label(b: Bucket) -> Option<String> {
    match b {
        Bucket::Label(s) => Some(s),
        _ => None,
    }
}

#[test]
fn the_scale_follows_the_amount() {
    assert_eq!(cost_scale(0), CostScale::Zero);
    assert_eq!(cost_scale(9_999), CostScale::Micro);
    assert_eq!(cost_scale(-5), CostScale::Micro);
    assert_eq!(cost_scale(10_000), CostScale::Cents);
    assert_eq!(cost_scale(5_000_000), CostScale::Cents);
}

#[test]
fn a_grant_reads_as_a_round_figure() {
    assert_eq!(round_figure_of("$5.0000"), "$5");
    assert_eq!(round_figure_of("$0.500000"), "$0.5");
    assert_eq!(round_figure_of("$0"), "$0");
    assert_eq!(round_figure_of("$1.2500"), "$1.25");
    assert_eq!(round_figure_of("$100"), "$100");
}

#[test]
fn the_median_is_the_middle_once_sorted() {
    assert_eq!(median(vec![]), None);
    assert_eq!(median(vec![7]), Some(7));
    assert_eq!(median(vec![5, 1, 3]), Some(3));
    assert_eq!(median(vec![4, 1, 3, 2]), Some(3));
    assert_eq!(median(vec![900, 10, 10, 12]), Some(12));
}

#[test]
fn counts_fall_into_buckets() {
    assert_eq!(label(bucket(-3)), Some("0".to_string()));
    assert_eq!(label(bucket(0)), Some("0".to_string()));
    assert_eq!(label(bucket(1)), Some("<10".to_string()));
    assert_eq!(label(bucket(9)), Some("<10".to_string()));
    assert_eq!(label(bucket(14)), Some("10".to_string()));
    assert_eq!(label(bucket(15)), Some("20".to_string()));
    assert_eq!(label(bucket(99)), Some("100".to_string()));
    assert_eq!(label(bucket(124)), Some("100".to_string()));
    assert_eq!(label(bucket(125)), Some("150".to_string()));
    assert_eq!(label(bucket(999)), Some("1000".to_string()));
    assert!(matches!(bucket(1_000), Bucket::Thousands));
    assert!(matches!(bucket(999_999), Bucket::Thousands));
    assert!(matches!(bucket(1_000_000), Bucket::Millions));
}

#[test]
fn token_counts_fall_into_buckets() {
    assert_eq!(label(bucket_tokens(999)), Some("<1k".to_string()));
    assert!(matches!(bucket_tokens(1_000), Bucket::Thousands));
    assert!(matches!(bucket_tokens(2_000_000), Bucket::Millions));
}

#[test]
fn a_sparse_window_is_withheld_below_the_admin_tier() {
    assert!(!window_is_publishable(MIN_PEOPLE - 1));
    assert!(window_is_publishable(MIN_PEOPLE));
    assert_eq!(window_plan(Tier::Anonymous, 100), WindowPlan::Withheld);
    assert_eq!(window_plan(Tier::Member, 2), WindowPlan::Withheld);
    assert_eq!(
        window_plan(Tier::Member, 3),
        WindowPlan::Shown { exact: false, model_limit: 5, blocked_limit: 1 }
    );
    assert_eq!(
        window_plan(Tier::Admin, 0),
        WindowPlan::Shown { exact: true, model_limit: 12, blocked_limit: 10 }
    );
}

#[test]
fn counts_are_exact_only_for_an_admin() {
    assert_eq!(label(count(1_247, true)), Some("1247".to_string()));
    assert!(matches!(count(1_247, false), Bucket::Thousands));
    assert_eq!(label(tokens(12, true)), Some("12".to_string()));
    assert_eq!(label(tokens(12, false)), Some("<1k".to_string()));
}

#[test]
fn rates_are_whole_percentages() {
    assert_eq!(allow_rate_percent(0, 0), None);
    assert_eq!(allow_rate_percent(2, 1), Some(66));
    assert_eq!(allow_rate_percent(5, 0), Some(100));
    assert_eq!(share_percent(1, 3), 33);
    assert_eq!(share_percent(4, 0), 0);
    assert_eq!(share_percent(-1, 3), -33);
    assert_eq!(share_percent(-4, 3), -133);
}

#[test]
fn snapshots_age_out_by_tier() {
    assert!(is_fresh(Tier::Member, 59));
    assert!(!is_fresh(Tier::Member, 60));
    assert!(is_fresh(Tier::Admin, 119));
    assert!(!is_fresh(Tier::Anonymous, 60));
    assert_eq!(ttl(Tier::Admin), 120);
    assert_eq!(ttl(Tier::Member), 60);
    assert_eq!(ttl(Tier::Anonymous), 60);
}

#[test]
fn the_median_ignores_order_and_sits_in_the_middle() {
    let a = vec![9, 1, 5, 5, 3, 8];
    let b = vec![5, 8, 1, 9, 3, 5];
    assert_eq!(median(a.clone()), median(b));
    let x = median(a.clone()).unwrap();
    assert!(a.contains(&x));
    assert!(a.iter().filter(|v| **v < x).count() <= a.len() / 2);
    assert!(a.iter().filter(|v| **v > x).count() <= (a.len() - 1) / 2);
}

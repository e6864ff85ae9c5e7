use std::hash::{DefaultHasher, Hash, Hasher};
use web_admin::approvals::PendingApprovals;
use web_admin::admission::{
    SeatTable,
    count_for_user, expired, reap_decision, reserve, surplus_for, ReapLimits, ReapReason,
    SessionEntry, Slot, SpawnError,
};
use web_admin::ledger::{fingerprint, AuditOrigin, CallLedger};
use web_admin::throttle::{client_ip, Lane};
use web_admin::waitlist::{Gate, Waitlist};

fn entry(conv: &str, user: &str, age_ms: u64) -> SessionEntry {
    SessionEntry {
        conversation_id: conv.into(),
        user_id: user.into(),
        age_ms,
        idle_ms: 0,
        closed: false,
    }
}

#[test]
fn caps_refuse_in_order_total_then_per_user() {
    let s = vec![entry("a", "u", 1), entry("b", "v", 1)];
    assert!(matches!(reserve(&s, &"u".to_string(), 2, 5), Err(SpawnError::TotalCap(2))));
    assert!(matches!(reserve(&s, &"u".to_string(), 8, 1), Err(SpawnError::PerUserCap(1))));
    assert!(reserve(&s, &"w".to_string(), 8, 1).is_ok());
    assert_eq!(count_for_user(&s, &"u".to_string()), 1);
}

#[test]
fn spawn_errors_speak_plainly() {
    assert_eq!(SpawnError::PerUserCap(2).message(), "you already have 2 pi session(s) running");
    assert_eq!(SpawnError::TotalCap(8).message(), "the server is at its limit of 8 pi sessions");
    assert_eq!(
        SpawnError::Credential("x".into()).message(),
        "could not mint a gateway credential: x"
    );
    assert_eq!(SpawnError::Io("y".into()).message(), "could not start pi: y");
    assert_eq!(SpawnError::TotalCap(1).response(), (429, "session limit reached"));
    assert_eq!(SpawnError::Io("z".into()).response(), (500, "could not start pi"));
}

#[test]
fn the_oldest_of_a_users_sessions_make_room() {
    let s = vec![entry("a", "u", 5), entry("b", "v", 50), entry("c", "u", 30), entry("d", "u", 10)];
    assert_eq!(surplus_for(&s, &"u".to_string(), 2), vec![2, 3]);
    assert_eq!(surplus_for(&s, &"u".to_string(), 4), Vec::<usize>::new());
}

#[test]
fn making_room_lets_the_user_back_under_the_cap() {
    let s = vec![entry("a", "u", 5), entry("b", "v", 50), entry("c", "u", 30), entry("d", "u", 10)];
    let u = "u".to_string();
    let picked = surplus_for(&s, &u, 2);
    let kept: Vec<SessionEntry> = s
        .into_iter()
        .enumerate()
        .filter(|(i, _)| !picked.contains(i))
        .map(|(_, e)| e)
        .collect();
    assert_eq!(count_for_user(&kept, &u), 1);
    assert_eq!(count_for_user(&kept, &"v".to_string()), 1);
    assert!(reserve(&kept, &u, 8, 2).is_ok());
}

#[test]
fn the_reaper_names_its_reason() {
    let limits = ReapLimits { stale_reservation_ms: 100, max_lifetime_ms: 1_000, idle_timeout_ms: 500 };
    let closed = SessionEntry { closed: true, ..entry("a", "u", 0) };
    assert_eq!(reap_decision(&Slot::Live(closed), limits), Some(ReapReason::ChildExited));
    assert_eq!(reap_decision(&Slot::Live(entry("b", "u", 1_001)), limits), Some(ReapReason::MaxLifetime));
    let idle = SessionEntry { idle_ms: 501, ..entry("c", "u", 0) };
    assert_eq!(reap_decision(&Slot::Live(idle), limits), Some(ReapReason::Idle));
    let held = Slot::Reserving { conversation_id: "d".into(), held_ms: 101 };
    assert_eq!(reap_decision(&held, limits), Some(ReapReason::StaleReservation));
    assert_eq!(reap_decision(&Slot::Live(entry("e", "u", 1)), limits), None);
    let all = vec![Slot::Live(entry("e", "u", 1)), held];
    assert_eq!(expired(&all, limits), vec![("d".to_string(), ReapReason::StaleReservation)]);
    assert_eq!(ReapReason::StaleReservation.label(), "stale reservation");
}

#[test]
fn a_lane_counts_hits_per_window() {
    let mut lane = Lane::new(2, 1_000);
    let k = "1.2.3.4".to_string();
    assert!(lane.allow(&k, 5_000));
    assert!(lane.allow(&k, 5_010));
    assert!(!lane.allow(&k, 5_020));
    assert!(lane.allow(&"5.6.7.8".to_string(), 5_020));
    assert!(lane.allow(&k, 6_001));
    assert!(!lane.allow(&k, 6_002));
    let mut open = Lane::new(0, 1_000);
    for t in 0..10 {
        assert!(open.per_ip(&k, t).is_ok());
    }
    let mut strict = Lane::new(1, 60_000);
    assert!(strict.per_ip(&k, 100_000).is_ok());
    assert_eq!(
        strict.per_ip(&k, 100_001),
        Err((429, 60, "too many requests from this address"))
    );
}

#[test]
fn the_first_forwarded_address_wins() {
    assert_eq!(client_ip(Some(" 9.9.9.9 , 10.0.0.1"), Some("1.1.1.1")), "9.9.9.9");
    assert_eq!(client_ip(None, Some("1.1.1.1")), "1.1.1.1");
    assert_eq!(client_ip(None, None), "unknown");
}

#[test]
fn a_full_house_queues_and_admits_in_order() {
    let mut w = Waitlist::new();
    let a = "a".to_string();
    let b = "b".to_string();
    assert_eq!(w.gate(&a, 0, 0), Gate::Wait { position: 0, queue_len: 1 });
    assert_eq!(w.gate(&b, 0, 0), Gate::Wait { position: 1, queue_len: 2 });
    assert_eq!(w.gate(&b, 1, 10), Gate::Wait { position: 1, queue_len: 2 });
    assert_eq!(w.gate(&a, 1, 10), Gate::Admit);
    assert_eq!(w.len(), 1);
    assert_eq!(w.status(Some(&b), false, 20), (1, Some(0)));
    assert_eq!(w.status(Some(&b), false, 40_000), (0, None));
}

#[test]
fn a_governed_call_is_claimed_once() {
    let mut l = CallLedger::new();
    l.mint("bash", 42, "call-1".into(), 0);
    assert_eq!(l.claim("bash", 42, "fresh".into(), 5), ("call-1".to_string(), AuditOrigin::Reverified));
    assert_eq!(l.claim("bash", 42, "fresh".into(), 6), ("fresh".to_string(), AuditOrigin::Governed));
    l.mint("bash", 7, "call-2".into(), 0);
    assert_eq!(l.claim("bash", 7, "late".into(), 20_000), ("late".to_string(), AuditOrigin::Governed));
}

#[test]
fn arguments_are_fingerprinted_as_std_hashes_their_text() {
    let mut h = DefaultHasher::new();
    "{\"command\":\"ls\"}".to_string().hash(&mut h);
    assert_eq!(fingerprint(Some("{\"command\":\"ls\"}")), h.finish());
    assert_eq!(fingerprint(None), fingerprint(Some("")));
    assert_ne!(fingerprint(Some("{\"command\":\"ls\"}")), fingerprint(Some("{\"command\":\"rm\"}")));
}

#[test]
fn the_proxy_recognises_what_the_gate_governed() {
    let mut l = CallLedger::new();
    let args = fingerprint(Some("{\"path\":\"a.txt\"}"));
    l.mint("read", args, "gate-1".into(), 1_000);
    let again = fingerprint(Some("{\"path\":\"a.txt\"}"));
    assert_eq!(l.claim("read", again, "proxy-1".into(), 10_999), ("gate-1".to_string(), AuditOrigin::Reverified));
    let other = fingerprint(Some("{\"path\":\"b.txt\"}"));
    l.mint("read", args, "gate-2".into(), 2_000);
    assert_eq!(l.claim("read", other, "proxy-2".into(), 2_001), ("proxy-2".to_string(), AuditOrigin::Governed));
}

#[test]
fn a_parked_call_is_answered_once() {
    let mut pending: PendingApprovals<u32> = PendingApprovals::new();
    pending.park("ap-1".to_string(), 1);
    pending.park("ap-2".to_string(), 2);
    assert_eq!(pending.len(), 2);
    assert_eq!(pending.resolve("ap-1"), Some(1));
    assert_eq!(pending.resolve("ap-1"), None);
    assert_eq!(pending.resolve("never"), None);
    pending.park("ap-2".to_string(), 3);
    assert_eq!(pending.len(), 1);
    pending.forget("ap-2");
    assert_eq!(pending.resolve("ap-2"), None);
    pending.park("ap-3".to_string(), 4);
    pending.clear();
    assert_eq!(pending.len(), 0);
    assert_eq!(pending.resolve("ap-3"), None);
}

#[test]
fn two_admissions_cannot_share_a_cap_of_one() {
    let mut t = SeatTable::new();
    assert!(t.reserve("c1", "u", 8, 1).is_ok());
    assert!(matches!(t.reserve("c2", "u", 8, 1), Err(SpawnError::PerUserCap(1))));
    assert_eq!(t.len(), 1);
    assert!(t.reserve("c3", "v", 8, 1).is_ok());
    assert!(matches!(t.reserve("c4", "w", 2, 1), Err(SpawnError::TotalCap(2))));
    assert_eq!(t.len(), 2);
    t.go_live("c1");
    t.release("c3");
    assert_eq!(t.len(), 1);
    t.release("c1");
    assert!(t.reserve("c5", "u", 8, 1).is_ok());
}

#[test]
fn the_first_limit_requests_pass_and_addresses_are_independent() {
    let mut lane = Lane::new(3, 10_000);
    let a = "10.0.0.1".to_string();
    let b = "10.0.0.2".to_string();
    let verdicts: Vec<bool> = (0..5).map(|i| lane.allow(&a, 20_000 + i)).collect();
    assert_eq!(verdicts, vec![true, true, true, false, false]);
    assert!(lane.allow(&b, 20_010));
    assert!(lane.allow(&a, 30_001));
}

#[test]
fn a_second_claim_is_a_first_verdict() {
    let mut l = CallLedger::new();
    l.mint("read", 1, "gate-1".into(), 0);
    assert_eq!(l.claim("read", 1, "p1".into(), 1), ("gate-1".to_string(), AuditOrigin::Reverified));
    assert_eq!(l.claim("read", 1, "p2".into(), 2), ("p2".to_string(), AuditOrigin::Governed));
    l.mint("read", 1, "gate-2".into(), 3);
    assert_eq!(l.claim("write", 1, "p3".into(), 4), ("p3".to_string(), AuditOrigin::Governed));
    assert_eq!(l.claim("read", 2, "p4".into(), 4), ("p4".to_string(), AuditOrigin::Governed));
}

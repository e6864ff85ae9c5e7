use web_admin::magic_link::{
    magic_step, redeem_reply, reply_message, reply_status, MagicAction, MagicEvent, MagicPhase,
    MagicReply,
};
use web_admin::registration::{
    check_email_attempts, check_ip_attempts, generate_setup_token, may_issue_token,
    parse_registration, registration_email, required_field, setup_token_from, RegistrationForm,
    RegistrationState,
};
use base64::engine::general_purpose::URL_SAFE_NO_PAD;
use base64::Engine;
use sha2::{Digest, Sha256};

fn form() -> RegistrationForm {
    RegistrationForm {
        name: "  Ada ".into(),
        email: " Ada@Example.COM ".into(),
        company: "Analytical".into(),
        role: "Engineer".into(),
        team_size: "1-10".into(),
        why_assessing: "governance".into(),
        credit_plans: Some("   ".into()),
    }
}

#[test]
fn a_registration_is_trimmed_and_lowercased() {
    let r = parse_registration(&form(), Ok(())).unwrap();
    assert_eq!(r.email, "ada@example.com");
    assert_eq!(r.name, "Ada");
    assert_eq!(r.profile.company, "Analytical");
    assert_eq!(r.profile.credit_plans, None);
    assert_eq!(registration_email("  MiXeD@X.io"), "mixed@x.io");
}

#[test]
fn each_missing_field_is_named() {
    let mut f = form();
    f.name = " ".into();
    assert_eq!(parse_registration(&f, Ok(())).err().unwrap(), "Name is required");
    let mut f = form();
    f.email = "no-at-sign".into();
    assert_eq!(parse_registration(&f, Ok(())).err().unwrap(), "Invalid email address");
    let mut f = form();
    f.company = "".into();
    assert_eq!(parse_registration(&f, Ok(())).err().unwrap(), "Company name is required");
    let mut f = form();
    f.why_assessing = "\t".into();
    assert_eq!(parse_registration(&f, Ok(())).err().unwrap(), "What you are evaluating is required");
    assert_eq!(
        parse_registration(&form(), Err("bad domain".into())).err().unwrap(),
        "Invalid email address: bad domain"
    );
    assert_eq!(required_field("  x  ", "X"), Ok("x".to_string()));
    assert_eq!(required_field("   ", "Role or title"), Err("Role or title is required".to_string()));
}

#[test]
fn the_name_is_checked_before_the_address() {
    let mut f = form();
    f.name = "".into();
    f.email = "".into();
    assert_eq!(parse_registration(&f, Err("x".into())).err().unwrap(), "Name is required");
}

#[test]
fn a_passkey_or_a_denial_stops_a_second_token() {
    let fresh = RegistrationState { has_credential: false, approval_status: None };
    assert!(may_issue_token(&fresh));
    let with_key = RegistrationState { has_credential: true, approval_status: None };
    assert!(!may_issue_token(&with_key));
    let denied = RegistrationState { has_credential: false, approval_status: Some("denied".into()) };
    assert!(!may_issue_token(&denied));
    let pending = RegistrationState { has_credential: false, approval_status: Some("pending".into()) };
    assert!(may_issue_token(&pending));
}

#[test]
fn the_limits_refuse_at_their_thresholds() {
    assert!(check_email_attempts(4).is_ok());
    assert_eq!(
        check_email_attempts(5),
        Err("Too many registration attempts. Please try again later.".to_string())
    );
    assert!(check_ip_attempts(None).is_ok());
    assert!(check_ip_attempts(Some(2)).is_ok());
    assert!(check_ip_attempts(Some(3)).unwrap_err().starts_with("This network has reached"));
}

#[test]
fn a_setup_token_is_stored_only_as_its_digest() {
    let bytes = [7u8; 32];
    let (raw, hash) = setup_token_from(&bytes);
    assert_eq!(raw, format!("sp_wst_{}", URL_SAFE_NO_PAD.encode(bytes)));
    assert_eq!(hash, URL_SAFE_NO_PAD.encode(Sha256::digest(raw.as_bytes())));
    assert_ne!(raw, hash);
    let (a, _) = generate_setup_token();
    let (b, _) = generate_setup_token();
    assert!(a.starts_with("sp_wst_"));
    assert_ne!(a, b);
}

#[test]
fn every_well_formed_request_gets_the_same_answer() {
    let (_, invalid) = magic_step(MagicPhase::Validating, true, MagicEvent::Validated(false));
    assert_eq!(invalid, MagicAction::Reply(MagicReply::InvalidEmail));
    assert_eq!(reply_status(MagicReply::InvalidEmail), 400);
    let (next, a) = magic_step(MagicPhase::Validating, true, MagicEvent::Validated(true));
    assert_eq!((next, a), (Some(MagicPhase::CountingEmail), MagicAction::CountEmail));
    assert_eq!(
        magic_step(MagicPhase::CountingEmail, true, MagicEvent::EmailCount(3)).1,
        MagicAction::Reply(MagicReply::Sent)
    );
    assert_eq!(
        magic_step(MagicPhase::CountingEmail, false, MagicEvent::EmailCount(2)),
        (Some(MagicPhase::FindingUser), MagicAction::FindUser)
    );
    assert_eq!(
        magic_step(MagicPhase::CountingIp, true, MagicEvent::IpCount(10)).1,
        MagicAction::Reply(MagicReply::Sent)
    );
    assert_eq!(
        magic_step(MagicPhase::FindingUser, true, MagicEvent::UserFound(false)).1,
        MagicAction::Reply(MagicReply::Sent)
    );
    assert_eq!(
        magic_step(MagicPhase::FindingUser, true, MagicEvent::UserFound(true)).1,
        MagicAction::IssueToken
    );
    assert_eq!(
        magic_step(MagicPhase::Issuing, true, MagicEvent::Issued).1,
        MagicAction::Reply(MagicReply::Sent)
    );
    assert_eq!(
        reply_message(MagicReply::Sent),
        "If an account exists for that email, a magic link has been sent."
    );
}

#[test]
fn a_redeemed_link_names_its_address() {
    assert_eq!(redeem_reply(Some("a@b.c".into())), (200, true, "a@b.c".to_string()));
    let (status, ok, msg) = redeem_reply(None);
    assert_eq!((status, ok), (400, false));
    assert!(msg.contains("invalid or has expired"));
}

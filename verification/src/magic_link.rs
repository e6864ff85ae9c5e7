//! Passwordless email sign-in.
//!
//! A request for a magic link answers identically whether or not an account
//! exists for the address, and whether or not it was rate limited: anything
//! else would let a caller probe which addresses are registered. Only an
//! address that is not an address at all is refused. The lookups and the token
//! write are the caller's; what to do after each of them is decided here.
use vstd::prelude::*;

verus! {

/// Magic links an address may request before further requests are ignored.
pub const LINKS_PER_EMAIL: i64 = 3;

/// Magic links one network address may request before further requests are
/// ignored.
pub const LINKS_PER_IP: i64 = 10;

/// What a request is answered with.
#[derive(PartialEq, Eq, Structural, Clone, Copy, Debug)]
pub enum MagicReply {
    /// 400: the address does not parse as one.
    InvalidEmail,
    /// 200: the one answer every well-formed request gets.
    Sent,
}

/// The status code of a reply.
pub fn reply_status(r: MagicReply) -> (s: u16)
    ensures
        s == (if r == MagicReply::InvalidEmail {
            400u16
        } else {
            200u16
        }),
{
    match r {
        MagicReply::InvalidEmail => 400,
        MagicReply::Sent => 200,
    }
}

/// The text of a reply.
pub open spec fn reply_text(r: MagicReply) -> Seq<char> {
    match r {
        MagicReply::InvalidEmail => "Invalid email address"@,
        MagicReply::Sent => "If an account exists for that email, a magic link has been sent."@,
    }
}

/// The text of a reply.
pub fn reply_message(r: MagicReply) -> (s: String)
    ensures
        s@ == reply_text(r),
{
    match r {
        MagicReply::InvalidEmail => String::from_str("Invalid email address"),
        MagicReply::Sent => String::from_str(
            "If an account exists for that email, a magic link has been sent.",
        ),
    }
}

/// Where a request stands: what it is waiting to learn.
#[derive(PartialEq, Eq, Structural, Clone, Copy, Debug)]
pub enum MagicPhase {
    /// Whether the trimmed, lowercased address is an address.
    Validating,
    /// How many links the address requested recently.
    CountingEmail,
    /// How many links the caller's network address requested recently.
    CountingIp,
    /// Whether an account exists for the address.
    FindingUser,
    /// Whether the token was written.
    Issuing,
}

/// What the caller learned.
#[derive(PartialEq, Eq, Structural, Clone, Copy, Debug)]
pub enum MagicEvent {
    Validated(bool),
    EmailCount(i64),
    IpCount(i64),
    UserFound(bool),
    Issued,
}

/// What the caller does next.
#[derive(PartialEq, Eq, Structural, Clone, Copy, Debug)]
pub enum MagicAction {
    CountEmail,
    CountIp,
    FindUser,
    IssueToken,
    Reply(MagicReply),
}

/// Whether `event` is the answer `phase` waits for.
pub open spec fn event_fits(phase: MagicPhase, event: MagicEvent) -> bool {
    match phase {
        MagicPhase::Validating => event is Validated,
        MagicPhase::CountingEmail => event is EmailCount,
        MagicPhase::CountingIp => event is IpCount,
        MagicPhase::FindingUser => event is UserFound,
        MagicPhase::Issuing => event is Issued,
    }
}

/// The next phase (if any) and action. A request without a network address
/// skips the network count rather than being bucketed under a shared
/// sentinel; a failed count or lookup reaches here as zero or `false`.
pub open spec fn magic_step_spec(phase: MagicPhase, has_ip: bool, event: MagicEvent) -> (
    Option<MagicPhase>,
    MagicAction,
) {
    match event {
        MagicEvent::Validated(ok) => if ok {
            (Some(MagicPhase::CountingEmail), MagicAction::CountEmail)
        } else {
            (None, MagicAction::Reply(MagicReply::InvalidEmail))
        },
        MagicEvent::EmailCount(n) => if n >= LINKS_PER_EMAIL {
            (None, MagicAction::Reply(MagicReply::Sent))
        } else if has_ip {
            (Some(MagicPhase::CountingIp), MagicAction::CountIp)
        } else {
            (Some(MagicPhase::FindingUser), MagicAction::FindUser)
        },
        MagicEvent::IpCount(n) => if n >= LINKS_PER_IP {
            (None, MagicAction::Reply(MagicReply::Sent))
        } else {
            (Some(MagicPhase::FindingUser), MagicAction::FindUser)
        },
        MagicEvent::UserFound(found) => if found {
            (Some(MagicPhase::Issuing), MagicAction::IssueToken)
        } else {
            (None, MagicAction::Reply(MagicReply::Sent))
        },
        MagicEvent::Issued => (None, MagicAction::Reply(MagicReply::Sent)),
    }
}

/// One step of a magic-link request: from what was just learned to what
/// happens next.
pub fn magic_step(phase: MagicPhase, has_ip: bool, event: MagicEvent) -> (r: (
    Option<MagicPhase>,
    MagicAction,
))
    requires
        event_fits(phase, event),
    ensures
        r == magic_step_spec(phase, has_ip, event),
{
    match event {
        MagicEvent::Validated(ok) => if ok {
            (Some(MagicPhase::CountingEmail), MagicAction::CountEmail)
        } else {
            (None, MagicAction::Reply(MagicReply::InvalidEmail))
        },
        MagicEvent::EmailCount(n) => if n >= LINKS_PER_EMAIL {
            (None, MagicAction::Reply(MagicReply::Sent))
        } else if has_ip {
            (Some(MagicPhase::CountingIp), MagicAction::CountIp)
        } else {
            (Some(MagicPhase::FindingUser), MagicAction::FindUser)
        },
        MagicEvent::IpCount(n) => if n >= LINKS_PER_IP {
            (None, MagicAction::Reply(MagicReply::Sent))
        } else {
            (Some(MagicPhase::FindingUser), MagicAction::FindUser)
        },
        MagicEvent::UserFound(found) => if found {
            (Some(MagicPhase::Issuing), MagicAction::IssueToken)
        } else {
            (None, MagicAction::Reply(MagicReply::Sent))
        },
        MagicEvent::Issued => (None, MagicAction::Reply(MagicReply::Sent)),
    }
}

/// A request for a well-formed address is always answered with the same
/// reply, whether or not the account exists and whether or not a limit was
/// hit: only a malformed address is ever answered differently.
pub proof fn law_reply_hides_the_account(phase: MagicPhase, has_ip: bool, event: MagicEvent)
    requires
        event_fits(phase, event),
        event != MagicEvent::Validated(false),
    ensures
        magic_step_spec(phase, has_ip, event).1 matches MagicAction::Reply(r) ==> r
            == MagicReply::Sent,
{
}

/// Which accounts get a token written: only an existing one, and never
/// before both limits were checked.
pub proof fn law_tokens_only_for_existing_accounts(phase: MagicPhase, has_ip: bool, event: MagicEvent)
    requires
        event_fits(phase, event),
    ensures
        magic_step_spec(phase, has_ip, event).1 == MagicAction::IssueToken <==> event
            == MagicEvent::UserFound(true),
{
}

/// The answer to a link being redeemed: the address it was issued for, or
/// the refusal every invalid or expired link gets.
pub open spec fn redeem_reply_spec(consumed: Option<Seq<char>>) -> (u16, bool, Seq<char>) {
    match consumed {
        Some(email) => (200, true, email),
        None => (400, false, "This link is invalid or has expired. Please request a new one."@),
    }
}

/// A redeemed link's status, `ok` flag, and the address (or the refusal).
pub fn redeem_reply(consumed: Option<String>) -> (r: (u16, bool, String))
    ensures
        (r.0, r.1, r.2@) == redeem_reply_spec(
            match consumed {
                Some(e) => Some(e@),
                None => None,
            },
        ),
{
    match consumed {
        Some(email) => (200, true, email),
        None => (
            400,
            false,
            String::from_str("This link is invalid or has expired. Please request a new one."),
        ),
    }
}

} // verus!

//! Public self-registration: the company details, the one-shot setup token it
//! issues, and the limits that stand in for a manual review.
//!
//! Registration is open and auto-approved. Two limiters make farming the
//! signup credit tedious rather than impossible, and they are orthogonal: one
//! keyed by email slows a single address retrying, one keyed by network caps
//! how many accounts one address can mint in a day. Neither is an
//! authorisation boundary. The reads and writes are the caller's; each
//! decision between them is made here.
use vstd::prelude::*;
use vstd::utf8::encode_utf8;

use crate::codec::{b64_encode, b64url_encode, sha256, sha256_digest};
use crate::text::{chars_of, string_of_range, trim, trim_bounds};

verus! {

/// What `str::to_lowercase` gives for `s`: Unicode's lowercase mapping.
pub uninterp spec fn lowercase(s: Seq<char>) -> Seq<char>;

/// `str::to_lowercase`.
#[verifier::external_body]
fn to_lowercase(s: &str) -> (out: String)
    ensures
        out@ == lowercase(s@),
{
    s.to_lowercase()
}

/// The address a registration is filed under: trimmed and lowercased.
pub fn registration_email(email: &str) -> (out: String)
    ensures
        out@ == lowercase(trim(email@)),
{
    let cs = chars_of(email);
    let (a, b) = trim_bounds(&cs);
    let t = string_of_range(&cs, a, b);
    to_lowercase(t.as_str())
}

/// What an applicant submits.
pub struct RegistrationForm {
    pub name: String,
    pub email: String,
    pub company: String,
    pub role: String,
    pub team_size: String,
    pub why_assessing: String,
    pub credit_plans: Option<String>,
}

/// What the applicant says they are evaluating, as it is stored.
pub struct OnboardingProfile {
    pub company: String,
    pub role: String,
    pub team_size: String,
    pub why_assessing: String,
    pub credit_plans: Option<String>,
}

/// A registration that passed its checks.
pub struct Registration {
    pub email: String,
    pub name: String,
    pub profile: OnboardingProfile,
}

/// `{label} is required`.
pub open spec fn required_message(label: Seq<char>) -> Seq<char> {
    label + " is required"@
}

/// A required field, trimmed; refused with its label when blank.
pub open spec fn required_spec(value: Seq<char>, label: Seq<char>) -> Result<Seq<char>, Seq<char>> {
    if trim(value).len() == 0 {
        Err(required_message(label))
    } else {
        Ok(trim(value))
    }
}

/// A required field, trimmed, or the message refusing it.
pub fn required_field(value: &str, label: &str) -> (r: Result<String, String>)
    ensures
        match r {
            Ok(v) => required_spec(value@, label@) == Ok::<Seq<char>, Seq<char>>(v@),
            Err(m) => required_spec(value@, label@) == Err::<Seq<char>, Seq<char>>(m@),
        },
{
    let cs = chars_of(value);
    let (a, b) = trim_bounds(&cs);
    if a == b {
        let mut m = String::from_str(label);
        m.append(" is required");
        return Err(m);
    }
    Ok(string_of_range(&cs, a, b))
}

/// The optional credit plans, trimmed, and absent when blank.
pub open spec fn optional_spec(value: Option<String>) -> Option<Seq<char>> {
    match value {
        Some(v) => if trim(v@).len() == 0 {
            None
        } else {
            Some(trim(v@))
        },
        None => None,
    }
}

pub open spec fn opt_view(o: Option<String>) -> Option<Seq<char>> {
    match o {
        Some(s) => Some(s@),
        None => None,
    }
}

/// How a registration is judged, in order: the name, then the address
/// (non-empty, holding an `@`, and accepted by the address type, whose
/// verdict `email_verdict` carries), then the company details.
pub open spec fn registration_spec(form: RegistrationForm, email_verdict: Result<(), Seq<char>>) -> Result<
    (Seq<char>, Seq<char>, Seq<char>, Seq<char>, Seq<char>, Seq<char>, Option<Seq<char>>),
    Seq<char>,
> {
    let email = lowercase(trim(form.email@));
    match required_spec(form.name@, "Name"@) {
        Err(m) => Err(m),
        Ok(name) => if email.len() == 0 || !email.contains('@') {
            Err("Invalid email address"@)
        } else {
            match email_verdict {
                Err(e) => Err("Invalid email address: "@ + e),
                Ok(_) => match required_spec(form.company@, "Company name"@) {
                    Err(m) => Err(m),
                    Ok(company) => match required_spec(form.role@, "Role or title"@) {
                        Err(m) => Err(m),
                        Ok(role) => match required_spec(form.team_size@, "Team size"@) {
                            Err(m) => Err(m),
                            Ok(team) => match required_spec(
                                form.why_assessing@,
                                "What you are evaluating"@,
                            ) {
                                Err(m) => Err(m),
                                Ok(why) => Ok(
                                    (
                                        email,
                                        name,
                                        company,
                                        role,
                                        team,
                                        why,
                                        optional_spec(form.credit_plans),
                                    ),
                                ),
                            },
                        },
                    },
                },
            }
        },
    }
}

pub open spec fn registration_view(r: Registration) -> (
    Seq<char>,
    Seq<char>,
    Seq<char>,
    Seq<char>,
    Seq<char>,
    Seq<char>,
    Option<Seq<char>>,
) {
    (
        r.email@,
        r.name@,
        r.profile.company@,
        r.profile.role@,
        r.profile.team_size@,
        r.profile.why_assessing@,
        opt_view(r.profile.credit_plans),
    )
}

fn has_at(s: &String) -> (b: bool)
    ensures
        b == s@.contains('@'),
{
    let cs = chars_of(s.as_str());
    let mut i: usize = 0;
    while i < cs.len()
        invariant
            i <= cs.len(),
            cs@ == s@,
            forall|j: int| 0 <= j < i ==> cs@[j] != '@',
        decreases cs.len() - i,
    {
        if cs[i] == '@' {
            assert(s@[i as int] == '@');
            return true;
        }
        i = i + 1;
    }
    false
}

/// A registration checked field by field. `email_verdict` is the address
/// type's judgement of [`registration_email`]'s result: `Err` with its reason
/// when it refuses the address.
pub fn parse_registration(form: &RegistrationForm, email_verdict: Result<(), String>) -> (r: Result<
    Registration,
    String,
>)
    ensures
        match r {
            Ok(reg) => registration_spec(
                *form,
                match email_verdict {
                    Ok(_) => Ok(()),
                    Err(e) => Err(e@),
                },
            ) == Ok::<_, Seq<char>>(registration_view(reg)),
            Err(m) => registration_spec(
                *form,
                match email_verdict {
                    Ok(_) => Ok(()),
                    Err(e) => Err(e@),
                },
            ) == Err::<(Seq<char>, Seq<char>, Seq<char>, Seq<char>, Seq<char>, Seq<char>, Option<Seq<char>>), Seq<char>>(m@),
        },
{
    let email = registration_email(form.email.as_str());
    let name = match required_field(form.name.as_str(), "Name") {
        Ok(n) => n,
        Err(m) => {
            return Err(m);
        },
    };
    if email.unicode_len() == 0 || !has_at(&email) {
        return Err(String::from_str("Invalid email address"));
    }
    match &email_verdict {
        Err(e) => {
            let mut m = String::from_str("Invalid email address: ");
            m.append(e.as_str());
            return Err(m);
        },
        Ok(_) => {},
    }
    let company = match required_field(form.company.as_str(), "Company name") {
        Ok(v) => v,
        Err(m) => {
            return Err(m);
        },
    };
    let role = match required_field(form.role.as_str(), "Role or title") {
        Ok(v) => v,
        Err(m) => {
            return Err(m);
        },
    };
    let team_size = match required_field(form.team_size.as_str(), "Team size") {
        Ok(v) => v,
        Err(m) => {
            return Err(m);
        },
    };
    let why_assessing = match required_field(form.why_assessing.as_str(), "What you are evaluating") {
        Ok(v) => v,
        Err(m) => {
            return Err(m);
        },
    };
    let credit_plans = match &form.credit_plans {
        Some(p) => {
            let cs = chars_of(p.as_str());
            let (a, b) = trim_bounds(&cs);
            if a == b {
                None
            } else {
                Some(string_of_range(&cs, a, b))
            }
        },
        None => None,
    };
    Ok(
        Registration {
            email,
            name,
            profile: OnboardingProfile { company, role, team_size, why_assessing, credit_plans },
        },
    )
}

/// The approval status of a denied account.
pub const APPROVAL_DENIED: &'static str = "denied";

/// What is already on file for an address.
pub struct RegistrationState {
    pub has_credential: bool,
    pub approval_status: Option<String>,
}

/// Whether a setup token may be issued for an address already on file: not
/// once it owns a passkey, and never for a denied account. The two are
/// answered alike, and the difference is not the caller's business.
pub open spec fn may_issue_token_spec(state: RegistrationState) -> bool {
    !state.has_credential && opt_view(state.approval_status) != Some(APPROVAL_DENIED@)
}

pub fn may_issue_token(state: &RegistrationState) -> (b: bool)
    ensures
        b == may_issue_token_spec(*state),
{
    if state.has_credential {
        return false;
    }
    match &state.approval_status {
        Some(s) => {
            let a = chars_of(s.as_str());
            let d = chars_of(APPROVAL_DENIED);
            !crate::text::chars_eq(&a, &d)
        },
        None => true,
    }
}

/// Setup tokens an address may request before it is slowed down.
pub const ATTEMPTS_PER_EMAIL: i64 = 5;

/// Accounts one network may register in a day.
pub const REGISTRATIONS_PER_IP_PER_DAY: i64 = 3;

/// What a slowed-down address is told.
pub open spec fn email_limited_message() -> Seq<char> {
    "Too many registration attempts. Please try again later."@
}

/// What a network at its daily limit is told.
pub open spec fn ip_limited_message() -> Seq<char> {
    "This network has reached the signup limit for today. Please try again tomorrow, or contact ed@systemprompt.io if you need access sooner."@
}

/// The email limit: refused once the address has [`ATTEMPTS_PER_EMAIL`]
/// recent setup tokens.
pub fn check_email_attempts(recent_tokens: i64) -> (r: Result<(), String>)
    ensures
        r is Ok <==> recent_tokens < ATTEMPTS_PER_EMAIL,
        r matches Err(m) ==> m@ == email_limited_message(),
{
    if recent_tokens >= ATTEMPTS_PER_EMAIL {
        return Err(String::from_str("Too many registration attempts. Please try again later."));
    }
    Ok(())
}

/// The network limit: `recent` is how many registrations the caller's public
/// address made today, or `None` when there is no address to count (none was
/// resolved, or it is private), which is let through rather than failing
/// every signup closed.
pub fn check_ip_attempts(recent: Option<i64>) -> (r: Result<(), String>)
    ensures
        r is Ok <==> (match recent {
            Some(n) => n < REGISTRATIONS_PER_IP_PER_DAY,
            None => true,
        }),
        r matches Err(m) ==> m@ == ip_limited_message(),
{
    match recent {
        Some(n) => if n >= REGISTRATIONS_PER_IP_PER_DAY {
            Err(
                String::from_str(
                    "This network has reached the signup limit for today. Please try again tomorrow, or contact ed@systemprompt.io if you need access sooner.",
                ),
            )
        } else {
            Ok(())
        },
        None => Ok(()),
    }
}

/// Thirty-two bytes from the thread's cryptographic generator
/// (`rand::rng().random()`); nothing is known of their values.
#[verifier::external_body]
fn random_bytes() -> (out: Vec<u8>)
    ensures
        out@.len() == 32,
{
    let bytes: [u8; 32] = rand::Rng::random(&mut rand::rng());
    bytes.to_vec()
}

/// The prefix that marks a setup token.
pub open spec fn setup_prefix() -> Seq<char> {
    "sp_wst_"@
}

/// The setup token made from `bytes`, and the digest under which it is
/// stored: the raw token never is.
pub open spec fn setup_token_spec(bytes: Seq<u8>) -> (Seq<char>, Seq<char>) {
    let raw = setup_prefix() + b64url_encode(bytes);
    (raw, b64url_encode(sha256(encode_utf8(raw))))
}

/// A setup token made from the given 32 random bytes, and its stored digest.
pub fn setup_token_from(bytes: &[u8]) -> (r: (String, String))
    ensures
        (r.0@, r.1@) == setup_token_spec(bytes@),
{
    let mut raw = String::from_str("sp_wst_");
    let enc = b64_encode(bytes);
    raw.append(enc.as_str());
    let digest = sha256_digest(raw.as_str().as_bytes());
    let hash = b64_encode(digest.as_slice());
    (raw, hash)
}

/// A fresh one-shot setup token and the digest it is stored under.
pub fn generate_setup_token() -> (r: (String, String))
    ensures
        exists|bytes: Seq<u8>| bytes.len() == 32 && (r.0@, r.1@) == setup_token_spec(bytes),
{
    let bytes = random_bytes();
    setup_token_from(bytes.as_slice())
}

} // verus!

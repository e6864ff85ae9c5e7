//! The rules of the conversation endpoints: who may reach a conversation, where
//! a reconnecting stream resumes, how a resumed conversation continues its
//! numbering, and what a rename and a history page look like.
//!
//! A conversation that is not the caller's is answered exactly as one that
//! does not exist: the same 404 for both, so the answer reveals nothing about
//! other people's conversations.
use vstd::prelude::*;

use crate::admission::{refusal_of, SpawnError};
use crate::decimal::{parse_uint, parse_unsigned};
use crate::text::{chars_of, lines, lines_of, string_of_range, trim, trim_bounds};
use crate::token::{sign, token_for, TTL_SECS};

verus! {

/// What a caller is told about a conversation that is missing or not theirs.
pub open spec fn not_found() -> (u16, Seq<char>) {
    (404, "no such conversation"@)
}

/// Whether the caller reaches a live conversation: `owner` is its owner, or
/// `None` when there is no such conversation.
pub fn reach_conversation(owner: Option<&String>, caller: &String) -> (r: Result<(), (u16, &'static str)>)
    ensures
        r is Ok <==> (owner matches Some(o) && o@ == caller@),
        r matches Err(e) ==> (e.0, e.1@) == not_found(),
{
    match owner {
        Some(o) => {
            if *o == *caller {
                Ok(())
            } else {
                Err((404, "no such conversation"))
            }
        },
        None => Err((404, "no such conversation")),
    }
}

/// Whether an embed token's version is still the account's: bumping the
/// version is how every outstanding token is revoked.
pub fn version_current(claimed: i32, current: Option<i32>) -> (b: bool)
    ensures
        b == (current == Some(claimed)),
{
    match current {
        Some(c) => c == claimed,
        None => false,
    }
}

/// A fresh embed token for `user` at `version`, expiring [`TTL_SECS`] from
/// `now`, and that expiry.
pub fn issue_embed_token(secret: &[u8], user: &str, version: i32, now: i64) -> (r: (String, i64))
    requires
        now <= i64::MAX - TTL_SECS,
    ensures
        r.1 == now + TTL_SECS,
        r.0@ == token_for(secret@, user@, version as int, r.1 as int),
{
    let exp = now + TTL_SECS;
    (sign(secret, user, version, exp), exp)
}

/// Where a reconnecting stream resumes: the `Last-Event-ID` header when it
/// parses as a frame number, otherwise the `since` query parameter, otherwise
/// the beginning.
pub open spec fn resume_point_spec(header: Option<Seq<char>>, since: Option<u64>) -> u64 {
    match header {
        Some(h) if parse_uint(h, u64::MAX as int) is Some => parse_uint(h, u64::MAX as int)->0 as u64,
        _ => match since {
            Some(s) => s,
            None => 0,
        },
    }
}

/// The frame number a reconnecting stream resumes after.
pub fn resume_point(header: Option<&str>, since: Option<u64>) -> (n: u64)
    ensures
        n == resume_point_spec(
            match header {
                Some(h) => Some(h@),
                None => None,
            },
            since,
        ),
{
    match header {
        Some(h) => {
            let cs = chars_of(h);
            match parse_unsigned(&cs, u64::MAX) {
                Some(v) => {
                    return v;
                },
                None => {},
            }
        },
        None => {},
    }
    match since {
        Some(s) => s,
        None => 0,
    }
}

/// The number a resumed conversation continues from: its stored last frame,
/// or zero when that is not a frame number at all.
pub fn start_seq_of(last_seq: i64) -> (n: u64)
    ensures
        n == (if last_seq >= 0 {
            last_seq as u64
        } else {
            0
        }),
{
    if last_seq >= 0 {
        last_seq as u64
    } else {
        0
    }
}

/// A frame number as the API reports it, saturating at the largest `i64`.
pub fn reported_seq(seq: u64) -> (n: i64)
    ensures
        n == (if seq <= i64::MAX as u64 {
            seq as i64
        } else {
            i64::MAX
        }),
{
    if seq <= i64::MAX as u64 {
        seq as i64
    } else {
        i64::MAX
    }
}

/// What the conversation store handed back for a new or resumed
/// conversation.
pub struct Opening {
    pub conversation_id: String,
    /// The number its frames continue from.
    pub start_seq: u64,
    /// The rendered history a resumed conversation starts with.
    pub transcript: Option<String>,
    pub resumed: bool,
}

/// Where opening a conversation stands between its awaits.
pub enum CreatePhase {
    /// The embed token is being checked.
    Authenticating,
    /// The caller is `user_id`; a governed session is being minted for it.
    Minting { user_id: String },
    /// The governed session `attested` is held; the conversation is being
    /// recorded or re-pointed at it.
    Opening { user_id: String, attested: String },
    /// The conversation is open; the registry is being asked for its child.
    Creating { user_id: String, attested: String, opening: Opening },
}

/// What the work of a phase came back with.
pub enum CreateEvent {
    /// The user the token authenticates, or none.
    Authenticated(Option<String>),
    /// The minted governed session, or none when it could not be minted.
    Minted(Option<String>),
    /// The opened conversation, or none when it could not be opened.
    Opened(Option<Opening>),
    /// Whether the registry admitted the conversation.
    Created(Result<(), SpawnError>),
}

/// The body of a `201`.
pub struct CreatedSession {
    pub conversation_id: String,
    pub last_seq: i64,
    pub resumed: bool,
}

/// How the request is answered.
pub enum CreateAnswer {
    /// A status and the message of its `{"error": ...}` body.
    Problem(u16, &'static str),
    /// `201 Created`: the child runs; its output is pumped and the session
    /// announces itself ready.
    Started(CreatedSession),
}

/// What the caller does after a step: revoke a governed session, then
/// answer, once there is an answer.
pub struct CreateAction {
    pub revoke_session: Option<String>,
    pub answer: Option<CreateAnswer>,
}

/// The event is the answer to the work its phase asked for.
pub open spec fn create_event_fits(phase: CreatePhase, event: CreateEvent) -> bool {
    match phase {
        CreatePhase::Authenticating => event is Authenticated,
        CreatePhase::Minting { .. } => event is Minted,
        CreatePhase::Opening { .. } => event is Opened,
        CreatePhase::Creating { .. } => event is Created,
    }
}

/// The action answers `status` with `message` and revokes `revoke`.
pub open spec fn answers_problem(a: CreateAction, revoke: Option<String>, status: u16, message: Seq<char>) -> bool {
    a.revoke_session == revoke && (a.answer matches Some(CreateAnswer::Problem(s, m)) && s == status
        && m@ == message)
}

/// The action does nothing yet.
pub open spec fn goes_on(a: CreateAction) -> bool {
    a.revoke_session is None && a.answer is None
}

/// One step of opening a conversation.
pub open spec fn create_step_matches(phase: CreatePhase, event: CreateEvent, r: (Option<CreatePhase>, CreateAction)) -> bool {
    match (phase, event) {
        (CreatePhase::Authenticating, CreateEvent::Authenticated(None)) => r.0 is None
            && answers_problem(r.1, None, 401, "invalid or expired token"@),
        (CreatePhase::Authenticating, CreateEvent::Authenticated(Some(u))) => r.0 == Some(
            CreatePhase::Minting { user_id: u },
        ) && goes_on(r.1),
        (CreatePhase::Minting { .. }, CreateEvent::Minted(None)) => r.0 is None && answers_problem(
            r.1,
            None,
            500,
            "could not mint a governed session"@,
        ),
        (CreatePhase::Minting { user_id }, CreateEvent::Minted(Some(a))) => r.0 == Some(
            CreatePhase::Opening { user_id, attested: a },
        ) && goes_on(r.1),
        (CreatePhase::Opening { .. }, CreateEvent::Opened(None)) => r.0 is None && answers_problem(
            r.1,
            None,
            500,
            "could not start a conversation"@,
        ),
        (CreatePhase::Opening { user_id, attested }, CreateEvent::Opened(Some(o))) => r.0 == Some(
            CreatePhase::Creating { user_id, attested, opening: o },
        ) && goes_on(r.1),
        (CreatePhase::Creating { attested, .. }, CreateEvent::Created(Err(e))) => r.0 is None
            && answers_problem(r.1, Some(attested), refusal_of(e).0, refusal_of(e).1),
        (CreatePhase::Creating { opening, .. }, CreateEvent::Created(Ok(()))) => r.0 is None
            && r.1.revoke_session is None && r.1.answer == Some(
            CreateAnswer::Started(
                CreatedSession {
                    conversation_id: opening.conversation_id,
                    last_seq: if opening.start_seq <= i64::MAX as u64 {
                        opening.start_seq as i64
                    } else {
                        i64::MAX
                    },
                    resumed: opening.resumed,
                },
            ),
        ),
        _ => false,
    }
}

fn problem(status: u16, message: &'static str) -> (a: CreateAction)
    ensures
        a.revoke_session is None && a.answer == Some(CreateAnswer::Problem(status, message)),
{
    CreateAction { revoke_session: None, answer: Some(CreateAnswer::Problem(status, message)) }
}

fn going_on() -> (a: CreateAction)
    ensures
        goes_on(a),
{
    CreateAction { revoke_session: None, answer: None }
}

/// The next step of opening a conversation: a token that does not
/// authenticate is a 401; a session that cannot be minted, or a
/// conversation that cannot be opened, a 500; a registry refusal revokes
/// the governed session minted for it and is answered as the refusal says;
/// an admission is a 201 with where the conversation's numbering stands.
pub fn create_session_step(phase: CreatePhase, event: CreateEvent) -> (r: (Option<CreatePhase>, CreateAction))
    requires
        create_event_fits(phase, event),
    ensures
        create_step_matches(phase, event, r),
{
    match phase {
        CreatePhase::Authenticating => match event {
            CreateEvent::Authenticated(Some(u)) => (Some(CreatePhase::Minting { user_id: u }), going_on()),
            _ => (None, problem(401, "invalid or expired token")),
        },
        CreatePhase::Minting { user_id } => match event {
            CreateEvent::Minted(Some(a)) => (Some(CreatePhase::Opening { user_id, attested: a }), going_on()),
            _ => (None, problem(500, "could not mint a governed session")),
        },
        CreatePhase::Opening { user_id, attested } => match event {
            CreateEvent::Opened(Some(o)) => (
                Some(CreatePhase::Creating { user_id, attested, opening: o }),
                going_on(),
            ),
            _ => (None, problem(500, "could not start a conversation")),
        },
        CreatePhase::Creating { user_id, attested, opening } => match event {
            CreateEvent::Created(Err(e)) => {
                let (status, message) = e.response();
                (
                    None,
                    CreateAction {
                        revoke_session: Some(attested),
                        answer: Some(CreateAnswer::Problem(status, message)),
                    },
                )
            },
            _ => {
                let last_seq = reported_seq(opening.start_seq);
                (
                    None,
                    CreateAction {
                        revoke_session: None,
                        answer: Some(
                            CreateAnswer::Started(
                                CreatedSession {
                                    conversation_id: opening.conversation_id,
                                    last_seq,
                                    resumed: opening.resumed,
                                },
                            ),
                        ),
                    },
                )
            },
        },
    }
}

/// A conversation the registry refuses gives up the governed session minted
/// for it, and nothing else does: the refusal revokes exactly that session
/// and is answered as the refusal says, while an admission revokes nothing.
pub proof fn law_a_refused_conversation_gives_up_its_session(
    user_id: String,
    attested: String,
    opening: Opening,
    created: Result<(), SpawnError>,
    r: (Option<CreatePhase>, CreateAction),
)
    requires
        create_step_matches(
            CreatePhase::Creating { user_id, attested, opening },
            CreateEvent::Created(created),
            r,
        ),
    ensures
        r.0 is None,
        created is Err <==> r.1.revoke_session == Some(attested),
        created is Ok <==> r.1.revoke_session is None,
        created matches Err(e) ==> (r.1.answer matches Some(CreateAnswer::Problem(s, m)) && (s, m@)
            == refusal_of(e)),
{
}

/// The longest title a conversation may carry, in characters.
pub const MAX_TITLE: usize = 120;

/// A requested title as stored: trimmed and cut to [`MAX_TITLE`]
/// characters; an empty result is refused.
pub open spec fn title_spec(requested: Seq<char>) -> Option<Seq<char>> {
    let t = trim(requested);
    let cut = if t.len() > MAX_TITLE {
        t.take(MAX_TITLE as int)
    } else {
        t
    };
    if cut.len() == 0 {
        None
    } else {
        Some(cut)
    }
}

/// The title to store for a rename, or the refusal of an empty one.
pub fn clean_title(requested: &str) -> (r: Result<String, (u16, &'static str)>)
    ensures
        match r {
            Ok(t) => title_spec(requested@) == Some(t@),
            Err(e) => title_spec(requested@) is None && e.0 == 400 && e.1@
                == "a title cannot be empty"@,
        },
{
    let cs = chars_of(requested);
    let (a, b) = trim_bounds(&cs);
    let end = if b - a > MAX_TITLE {
        a + MAX_TITLE
    } else {
        b
    };
    if end == a {
        return Err((400, "a title cannot be empty"));
    }
    let t = string_of_range(&cs, a, end);
    assert(t@ =~= title_spec(requested@)->0);
    Ok(t)
}

/// The most frames a history page carries.
pub const HISTORY_LIMIT: i64 = 2000;

/// A page of history: whether more may follow (the page came back full),
/// and the number of its last frame (zero for an empty page).
pub fn history_page(frame_seqs: &Vec<i64>) -> (r: (bool, i64))
    ensures
        r.0 == (frame_seqs.len() == HISTORY_LIMIT),
        r.1 == (if frame_seqs.len() == 0 {
            0
        } else {
            frame_seqs@.last()
        }),
{
    let more = frame_seqs.len() == 2000;
    let last = if frame_seqs.len() == 0 {
        0
    } else {
        frame_seqs[frame_seqs.len() - 1]
    };
    (more, last)
}

/// The longest automatic title, in characters.
pub const TITLE_LEN: usize = 60;

/// The title a conversation gets from its first user message: that
/// message's first line, trimmed and cut to [`TITLE_LEN`] characters; none
/// when that line is blank.
pub open spec fn auto_title_spec(text: Seq<char>) -> Option<Seq<char>> {
    let first = if lines(text).len() > 0 {
        lines(text)[0]
    } else {
        text
    };
    let t = trim(first);
    if t.len() == 0 {
        None
    } else if t.len() > TITLE_LEN {
        Some(t.take(TITLE_LEN as int))
    } else {
        Some(t)
    }
}

/// The automatic title for a conversation whose first user message is `text`.
pub fn auto_title(text: &str) -> (r: Option<String>)
    ensures
        match r {
            Some(t) => auto_title_spec(text@) == Some(t@),
            None => auto_title_spec(text@) is None,
        },
{
    let cs = chars_of(text);
    let ls = lines_of(&cs);
    let first = if ls.len() > 0 {
        ls[0].clone()
    } else {
        cs
    };
    let (a, b) = trim_bounds(&first);
    if a == b {
        return None;
    }
    let end = if b - a > TITLE_LEN {
        a + TITLE_LEN
    } else {
        b
    };
    let t = string_of_range(&first, a, end);
    assert(t@ =~= auto_title_spec(text@)->0);
    Some(t)
}

/// The answer to deleting a conversation, given how many of the caller's
/// rows the delete hid: none means it was missing or not theirs, the same
/// 404 as any other reach; otherwise the child is ended and nothing is sent
/// back.
pub fn deletion_reply(hidden: u64) -> (r: Result<(), (u16, &'static str)>)
    ensures
        r is Ok <==> hidden > 0,
        r matches Err(e) ==> (e.0, e.1@) == not_found(),
{
    if hidden == 0 {
        Err((404, "no such conversation"))
    } else {
        Ok(())
    }
}

} // verus!

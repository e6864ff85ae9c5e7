//! Turning a conversation's frame stream into the rows that get stored.
//!
//! Prose arrives a token at a time; runs of text deltas (and of thinking
//! deltas) are coalesced into one row carrying the joined text under the
//! sequence number of the run's first delta. A frame that is not a delta ends
//! the run before it, so the accumulated prose lands above it. Operator
//! signals (stderr, readiness, exit) are not stored at all.
use vstd::prelude::*;

verus! {

/// Which kind of delta a run coalesces.
#[derive(PartialEq, Eq, Structural, Clone, Copy, Debug)]
pub enum DeltaKind {
    Text,
    Thinking,
}

/// A frame, as the journal classifies it.
pub enum Frame {
    /// A fragment of prose or of thinking.
    Delta { kind: DeltaKind, seq: u64, text: String },
    /// A frame that is never stored.
    Unstored,
    /// Any other frame; `index` lets the caller find it again to store it.
    Stored { seq: u64, index: usize },
}

/// A row to store.
pub enum Row {
    /// A coalesced run of deltas.
    Run { seq: i64, kind: DeltaKind, text: String },
    /// A frame stored as it is.
    Frame { seq: i64, index: usize },
}

/// A row as the contracts see it.
pub enum RowV {
    Run { seq: i64, kind: DeltaKind, text: Seq<char> },
    Frame { seq: i64, index: usize },
}

pub open spec fn row_view(r: Row) -> RowV {
    match r {
        Row::Run { seq, kind, text } => RowV::Run { seq, kind, text: text@ },
        Row::Frame { seq, index } => RowV::Frame { seq, index },
    }
}

pub open spec fn rows_view(rs: Seq<Row>) -> Seq<RowV> {
    rs.map_values(|r: Row| row_view(r))
}

/// A frame as the contracts see it.
pub enum FrameV {
    Delta { kind: DeltaKind, seq: u64, text: Seq<char> },
    Unstored,
    Stored { seq: u64, index: usize },
}

pub open spec fn frame_view(f: Frame) -> FrameV {
    match f {
        Frame::Delta { kind, seq, text } => FrameV::Delta { kind, seq, text: text@ },
        Frame::Unstored => FrameV::Unstored,
        Frame::Stored { seq, index } => FrameV::Stored { seq, index },
    }
}

/// A sequence number as stored: saturating at `i64::MAX`.
pub open spec fn stored_seq(seq: u64) -> i64 {
    if seq <= i64::MAX as u64 {
        seq as i64
    } else {
        i64::MAX
    }
}

pub fn seq_of(seq: u64) -> (s: i64)
    ensures
        s == stored_seq(seq),
{
    if seq <= i64::MAX as u64 {
        seq as i64
    } else {
        i64::MAX
    }
}

/// The run being accumulated: its first delta's sequence number, its kind
/// (none once flushed) and the text so far.
pub struct RunState {
    pub seq: i64,
    pub kind: Option<DeltaKind>,
    pub text: Seq<char>,
}

/// Flushing a run: its row, if it holds any text, and the state after.
pub open spec fn take_spec(r: RunState) -> (Option<RowV>, RunState) {
    if r.text.len() == 0 {
        (None, r)
    } else {
        (
            Some(RowV::Run { seq: r.seq, kind: r.kind->0, text: r.text }),
            RunState { seq: r.seq, kind: None, text: Seq::empty() },
        )
    }
}

/// Folding one frame into the run: the row it flushes, if any, and the
/// state after.
pub open spec fn run_absorb_spec(r: RunState, f: FrameV) -> (Option<RowV>, RunState) {
    match f {
        FrameV::Delta { kind, seq, text } => {
            let (flushed, r1) = if r.kind != Some(kind) {
                take_spec(r)
            } else {
                (None, r)
            };
            let r2 = if r1.text.len() == 0 {
                RunState { seq: stored_seq(seq), kind: Some(kind), text: r1.text }
            } else {
                r1
            };
            (flushed, RunState { text: r2.text + text, ..r2 })
        },
        _ => take_spec(r),
    }
}

/// The row a frame is stored as, if it is stored as itself.
pub open spec fn storable_spec(f: FrameV) -> Option<RowV> {
    match f {
        FrameV::Stored { seq, index } => Some(RowV::Frame { seq: stored_seq(seq), index }),
        _ => None,
    }
}

pub open spec fn opt_seq(o: Option<RowV>) -> Seq<RowV> {
    match o {
        Some(r) => seq![r],
        None => seq![],
    }
}

/// The rows a stream of frames produces, and the run left open.
pub open spec fn journal_spec(frames: Seq<FrameV>) -> (Seq<RowV>, RunState)
    decreases frames.len(),
{
    if frames.len() == 0 {
        (seq![], RunState { seq: 0, kind: None, text: Seq::empty() })
    } else {
        let (rows, r) = journal_spec(frames.drop_last());
        let (flushed, r2) = run_absorb_spec(r, frames.last());
        (rows + opt_seq(flushed) + opt_seq(storable_spec(frames.last())), r2)
    }
}

/// The prose of a stream: every delta's text, in order.
pub open spec fn delta_text(frames: Seq<FrameV>) -> Seq<char>
    decreases frames.len(),
{
    if frames.len() == 0 {
        seq![]
    } else {
        delta_text(frames.drop_last()) + match frames.last() {
            FrameV::Delta { text, .. } => text,
            _ => seq![],
        }
    }
}

/// The prose carried by stored rows, in order.
pub open spec fn row_text(rows: Seq<RowV>) -> Seq<char>
    decreases rows.len(),
{
    if rows.len() == 0 {
        seq![]
    } else {
        row_text(rows.drop_last()) + match rows.last() {
            RowV::Run { text, .. } => text,
            _ => seq![],
        }
    }
}

proof fn lemma_row_text_append(a: Seq<RowV>, b: Seq<RowV>)
    ensures
        row_text(a + b) == row_text(a) + row_text(b),
    decreases b.len(),
{
    if b.len() == 0 {
        assert(a + b =~= a);
        assert(row_text(a) + row_text(b) =~= row_text(a));
    } else {
        lemma_row_text_append(a, b.drop_last());
        assert((a + b).drop_last() =~= a + b.drop_last());
        assert(row_text(a + b) =~= row_text(a) + row_text(b));
    }
}

proof fn lemma_row_text_single(r: RowV)
    ensures
        row_text(seq![r]) == match r {
            RowV::Run { text, .. } => text,
            _ => seq![],
        },
{
    assert(seq![r].drop_last() =~= Seq::<RowV>::empty());
    assert(row_text(Seq::<RowV>::empty()) =~= Seq::<char>::empty());
    let t = match r {
        RowV::Run { text, .. } => text,
        _ => seq![],
    };
    assert(Seq::<char>::empty() + t =~= t);
}

/// Prose is neither lost nor duplicated: the text of the stored runs, then
/// the run still open, is exactly every delta's text in arrival order.
pub proof fn law_prose_is_kept(frames: Seq<FrameV>)
    ensures
        row_text(journal_spec(frames).0) + journal_spec(frames).1.text == delta_text(frames),
    decreases frames.len(),
{
    if frames.len() == 0 {
        assert(row_text(Seq::<RowV>::empty()) + Seq::<char>::empty() =~= delta_text(frames));
    } else {
        let f0 = frames.drop_last();
        law_prose_is_kept(f0);
        let (rows, r) = journal_spec(f0);
        let f = frames.last();
        let (flushed, r2) = run_absorb_spec(r, f);
        let st = storable_spec(f);
        lemma_row_text_append(rows + opt_seq(flushed), opt_seq(st));
        lemma_row_text_append(rows, opt_seq(flushed));
        match flushed {
            Some(x) => lemma_row_text_single(x),
            None => {},
        }
        match st {
            Some(x) => lemma_row_text_single(x),
            None => {},
        }
        match f {
            FrameV::Delta { kind, seq, text } => {
                assert(row_text(journal_spec(frames).0) + journal_spec(frames).1.text
                    =~= delta_text(frames));
            },
            _ => {
                assert(row_text(journal_spec(frames).0) + journal_spec(frames).1.text
                    =~= delta_text(frames));
            },
        }
    }
}

/// The sequence number a frame carries; operator signals carry none that is
/// stored.
pub open spec fn frame_seq(f: FrameV) -> Option<u64> {
    match f {
        FrameV::Delta { seq, .. } => Some(seq),
        FrameV::Stored { seq, .. } => Some(seq),
        FrameV::Unstored => None,
    }
}

/// The highest sequence number among `frames`, or -1 when none carries one.
pub open spec fn max_seq(frames: Seq<FrameV>) -> int
    decreases frames.len(),
{
    if frames.len() == 0 {
        -1
    } else {
        let m = max_seq(frames.drop_last());
        match frame_seq(frames.last()) {
            Some(s) => if s > m {
                s as int
            } else {
                m
            },
            None => m,
        }
    }
}

/// Frames numbered as a session numbers them: each later number higher than
/// every earlier one, and all of them storable without saturating.
pub open spec fn numbered_in_order(frames: Seq<FrameV>) -> bool
    decreases frames.len(),
{
    if frames.len() == 0 {
        true
    } else {
        &&& numbered_in_order(frames.drop_last())
        &&& match frame_seq(frames.last()) {
            Some(s) => s > max_seq(frames.drop_last()) && s <= i64::MAX,
            None => true,
        }
    }
}

pub open spec fn row_seq(r: RowV) -> i64 {
    match r {
        RowV::Run { seq, .. } => seq,
        RowV::Frame { seq, .. } => seq,
    }
}

/// Rows whose sequence numbers strictly increase.
pub open spec fn rows_in_order(rows: Seq<RowV>) -> bool {
    forall|i: int, j: int| 0 <= i < j < rows.len() ==> row_seq(#[trigger] rows[i]) < row_seq(#[trigger] rows[j])
}

proof fn lemma_rows_in_order(frames: Seq<FrameV>)
    requires
        numbered_in_order(frames),
    ensures
        rows_in_order(journal_spec(frames).0),
        forall|i: int|
            0 <= i < journal_spec(frames).0.len() ==> row_seq(#[trigger] journal_spec(frames).0[i])
                <= max_seq(frames),
        journal_spec(frames).1.text.len() > 0 ==> {
            &&& journal_spec(frames).1.seq <= max_seq(frames)
            &&& forall|i: int|
                0 <= i < journal_spec(frames).0.len() ==> row_seq(#[trigger] journal_spec(frames).0[i])
                    < journal_spec(frames).1.seq
        },
    decreases frames.len(),
{
    if frames.len() > 0 {
        let f0 = frames.drop_last();
        lemma_rows_in_order(f0);
        let (rows, r) = journal_spec(f0);
        let f = frames.last();
        let (flushed, r2) = run_absorb_spec(r, f);
        let st = storable_spec(f);
        let out = rows + opt_seq(flushed) + opt_seq(st);
        assert(journal_spec(frames) == (out, r2));
        let m0 = max_seq(f0);
        let m = max_seq(frames);
        assert(m >= m0);
        match flushed {
            Some(x) => {
                assert(r.text.len() > 0);
                assert(row_seq(x) == r.seq);
            },
            None => {},
        }
        match f {
            FrameV::Delta { kind, seq, text } => {
                assert(seq as int == m);
                assert(stored_seq(seq) == seq as int);
            },
            FrameV::Stored { seq, index } => {
                assert(seq as int == m);
                assert(stored_seq(seq) == seq as int);
                assert(row_seq(st->0) == seq as int);
            },
            FrameV::Unstored => {},
        }
        assert forall|i: int, j: int| 0 <= i < j < out.len() implies row_seq(#[trigger] out[i]) < row_seq(
            #[trigger] out[j],
        ) by {
            if j < rows.len() {
                assert(out[i] == rows[i] && out[j] == rows[j]);
            } else if i < rows.len() {
                assert(out[i] == rows[i]);
            }
        }
        assert forall|i: int| 0 <= i < out.len() implies row_seq(#[trigger] out[i]) <= m by {
            if i < rows.len() {
                assert(out[i] == rows[i]);
            }
        }
        if r2.text.len() > 0 {
            assert forall|i: int| 0 <= i < out.len() implies row_seq(#[trigger] out[i]) < r2.seq by {
                if i < rows.len() {
                    assert(out[i] == rows[i]);
                }
            }
        }
    }
}

/// Stored rows come out in the order a resuming viewer reads them: when the
/// session numbers its frames in order, every row's sequence number is higher
/// than the one before, and the run still open will be stored above them
/// all.
pub proof fn law_rows_keep_the_session_order(frames: Seq<FrameV>)
    requires
        numbered_in_order(frames),
    ensures
        rows_in_order(journal_spec(frames).0),
        journal_spec(frames).1.text.len() > 0 ==> forall|i: int|
            0 <= i < journal_spec(frames).0.len() ==> row_seq(#[trigger] journal_spec(frames).0[i])
                < journal_spec(frames).1.seq,
{
    lemma_rows_in_order(frames);
}

/// The coalescing state of a conversation's writer.
pub struct Journal {
    seq: i64,
    kind: Option<DeltaKind>,
    text: String,
}

impl View for Journal {
    type V = RunState;

    closed spec fn view(&self) -> RunState {
        RunState { seq: self.seq, kind: self.kind, text: self.text@ }
    }
}

impl Journal {
    /// A journal with no run open.
    pub fn new() -> (j: Journal)
        ensures
            j@ == (RunState { seq: 0, kind: None, text: Seq::empty() }),
    {
        Journal { seq: 0, kind: None, text: String::new() }
    }

    fn take(&mut self) -> (r: Option<Row>)
        requires
            old(self)@.text.len() > 0 ==> old(self)@.kind is Some,
        ensures
            (match r {
                Some(x) => Some(row_view(x)),
                None => None,
            }, final(self)@) == take_spec(old(self)@),
    {
        if self.text.unicode_len() == 0 {
            return None;
        }
        let mut text = String::new();
        std::mem::swap(&mut text, &mut self.text);
        let kind = match self.kind {
            Some(k) => k,
            None => DeltaKind::Text,
        };
        self.kind = None;
        Some(Row::Run { seq: self.seq, kind, text })
    }

    /// Fold one frame in, appending whatever rows it completes: first the
    /// run it ends, then the frame itself when it is stored as itself.
    pub fn absorb(&mut self, frame: &Frame, out: &mut Vec<Row>)
        requires
            old(self)@.text.len() > 0 ==> old(self)@.kind is Some,
        ensures
            final(self)@ == run_absorb_spec(old(self)@, frame_view(*frame)).1,
            rows_view(final(out)@) == rows_view(old(out)@) + opt_seq(
                run_absorb_spec(old(self)@, frame_view(*frame)).0,
            ) + opt_seq(storable_spec(frame_view(*frame))),
            final(self)@.text.len() > 0 ==> final(self)@.kind is Some,
    {
        let ghost o = out@;
        match frame {
            Frame::Delta { kind, seq, text } => {
                let flushed = if self.kind != Some(*kind) {
                    self.take()
                } else {
                    None
                };
                if self.text.unicode_len() == 0 {
                    self.seq = seq_of(*seq);
                    self.kind = Some(*kind);
                }
                self.text.append(text.as_str());
                match flushed {
                    Some(r) => {
                        let ghost rv = row_view(r);
                        out.push(r);
                        assert(rows_view(out@) =~= rows_view(o) + seq![rv]);
                    },
                    None => {
                        assert(rows_view(out@) =~= rows_view(o));
                    },
                }
            },
            Frame::Unstored => {
                let flushed = self.take();
                match flushed {
                    Some(r) => {
                        let ghost rv = row_view(r);
                        out.push(r);
                        assert(rows_view(out@) =~= rows_view(o) + seq![rv]);
                    },
                    None => {
                        assert(rows_view(out@) =~= rows_view(o));
                    },
                }
            },
            Frame::Stored { seq, index } => {
                let flushed = self.take();
                let ghost o2 = out@;
                match flushed {
                    Some(r) => {
                        let ghost rv = row_view(r);
                        out.push(r);
                        assert(rows_view(out@) =~= rows_view(o) + seq![rv]);
                    },
                    None => {
                        assert(rows_view(out@) =~= rows_view(o));
                    },
                }
                let ghost o3 = out@;
                let row = Row::Frame { seq: seq_of(*seq), index: *index };
                let ghost rv2 = row_view(row);
                out.push(row);
                assert(rows_view(out@) =~= rows_view(o3) + seq![rv2]);
            },
        }
    }

    /// Close any run still open, so a pause in the output does not leave the
    /// last sentence unwritten.
    pub fn settle(&mut self, out: &mut Vec<Row>)
        requires
            old(self)@.text.len() > 0 ==> old(self)@.kind is Some,
        ensures
            final(self)@ == take_spec(old(self)@).1,
            rows_view(final(out)@) == rows_view(old(out)@) + opt_seq(take_spec(old(self)@).0),
            final(self)@.text.len() == 0,
    {
        let ghost o = out@;
        match self.take() {
            Some(r) => {
                let ghost rv = row_view(r);
                out.push(r);
                assert(rows_view(out@) =~= rows_view(o) + seq![rv]);
            },
            None => {
                assert(rows_view(out@) =~= rows_view(o));
            },
        }
    }
}

/// The kinds of frame a session emits, by their tag on the wire.
#[derive(PartialEq, Eq, Structural, Clone, Copy, Debug)]
pub enum EventKind {
    SessionReady,
    TurnStart,
    UserMessage,
    TextDelta,
    ThinkingDelta,
    ToolStart,
    ToolEnd,
    ToolBlocked,
    PromptBlocked,
    PolicyStages,
    ApprovalRequest,
    ApprovalAuto,
    ToolArtifact,
    ApprovalResolved,
    TurnEnd,
    Stderr,
    Error,
    Exit,
}

/// The tag a kind is sent and stored under.
pub open spec fn kind_label(k: EventKind) -> Seq<char> {
    match k {
        EventKind::SessionReady => "session_ready"@,
        EventKind::TurnStart => "turn_start"@,
        EventKind::UserMessage => "user_message"@,
        EventKind::TextDelta => "text_delta"@,
        EventKind::ThinkingDelta => "thinking_delta"@,
        EventKind::ToolStart => "tool_start"@,
        EventKind::ToolEnd => "tool_end"@,
        EventKind::ToolBlocked => "tool_blocked"@,
        EventKind::PromptBlocked => "prompt_blocked"@,
        EventKind::PolicyStages => "policy_stages"@,
        EventKind::ApprovalRequest => "approval_request"@,
        EventKind::ApprovalAuto => "approval_auto"@,
        EventKind::ToolArtifact => "tool_artifact"@,
        EventKind::ApprovalResolved => "approval_resolved"@,
        EventKind::TurnEnd => "turn_end"@,
        EventKind::Stderr => "stderr"@,
        EventKind::Error => "error"@,
        EventKind::Exit => "exit"@,
    }
}

impl EventKind {
    pub fn label(&self) -> (s: &'static str)
        ensures
            s@ == kind_label(*self),
    {
        match self {
            EventKind::SessionReady => "session_ready",
            EventKind::TurnStart => "turn_start",
            EventKind::UserMessage => "user_message",
            EventKind::TextDelta => "text_delta",
            EventKind::ThinkingDelta => "thinking_delta",
            EventKind::ToolStart => "tool_start",
            EventKind::ToolEnd => "tool_end",
            EventKind::ToolBlocked => "tool_blocked",
            EventKind::PromptBlocked => "prompt_blocked",
            EventKind::PolicyStages => "policy_stages",
            EventKind::ApprovalRequest => "approval_request",
            EventKind::ApprovalAuto => "approval_auto",
            EventKind::ToolArtifact => "tool_artifact",
            EventKind::ApprovalResolved => "approval_resolved",
            EventKind::TurnEnd => "turn_end",
            EventKind::Stderr => "stderr",
            EventKind::Error => "error",
            EventKind::Exit => "exit",
        }
    }
}

/// How the journal treats a frame of each kind: prose and thinking deltas
/// are coalesced, operator signals (stderr, readiness, exit) are never
/// stored, and everything else is stored as it is.
pub open spec fn classify_spec(kind: EventKind, seq: u64, index: usize, text: Seq<char>) -> FrameV {
    match kind {
        EventKind::TextDelta => FrameV::Delta { kind: DeltaKind::Text, seq, text },
        EventKind::ThinkingDelta => FrameV::Delta { kind: DeltaKind::Thinking, seq, text },
        EventKind::Stderr | EventKind::SessionReady | EventKind::Exit => FrameV::Unstored,
        _ => FrameV::Stored { seq, index },
    }
}

/// The journal's reading of a frame of `kind`; `text` is the delta's text
/// and is not read for any other kind.
pub fn classify(kind: EventKind, seq: u64, index: usize, text: String) -> (f: Frame)
    ensures
        frame_view(f) == classify_spec(kind, seq, index, text@),
{
    match kind {
        EventKind::TextDelta => Frame::Delta { kind: DeltaKind::Text, seq, text },
        EventKind::ThinkingDelta => Frame::Delta { kind: DeltaKind::Thinking, seq, text },
        EventKind::Stderr | EventKind::SessionReady | EventKind::Exit => Frame::Unstored,
        _ => Frame::Stored { seq, index },
    }
}

/// How many rows the writer holds before it writes them.
pub const BATCH_FRAMES: usize = 32;

/// What the conversation's writer learns next.
pub enum PersistEvent {
    /// A frame, with what the user typed when it is a user message.
    Frame { frame: Frame, user_text: Option<String> },
    /// The flush interval elapsed.
    Tick,
    /// The session ended; nothing more will come.
    Closed,
}

/// An event as the contracts see it.
pub enum PersistEventV {
    Frame(FrameV, Option<Seq<char>>),
    Tick,
    Closed,
}

pub open spec fn persist_event_view(e: PersistEvent) -> PersistEventV {
    match e {
        PersistEvent::Frame { frame, user_text } => PersistEventV::Frame(
            frame_view(frame),
            match user_text {
                Some(t) => Some(t@),
                None => None,
            },
        ),
        PersistEvent::Tick => PersistEventV::Tick,
        PersistEvent::Closed => PersistEventV::Closed,
    }
}

/// What the writer does about one event.
pub struct PersistAction {
    /// Title the conversation from this text: the first thing the user said.
    pub title: Option<String>,
    /// Store these rows now, in order.
    pub write: Vec<Row>,
}

/// The writer's state as the contracts see it: the open run, the rows held
/// back, and whether the conversation has been titled.
pub struct PersistState {
    pub run: RunState,
    pub pending: Seq<RowV>,
    pub titled: bool,
}

/// One event: the state after, the title to set, and the rows to store. A
/// frame is folded in and the held rows are stored once there are
/// [`BATCH_FRAMES`] of them; a tick or the end of the session closes the open
/// run and stores everything held. Only the first user message titles the
/// conversation.
pub open spec fn persist_step(st: PersistState, e: PersistEventV) -> (PersistState, Option<Seq<char>>, Seq<RowV>) {
    match e {
        PersistEventV::Frame(f, ut) => {
            let title = if st.titled {
                None
            } else {
                ut
            };
            let (flushed, r2) = run_absorb_spec(st.run, f);
            let p2 = st.pending + opt_seq(flushed) + opt_seq(storable_spec(f));
            let titled = st.titled || title is Some;
            if p2.len() >= BATCH_FRAMES {
                (PersistState { run: r2, pending: Seq::empty(), titled }, title, p2)
            } else {
                (PersistState { run: r2, pending: p2, titled }, title, Seq::empty())
            }
        },
        _ => {
            let (x, r2) = take_spec(st.run);
            (PersistState { run: r2, pending: Seq::empty(), titled: st.titled }, None, st.pending + opt_seq(x))
        },
    }
}

/// The writer for one conversation.
pub struct Persister {
    journal: Journal,
    pending: Vec<Row>,
    titled: bool,
}

impl View for Persister {
    type V = PersistState;

    closed spec fn view(&self) -> PersistState {
        PersistState { run: self.journal@, pending: rows_view(self.pending@), titled: self.titled }
    }
}

impl Persister {
    /// An open run always has a kind.
    pub open spec fn wf(&self) -> bool {
        self@.run.text.len() > 0 ==> self@.run.kind is Some
    }

    /// A writer that has seen nothing.
    pub fn new() -> (p: Persister)
        ensures
            p@ == (PersistState {
                run: RunState { seq: 0, kind: None, text: Seq::empty() },
                pending: Seq::empty(),
                titled: false,
            }),
            p.wf(),
    {
        let p = Persister { journal: Journal::new(), pending: Vec::new(), titled: false };
        assert(rows_view(p.pending@) =~= Seq::<RowV>::empty());
        p
    }

    /// Decides what to do about `event`.
    pub fn step(&mut self, event: PersistEvent) -> (a: PersistAction)
        requires
            old(self).wf(),
        ensures
            final(self).wf(),
            (final(self)@, match a.title {
                Some(t) => Some(t@),
                None => None,
            }, rows_view(a.write@)) == persist_step(old(self)@, persist_event_view(event)),
    {
        match event {
            PersistEvent::Frame { frame, user_text } => {
                let title = if self.titled {
                    None
                } else {
                    user_text
                };
                if title.is_some() {
                    self.titled = true;
                }
                self.journal.absorb(&frame, &mut self.pending);
                if self.pending.len() >= BATCH_FRAMES {
                    let mut write: Vec<Row> = Vec::new();
                    std::mem::swap(&mut write, &mut self.pending);
                    assert(rows_view(self.pending@) =~= Seq::<RowV>::empty());
                    PersistAction { title, write }
                } else {
                    let write: Vec<Row> = Vec::new();
                    assert(rows_view(write@) =~= Seq::<RowV>::empty());
                    PersistAction { title, write }
                }
            },
            _ => {
                self.journal.settle(&mut self.pending);
                let mut write: Vec<Row> = Vec::new();
                std::mem::swap(&mut write, &mut self.pending);
                assert(rows_view(self.pending@) =~= Seq::<RowV>::empty());
                PersistAction { title: None, write }
            },
        }
    }
}

/// The rows a stream of events yields, ticks and the end included, and the
/// run left open.
pub open spec fn rows_of_events(events: Seq<PersistEventV>) -> (Seq<RowV>, RunState)
    decreases events.len(),
{
    if events.len() == 0 {
        (seq![], RunState { seq: 0, kind: None, text: Seq::empty() })
    } else {
        let (rows, r) = rows_of_events(events.drop_last());
        match events.last() {
            PersistEventV::Frame(f, _) => {
                let (flushed, r2) = run_absorb_spec(r, f);
                (rows + opt_seq(flushed) + opt_seq(storable_spec(f)), r2)
            },
            _ => {
                let (x, r2) = take_spec(r);
                (rows + opt_seq(x), r2)
            },
        }
    }
}

/// A writer run over `events` from the start: its state, every row it
/// stored in order, and how many times it titled the conversation.
pub open spec fn persist_run(events: Seq<PersistEventV>) -> (PersistState, Seq<RowV>, nat)
    decreases events.len(),
{
    if events.len() == 0 {
        (
            PersistState {
                run: RunState { seq: 0, kind: None, text: Seq::empty() },
                pending: Seq::empty(),
                titled: false,
            },
            seq![],
            0,
        )
    } else {
        let (st, written, titles) = persist_run(events.drop_last());
        let (st2, title, write) = persist_step(st, events.last());
        (st2, written + write, titles + if title is Some {
            1nat
        } else {
            0nat
        })
    }
}

/// Batching loses and repeats nothing: what the writer has stored, followed
/// by what it still holds, is every row the stream yields, in order; so once
/// the session has ended everything is stored. And it titles the
/// conversation at most once.
pub proof fn law_every_row_is_stored_once(events: Seq<PersistEventV>)
    ensures
        persist_run(events).1 + persist_run(events).0.pending == rows_of_events(events).0,
        persist_run(events).0.run == rows_of_events(events).1,
        persist_run(events).2 <= 1,
        persist_run(events).2 == 1 <==> persist_run(events).0.titled,
        events.len() > 0 && events.last() is Closed ==> persist_run(events).0.pending.len() == 0,
    decreases events.len(),
{
    if events.len() > 0 {
        law_every_row_is_stored_once(events.drop_last());
        let (st, written, titles) = persist_run(events.drop_last());
        let e = events.last();
        let (rows, r) = rows_of_events(events.drop_last());
        match e {
            PersistEventV::Frame(f, ut) => {
                let (flushed, r2) = run_absorb_spec(r, f);
                let p2 = st.pending + opt_seq(flushed) + opt_seq(storable_spec(f));
                assert(written + p2 =~= rows + opt_seq(flushed) + opt_seq(storable_spec(f)));
                if p2.len() >= BATCH_FRAMES {
                    assert(written + p2 + Seq::<RowV>::empty() =~= written + p2);
                } else {
                    assert(written + Seq::<RowV>::empty() =~= written);
                }
            },
            _ => {
                let (x, r2) = take_spec(r);
                assert(written + (st.pending + opt_seq(x)) + Seq::<RowV>::empty() =~= rows + opt_seq(x));
            },
        }
    }
}

} // verus!

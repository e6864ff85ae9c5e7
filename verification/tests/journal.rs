use web_admin::journal::{
    classify, DeltaKind, EventKind, Frame, Journal, PersistEvent, Persister, Row, BATCH_FRAMES,
};

fn run(rows: &[Row], i: usize) -> Option<(i64, DeltaKind, String)> {
    match &rows[i] {
        Row::Run { seq, kind, text } => Some((*seq, *kind, text.clone())),
        Row::Frame { .. } => None,
    }
}

fn stored(rows: &[Row], i: usize) -> Option<(i64, usize)> {
    match &rows[i] {
        Row::Frame { seq, index } => Some((*seq, *index)),
        Row::Run { .. } => None,
    }
}

#[test]
fn deltas_are_coalesced_under_the_first_sequence_number() {
    let mut j = Journal::new();
    let mut out = Vec::new();
    j.absorb(&classify(EventKind::TurnStart, 1, 0, String::new()), &mut out);
    j.absorb(&classify(EventKind::TextDelta, 2, 1, "Hel".into()), &mut out);
    j.absorb(&classify(EventKind::TextDelta, 3, 2, "lo".into()), &mut out);
    j.absorb(&classify(EventKind::ThinkingDelta, 4, 3, "hmm".into()), &mut out);
    j.absorb(&classify(EventKind::ToolEnd, 5, 4, String::new()), &mut out);
    j.absorb(&classify(EventKind::Stderr, 6, 5, String::new()), &mut out);
    j.absorb(&classify(EventKind::TextDelta, 7, 6, "Bye".into()), &mut out);
    j.settle(&mut out);
    assert_eq!(out.len(), 5);
    assert_eq!(stored(&out, 0), Some((1, 0)));
    assert_eq!(run(&out, 1), Some((2, DeltaKind::Text, "Hello".to_string())));
    assert_eq!(run(&out, 2), Some((4, DeltaKind::Thinking, "hmm".to_string())));
    assert_eq!(stored(&out, 3), Some((5, 4)));
    assert_eq!(run(&out, 4), Some((7, DeltaKind::Text, "Bye".to_string())));
}

#[test]
fn settling_an_idle_journal_writes_nothing() {
    let mut j = Journal::new();
    let mut out = Vec::new();
    j.settle(&mut out);
    assert!(out.is_empty());
    j.absorb(&Frame::Unstored, &mut out);
    assert!(out.is_empty());
}

#[test]
fn operator_signals_are_never_stored_and_tags_match_the_wire() {
    assert!(matches!(classify(EventKind::SessionReady, 1, 0, String::new()), Frame::Unstored));
    assert!(matches!(classify(EventKind::Exit, 1, 0, String::new()), Frame::Unstored));
    assert!(matches!(classify(EventKind::ApprovalResolved, 9, 2, String::new()), Frame::Stored { seq: 9, index: 2 }));
    assert_eq!(EventKind::SessionReady.label(), "session_ready");
    assert_eq!(EventKind::ApprovalAuto.label(), "approval_auto");
    assert_eq!(EventKind::PolicyStages.label(), "policy_stages");
    assert_eq!(EventKind::Exit.label(), "exit");
}

#[test]
fn a_sequence_number_past_i64_is_stored_saturated() {
    let mut j = Journal::new();
    let mut out = Vec::new();
    j.absorb(&classify(EventKind::UserMessage, u64::MAX, 0, String::new()), &mut out);
    assert_eq!(stored(&out, 0), Some((i64::MAX, 0)));
}

fn frame(kind: EventKind, seq: u64, text: &str) -> PersistEvent {
    PersistEvent::Frame { frame: classify(kind, seq, seq as usize, text.to_string()), user_text: None }
}

#[test]
fn the_writer_titles_once_and_writes_in_batches() {
    let mut p = Persister::new();
    let a = p.step(PersistEvent::Frame {
        frame: classify(EventKind::UserMessage, 1, 0, String::new()),
        user_text: Some("Hello there".into()),
    });
    assert_eq!(a.title, Some("Hello there".to_string()));
    assert!(a.write.is_empty());
    let a = p.step(PersistEvent::Frame {
        frame: classify(EventKind::UserMessage, 2, 1, String::new()),
        user_text: Some("again".into()),
    });
    assert_eq!(a.title, None);

    let mut written = 0usize;
    for seq in 3..(3 + BATCH_FRAMES as u64) {
        let a = p.step(frame(EventKind::ToolEnd, seq, ""));
        written += a.write.len();
    }
    assert_eq!(written, BATCH_FRAMES);

    p.step(frame(EventKind::TextDelta, 100, "partial"));
    let a = p.step(PersistEvent::Tick);
    assert_eq!(a.write.len(), 3);
    assert!(matches!(&a.write[0], Row::Frame { seq: 33, .. }));
    assert!(matches!(&a.write[2], Row::Run { seq: 100, text, .. } if text == "partial"));
    let a = p.step(PersistEvent::Closed);
    assert!(a.write.is_empty());
}

#[test]
fn closing_the_session_stores_what_was_held() {
    let mut p = Persister::new();
    p.step(frame(EventKind::TextDelta, 1, "a"));
    p.step(frame(EventKind::TextDelta, 2, "b"));
    let a = p.step(PersistEvent::Closed);
    assert_eq!(a.write.len(), 1);
    assert!(matches!(&a.write[0], Row::Run { seq: 1, kind: DeltaKind::Text, text } if text == "ab"));
}

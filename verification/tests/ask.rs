use fortytwo::engine::citations::Source;
use fortytwo::engine::prompt::PromptOptions;
use fortytwo::server::ask::{AskBody, AskEvent, AskFlow, AskOutcome, AskPhase, AskStep};
use fortytwo::store::types::{Message, MessageRole};

fn flow(conversation_id: Option<&str>, question: &str) -> AskFlow {
    AskFlow::new(
        AskBody {
            conversation_id: conversation_id.map(|s| s.to_string()),
            question: question.to_string(),
        },
        PromptOptions::default(),
    )
}

fn source(i: usize) -> Source {
    Source {
        index: i,
        title: format!("T{i}"),
        url: format!("U{i}"),
        snippet: "s".into(),
    }
}

fn names(events: &[AskEvent]) -> Vec<String> {
    events
        .iter()
        .map(|e| match e {
            AskEvent::Conversation { id } => format!("conversation:{id}"),
            AskEvent::Sources { sources } => format!("sources:{}", sources.len()),
            AskEvent::Thinking { text } => format!("thinking:{text}"),
            AskEvent::Token { text } => format!("token:{text}"),
            AskEvent::Final { text } => format!("final:{text}"),
            AskEvent::Done => "done".to_string(),
            AskEvent::Error { message } => format!("error:{message}"),
        })
        .collect()
}

#[test]
fn new_conversation_full_flow() {
    let mut f = flow(None, "  What is 42?  ");
    assert_eq!(f.question, "What is 42?");
    let mut all = Vec::new();

    let (e, s) = f.step(AskOutcome::Start);
    all.extend(e);
    assert!(matches!(s, AskStep::CreateConversation { ref title } if title == "What is 42?"));

    let (e, s) = f.step(AskOutcome::ConversationCreated {
        result: Ok("c1".into()),
    });
    all.extend(e);
    match s {
        AskStep::LoadHistory {
            conversation_id,
            question,
            turns,
        } => {
            assert_eq!(conversation_id, "c1");
            assert_eq!(question, "What is 42?");
            assert_eq!(turns, 10);
        }
        _ => panic!("expected LoadHistory"),
    }

    let history = vec![
        Message {
            role: MessageRole::User,
            content: "earlier".into(),
            sources: vec![],
        },
        Message {
            role: MessageRole::User,
            content: "What is 42?".into(),
            sources: vec![],
        },
    ];
    let (e, s) = f.step(AskOutcome::HistoryLoaded { result: Ok(history) });
    all.extend(e);
    assert_eq!(f.history.len(), 1);
    assert!(matches!(s, AskStep::Search { ref query } if query == "What is 42?"));

    let (e, s) = f.step(AskOutcome::SearchDone {
        result: Some(vec![source(1)]),
    });
    all.extend(e);
    match s {
        AskStep::StreamAnswer { messages } => {
            assert_eq!(messages.len(), 3);
            assert_eq!(messages[1].content, "earlier");
            assert_eq!(messages[2].content, "What is 42?");
        }
        _ => panic!("expected StreamAnswer"),
    }

    for t in ["The answer", " is 42 [1]", "[2]."] {
        let (e, s) = f.step(AskOutcome::Token { text: t.into() });
        all.extend(e);
        assert!(matches!(s, AskStep::ReadStream));
    }
    let (e, _) = f.step(AskOutcome::Thinking { text: "hmm".into() });
    all.extend(e);

    let (e, s) = f.step(AskOutcome::StreamEnded);
    all.extend(e);
    match s {
        AskStep::PersistAnswer {
            conversation_id,
            text,
            sources,
        } => {
            assert_eq!(conversation_id, "c1");
            assert_eq!(text, "The answer is 42 [1].");
            assert_eq!(sources.len(), 1);
        }
        _ => panic!("expected PersistAnswer"),
    }

    let (e, s) = f.step(AskOutcome::Persisted);
    all.extend(e);
    assert!(matches!(s, AskStep::Finished));
    assert_eq!(f.phase, AskPhase::Finished);
    assert_eq!(
        names(&all),
        vec![
            "conversation:c1",
            "sources:1",
            "token:The answer",
            "token: is 42 [1]",
            "token:[2].",
            "thinking:hmm",
            "final:The answer is 42 [1].",
            "done",
        ]
    );
}

#[test]
fn no_final_event_when_citations_are_valid() {
    let mut f = flow(Some("c9"), "q");
    let (e, s) = f.step(AskOutcome::Start);
    assert!(e.is_empty());
    assert!(matches!(s, AskStep::CheckConversation { ref id } if id == "c9"));
    f.step(AskOutcome::ConversationChecked { found: true });
    f.step(AskOutcome::HistoryLoaded { result: Ok(vec![]) });
    f.step(AskOutcome::SearchDone { result: None });
    f.step(AskOutcome::Token { text: "ok".into() });
    f.step(AskOutcome::StreamEnded);
    let (e, _) = f.step(AskOutcome::Persisted);
    assert_eq!(names(&e), vec!["done"]);
}

#[test]
fn unknown_conversation_is_an_error() {
    let mut f = flow(Some("nope"), "q");
    f.step(AskOutcome::Start);
    let (e, s) = f.step(AskOutcome::ConversationChecked { found: false });
    assert_eq!(names(&e), vec!["error:conversation not found"]);
    assert!(matches!(s, AskStep::Finished));
    // a finished flow ignores everything
    let (e, s) = f.step(AskOutcome::Token { text: "x".into() });
    assert!(e.is_empty());
    assert!(matches!(s, AskStep::Ignored));
}

#[test]
fn failures_end_the_flow() {
    let mut f = flow(None, "q");
    f.step(AskOutcome::Start);
    let (e, _) = f.step(AskOutcome::ConversationCreated {
        result: Err("db down".into()),
    });
    assert_eq!(names(&e), vec!["error:db down"]);

    let mut f = flow(None, "q");
    f.step(AskOutcome::Start);
    f.step(AskOutcome::ConversationCreated { result: Ok("c".into()) });
    f.step(AskOutcome::HistoryLoaded { result: Ok(vec![]) });
    f.step(AskOutcome::SearchDone { result: Some(vec![]) });
    let (e, s) = f.step(AskOutcome::StreamFailed {
        message: "LLM request failed".into(),
    });
    assert_eq!(names(&e), vec!["error:LLM request failed"]);
    assert!(matches!(s, AskStep::Finished));
}

#[test]
fn out_of_order_outcomes_are_ignored() {
    let mut f = flow(None, "q");
    let (e, s) = f.step(AskOutcome::Persisted);
    assert!(e.is_empty());
    assert!(matches!(s, AskStep::Ignored));
    assert_eq!(f.phase, AskPhase::Idle);
}

#[test]
fn long_question_titles_are_cut() {
    let q = "x".repeat(100);
    let mut f = flow(None, &q);
    let (_, s) = f.step(AskOutcome::Start);
    match s {
        AskStep::CreateConversation { title } => assert_eq!(title.chars().count(), 60),
        _ => panic!(),
    }
}

#[test]
fn repeated_question_keeps_the_earlier_turn() {
    let mut f = flow(Some("c1"), "q");
    let _ = f.step(AskOutcome::Start);
    let (_, s) = f.step(AskOutcome::ConversationChecked { found: true });
    assert!(matches!(s, AskStep::LoadHistory { .. }));
    let history = vec![
        Message {
            role: MessageRole::User,
            content: "q".into(),
            sources: vec![],
        },
        Message {
            role: MessageRole::Assistant,
            content: "a".into(),
            sources: vec![],
        },
        Message {
            role: MessageRole::User,
            content: "q".into(),
            sources: vec![],
        },
    ];
    let (_, s) = f.step(AskOutcome::HistoryLoaded { result: Ok(history) });
    assert!(matches!(s, AskStep::Search { ref query } if query == "q"));
    assert_eq!(f.history.len(), 2);
    assert_eq!(f.history[0].role, MessageRole::User);
    assert_eq!(f.history[0].content, "q");
    assert_eq!(f.history[1].role, MessageRole::Assistant);
    assert_eq!(f.history[1].content, "a");
}

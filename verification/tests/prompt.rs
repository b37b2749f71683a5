use fortytwo::engine::citations::Source;
use fortytwo::engine::prompt::{build_messages, estimate_tokens, system_prompt, PromptOptions};
use fortytwo::store::types::{Message, MessageRole};

fn msg(role: MessageRole, content: &str) -> Message {
    Message {
        role,
        content: content.to_string(),
        sources: Vec::new(),
    }
}

fn source(i: usize) -> Source {
    Source {
        index: i,
        title: format!("Title {i}"),
        url: format!("https://example.com/{i}"),
        snippet: "snippet".into(),
    }
}

#[test]
fn basic_shape() {
    let history = vec![
        msg(MessageRole::User, "first question"),
        msg(MessageRole::Assistant, "first answer"),
    ];
    let msgs = build_messages(
        &history,
        "second question",
        &[source(1), source(2)],
        PromptOptions::default(),
    );
    let roles: Vec<&str> = msgs.iter().map(|m| m.role.as_str()).collect();
    assert_eq!(roles, vec!["system", "user", "assistant", "user"]);
    let system = msgs[0].content.as_str();
    assert!(system.contains("[1] Title 1"));
    assert!(system.contains("https://example.com/2"));
    assert_eq!(msgs[3].content.as_str(), "second question");
}

#[test]
fn empty_sources_noted() {
    let system = system_prompt(&[]);
    assert!(system.contains("No web sources were found"));
}

#[test]
fn history_window_limits_messages() {
    // 6 history messages, window of 4: only the last 4 survive.
    let history: Vec<Message> = (1..=6)
        .map(|i| {
            if i % 2 == 1 {
                msg(MessageRole::User, &format!("q{i}"))
            } else {
                msg(MessageRole::Assistant, &format!("a{i}"))
            }
        })
        .collect();
    let opts = PromptOptions {
        context_window: 100_000,
        history_turns: 4,
    };
    let msgs = build_messages(&history, "final", &[], opts);
    // system + 4 history + question
    assert_eq!(msgs.len(), 6);
    assert_eq!(msgs[1].content.as_str(), "q3");
}

#[test]
fn context_budget_drops_oldest_history() {
    let big = "x".repeat(8000); // ~2000 tokens each
    let history = vec![
        msg(MessageRole::User, &big),
        msg(MessageRole::Assistant, &big),
        msg(MessageRole::User, "small"),
    ];
    // Budget fits system + question + one big + small, but not two bigs:
    // the oldest big message must be dropped.
    let opts = PromptOptions {
        context_window: 4100,
        history_turns: 10,
    };
    let msgs = build_messages(&history, "q", &[], opts);
    let contents: Vec<&str> = msgs.iter().skip(1).map(|m| m.content.as_str()).collect();
    let big_count = contents.iter().filter(|c| **c == big).count();
    assert_eq!(big_count, 1, "exactly one big message should survive");
    assert!(contents.contains(&"small"));
    assert_eq!(*contents.last().unwrap(), "q");
}

#[test]
fn system_prompt_lists_sources_exactly() {
    let s = Source {
        index: 12,
        title: "T".into(),
        url: "U".into(),
        snippet: "S".into(),
    };
    let p = system_prompt(&[s]);
    assert!(p.starts_with("You are 42, a search-augmented assistant."));
    assert!(p.ends_with("\n\nWeb sources:\n[12] T\nU\nS"));
}

#[test]
fn estimate_tokens_rounds_up() {
    assert_eq!(estimate_tokens(""), 0);
    assert_eq!(estimate_tokens("a"), 1);
    assert_eq!(estimate_tokens("abcd"), 1);
    assert_eq!(estimate_tokens("abcde"), 2);
    // characters, not bytes
    assert_eq!(estimate_tokens("ééééé"), 2);
}

#[test]
fn default_options() {
    let o = PromptOptions::default();
    assert_eq!(o.context_window, 32768);
    assert_eq!(o.history_turns, 10);
}

#[test]
fn kept_history_fits_the_budget() {
    // the window leaves room for history worth 30 tokens; messages cost 10 each
    let ten = "y".repeat(40);
    let history: Vec<Message> = (0..6).map(|_| msg(MessageRole::User, &ten)).collect();
    let fixed = estimate_tokens(&system_prompt(&[])) + estimate_tokens("q");
    let opts = PromptOptions {
        context_window: fixed + 35,
        history_turns: 10,
    };
    let msgs = build_messages(&history, "q", &[], opts);
    assert_eq!(msgs.len(), 2 + 3);
}

#[test]
fn zero_window_keeps_only_system_and_question() {
    let history = vec![msg(MessageRole::User, "hello")];
    let opts = PromptOptions {
        context_window: 0,
        history_turns: 10,
    };
    let msgs = build_messages(&history, "q", &[], opts);
    assert_eq!(msgs.len(), 2);
    assert_eq!(msgs[0].role, "system");
    assert_eq!(msgs[1].role, "user");
}

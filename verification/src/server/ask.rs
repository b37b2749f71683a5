//! `POST /v1/ask`, the core flow, as a state machine.
//!
//! Flow: resolve or create the conversation -> persist the user message and
//! load the history -> search -> build the prompt -> stream the LLM tokens
//! -> validate citations -> persist the assistant message.
//!
//! The HTTP layer performs each step (storage, search, the LLM stream) and
//! hands the outcome back to `AskFlow::step`, which decides what happens
//! next and which SSE events go to the browser:
//!   conversation, sources, thinking, token, final (only when citation
//!   validation changed the text), done, error.

use vstd::prelude::*;
use vstd::string::StringExecFns;
use crate::engine::citations::{Source, spec_validate, validate};
use crate::engine::prompt::{ChatMessage, PromptOptions, build_messages, prompt_view};
use crate::engine::search::{take_chars, truncate_chars};
use crate::store::types::{Message, MessageRole};
use crate::text::{chars_of, trim, trim_range, string_of_range};

verus! {

/// Body of `POST /v1/ask`.
#[derive(Debug, Clone)]
pub struct AskBody {
    /// Existing conversation to continue; omit to start a new one.
    pub conversation_id: Option<String>,
    pub question: String,
}

/// An SSE event sent to the browser.
pub enum AskEvent {
    Conversation { id: String },
    Sources { sources: Vec<Source> },
    Thinking { text: String },
    Token { text: String },
    Final { text: String },
    Done,
    Error { message: String },
}

/// The events of an ask whose engine settings could not be loaded: one
/// error event with the message; nothing else happens.
pub fn settings_failed(message: String) -> (r: Vec<AskEvent>)
    ensures
        events_view(r@) == seq![EventView::Error(message@)],
{
    let r = vec![AskEvent::Error { message }];
    assert(events_view(r@) =~= seq![EventView::Error(message@)]);
    r
}

/// What the HTTP layer has to do next.
pub enum AskStep {
    /// Check that the conversation exists and belongs to the user.
    CheckConversation { id: String },
    /// Create a conversation with this title.
    CreateConversation { title: String },
    /// Persist the question as a user message, then load the last `turns`
    /// messages of the conversation.
    LoadHistory { conversation_id: String, question: String, turns: usize },
    /// Search the web for the query.
    Search { query: String },
    /// Open the LLM stream for these messages and report its first delta.
    StreamAnswer { messages: Vec<ChatMessage> },
    /// Report the next delta of the open LLM stream.
    ReadStream,
    /// Persist the assistant message.
    PersistAnswer { conversation_id: String, text: String, sources: Vec<Source> },
    /// Nothing is left to do.
    Finished,
    /// The outcome did not belong to the current phase and changed nothing.
    Ignored,
}

/// The outcome of the step the HTTP layer performed.
#[allow(inconsistent_fields)]
pub enum AskOutcome {
    /// The request arrived.
    Start,
    ConversationChecked { found: bool },
    ConversationCreated { result: Result<String, String> },
    HistoryLoaded { result: Result<Vec<Message>, String> },
    /// The search results; `None` when the search failed.
    SearchDone { result: Option<Vec<Source>> },
    Token { text: String },
    Thinking { text: String },
    StreamFailed { message: String },
    StreamEnded,
    /// The assistant message was persisted (or the attempt was logged).
    Persisted,
}

#[derive(Debug, Clone, Copy, PartialEq, Eq, Structural)]
pub enum AskPhase {
    Idle,
    Checking,
    Creating,
    LoadingHistory,
    Searching,
    Streaming,
    Persisting,
    Finished,
}

/// The state of one ask request.
pub struct AskFlow {
    pub phase: AskPhase,
    pub question: String,
    pub conversation_id: Option<String>,
    pub options: PromptOptions,
    pub cid: String,
    pub history: Vec<Message>,
    pub sources: Vec<Source>,
    pub answer: String,
    pub validated: String,
}

/// The state of an ask request, as plain values.
pub struct FlowView {
    pub phase: AskPhase,
    pub question: Seq<char>,
    pub conversation_id: Option<Seq<char>>,
    pub options: PromptOptions,
    pub cid: Seq<char>,
    pub history: Seq<Message>,
    pub sources: Seq<Source>,
    pub answer: Seq<char>,
    pub validated: Seq<char>,
}

pub enum EventView {
    Conversation(Seq<char>),
    Sources(Seq<Source>),
    Thinking(Seq<char>),
    Token(Seq<char>),
    Final(Seq<char>),
    Done,
    Error(Seq<char>),
}

pub enum StepView {
    CheckConversation(Seq<char>),
    CreateConversation(Seq<char>),
    LoadHistory(Seq<char>, Seq<char>, nat),
    Search(Seq<char>),
    StreamAnswer(Seq<(Seq<char>, Seq<char>)>),
    ReadStream,
    PersistAnswer(Seq<char>, Seq<char>, Seq<Source>),
    Finished,
    Ignored,
}

#[allow(inconsistent_fields)]
pub enum OutcomeView {
    Start,
    ConversationChecked(bool),
    ConversationCreated(Result<Seq<char>, Seq<char>>),
    HistoryLoaded(Result<Seq<Message>, Seq<char>>),
    SearchDone(Option<Seq<Source>>),
    Token(Seq<char>),
    Thinking(Seq<char>),
    StreamFailed(Seq<char>),
    StreamEnded,
    Persisted,
}

impl View for AskFlow {
    type V = FlowView;

    open spec fn view(&self) -> FlowView {
        FlowView {
            phase: self.phase,
            question: self.question@,
            conversation_id: match self.conversation_id {
                Some(id) => Some(id@),
                None => None,
            },
            options: self.options,
            cid: self.cid@,
            history: self.history@,
            sources: self.sources@,
            answer: self.answer@,
            validated: self.validated@,
        }
    }
}

impl View for AskOutcome {
    type V = OutcomeView;

    open spec fn view(&self) -> OutcomeView {
        match self {
            AskOutcome::Start => OutcomeView::Start,
            AskOutcome::ConversationChecked { found } => OutcomeView::ConversationChecked(*found),
            AskOutcome::ConversationCreated { result } => OutcomeView::ConversationCreated(
                match result {
                    Ok(id) => Ok(id@),
                    Err(e) => Err(e@),
                },
            ),
            AskOutcome::HistoryLoaded { result } => OutcomeView::HistoryLoaded(
                match result {
                    Ok(h) => Ok(h@),
                    Err(e) => Err(e@),
                },
            ),
            AskOutcome::SearchDone { result } => OutcomeView::SearchDone(
                match result {
                    Some(s) => Some(s@),
                    None => None,
                },
            ),
            AskOutcome::Token { text } => OutcomeView::Token(text@),
            AskOutcome::Thinking { text } => OutcomeView::Thinking(text@),
            AskOutcome::StreamFailed { message } => OutcomeView::StreamFailed(message@),
            AskOutcome::StreamEnded => OutcomeView::StreamEnded,
            AskOutcome::Persisted => OutcomeView::Persisted,
        }
    }
}

pub open spec fn event_view(e: AskEvent) -> EventView {
    match e {
        AskEvent::Conversation { id } => EventView::Conversation(id@),
        AskEvent::Sources { sources } => EventView::Sources(sources@),
        AskEvent::Thinking { text } => EventView::Thinking(text@),
        AskEvent::Token { text } => EventView::Token(text@),
        AskEvent::Final { text } => EventView::Final(text@),
        AskEvent::Done => EventView::Done,
        AskEvent::Error { message } => EventView::Error(message@),
    }
}

pub open spec fn events_view(v: Seq<AskEvent>) -> Seq<EventView> {
    v.map_values(|e: AskEvent| event_view(e))
}

pub open spec fn step_view(s: AskStep) -> StepView {
    match s {
        AskStep::CheckConversation { id } => StepView::CheckConversation(id@),
        AskStep::CreateConversation { title } => StepView::CreateConversation(title@),
        AskStep::LoadHistory { conversation_id, question, turns } => StepView::LoadHistory(
            conversation_id@,
            question@,
            turns as nat,
        ),
        AskStep::Search { query } => StepView::Search(query@),
        AskStep::StreamAnswer { messages } => StepView::StreamAnswer(
            crate::engine::prompt::chat_views(messages@),
        ),
        AskStep::ReadStream => StepView::ReadStream,
        AskStep::PersistAnswer { conversation_id, text, sources } => StepView::PersistAnswer(
            conversation_id@,
            text@,
            sources@,
        ),
        AskStep::Finished => StepView::Finished,
        AskStep::Ignored => StepView::Ignored,
    }
}

/// Whether a message is a user message holding the question.
pub open spec fn holds_question(m: Message, q: Seq<char>) -> bool {
    m.role == MessageRole::User && m.content@ == q
}

/// The history without the user message that was just persisted for the
/// question: the last user message holding the question is left out, and
/// every other message stays. An earlier identical question stays too.
pub open spec fn without_question(h: Seq<Message>, q: Seq<char>) -> Seq<Message>
    decreases h.len(),
{
    if h.len() == 0 {
        h
    } else if holds_question(h.last(), q) {
        h.drop_last()
    } else {
        without_question(h.drop_last(), q).push(h.last())
    }
}

/// The title of a conversation started by a question: its first sixty
/// characters.
pub open spec fn title_of(question: Seq<char>) -> Seq<char> {
    take_chars(question, 60)
}

/// The state after one finished flow step.
pub open spec fn finished(s: FlowView) -> FlowView {
    FlowView { phase: AskPhase::Finished, ..s }
}

/// What the flow does with an outcome in a given state: the next state, the
/// events to send and the next step.
pub open spec fn spec_step(s: FlowView, o: OutcomeView) -> (FlowView, Seq<EventView>, StepView) {
    match (s.phase, o) {
        (AskPhase::Idle, OutcomeView::Start) => match s.conversation_id {
            Some(id) => (
                FlowView { phase: AskPhase::Checking, cid: id, ..s },
                seq![],
                StepView::CheckConversation(id),
            ),
            None => (
                FlowView { phase: AskPhase::Creating, ..s },
                seq![],
                StepView::CreateConversation(title_of(s.question)),
            ),
        },
        (AskPhase::Checking, OutcomeView::ConversationChecked(found)) => if found {
            (
                FlowView { phase: AskPhase::LoadingHistory, ..s },
                seq![],
                StepView::LoadHistory(s.cid, s.question, s.options.history_turns as nat),
            )
        } else {
            (
                finished(s),
                seq![EventView::Error("conversation not found"@)],
                StepView::Finished,
            )
        },
        (AskPhase::Creating, OutcomeView::ConversationCreated(r)) => match r {
            Ok(id) => (
                FlowView { phase: AskPhase::LoadingHistory, cid: id, ..s },
                seq![EventView::Conversation(id)],
                StepView::LoadHistory(id, s.question, s.options.history_turns as nat),
            ),
            Err(e) => (finished(s), seq![EventView::Error(e)], StepView::Finished),
        },
        (AskPhase::LoadingHistory, OutcomeView::HistoryLoaded(r)) => match r {
            Ok(h) => (
                FlowView {
                    phase: AskPhase::Searching,
                    history: without_question(h, s.question),
                    ..s
                },
                seq![],
                StepView::Search(s.question),
            ),
            Err(e) => (finished(s), seq![EventView::Error(e)], StepView::Finished),
        },
        (AskPhase::Searching, OutcomeView::SearchDone(r)) => {
            let srcs = match r {
                Some(v) => v,
                None => Seq::<Source>::empty(),
            };
            (
                FlowView { phase: AskPhase::Streaming, sources: srcs, ..s },
                seq![EventView::Sources(srcs)],
                StepView::StreamAnswer(prompt_view(s.history, s.question, srcs, s.options)),
            )
        },
        (AskPhase::Streaming, OutcomeView::Token(t)) => (
            FlowView { answer: s.answer + t, ..s },
            seq![EventView::Token(t)],
            StepView::ReadStream,
        ),
        (AskPhase::Streaming, OutcomeView::Thinking(t)) => (
            s,
            seq![EventView::Thinking(t)],
            StepView::ReadStream,
        ),
        (AskPhase::Streaming, OutcomeView::StreamFailed(m)) => (
            finished(s),
            seq![EventView::Error(m)],
            StepView::Finished,
        ),
        (AskPhase::Streaming, OutcomeView::StreamEnded) => {
            let v = spec_validate(s.answer, s.sources.len());
            (
                FlowView { phase: AskPhase::Persisting, validated: v, ..s },
                seq![],
                StepView::PersistAnswer(s.cid, v, s.sources),
            )
        },
        (AskPhase::Persisting, OutcomeView::Persisted) => (
            finished(s),
            if s.validated != s.answer {
                seq![EventView::Final(s.validated), EventView::Done]
            } else {
                seq![EventView::Done]
            },
            StepView::Finished,
        ),
        _ => (s, seq![], StepView::Ignored),
    }
}

/// A copy of a list of sources.
pub fn clone_sources(v: &Vec<Source>) -> (r: Vec<Source>)
    ensures
        r@ == v@,
{
    let mut r: Vec<Source> = Vec::new();
    let mut i: usize = 0;
    while i < v.len()
        invariant
            i <= v@.len(),
            r@ == v@.take(i as int),
        decreases v@.len() - i,
    {
        r.push(v[i].duplicate());
        assert(v@.take(i + 1) =~= v@.take(i as int).push(v@[i as int]));
        i += 1;
    }
    assert(v@.take(i as int) =~= v@);
    r
}

proof fn lemma_without_question_at(h: Seq<Message>, q: Seq<char>, k: int)
    requires
        0 <= k <= h.len(),
        forall|j: int| k <= j < h.len() ==> !holds_question(#[trigger] h[j], q),
        k == 0 || holds_question(h[k - 1], q),
    ensures
        without_question(h, q) == if k == 0 {
            h
        } else {
            h.remove(k - 1)
        },
    decreases h.len(),
{
    if h.len() > 0 {
        if k == h.len() {
            assert(h.drop_last() =~= h.remove(k - 1));
        } else {
            let t = h.drop_last();
            assert(!holds_question(h[h.len() - 1], q));
            assert forall|j: int| k <= j < t.len() implies !holds_question(#[trigger] t[j], q) by {
                assert(t[j] == h[j]);
            }
            if k > 0 {
                assert(t[k - 1] == h[k - 1]);
                lemma_without_question_at(t, q, k);
                assert(t.remove(k - 1).push(h.last()) =~= h.remove(k - 1));
            } else {
                lemma_without_question_at(t, q, k);
                assert(t.push(h.last()) =~= h);
            }
        }
    }
}

/// Removes from `h` the last user message whose content is the question.
fn drop_question(h: &mut Vec<Message>, question: &String)
    ensures
        final(h)@ == without_question(old(h)@, question@),
{
    let mut k = h.len();
    while k > 0 && !(h[k - 1].role == MessageRole::User && h[k - 1].content == *question)
        invariant
            k <= h@.len(),
            forall|j: int| k <= j < h@.len() ==> !holds_question(#[trigger] h@[j], question@),
        decreases k,
    {
        k -= 1;
    }
    proof {
        lemma_without_question_at(h@, question@, k as int);
    }
    if k > 0 {
        h.remove(k - 1);
    }
}

impl AskFlow {
    /// A new flow for an ask request; the question is trimmed.
    pub fn new(body: AskBody, options: PromptOptions) -> (r: Self)
        ensures
            r@ == (FlowView {
                phase: AskPhase::Idle,
                question: trim(body.question@),
                conversation_id: match body.conversation_id {
                    Some(id) => Some(id@),
                    None => None,
                },
                options,
                cid: Seq::<char>::empty(),
                history: Seq::<Message>::empty(),
                sources: Seq::<Source>::empty(),
                answer: Seq::<char>::empty(),
                validated: Seq::<char>::empty(),
            }),
    {
        let v = chars_of(body.question.as_str());
        let (a, b) = trim_range(&v, 0, v.len());
        assert(v@.subrange(0, v@.len() as int) =~= v@);
        AskFlow {
            phase: AskPhase::Idle,
            question: string_of_range(&v, a, b),
            conversation_id: body.conversation_id,
            options,
            cid: String::new(),
            history: Vec::new(),
            sources: Vec::new(),
            answer: String::new(),
            validated: String::new(),
        }
    }

    /// Takes the outcome of the last step; returns the events to send and
    /// the next step.
    pub fn step(&mut self, outcome: AskOutcome) -> (r: (Vec<AskEvent>, AskStep))
        ensures
            (final(self)@, events_view(r.0@), step_view(r.1)) == spec_step(old(self)@, outcome@),
    {
        let ghost s = self@;
        let ghost o = outcome@;
        let mut events: Vec<AskEvent> = Vec::new();
        match self.phase {
            AskPhase::Idle => match outcome {
                AskOutcome::Start => match &self.conversation_id {
                    Some(id) => {
                        self.cid = id.clone();
                        self.phase = AskPhase::Checking;
                        let step = AskStep::CheckConversation { id: id.clone() };
                        assert(events_view(events@) =~= seq![]);
                        (events, step)
                    },
                    None => {
                        self.phase = AskPhase::Creating;
                        let title = truncate_chars(self.question.as_str(), 60);
                        assert(events_view(events@) =~= seq![]);
                        (events, AskStep::CreateConversation { title })
                    },
                },
                _ => {
                    assert(events_view(events@) =~= seq![]);
                    (events, AskStep::Ignored)
                },
            },
            AskPhase::Checking => match outcome {
                AskOutcome::ConversationChecked { found } => {
                    if found {
                        self.phase = AskPhase::LoadingHistory;
                        assert(events_view(events@) =~= seq![]);
                        (
                            events,
                            AskStep::LoadHistory {
                                conversation_id: self.cid.clone(),
                                question: self.question.clone(),
                                turns: self.options.history_turns,
                            },
                        )
                    } else {
                        self.phase = AskPhase::Finished;
                        events.push(
                            AskEvent::Error { message: String::from_str("conversation not found") },
                        );
                        assert(events_view(events@) =~= seq![
                            EventView::Error("conversation not found"@),
                        ]);
                        (events, AskStep::Finished)
                    }
                },
                _ => {
                    assert(events_view(events@) =~= seq![]);
                    (events, AskStep::Ignored)
                },
            },
            AskPhase::Creating => match outcome {
                AskOutcome::ConversationCreated { result } => match result {
                    Ok(id) => {
                        self.cid = id.clone();
                        self.phase = AskPhase::LoadingHistory;
                        events.push(AskEvent::Conversation { id: id.clone() });
                        assert(events_view(events@) =~= seq![EventView::Conversation(id@)]);
                        (
                            events,
                            AskStep::LoadHistory {
                                conversation_id: id,
                                question: self.question.clone(),
                                turns: self.options.history_turns,
                            },
                        )
                    },
                    Err(e) => {
                        self.phase = AskPhase::Finished;
                        events.push(AskEvent::Error { message: e });
                        assert(events_view(events@) =~= seq![EventView::Error(o->ConversationCreated_0->Err_0)]);
                        (events, AskStep::Finished)
                    },
                },
                _ => {
                    assert(events_view(events@) =~= seq![]);
                    (events, AskStep::Ignored)
                },
            },
            AskPhase::LoadingHistory => match outcome {
                AskOutcome::HistoryLoaded { result } => match result {
                    Ok(h) => {
                        let mut h = h;
                        drop_question(&mut h, &self.question);
                        self.history = h;
                        self.phase = AskPhase::Searching;
                        assert(events_view(events@) =~= seq![]);
                        (events, AskStep::Search { query: self.question.clone() })
                    },
                    Err(e) => {
                        self.phase = AskPhase::Finished;
                        events.push(AskEvent::Error { message: e });
                        assert(events_view(events@) =~= seq![EventView::Error(o->HistoryLoaded_0->Err_0)]);
                        (events, AskStep::Finished)
                    },
                },
                _ => {
                    assert(events_view(events@) =~= seq![]);
                    (events, AskStep::Ignored)
                },
            },
            AskPhase::Searching => match outcome {
                AskOutcome::SearchDone { result } => {
                    let srcs = match result {
                        Some(v) => v,
                        None => Vec::new(),
                    };
                    let messages = build_messages(
                        self.history.as_slice(),
                        self.question.as_str(),
                        srcs.as_slice(),
                        self.options,
                    );
                    events.push(AskEvent::Sources { sources: clone_sources(&srcs) });
                    self.sources = srcs;
                    self.phase = AskPhase::Streaming;
                    assert(events_view(events@) =~= seq![EventView::Sources(self.sources@)]);
                    (events, AskStep::StreamAnswer { messages })
                },
                _ => {
                    assert(events_view(events@) =~= seq![]);
                    (events, AskStep::Ignored)
                },
            },
            AskPhase::Streaming => match outcome {
                AskOutcome::Token { text } => {
                    self.answer.append(text.as_str());
                    events.push(AskEvent::Token { text });
                    assert(events_view(events@) =~= seq![EventView::Token(o->Token_0)]);
                    (events, AskStep::ReadStream)
                },
                AskOutcome::Thinking { text } => {
                    events.push(AskEvent::Thinking { text });
                    assert(events_view(events@) =~= seq![EventView::Thinking(o->Thinking_0)]);
                    (events, AskStep::ReadStream)
                },
                AskOutcome::StreamFailed { message } => {
                    self.phase = AskPhase::Finished;
                    events.push(AskEvent::Error { message });
                    assert(events_view(events@) =~= seq![EventView::Error(o->StreamFailed_0)]);
                    (events, AskStep::Finished)
                },
                AskOutcome::StreamEnded => {
                    let v = validate(self.answer.as_str(), self.sources.len());
                    self.validated = v.clone();
                    self.phase = AskPhase::Persisting;
                    assert(events_view(events@) =~= seq![]);
                    (
                        events,
                        AskStep::PersistAnswer {
                            conversation_id: self.cid.clone(),
                            text: v,
                            sources: clone_sources(&self.sources),
                        },
                    )
                },
                _ => {
                    assert(events_view(events@) =~= seq![]);
                    (events, AskStep::Ignored)
                },
            },
            AskPhase::Persisting => match outcome {
                AskOutcome::Persisted => {
                    self.phase = AskPhase::Finished;
                    if self.validated != self.answer {
                        events.push(AskEvent::Final { text: self.validated.clone() });
                    }
                    events.push(AskEvent::Done);
                    assert(events_view(events@) =~= (if s.validated != s.answer {
                        seq![EventView::Final(s.validated), EventView::Done]
                    } else {
                        seq![EventView::Done]
                    }));
                    (events, AskStep::Finished)
                },
                _ => {
                    assert(events_view(events@) =~= seq![]);
                    (events, AskStep::Ignored)
                },
            },
            AskPhase::Finished => {
                assert(events_view(events@) =~= seq![]);
                (events, AskStep::Ignored)
            },
        }
    }
}


/// The state and the events after feeding a sequence of outcomes.
pub open spec fn run(s: FlowView, outs: Seq<OutcomeView>) -> (FlowView, Seq<EventView>)
    decreases outs.len(),
{
    if outs.len() == 0 {
        (s, seq![])
    } else {
        let (t, e, _) = spec_step(s, outs[0]);
        let (u, rest) = run(t, outs.drop_first());
        (u, e + rest)
    }
}

/// The texts concatenated in order.
pub open spec fn concat_texts(ts: Seq<Seq<char>>) -> Seq<char>
    decreases ts.len(),
{
    if ts.len() == 0 {
        seq![]
    } else {
        ts[0] + concat_texts(ts.drop_first())
    }
}

/// Feeding `a` and then `b` is feeding `a + b`.
pub proof fn lemma_run_append(s: FlowView, a: Seq<OutcomeView>, b: Seq<OutcomeView>)
    ensures
        run(s, a + b) == (run(run(s, a).0, b).0, run(s, a).1 + run(run(s, a).0, b).1),
    decreases a.len(),
{
    if a.len() == 0 {
        assert(a + b =~= b);
        assert(Seq::<EventView>::empty() + run(s, b).1 =~= run(s, b).1);
    } else {
        let (t, e, _) = spec_step(s, a[0]);
        assert((a + b).drop_first() =~= a.drop_first() + b);
        assert((a + b)[0] == a[0]);
        lemma_run_append(t, a.drop_first(), b);
        let x = run(t, a.drop_first());
        let y = run(x.0, b);
        assert(e + (x.1 + y.1) =~= (e + x.1) + y.1);
    }
}

/// One step never leaves a finished flow, and a step that sends `error` or
/// `done` finishes the flow: nothing follows those events.
pub proof fn lemma_step_terminal(s: FlowView, o: OutcomeView)
    ensures
        s.phase == AskPhase::Finished ==> spec_step(s, o) == (s, Seq::<EventView>::empty(),
            StepView::Ignored),
        forall|i: int|
            0 <= i < spec_step(s, o).1.len() && (#[trigger] spec_step(s, o).1[i] is Error
                || spec_step(s, o).1[i] is Done) ==> spec_step(s, o).0.phase == AskPhase::Finished
                && spec_step(s, o).2 == StepView::Finished,
{
}

/// Reasoning from a thinking model is forwarded and nothing else: it never
/// becomes part of the answer that is validated and persisted.
pub proof fn lemma_thinking_not_kept(s: FlowView, t: Seq<char>)
    requires
        s.phase == AskPhase::Streaming,
    ensures
        spec_step(s, OutcomeView::Thinking(t)) == (s, seq![EventView::Thinking(t)], StepView::ReadStream),
{
}

/// While the answer streams, each token is forwarded as it comes and added
/// to the answer; nothing else changes.
pub proof fn lemma_tokens_accumulate(s: FlowView, ts: Seq<Seq<char>>)
    requires
        s.phase == AskPhase::Streaming,
    ensures
        run(s, ts.map_values(|t: Seq<char>| OutcomeView::Token(t))) == (
            FlowView { answer: s.answer + concat_texts(ts), ..s },
            ts.map_values(|t: Seq<char>| EventView::Token(t)),
        ),
    decreases ts.len(),
{
    let outs = ts.map_values(|t: Seq<char>| OutcomeView::Token(t));
    if ts.len() == 0 {
        assert(s.answer + concat_texts(ts) =~= s.answer);
        assert(ts.map_values(|t: Seq<char>| EventView::Token(t)) =~= Seq::<EventView>::empty());
    } else {
        let t = FlowView { answer: s.answer + ts[0], ..s };
        assert(outs[0] == OutcomeView::Token(ts[0]));
        assert(outs.drop_first() =~= ts.drop_first().map_values(
            |t: Seq<char>| OutcomeView::Token(t),
        ));
        lemma_tokens_accumulate(t, ts.drop_first());
        assert(t.answer + concat_texts(ts.drop_first()) =~= s.answer + concat_texts(ts));
        assert(seq![EventView::Token(ts[0])] + ts.drop_first().map_values(
            |t: Seq<char>| EventView::Token(t),
        ) =~= ts.map_values(|t: Seq<char>| EventView::Token(t)));
    }
}

/// The events of a new conversation answered in full: `conversation`,
/// `sources`, each `token` as it streamed, `final` with the repaired text
/// only when citation repair changed the answer, then `done`. The text
/// persisted is the streamed answer with its citations repaired against
/// the sources found.
#[verifier::rlimit(40)]
pub proof fn lemma_new_conversation_events(
    s: FlowView,
    id: Seq<char>,
    h: Seq<Message>,
    r: Option<Seq<Source>>,
    ts: Seq<Seq<char>>,
)
    requires
        s.phase == AskPhase::Idle,
        s.conversation_id is None,
        s.answer == Seq::<char>::empty(),
    ensures
        ({
            let srcs = match r {
                Some(v) => v,
                None => Seq::<Source>::empty(),
            };
            let answer = concat_texts(ts);
            let v = spec_validate(answer, srcs.len());
            let outs = seq![
                OutcomeView::Start,
                OutcomeView::ConversationCreated(Ok(id)),
                OutcomeView::HistoryLoaded(Ok(h)),
                OutcomeView::SearchDone(r),
            ] + ts.map_values(|t: Seq<char>| OutcomeView::Token(t)) + seq![
                OutcomeView::StreamEnded,
                OutcomeView::Persisted,
            ];
            &&& run(s, outs).1 == seq![EventView::Conversation(id), EventView::Sources(srcs)]
                + ts.map_values(|t: Seq<char>| EventView::Token(t)) + (if v != answer {
                seq![EventView::Final(v), EventView::Done]
            } else {
                seq![EventView::Done]
            })
            &&& run(s, outs).0.phase == AskPhase::Finished
            &&& run(s, outs).0.validated == v
        }),
{
    let srcs = match r {
        Some(v) => v,
        None => Seq::<Source>::empty(),
    };
    let answer = concat_texts(ts);
    let v = spec_validate(answer, srcs.len());
    let head = seq![
        OutcomeView::Start,
        OutcomeView::ConversationCreated(Ok(id)),
        OutcomeView::HistoryLoaded(Ok(h)),
        OutcomeView::SearchDone(r),
    ];
    let toks = ts.map_values(|t: Seq<char>| OutcomeView::Token(t));
    let tail = seq![OutcomeView::StreamEnded, OutcomeView::Persisted];
    // the four steps before streaming
    let s1 = spec_step(s, OutcomeView::Start).0;
    let s2 = spec_step(s1, OutcomeView::ConversationCreated(Ok(id))).0;
    let s3 = spec_step(s2, OutcomeView::HistoryLoaded(Ok(h))).0;
    let s4 = spec_step(s3, OutcomeView::SearchDone(r)).0;
    assert(s4.phase == AskPhase::Streaming);
    assert(s4.sources == srcs);
    reveal_with_fuel(run, 5);
    assert(head.drop_first().drop_first().drop_first().drop_first() =~= Seq::<OutcomeView>::empty());
    assert(run(s, head).0 == s4);
    assert(run(s, head).1 =~= seq![EventView::Conversation(id), EventView::Sources(srcs)]);
    // the tokens
    lemma_tokens_accumulate(s4, ts);
    let s5 = FlowView { answer: s4.answer + answer, ..s4 };
    assert(s4.answer + answer =~= answer);
    // the end
    let s6 = spec_step(s5, OutcomeView::StreamEnded).0;
    let s7 = spec_step(s6, OutcomeView::Persisted).0;
    assert(tail.drop_first().drop_first() =~= Seq::<OutcomeView>::empty());
    assert(run(s5, tail).0 == s7);
    let end_events = if v != answer {
        seq![EventView::Final(v), EventView::Done]
    } else {
        seq![EventView::Done]
    };
    assert(run(s5, tail).1 =~= end_events);
    lemma_run_append(s, head, toks);
    lemma_run_append(s, head + toks, tail);
    assert(head + toks + tail =~= seq![
        OutcomeView::Start,
        OutcomeView::ConversationCreated(Ok(id)),
        OutcomeView::HistoryLoaded(Ok(h)),
        OutcomeView::SearchDone(r),
    ] + ts.map_values(|t: Seq<char>| OutcomeView::Token(t)) + seq![
        OutcomeView::StreamEnded,
        OutcomeView::Persisted,
    ]);
}

/// The steps of a question that starts a new conversation: the conversation
/// is created under the question's first sixty characters (all of them when
/// it is shorter); then the last `history_turns` messages of the created
/// conversation are loaded, the question is searched, and the repaired
/// answer is persisted to that same conversation.
pub proof fn lemma_new_conversation_steps(
    s: FlowView,
    id: Seq<char>,
    h: Seq<Message>,
    r: Option<Seq<Source>>,
    ts: Seq<Seq<char>>,
)
    requires
        s.phase == AskPhase::Idle,
        s.conversation_id is None,
    ensures
        ({
            let srcs = match r {
                Some(v) => v,
                None => Seq::<Source>::empty(),
            };
            let title = if s.question.len() <= 60 {
                s.question
            } else {
                s.question.take(60)
            };
            let a = spec_step(s, OutcomeView::Start);
            let b = spec_step(a.0, OutcomeView::ConversationCreated(Ok(id)));
            let c = spec_step(b.0, OutcomeView::HistoryLoaded(Ok(h)));
            let d = spec_step(c.0, OutcomeView::SearchDone(r));
            let e = run(d.0, ts.map_values(|t: Seq<char>| OutcomeView::Token(t))).0;
            let f = spec_step(e, OutcomeView::StreamEnded);
            &&& a.2 == StepView::CreateConversation(title)
            &&& title.len() <= 60
            &&& b.2 == StepView::LoadHistory(id, s.question, s.options.history_turns as nat)
            &&& c.2 == StepView::Search(s.question)
            &&& d.1 == seq![EventView::Sources(srcs)]
            &&& d.2 is StreamAnswer
            &&& (h.len() > 0 && h.last().role == MessageRole::User && h.last().content@
                == s.question ==> d.2 == StepView::StreamAnswer(
                prompt_view(h.drop_last(), s.question, srcs, s.options),
            ))
            &&& f.2 == StepView::PersistAnswer(
                id,
                spec_validate(s.answer + concat_texts(ts), srcs.len()),
                srcs,
            )
        }),
{
    let a = spec_step(s, OutcomeView::Start);
    let b = spec_step(a.0, OutcomeView::ConversationCreated(Ok(id)));
    let c = spec_step(b.0, OutcomeView::HistoryLoaded(Ok(h)));
    let d = spec_step(c.0, OutcomeView::SearchDone(r));
    assert(d.0.phase == AskPhase::Streaming);
    assert(d.0.cid == id);
    lemma_tokens_accumulate(d.0, ts);
    if s.question.len() > 60 {
        assert(s.question.take(60).len() == 60);
    }
}

/// The steps of a question in an existing conversation: the flow checks
/// that conversation; once it is found, loads the last `history_turns`
/// messages of that conversation, searches the question, and persists the
/// repaired answer to that same conversation.
pub proof fn lemma_existing_conversation_steps(
    s: FlowView,
    id: Seq<char>,
    h: Seq<Message>,
    r: Option<Seq<Source>>,
    ts: Seq<Seq<char>>,
)
    requires
        s.phase == AskPhase::Idle,
        s.conversation_id == Some(id),
    ensures
        ({
            let srcs = match r {
                Some(v) => v,
                None => Seq::<Source>::empty(),
            };
            let a = spec_step(s, OutcomeView::Start);
            let b = spec_step(a.0, OutcomeView::ConversationChecked(true));
            let c = spec_step(b.0, OutcomeView::HistoryLoaded(Ok(h)));
            let d = spec_step(c.0, OutcomeView::SearchDone(r));
            let e = run(d.0, ts.map_values(|t: Seq<char>| OutcomeView::Token(t))).0;
            let f = spec_step(e, OutcomeView::StreamEnded);
            &&& a.2 == StepView::CheckConversation(id)
            &&& b.2 == StepView::LoadHistory(id, s.question, s.options.history_turns as nat)
            &&& b.1 == Seq::<EventView>::empty()
            &&& c.2 == StepView::Search(s.question)
            &&& d.1 == seq![EventView::Sources(srcs)]
            &&& d.2 is StreamAnswer
            &&& (h.len() > 0 && h.last().role == MessageRole::User && h.last().content@
                == s.question ==> d.2 == StepView::StreamAnswer(
                prompt_view(h.drop_last(), s.question, srcs, s.options),
            ))
            &&& f.2 == StepView::PersistAnswer(
                id,
                spec_validate(s.answer + concat_texts(ts), srcs.len()),
                srcs,
            )
        }),
{
    let a = spec_step(s, OutcomeView::Start);
    let b = spec_step(a.0, OutcomeView::ConversationChecked(true));
    let c = spec_step(b.0, OutcomeView::HistoryLoaded(Ok(h)));
    let d = spec_step(c.0, OutcomeView::SearchDone(r));
    assert(d.0.phase == AskPhase::Streaming);
    assert(d.0.cid == id);
    lemma_tokens_accumulate(d.0, ts);
}

/// A conversation that is not found ends the flow with an error, and
/// nothing is loaded or stored.
pub proof fn lemma_unknown_conversation(s: FlowView, id: Seq<char>)
    requires
        s.phase == AskPhase::Idle,
        s.conversation_id == Some(id),
    ensures
        spec_step(spec_step(s, OutcomeView::Start).0, OutcomeView::ConversationChecked(false)).2
            == StepView::Finished,
        spec_step(spec_step(s, OutcomeView::Start).0, OutcomeView::ConversationChecked(false)).1
            == seq![EventView::Error("conversation not found"@)],
{
}

} // verus!

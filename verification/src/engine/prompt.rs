//! Prompt assembly: system prompt + sources + sliding-window history,
//! bounded by the configured context window (oldest messages dropped first).

use vstd::prelude::*;
use crate::engine::citations::Source;
use crate::store::types::{Message, MessageRole, role_name};
use crate::text::{decimal, push_decimal};
use vstd::string::{StrSliceExecFns, StringExecFns};

verus! {

/// The instructions that open every system prompt.
pub open spec fn instructions() -> Seq<char> {
    "You are 42, a search-augmented assistant. Answer the user's question using the web sources provided below. Cite sources inline with bracketed numbers that match the source numbers, like [1] or [2,3]. Only cite sources that are actually listed. Be concise and factual. If the sources do not contain the answer, say so plainly instead of guessing."@
}

/// Options controlling how the prompt is bounded.
#[derive(Debug, Clone, Copy)]
pub struct PromptOptions {
    /// Total context budget in tokens (rough estimate: 4 chars/token).
    pub context_window: usize,
    /// Maximum number of history messages included.
    pub history_turns: usize,
}

impl Default for PromptOptions {
    fn default() -> (r: Self)
        ensures
            r.context_window == 32768,
            r.history_turns == 10,
    {
        PromptOptions { context_window: 32_768, history_turns: 10 }
    }
}

/// One message of an OpenAI-format chat request: a role (`system`, `user`
/// or `assistant`) and its content.
#[derive(Debug, Clone)]
pub struct ChatMessage {
    pub role: String,
    pub content: String,
}

/// The entry of one source in the system prompt: its number, title, URL and
/// snippet on lines of their own.
pub open spec fn source_entry(s: Source) -> Seq<char> {
    "\n["@ + decimal(s.index as nat) + "] "@ + s.title@ + "\n"@ + s.url@ + "\n"@ + s.snippet@
}

/// The entries of all sources, in order.
pub open spec fn source_entries(srcs: Seq<Source>) -> Seq<char>
    decreases srcs.len(),
{
    if srcs.len() == 0 {
        seq![]
    } else {
        source_entries(srcs.drop_last()) + source_entry(srcs.last())
    }
}

/// The system prompt for the given sources.
pub open spec fn spec_system_prompt(srcs: Seq<Source>) -> Seq<char> {
    if srcs.len() == 0 {
        instructions() + "\n\nNo web sources were found for this question."@
    } else {
        instructions() + "\n\nWeb sources:"@ + source_entries(srcs)
    }
}

/// The system prompt lists each source under its own number, title, URL
/// and snippet, in the order given: the prompt for the first `i + 1`
/// sources is the prompt for the first `i` (or, for the first source, the
/// instructions and the `Web sources:` heading) followed by the `i`-th
/// source's own fields, each on a line of its own.
pub proof fn lemma_system_prompt_lists_sources(srcs: Seq<Source>, i: int)
    requires
        0 <= i < srcs.len(),
    ensures
        spec_system_prompt(srcs.take(i + 1)) == (if i == 0 {
            instructions() + "\n\nWeb sources:"@
        } else {
            spec_system_prompt(srcs.take(i))
        }) + "\n["@ + decimal(srcs[i].index as nat) + "] "@ + srcs[i].title@ + "\n"@
            + srcs[i].url@ + "\n"@ + srcs[i].snippet@,
        spec_system_prompt(srcs.take(srcs.len() as int)) == spec_system_prompt(srcs),
{
    let t = srcs.take(i + 1);
    assert(t.drop_last() =~= srcs.take(i));
    assert(t.last() == srcs[i]);
    if i == 0 {
        assert(srcs.take(0) =~= Seq::<Source>::empty());
        assert(source_entries(srcs.take(0)) =~= Seq::<char>::empty());
    }
    assert(srcs.take(srcs.len() as int) =~= srcs);
}

/// Without sources, the system prompt is the instructions and a note that
/// no source was found.
pub proof fn lemma_system_prompt_without_sources()
    ensures
        spec_system_prompt(Seq::<Source>::empty()) == instructions()
            + "\n\nNo web sources were found for this question."@,
{
}

/// The rough token estimate of a text: one token per four characters,
/// rounded up.
pub open spec fn token_estimate(s: Seq<char>) -> nat {
    (s.len() + 3) / 4
}

/// System prompt with the numbered sources block.
pub fn system_prompt(sources: &[Source]) -> (r: String)
    ensures
        r@ == spec_system_prompt(sources@),
{
    let mut out = String::new();
    out.append("You are 42, a search-augmented assistant. Answer the user's question using the web sources provided below. Cite sources inline with bracketed numbers that match the source numbers, like [1] or [2,3]. Only cite sources that are actually listed. Be concise and factual. If the sources do not contain the answer, say so plainly instead of guessing.");
    if sources.len() == 0 {
        out.append("\n\nNo web sources were found for this question.");
        return out;
    }
    out.append("\n\nWeb sources:");
    let ghost head = out@;
    let mut i: usize = 0;
    while i < sources.len()
        invariant
            i <= sources@.len(),
            head == instructions() + "\n\nWeb sources:"@,
            out@ == head + source_entries(sources@.take(i as int)),
        decreases sources@.len() - i,
    {
        let s = &sources[i];
        let ghost before = out@;
        out.append("\n[");
        push_decimal(&mut out, s.index);
        out.append("] ");
        out.append(s.title.as_str());
        out.append("\n");
        out.append(s.url.as_str());
        out.append("\n");
        out.append(s.snippet.as_str());
        assert(sources@.take(i + 1).drop_last() =~= sources@.take(i as int));
        assert(out@ =~= before + source_entry(sources@[i as int]));
        i += 1;
    }
    assert(sources@.take(i as int) =~= sources@);
    out
}

/// Rough token estimate: 4 characters per token. Deliberately crude; local
/// models vary, and we only need a safe upper bound.
pub fn estimate_tokens(text: &str) -> (r: usize)
    ensures
        r == token_estimate(text@),
        r <= usize::MAX / 4 + 1,
{
    let n = text.unicode_len();
    if n % 4 == 0 {
        n / 4
    } else {
        n / 4 + 1
    }
}


/// The index of the oldest message in the sliding window of the last
/// `turns` messages of a history of length `len`.
pub open spec fn window_start(len: nat, turns: nat) -> nat {
    if len > turns {
        (len - turns) as nat
    } else {
        0
    }
}

/// The tokens left for history once the system prompt and the question are
/// counted (zero when they alone exceed the window).
pub open spec fn history_budget(srcs: Seq<Source>, question: Seq<char>, window: nat) -> nat {
    let fixed = token_estimate(spec_system_prompt(srcs)) + token_estimate(question);
    if window > fixed {
        (window - fixed) as nat
    } else {
        0
    }
}

/// How many of the messages `h[lo..hi]` are kept, counting from the newest
/// one back: a message is kept while its estimate fits what is left of the
/// budget; the first one that does not fit stops the count.
pub open spec fn kept_back(h: Seq<Message>, lo: int, hi: int, budget: nat) -> nat
    decreases hi - lo,
{
    if hi <= lo {
        0
    } else {
        let c = token_estimate(h[hi - 1].content@);
        if c > budget {
            0
        } else {
            1 + kept_back(h, lo, hi - 1, (budget - c) as nat)
        }
    }
}

/// The number of history messages that `build_messages` includes.
pub open spec fn kept_count(
    h: Seq<Message>,
    question: Seq<char>,
    srcs: Seq<Source>,
    opts: PromptOptions,
) -> nat {
    kept_back(
        h,
        window_start(h.len(), opts.history_turns as nat) as int,
        h.len() as int,
        history_budget(srcs, question, opts.context_window as nat),
    )
}

pub proof fn lemma_kept_back_bound(h: Seq<Message>, lo: int, hi: int, budget: nat)
    ensures
        hi <= lo ==> kept_back(h, lo, hi, budget) == 0,
        lo <= hi ==> kept_back(h, lo, hi, budget) <= hi - lo,
    decreases hi - lo,
{
    if hi > lo {
        lemma_kept_back_bound(h, lo, hi - 1, (budget - token_estimate(h[hi - 1].content@)) as nat);
    }
}

/// The role and content of a chat message.
pub open spec fn chat_view(m: ChatMessage) -> (Seq<char>, Seq<char>) {
    (m.role@, m.content@)
}

/// The roles and contents of chat messages.
pub open spec fn chat_views(v: Seq<ChatMessage>) -> Seq<(Seq<char>, Seq<char>)> {
    v.map_values(|m: ChatMessage| chat_view(m))
}

/// The messages that `build_messages` produces, as role and content pairs:
/// the system prompt, the kept history (oldest first) and the question.
pub open spec fn prompt_view(
    h: Seq<Message>,
    question: Seq<char>,
    srcs: Seq<Source>,
    opts: PromptOptions,
) -> Seq<(Seq<char>, Seq<char>)> {
    let k = kept_count(h, question, srcs, opts) as int;
    let n = h.len() as int;
    seq![("system"@, spec_system_prompt(srcs))] + Seq::new(
        k as nat,
        |j: int| (role_name(h[n - k + j].role), h[n - k + j].content@),
    ) + seq![("user"@, question)]
}

/// Build the chat message list for one LLM call.
///
/// `history` is the prior conversation (oldest first). The current
/// `question` is appended last. Of the last `history_turns` history messages,
/// the oldest are dropped until the whole prompt fits the context budget;
/// the system message, sources, and current question are always included.
pub fn build_messages(
    history: &[Message],
    question: &str,
    sources: &[Source],
    opts: PromptOptions,
) -> (r: Vec<ChatMessage>)
    ensures
        ({
            let k = kept_count(history@, question@, sources@, opts) as int;
            let n = history@.len();
            &&& k <= n
            &&& r@.len() == k + 2
            &&& r@[0].role@ == "system"@
            &&& r@[0].content@ == spec_system_prompt(sources@)
            &&& forall|j: int|
                0 <= j < k ==> (#[trigger] r@[j + 1]).role@ == role_name(history@[n - k + j].role)
                    && r@[j + 1].content@ == history@[n - k + j].content@
            &&& r@[k + 1 as int].role@ == "user"@
            &&& r@[k + 1 as int].content@ == question@
        }),
        chat_views(r@) == prompt_view(history@, question@, sources@, opts),
{
    let system = system_prompt(sources);
    let fixed = estimate_tokens(system.as_str()) + estimate_tokens(question);
    let mut budget = if opts.context_window > fixed {
        opts.context_window - fixed
    } else {
        0
    };
    let ghost budget0 = budget as nat;
    let n = history.len();
    let start = if n > opts.history_turns {
        n - opts.history_turns
    } else {
        0
    };
    // walk back from the newest message while the estimates fit
    let mut idx = n;
    while idx > start
        invariant
            start <= idx <= n,
            n == history@.len(),
            kept_back(history@, start as int, n as int, budget0) == (n - idx) + kept_back(
                history@,
                start as int,
                idx as int,
                budget as nat,
            ),
        ensures
            start <= idx <= n,
            kept_back(history@, start as int, n as int, budget0) == (n - idx) + kept_back(
                history@,
                start as int,
                idx as int,
                budget as nat,
            ),
            kept_back(history@, start as int, idx as int, budget as nat) == 0,
        decreases idx - start,
    {
        let cost = estimate_tokens(history[idx - 1].content.as_str());
        if cost > budget {
            break;
        }
        budget = budget - cost;
        idx = idx - 1;
    }
    proof {
        lemma_kept_back_bound(history@, start as int, idx as int, budget as nat);
    }
    let ghost k = (n - idx) as nat;
    assert(k == kept_count(history@, question@, sources@, opts));
    let mut messages: Vec<ChatMessage> = Vec::new();
    messages.push(ChatMessage { role: String::from_str("system"), content: system });
    let mut j = idx;
    while j < n
        invariant
            idx <= j <= n,
            n == history@.len(),
            messages@.len() == j - idx + 1,
            messages@[0].role@ == "system"@,
            messages@[0].content@ == spec_system_prompt(sources@),
            forall|m: int|
                0 <= m < j - idx ==> (#[trigger] messages@[m + 1]).role@ == role_name(
                    history@[idx + m].role,
                ) && messages@[m + 1].content@ == history@[idx + m].content@,
        decreases n - j,
    {
        let msg = &history[j];
        messages.push(
            ChatMessage { role: String::from_str(msg.role.as_str()), content: msg.content.clone() },
        );
        j += 1;
    }
    messages.push(ChatMessage { role: String::from_str("user"), content: String::from_str(question) });
    proof {
        let pv = prompt_view(history@, question@, sources@, opts);
        let cv = chat_views(messages@);
        assert(cv.len() == pv.len());
        assert forall|m: int| 0 <= m < cv.len() implies cv[m] == pv[m] by {
            if m == 0 {
            } else if m < k + 1 {
                assert(messages@[(m - 1) + 1] == messages@[m]);
            } else {
            }
        }
        assert(cv =~= pv);
    }
    messages
}


/// The summed token estimates of the messages `h[lo..hi]`.
pub open spec fn cost_sum(h: Seq<Message>, lo: int, hi: int) -> nat
    decreases hi - lo,
{
    if hi <= lo {
        0
    } else {
        cost_sum(h, lo, hi - 1) + token_estimate(h[hi - 1].content@)
    }
}

proof fn lemma_kept_back_fits(h: Seq<Message>, lo: int, hi: int, budget: nat)
    requires
        lo <= hi,
    ensures
        kept_back(h, lo, hi, budget) <= hi - lo,
        cost_sum(h, hi - kept_back(h, lo, hi, budget), hi) <= budget,
        kept_back(h, lo, hi, budget) < hi - lo ==> cost_sum(
            h,
            hi - kept_back(h, lo, hi, budget) - 1,
            hi,
        ) > budget,
    decreases hi - lo,
{
    if hi > lo {
        let c = token_estimate(h[hi - 1].content@);
        if c > budget {
            assert(cost_sum(h, hi - 1, hi - 1) == 0);
        } else {
            let b2 = (budget - c) as nat;
            lemma_kept_back_fits(h, lo, hi - 1, b2);
            let k2 = kept_back(h, lo, hi - 1, b2);
            assert(cost_sum(h, hi - 1 - k2, hi) == cost_sum(h, hi - 1 - k2, hi - 1) + c);
            if k2 < hi - 1 - lo {
                assert(cost_sum(h, hi - 1 - k2 - 1, hi) == cost_sum(h, hi - 1 - k2 - 1, hi - 1)
                    + c);
            }
        }
    }
}

/// What `build_messages` keeps of the history: at most `history_turns`
/// messages, the newest ones, whose estimates together fit the tokens that
/// the system prompt and the question leave of the context window; and
/// when an older message of the window is left out, keeping it as well
/// would have exceeded that budget. When the fixed part fits the window,
/// the whole prompt then fits it too.
pub proof fn lemma_history_fits(
    h: Seq<Message>,
    question: Seq<char>,
    srcs: Seq<Source>,
    opts: PromptOptions,
)
    ensures
        ({
            let n = h.len() as int;
            let k = kept_count(h, question, srcs, opts) as int;
            let budget = history_budget(srcs, question, opts.context_window as nat);
            let fixed = token_estimate(spec_system_prompt(srcs)) + token_estimate(question);
            &&& k <= opts.history_turns
            &&& k <= n
            &&& cost_sum(h, n - k, n) <= budget
            &&& n - k > window_start(h.len(), opts.history_turns as nat) ==> cost_sum(
                h,
                n - k - 1,
                n,
            ) > budget
            &&& fixed <= opts.context_window ==> fixed + cost_sum(h, n - k, n)
                <= opts.context_window
        }),
{
    let n = h.len() as int;
    let lo = window_start(h.len(), opts.history_turns as nat) as int;
    lemma_kept_back_fits(h, lo, n, history_budget(srcs, question, opts.context_window as nat));
}

} // verus!

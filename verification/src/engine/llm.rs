//! The parts of the streaming chat-completions client that decide things:
//! the endpoint URL, the splitting of the SSE byte stream into lines and
//! the extraction of content tokens from `data:` lines.

use vstd::prelude::*;
use vstd::string::StringExecFns;
use vstd::utf8::{valid_utf8, decode_utf8};
use crate::text::{chars_of, is_white_space, lemma_trim_edges, trim, trim_range, string_of_range};

verus! {

/// The string that the JSON pointer `pointer` designates in the JSON
/// document `payload`, when `payload` parses as JSON and holds a string
/// there.
pub uninterp spec fn json_str_at(payload: Seq<char>, pointer: Seq<char>) -> Option<Seq<char>>;

/// The text that `String::from_utf8_lossy` decodes from `bytes`.
pub uninterp spec fn utf8_lossy(bytes: Seq<u8>) -> Seq<char>;

/// The character contents of an optional string.
pub open spec fn opt_chars(o: Option<String>) -> Option<Seq<char>> {
    match o {
        Some(s) => Some(s@),
        None => None,
    }
}

/// Parses `payload` with `serde_json::from_str` into a `serde_json::Value`,
/// looks `pointer` up with `Value::pointer` and reads the result with
/// `Value::as_str`. The contract claims only that the outcome is the named
/// function `json_str_at` of the payload and the pointer.
#[verifier::external_body]
fn json_string_at(payload: &str, pointer: &str) -> (r: Option<String>)
    ensures
        opt_chars(r) == json_str_at(payload@, pointer@),
{
    let value: serde_json::Value = serde_json::from_str(payload).ok()?;
    let found = value.pointer(pointer)?.as_str()?;
    Some(found.to_string())
}

/// Decodes bytes with `String::from_utf8_lossy`. The contract claims that
/// the result is the named function `utf8_lossy` of the bytes, and that
/// valid UTF-8 is decoded exactly.
#[verifier::external_body]
fn decode_lossy(bytes: &[u8]) -> (s: String)
    ensures
        s@ == utf8_lossy(bytes@),
        valid_utf8(bytes@) ==> s@ == decode_utf8(bytes@),
{
    String::from_utf8_lossy(bytes).into_owned()
}

/// `s` without its trailing `/` characters.
pub open spec fn strip_trailing_slashes(s: Seq<char>) -> Seq<char>
    decreases s.len(),
{
    if s.len() > 0 && s.last() == '/' {
        strip_trailing_slashes(s.drop_last())
    } else {
        s
    }
}

proof fn lemma_strip_trailing_take(s: Seq<char>, k: int)
    requires
        0 <= k <= s.len(),
        forall|j: int| k <= j < s.len() ==> #[trigger] s[j] == '/',
        k == 0 || s[k - 1] != '/',
    ensures
        strip_trailing_slashes(s) == s.take(k),
    decreases s.len() - k,
{
    if k == s.len() {
        assert(s.take(k) =~= s);
    } else {
        let t = s.drop_last();
        assert forall|j: int| k <= j < t.len() implies #[trigger] t[j] == '/' by {
            assert(t[j] == s[j]);
        }
        if k > 0 {
            assert(t[k - 1] == s[k - 1]);
        }
        lemma_strip_trailing_take(t, k);
        assert(t.take(k) =~= s.take(k));
    }
}

/// Client settings for one OpenAI-compatible endpoint and model.
#[derive(Debug, Clone)]
pub struct LlmClient {
    pub base_url: String,
    pub model: String,
}

/// `s` without its trailing `/` characters.
pub fn trim_trailing_slashes(s: &str) -> (r: String)
    ensures
        r@ == strip_trailing_slashes(s@),
{
    let v = chars_of(s);
    let mut b = v.len();
    while b > 0 && v[b - 1] == '/'
        invariant
            b <= v@.len(),
            forall|j: int| b <= j < v@.len() ==> #[trigger] v@[j] == '/',
        decreases b,
    {
        b -= 1;
    }
    proof {
        lemma_strip_trailing_take(v@, b as int);
        assert(v@.take(b as int) =~= v@.subrange(0, b as int));
    }
    string_of_range(&v, 0, b)
}

impl LlmClient {
    pub fn new(base_url: &str, model: &str) -> (r: Self)
        ensures
            r.base_url@ == strip_trailing_slashes(base_url@),
            r.model@ == model@,
    {
        LlmClient { base_url: trim_trailing_slashes(base_url), model: String::from_str(model) }
    }

    /// The chat completions endpoint: the base URL followed by
    /// `/chat/completions`.
    pub fn chat_completions_url(&self) -> (r: String)
        ensures
            r@ == self.base_url@ + "/chat/completions"@,
    {
        let mut url = self.base_url.clone();
        url.append("/chat/completions");
        url
    }
}

/// The payload of an SSE line: the line trimmed must start with `data:`;
/// what follows, trimmed again, is the payload, unless it is the `[DONE]`
/// marker that ends the stream.
pub open spec fn sse_payload(line: Seq<char>) -> Option<Seq<char>> {
    let t = trim(line);
    if t.len() >= 5 && t.take(5) == "data:"@ {
        let p = trim(t.skip(5));
        if p == "[DONE]"@ {
            None
        } else {
            Some(p)
        }
    } else {
        None
    }
}

/// The content token that one SSE line carries.
pub open spec fn line_token(line: Seq<char>) -> Option<Seq<char>> {
    match sse_payload(line) {
        Some(p) => json_str_at(p, "/choices/0/delta/content"@),
        None => None,
    }
}

/// The token of an SSE line is the string at `/choices/0/delta/content` of
/// its payload and nothing else: a line has a token exactly when that
/// pointer holds a string, whatever else (such as `reasoning_content`) the
/// payload holds; lines that are not `data:` lines, and the `[DONE]`
/// marker, have none.
pub proof fn lemma_token_is_content(line: Seq<char>)
    ensures
        sse_payload(line) matches Some(p) ==> line_token(line) == json_str_at(
            p,
            "/choices/0/delta/content"@,
        ),
        sse_payload(line) is None ==> line_token(line) is None,
        line_token(line) matches Some(t) ==> sse_payload(line) matches Some(p) && json_str_at(
            p,
            "/choices/0/delta/content"@,
        ) == Some(t),
{
}

/// The payload of a `data:` line is what follows `data:`, without the
/// white space around it: for every payload `p` that starts and ends with
/// no white space, `data: p` carries `p`, unless `p` is the `[DONE]` marker,
/// which ends the stream and carries nothing.
pub proof fn lemma_data_line_payload(p: Seq<char>)
    requires
        p.len() > 0,
        !is_white_space(p[0]),
        !is_white_space(p.last()),
    ensures
        sse_payload("data: "@ + p) == if p == "[DONE]"@ {
            None
        } else {
            Some(p)
        },
{
    reveal_strlit("data: ");
    reveal_strlit("data:");
    let line = "data: "@ + p;
    assert(line[0] == 'd');
    assert(line.last() == p.last());
    lemma_trim_edges(Seq::<char>::empty(), line);
    let sp = seq![' '];
    assert(line.take(5) =~= "data:"@);
    assert(line.skip(5) =~= sp + p);
    assert(is_white_space(sp[0]));
    lemma_trim_edges(sp, p);
}

/// One delta of a streamed completion: answer text, or the reasoning of a
/// thinking model.
#[derive(Debug, Clone, PartialEq, Eq)]
pub enum LlmDelta {
    Token(String),
    Thinking(String),
}

pub enum DeltaView {
    Token(Seq<char>),
    Thinking(Seq<char>),
}

pub open spec fn delta_view(d: LlmDelta) -> DeltaView {
    match d {
        LlmDelta::Token(t) => DeltaView::Token(t@),
        LlmDelta::Thinking(t) => DeltaView::Thinking(t@),
    }
}

pub open spec fn delta_views(v: Seq<LlmDelta>) -> Seq<DeltaView> {
    v.map_values(|d: LlmDelta| delta_view(d))
}

/// The deltas made of a line's content and reasoning strings, in order:
/// the reasoning, when non-empty, as thinking; then the content as answer
/// text, unless it is empty and the reasoning was not.
pub open spec fn spec_deltas_of(content: Option<Seq<char>>, reasoning: Option<Seq<char>>) -> Seq<
    DeltaView,
> {
    let thinking = match reasoning {
        Some(r) if r.len() > 0 => seq![DeltaView::Thinking(r)],
        _ => Seq::<DeltaView>::empty(),
    };
    let answer = match content {
        Some(t) if t.len() > 0 || thinking.len() == 0 => seq![DeltaView::Token(t)],
        _ => Seq::<DeltaView>::empty(),
    };
    thinking + answer
}

/// The deltas that one SSE line carries, from the strings at
/// `/choices/0/delta/content` and `/choices/0/delta/reasoning_content` of
/// its payload.
pub open spec fn deltas_of_line(line: Seq<char>) -> Seq<DeltaView> {
    match sse_payload(line) {
        Some(p) => spec_deltas_of(
            json_str_at(p, "/choices/0/delta/content"@),
            json_str_at(p, "/choices/0/delta/reasoning_content"@),
        ),
        None => Seq::<DeltaView>::empty(),
    }
}

/// The deltas made of a line's content and reasoning strings.
pub fn deltas_of(content: Option<String>, reasoning: Option<String>) -> (r: Vec<LlmDelta>)
    ensures
        delta_views(r@) == spec_deltas_of(opt_chars(content), opt_chars(reasoning)),
{
    let ghost c = opt_chars(content);
    let ghost rs = opt_chars(reasoning);
    let mut r: Vec<LlmDelta> = Vec::new();
    match reasoning {
        Some(t) => {
            if !t.as_str().is_empty() {
                r.push(LlmDelta::Thinking(t));
            }
        },
        None => {},
    }
    let thought = r.len() > 0;
    match content {
        Some(t) => {
            if !t.as_str().is_empty() || !thought {
                r.push(LlmDelta::Token(t));
            }
        },
        None => {},
    }
    assert(delta_views(r@) =~= spec_deltas_of(c, rs));
    r
}

/// The payload of one SSE `data:` line, or `None` for other lines and for
/// the `[DONE]` marker.
pub fn sse_data_payload(line: &str) -> (r: Option<String>)
    ensures
        opt_chars(r) == sse_payload(line@),
{
    proof {
        reveal_strlit("data:");
        reveal_strlit("[DONE]");
    }
    let v = chars_of(line);
    let (a, b) = trim_range(&v, 0, v.len());
    assert(v@.subrange(0, v@.len() as int) =~= line@);
    let ghost t = v@.subrange(a as int, b as int);
    if b - a < 5 {
        return None;
    }
    if !(v[a] == 'd' && v[a + 1] == 'a' && v[a + 2] == 't' && v[a + 3] == 'a' && v[a + 4] == ':') {
        assert(t.take(5)[0] == v@[a as int]);
        assert(t.take(5)[1] == v@[a + 1]);
        assert(t.take(5)[2] == v@[a + 2]);
        assert(t.take(5)[3] == v@[a + 3]);
        assert(t.take(5)[4] == v@[a + 4]);
        assert(t.take(5) != "data:"@);
        return None;
    }
    assert(t.take(5) =~= "data:"@);
    let (c, d) = trim_range(&v, a + 5, b);
    assert(t.skip(5) =~= v@.subrange(a + 5, b as int));
    let ghost p = v@.subrange(c as int, d as int);
    if d - c == 6 && v[c] == '[' && v[c + 1] == 'D' && v[c + 2] == 'O' && v[c + 3] == 'N' && v[c
        + 4] == 'E' && v[c + 5] == ']' {
        assert(p =~= "[DONE]"@);
        return None;
    }
    assert(p != "[DONE]"@) by {
        if p.len() == 6 {
            assert(p[0] == v@[c as int]);
            assert(p[1] == v@[c + 1]);
            assert(p[2] == v@[c + 2]);
            assert(p[3] == v@[c + 3]);
            assert(p[4] == v@[c + 4]);
            assert(p[5] == v@[c + 5]);
        }
    }
    Some(string_of_range(&v, c, d))
}

/// Extract the content token from one SSE line, if any.
///
/// Lines look like `data: {"choices":[{"delta":{"content":"..."}}]}`;
/// the stream ends with `data: [DONE]`.
pub fn extract_token(line: &str) -> (r: Option<String>)
    ensures
        opt_chars(r) == line_token(line@),
        opt_chars(r) == match sse_payload(line@) {
            Some(p) => json_str_at(p, "/choices/0/delta/content"@),
            None => None,
        },
{
    match sse_data_payload(line) {
        Some(p) => json_string_at(p.as_str(), "/choices/0/delta/content"),
        None => None,
    }
}

/// The deltas of one SSE line, in order.
pub fn extract_deltas(line: &str) -> (r: Vec<LlmDelta>)
    ensures
        delta_views(r@) == deltas_of_line(line@),
{
    let p = match sse_data_payload(line) {
        Some(p) => p,
        None => {
            let r: Vec<LlmDelta> = Vec::new();
            assert(delta_views(r@) =~= Seq::<DeltaView>::empty());
            return r;
        },
    };
    let content = json_string_at(p.as_str(), "/choices/0/delta/content");
    let reasoning = json_string_at(p.as_str(), "/choices/0/delta/reasoning_content");
    deltas_of(content, reasoning)
}

/// The complete lines of a byte stream, each with its terminating `\n`, and
/// the bytes after the last `\n` that do not form a line yet.
pub open spec fn split_lines(b: Seq<u8>) -> (Seq<Seq<u8>>, Seq<u8>)
    decreases b.len(),
{
    if b.len() == 0 {
        (seq![], seq![])
    } else {
        let (lines, rest) = split_lines(b.drop_last());
        if b.last() == 10u8 {
            (lines.push(rest.push(10u8)), seq![])
        } else {
            (lines, rest.push(b.last()))
        }
    }
}

/// The deltas that a sequence of lines carries, in order.
pub open spec fn line_deltas(lines: Seq<Seq<u8>>) -> Seq<DeltaView>
    decreases lines.len(),
{
    if lines.len() == 0 {
        seq![]
    } else {
        line_deltas(lines.drop_last()) + deltas_of_line(utf8_lossy(lines.last()))
    }
}

/// The bytes of the lines, concatenated.
pub open spec fn concat_lines(lines: Seq<Seq<u8>>) -> Seq<u8>
    decreases lines.len(),
{
    if lines.len() == 0 {
        seq![]
    } else {
        concat_lines(lines.drop_last()) + lines.last()
    }
}

/// Whether `b` holds no `\n`.
pub open spec fn no_newline(b: Seq<u8>) -> bool {
    forall|i: int| 0 <= i < b.len() ==> b[i] != 10u8
}

/// Splitting bytes into lines loses, adds and reorders nothing: the lines
/// and the pending rest concatenate back to the input; every line ends with
/// its only `\n`, and the rest holds none.
pub proof fn lemma_split_lines(b: Seq<u8>)
    ensures
        concat_lines(split_lines(b).0) + split_lines(b).1 == b,
        no_newline(split_lines(b).1),
        forall|i: int|
            0 <= i < split_lines(b).0.len() ==> {
                let l = #[trigger] split_lines(b).0[i];
                &&& l.len() > 0
                &&& l.last() == 10u8
                &&& no_newline(l.drop_last())
            },
    decreases b.len(),
{
    if b.len() == 0 {
        assert(concat_lines(seq![]) + seq![] =~= b);
    } else {
        lemma_split_lines(b.drop_last());
        let (lines, rest) = split_lines(b.drop_last());
        if b.last() == 10u8 {
            let nl = lines.push(rest.push(10u8));
            assert(nl.drop_last() =~= lines);
            assert(concat_lines(nl) == concat_lines(lines) + rest.push(10u8));
            assert(concat_lines(lines) + rest.push(10u8) =~= (concat_lines(lines) + rest).push(
                10u8,
            ));
            assert(b.drop_last().push(b.last()) =~= b);
            assert(concat_lines(nl) + seq![] =~= b);
            assert(rest.push(10u8).drop_last() =~= rest);
            assert forall|i: int| 0 <= i < nl.len() implies {
                let l = #[trigger] nl[i];
                &&& l.len() > 0
                &&& l.last() == 10u8
                &&& no_newline(l.drop_last())
            } by {
                if i < lines.len() {
                    assert(nl[i] == lines[i]);
                }
            }
        } else {
            assert(concat_lines(lines) + rest.push(b.last()) =~= (concat_lines(lines) + rest).push(
                b.last(),
            ));
            assert(b.drop_last().push(b.last()) =~= b);
            assert(concat_lines(lines) + rest.push(b.last()) =~= b);
        }
    }
}

proof fn lemma_split_plain(b: Seq<u8>)
    requires
        no_newline(b),
    ensures
        split_lines(b) == (Seq::<Seq<u8>>::empty(), b),
    decreases b.len(),
{
    if b.len() > 0 {
        lemma_split_plain(b.drop_last());
        assert(b.drop_last().push(b.last()) =~= b);
    } else {
        assert(b =~= Seq::<u8>::empty());
    }
}

/// Splitting `a + b` into lines: the complete lines of `a`, then those that
/// the pending rest of `a` completes with `b`.
pub proof fn lemma_split_append(a: Seq<u8>, b: Seq<u8>)
    ensures
        split_lines(a + b) == (
            split_lines(a).0 + split_lines(split_lines(a).1 + b).0,
            split_lines(split_lines(a).1 + b).1,
        ),
    decreases b.len(),
{
    let r = split_lines(a).1;
    if b.len() == 0 {
        assert(a + b =~= a);
        assert(r + b =~= r);
        lemma_split_lines(a);
        lemma_split_plain(r);
        assert(split_lines(a).0 + Seq::<Seq<u8>>::empty() =~= split_lines(a).0);
    } else {
        let b1 = b.drop_last();
        lemma_split_append(a, b1);
        assert((a + b).drop_last() =~= a + b1);
        assert((a + b).last() == b.last());
        assert((r + b).drop_last() =~= r + b1);
        assert((r + b).last() == b.last());
        let (lr, rest) = split_lines(r + b1);
        if b.last() == 10u8 {
            assert(split_lines(a).0 + lr.push(rest.push(10u8)) =~= (split_lines(a).0 + lr).push(
                rest.push(10u8),
            ));
        }
    }
}

/// The deltas of two runs of lines are those of each run, in order.
pub proof fn lemma_line_deltas_append(x: Seq<Seq<u8>>, y: Seq<Seq<u8>>)
    ensures
        line_deltas(x + y) == line_deltas(x) + line_deltas(y),
    decreases y.len(),
{
    if y.len() == 0 {
        assert(x + y =~= x);
        assert(line_deltas(x) + seq![] =~= line_deltas(x));
    } else {
        lemma_line_deltas_append(x, y.drop_last());
        assert((x + y).drop_last() =~= x + y.drop_last());
        assert((x + y).last() == y.last());
        let d = line_deltas(x);
        let e = line_deltas(y.drop_last());
        let f = deltas_of_line(utf8_lossy(y.last()));
        assert(d + e + f =~= d + (e + f));
    }
}

/// What a decoder that holds `pending` yields when fed `chunks` one after
/// another: the deltas of each push in order, and the bytes left pending.
pub open spec fn feed_chunks(pending: Seq<u8>, chunks: Seq<Seq<u8>>) -> (Seq<DeltaView>, Seq<u8>)
    decreases chunks.len(),
{
    if chunks.len() == 0 {
        (seq![], pending)
    } else {
        let (d, p) = feed_chunks(pending, chunks.drop_last());
        let s = split_lines(p + chunks.last());
        (d + line_deltas(s.0), s.1)
    }
}

/// Where the body is cut into chunks does not matter: feeding the chunks one
/// by one yields the deltas, and leaves the pending bytes, of feeding their
/// concatenation at once. (A decoder's pending bytes never hold a `\n`.)
pub proof fn lemma_chunking_irrelevant(pending: Seq<u8>, chunks: Seq<Seq<u8>>)
    requires
        no_newline(pending),
    ensures
        feed_chunks(pending, chunks) == (
            line_deltas(split_lines(pending + concat_lines(chunks)).0),
            split_lines(pending + concat_lines(chunks)).1,
        ),
    decreases chunks.len(),
{
    if chunks.len() == 0 {
        assert(pending + concat_lines(chunks) =~= pending);
        lemma_split_plain(pending);
    } else {
        let c = chunks.drop_last();
        lemma_chunking_irrelevant(pending, c);
        let a = pending + concat_lines(c);
        assert(pending + concat_lines(chunks) =~= a + chunks.last());
        lemma_split_append(a, chunks.last());
        lemma_line_deltas_append(split_lines(a).0, split_lines(split_lines(a).1 + chunks.last()).0);
    }
}

/// Splits the byte stream of an SSE response into lines and extracts the
/// delta of each complete line. Bytes after the last `\n` wait for
/// the next chunk.
pub struct SseDecoder {
    buf: Vec<u8>,
    received: Ghost<Seq<u8>>,
    yielded: Ghost<Seq<DeltaView>>,
}

impl SseDecoder {
    #[verifier::type_invariant]
    spec fn yields_complete_lines(self) -> bool {
        &&& self.buf@ == split_lines(self.received@).1
        &&& self.yielded@ == line_deltas(split_lines(self.received@).0)
    }

    /// The bytes received after the last complete line.
    pub closed spec fn pending(self) -> Seq<u8> {
        self.buf@
    }

    /// The bytes of the body fed so far, in all the chunks together.
    pub closed spec fn received(self) -> Seq<u8> {
        self.received@
    }

    /// The deltas handed out so far, over all the chunks.
    pub closed spec fn yielded(self) -> Seq<DeltaView> {
        self.yielded@
    }

    pub fn new() -> (r: Self)
        ensures
            r.pending() == Seq::<u8>::empty(),
            r.received() == Seq::<u8>::empty(),
            r.yielded() == Seq::<DeltaView>::empty(),
    {
        SseDecoder { buf: Vec::new(), received: Ghost(Seq::empty()), yielded: Ghost(Seq::empty()) }
    }

    /// Feeds one chunk of the response body; returns the deltas of the
    /// lines that it completes.
    pub fn push_chunk(&mut self, chunk: &[u8]) -> (toks: Vec<LlmDelta>)
        ensures
            final(self).pending() == split_lines(old(self).pending() + chunk@).1,
            delta_views(toks@) == line_deltas(split_lines(old(self).pending() + chunk@).0),
            no_newline(final(self).pending()),
            forall|i: int|
                0 <= i < split_lines(old(self).pending() + chunk@).0.len() ==> {
                    let l = #[trigger] split_lines(old(self).pending() + chunk@).0[i];
                    valid_utf8(l) ==> utf8_lossy(l) == decode_utf8(l)
                },
            final(self).received() == old(self).received() + chunk@,
            final(self).yielded() == old(self).yielded() + delta_views(toks@),
            final(self).yielded() == line_deltas(split_lines(final(self).received()).0),
            final(self).pending() == split_lines(final(self).received()).1,
    {
        let mut prev = SseDecoder::new();
        std::mem::swap(&mut prev, self);
        proof {
            use_type_invariant(&prev);
        }
        let SseDecoder { buf, received, yielded } = prev;
        let mut buf = buf;
        let ghost start = buf@;
        proof {
            lemma_split_lines(received@);
            lemma_split_plain(start);
            assert(chunk@.take(0) =~= Seq::<u8>::empty());
            assert(start + chunk@.take(0) =~= start);
        }
        let mut toks: Vec<LlmDelta> = Vec::new();
        let ghost mut lines: Seq<Seq<u8>> = seq![];
        let n = chunk.len();
        let mut j: usize = 0;
        while j < n
            invariant
                n == chunk@.len(),
                j <= n,
                split_lines(start + chunk@.take(j as int)) == (lines, buf@),
                delta_views(toks@) == line_deltas(lines),
                forall|i: int|
                    0 <= i < lines.len() ==> {
                        let l = #[trigger] lines[i];
                        valid_utf8(l) ==> utf8_lossy(l) == decode_utf8(l)
                    },
            decreases n - j,
        {
            let c = chunk[j];
            let ghost pre = start + chunk@.take(j as int);
            assert((start + chunk@.take(j + 1)).drop_last() =~= pre);
            assert((start + chunk@.take(j + 1)).last() == c);
            buf.push(c);
            if c == 10u8 {
                let line = decode_lossy(buf.as_slice());
                let mut more = extract_deltas(line.as_str());
                let ghost nl = lines.push(buf@);
                assert(nl.drop_last() =~= lines);
                let ghost before = toks@;
                let ghost added = more@;
                toks.append(&mut more);
                assert(toks@ =~= before + added);
                assert(delta_views(toks@) =~= delta_views(before) + delta_views(added));
                assert(delta_views(toks@) =~= line_deltas(nl));
                assert forall|i: int| 0 <= i < nl.len() implies {
                    let l = #[trigger] nl[i];
                    valid_utf8(l) ==> utf8_lossy(l) == decode_utf8(l)
                } by {
                    if i < lines.len() {
                        assert(nl[i] == lines[i]);
                    }
                }
                proof {
                    lines = nl;
                }
                buf = Vec::new();
                assert(split_lines(start + chunk@.take(j + 1)).1 =~= buf@);
            }
            j += 1;
        }
        assert(chunk@.take(n as int) =~= chunk@);
        proof {
            lemma_split_lines(start + chunk@);
            lemma_split_append(received@, chunk@);
            lemma_line_deltas_append(split_lines(received@).0, split_lines(start + chunk@).0);
        }
        *self = SseDecoder {
            buf,
            received: Ghost(received@ + chunk@),
            yielded: Ghost(yielded@ + delta_views(toks@)),
        };
        proof {
            assert(delta_views(toks@) == line_deltas(split_lines(start + chunk@).0));
        }
        toks
    }

    /// Ends the stream: the deltas of a last line that had no `\n`, if any.
    /// The decoder is then ready for a new body.
    pub fn finish(&mut self) -> (toks: Vec<LlmDelta>)
        ensures
            final(self).pending() == Seq::<u8>::empty(),
            final(self).received() == Seq::<u8>::empty(),
            final(self).yielded() == Seq::<DeltaView>::empty(),
            delta_views(toks@) == if old(self).pending().len() > 0 {
                deltas_of_line(utf8_lossy(old(self).pending()))
            } else {
                Seq::<DeltaView>::empty()
            },
            old(self).pending().len() > 0 && valid_utf8(old(self).pending()) ==> utf8_lossy(
                old(self).pending(),
            ) == decode_utf8(old(self).pending()),
    {
        let mut prev = SseDecoder::new();
        std::mem::swap(&mut prev, self);
        let SseDecoder { buf, received: _, yielded: _ } = prev;
        if buf.len() == 0 {
            let r: Vec<LlmDelta> = Vec::new();
            assert(delta_views(r@) =~= Seq::<DeltaView>::empty());
            return r;
        }
        let line = decode_lossy(buf.as_slice());
        extract_deltas(line.as_str())
    }
}

} // verus!

//! Citation marker validation and repair.
//!
//! The model is told to cite sources as `[1]`, `[2,3]`, ... Every bracket
//! group whose content is only comma-separated numbers is checked against
//! the real source list: valid indices stay, invalid ones go, and a group
//! left with no valid index is removed. Other brackets are left alone.

use vstd::prelude::*;
use vstd::string::StringExecFns;
use crate::text::{all_digits, digits_value, lemma_digits_value_prefix, trim, trim_start, trim_end, split_on, lemma_split_on_nonempty, chars_of, trim_range, push_char};

verus! {

/// A source returned by search and injected into the prompt.
#[derive(Debug, Clone)]
pub struct Source {
    pub index: usize,
    pub title: String,
    pub url: String,
    pub snippet: String,
}

impl Source {
    /// A copy of this source.
    pub fn duplicate(&self) -> (r: Source)
        ensures
            r == *self,
    {
        Source {
            index: self.index,
            title: self.title.clone(),
            url: self.url.clone(),
            snippet: self.snippet.clone(),
        }
    }
}

/// The position of the first `]` in `s` at or after `from`.
pub open spec fn first_close(s: Seq<char>, from: nat) -> Option<nat>
    decreases s.len() - from,
{
    if from >= s.len() {
        None
    } else if s[from as int] == ']' {
        Some(from)
    } else {
        first_close(s, from + 1)
    }
}

pub proof fn lemma_first_close(s: Seq<char>, from: nat)
    ensures
        first_close(s, from) matches Some(c) ==> from <= c < s.len() && s[c as int] == ']'
            && forall|j: int| from <= j < c ==> s[j] != ']',
        first_close(s, from) is None ==> forall|j: int| from <= j < s.len() ==> s[j] != ']',
    decreases s.len() - from,
{
    if from < s.len() && s[from as int] != ']' {
        lemma_first_close(s, from + 1);
    }
}

/// The tokens of a bracket group: its comma-separated pieces, trimmed, with
/// the empty ones left out.
pub open spec fn tokens_of(pieces: Seq<Seq<char>>) -> Seq<Seq<char>>
    decreases pieces.len(),
{
    if pieces.len() == 0 {
        seq![]
    } else {
        let rest = tokens_of(pieces.drop_last());
        let t = trim(pieces.last());
        if t.len() > 0 {
            rest.push(t)
        } else {
            rest
        }
    }
}

/// The tokens of the text between `[` and `]`.
pub open spec fn group_tokens(inner: Seq<char>) -> Seq<Seq<char>> {
    tokens_of(split_on(inner, ','))
}

/// A bracket group is a citation when it has at least one token and every
/// token is made of ASCII digits only.
pub open spec fn is_citation(toks: Seq<Seq<char>>) -> bool {
    toks.len() > 0 && forall|i: int| 0 <= i < toks.len() ==> all_digits(#[trigger] toks[i])
}

/// Whether a citation token names one of the sources `1..=source_count`.
pub open spec fn valid_index(t: Seq<char>, source_count: nat) -> bool {
    1 <= digits_value(t) && digits_value(t) <= source_count
}

/// The tokens that name an actual source, in the order they appear.
pub open spec fn valid_tokens(toks: Seq<Seq<char>>, source_count: nat) -> Seq<Seq<char>>
    decreases toks.len(),
{
    if toks.len() == 0 {
        seq![]
    } else {
        let rest = valid_tokens(toks.drop_last(), source_count);
        if valid_index(toks.last(), source_count) {
            rest.push(toks.last())
        } else {
            rest
        }
    }
}

/// The tokens joined with `,`.
pub open spec fn join_commas(toks: Seq<Seq<char>>) -> Seq<char>
    decreases toks.len(),
{
    if toks.len() == 0 {
        seq![]
    } else if toks.len() == 1 {
        toks[0]
    } else {
        join_commas(toks.drop_last()).push(',') + toks.last()
    }
}

/// The repaired text from position `i` of `s` on.
pub open spec fn validate_from(s: Seq<char>, i: nat, source_count: nat) -> Seq<char>
    decreases s.len() - i,
{
    if i >= s.len() {
        seq![]
    } else if s[i as int] == '[' && first_close(s, i + 1) is Some {
        let close = first_close(s, i + 1)->0;
        proof {
            lemma_first_close(s, i + 1);
        }
        let toks = group_tokens(s.subrange(i + 1 as int, close as int));
        if is_citation(toks) {
            let valid = valid_tokens(toks, source_count);
            if valid.len() == 0 {
                validate_from(s, close + 1, source_count)
            } else {
                seq!['['] + join_commas(valid) + seq![']'] + validate_from(
                    s,
                    close + 1,
                    source_count,
                )
            }
        } else {
            seq![s[i as int]] + validate_from(s, i + 1, source_count)
        }
    } else {
        seq![s[i as int]] + validate_from(s, i + 1, source_count)
    }
}

/// One repair pass over the characters `s`.
pub open spec fn repair_pass(s: Seq<char>, source_count: nat) -> Seq<char> {
    validate_from(s, 0, source_count)
}

/// Index of the `]` closing the `[` at `open`, or `None`. There is no
/// nesting: the first `]` after `open` closes it.
pub fn find_closing(chars: &[char], open: usize) -> (r: Option<usize>)
    requires
        open < chars@.len(),
    ensures
        r matches Some(c) ==> first_close(chars@, open as nat + 1) == Some(c as nat),
        r is None ==> first_close(chars@, open as nat + 1) is None,
{
    let n = chars.len();
    let mut j = open + 1;
    while j < n
        invariant
            n == chars@.len(),
            open < j <= n,
            first_close(chars@, open as nat + 1) == first_close(chars@, j as nat),
        decreases chars@.len() - j,
    {
        if chars[j] == ']' {
            return Some(j);
        }
        j += 1;
    }
    None
}


/// The character contents of a vector of character vectors.
pub open spec fn char_vecs(v: Seq<Vec<char>>) -> Seq<Seq<char>> {
    v.map_values(|x: Vec<char>| x@)
}

/// Whether the digit token `t` names one of the sources `1..=source_count`.
fn token_in_range(t: &Vec<char>, source_count: usize) -> (r: bool)
    requires
        all_digits(t@),
    ensures
        r == valid_index(t@, source_count as nat),
{
    let n = source_count as u128;
    let mut acc: u128 = 0;
    let mut i: usize = 0;
    while i < t.len()
        invariant
            all_digits(t@),
            n == source_count,
            i <= t@.len(),
            acc == digits_value(t@.take(i as int)),
            acc <= n,
        decreases t@.len() - i,
    {
        let c = t[i];
        assert('0' <= t@[i as int] && t@[i as int] <= '9');
        let d = (c as u32 - 48u32) as u128;
        let next = acc * 10 + d;
        assert(t@.take(i + 1).drop_last() =~= t@.take(i as int));
        assert(next == digits_value(t@.take(i + 1)));
        if next > n {
            proof {
                lemma_digits_value_prefix(t@, i + 1);
            }
            return false;
        }
        acc = next;
        i += 1;
    }
    assert(t@.take(i as int) =~= t@);
    1 <= acc
}

/// Whether every character of `t` is an ASCII digit.
fn token_is_digits(t: &Vec<char>) -> (r: bool)
    ensures
        r == all_digits(t@),
{
    let mut i: usize = 0;
    while i < t.len()
        invariant
            i <= t@.len(),
            forall|j: int| 0 <= j < i ==> '0' <= #[trigger] t@[j] && t@[j] <= '9',
        decreases t@.len() - i,
    {
        let c = t[i];
        if !('0' <= c && c <= '9') {
            return false;
        }
        i += 1;
    }
    true
}

/// Reads the bracket group `chars[lo..hi]`. When it is a citation, returns
/// its valid tokens (possibly none) and the number of its tokens; otherwise
/// `None`.
fn citation_tokens(chars: &Vec<char>, lo: usize, hi: usize, source_count: usize) -> (r: Option<
    (Vec<Vec<char>>, usize),
>)
    requires
        lo <= hi <= chars@.len(),
    ensures
        r is Some <==> is_citation(group_tokens(chars@.subrange(lo as int, hi as int))),
        r matches Some((v, k)) ==> char_vecs(v@) == valid_tokens(
            group_tokens(chars@.subrange(lo as int, hi as int)),
            source_count as nat,
        ) && k == group_tokens(chars@.subrange(lo as int, hi as int)).len(),
{
    let ghost s = chars@.subrange(lo as int, hi as int);
    let mut toks: Vec<Vec<char>> = Vec::new();
    let ghost mut done: Seq<Seq<char>> = seq![];
    let mut start = lo;
    let mut j = lo;
    assert(chars@.subrange(lo as int, lo as int) =~= Seq::<char>::empty());
    assert(split_on(Seq::<char>::empty(), ',') =~= done.push(Seq::<char>::empty()));
    while j < hi
        invariant
            lo <= start <= j <= hi <= chars@.len(),
            s == chars@.subrange(lo as int, hi as int),
            split_on(chars@.subrange(lo as int, j as int), ',') == done.push(
                chars@.subrange(start as int, j as int),
            ),
            char_vecs(toks@) == tokens_of(done),
        decreases hi - j,
    {
        let ghost pre = chars@.subrange(lo as int, j as int);
        let ghost post = chars@.subrange(lo as int, j + 1 as int);
        assert(post.drop_last() =~= pre);
        assert(post.last() == chars@[j as int]);
        proof {
            lemma_split_on_nonempty(pre, ',');
        }
        if chars[j] == ',' {
            let (a, b) = trim_range(chars, start, j);
            let ghost piece = chars@.subrange(start as int, j as int);
            if a < b {
                let mut t: Vec<char> = Vec::new();
                let mut k = a;
                while k < b
                    invariant
                        a <= k <= b <= chars@.len(),
                        t@ == chars@.subrange(a as int, k as int),
                    decreases b - k,
                {
                    t.push(chars[k]);
                    k += 1;
                }
                toks.push(t);
            }
            proof {
                let nd = done.push(piece);
                assert(nd.drop_last() =~= done);
                assert(chars@.subrange(j + 1 as int, j + 1 as int) =~= Seq::<char>::empty());
                assert(split_on(post, ',') =~= nd.push(chars@.subrange(j + 1 as int, j + 1 as int)));
                assert(char_vecs(toks@) =~= tokens_of(nd));
                done = nd;
            }
            start = j + 1;
        } else {
            proof {
                assert(chars@.subrange(start as int, j as int).push(chars@[j as int]) =~= chars@.subrange(start as int, j + 1 as int));
                assert(split_on(post, ',') =~= done.push(chars@.subrange(start as int, j + 1 as int)));
            }
        }
        j += 1;
    }
    // the last piece
    let (a, b) = trim_range(chars, start, hi);
    if a < b {
        let mut t: Vec<char> = Vec::new();
        let mut k = a;
        while k < b
            invariant
                a <= k <= b <= chars@.len(),
                t@ == chars@.subrange(a as int, k as int),
            decreases b - k,
        {
            t.push(chars[k]);
            k += 1;
        }
        toks.push(t);
    }
    let ghost pieces = done.push(chars@.subrange(start as int, hi as int));
    proof {
        assert(chars@.subrange(lo as int, j as int) =~= s);
        assert(pieces.drop_last() =~= done);
        assert(char_vecs(toks@) =~= tokens_of(pieces));
    }
    // every token must be made of digits
    if toks.len() == 0 {
        return None;
    }
    let mut i: usize = 0;
    while i < toks.len()
        invariant
            i <= toks@.len(),
            s == chars@.subrange(lo as int, hi as int),
            char_vecs(toks@) == group_tokens(s),
            forall|m: int| 0 <= m < i ==> all_digits(#[trigger] group_tokens(s)[m]),
        decreases toks@.len() - i,
    {
        assert(char_vecs(toks@)[i as int] == toks@[i as int]@);
        if !token_is_digits(&toks[i]) {
            return None;
        }
        i += 1;
    }
    // keep the tokens that name a source
    let mut valid: Vec<Vec<char>> = Vec::new();
    let mut i: usize = 0;
    while i < toks.len()
        invariant
            i <= toks@.len(),
            s == chars@.subrange(lo as int, hi as int),
            char_vecs(toks@) == group_tokens(s),
            is_citation(group_tokens(s)),
            char_vecs(valid@) == valid_tokens(group_tokens(s).take(i as int), source_count as nat),
        decreases toks@.len() - i,
    {
        let ghost g = group_tokens(s);
        assert(g.take(i + 1).drop_last() =~= g.take(i as int));
        assert(char_vecs(toks@)[i as int] == toks@[i as int]@);
        assert(all_digits(g[i as int]));
        if token_in_range(&toks[i], source_count) {
            let mut t: Vec<char> = Vec::new();
            let mut k: usize = 0;
            while k < toks[i].len()
                invariant
                    i < toks@.len(),
                    k <= toks@[i as int]@.len(),
                    t@ == toks@[i as int]@.take(k as int),
                decreases toks@[i as int]@.len() - k,
            {
                t.push(toks[i][k]);
                k += 1;
            }
            assert(t@ =~= toks@[i as int]@);
            valid.push(t);
            assert(char_vecs(valid@) =~= valid_tokens(g.take(i + 1), source_count as nat));
        } else {
            assert(char_vecs(valid@) =~= valid_tokens(g.take(i + 1), source_count as nat));
        }
        i += 1;
    }
    assert(group_tokens(s).take(i as int) =~= group_tokens(s));
    let count = toks.len();
    assert(char_vecs(toks@).len() == toks@.len());
    Some((valid, count))
}


/// Appends the tokens joined with `,`.
fn push_joined(out: &mut String, toks: &Vec<Vec<char>>)
    ensures
        final(out)@ == old(out)@ + join_commas(char_vecs(toks@)),
{
    let mut i: usize = 0;
    while i < toks.len()
        invariant
            i <= toks@.len(),
            out@ == old(out)@ + join_commas(char_vecs(toks@).take(i as int)),
        decreases toks@.len() - i,
    {
        let ghost g = char_vecs(toks@);
        let ghost before = out@;
        assert(g.take(i + 1).drop_last() =~= g.take(i as int));
        if i > 0 {
            push_char(out, ',');
        }
        let t = &toks[i];
        let mut k: usize = 0;
        let ghost mid = out@;
        while k < t.len()
            invariant
                k <= t@.len(),
                out@ == mid + t@.take(k as int),
            decreases t@.len() - k,
        {
            push_char(out, t[k]);
            assert(t@.take(k + 1) =~= t@.take(k as int).push(t@[k as int]));
            k += 1;
        }
        assert(t@.take(k as int) =~= t@);
        assert(g[i as int] == t@);
        if i == 0 {
            assert(g.take(1) =~= seq![g[0]]);
        }
        assert(out@ =~= old(out)@ + join_commas(g.take(i + 1)));
        i += 1;
    }
    assert(char_vecs(toks@).take(i as int) =~= char_vecs(toks@));
}

/// One repair pass, left to right.
///
/// A bracket group is treated as a citation only when its content is
/// exclusively comma-separated numbers (e.g. `[1]`, `[2,4]`). Anything else
/// (markdown links, prose) is left untouched. Within a citation, valid
/// indices are kept and invalid ones dropped; a citation with no valid
/// indices is removed entirely.
pub fn repair_once(text: &str, source_count: usize) -> (r: String)
    ensures
        r@ == repair_pass(text@, source_count as nat),
{
    let chars = chars_of(text);
    let n = chars.len();
    let mut out = String::new();
    let mut i: usize = 0;
    while i < n
        invariant
            n == chars@.len(),
            chars@ == text@,
            i <= n,
            repair_pass(chars@, source_count as nat) == out@ + validate_from(
                chars@,
                i as nat,
                source_count as nat,
            ),
        decreases n - i,
    {
        if chars[i] == '[' {
            match find_closing(chars.as_slice(), i) {
                Some(close) => {
                    proof {
                        lemma_first_close(chars@, i as nat + 1);
                    }
                    match citation_tokens(&chars, i + 1, close, source_count) {
                        Some((valid, _)) => {
                            let ghost before = out@;
                            if valid.len() > 0 {
                                push_char(&mut out, '[');
                                push_joined(&mut out, &valid);
                                push_char(&mut out, ']');
                                assert(out@ =~= before + (seq!['['] + join_commas(char_vecs(valid@)) + seq![']']));
                            }
                            i = close + 1;
                            continue;
                        },
                        None => {},
                    }
                },
                None => {},
            }
        }
        push_char(&mut out, chars[i]);
        i += 1;
    }
    out
}


proof fn lemma_validate_from_plain(s: Seq<char>, i: nat, source_count: nat)
    requires
        i <= s.len(),
        forall|j: int| 0 <= j < s.len() ==> s[j] != '[',
    ensures
        validate_from(s, i, source_count) == s.skip(i as int),
    decreases s.len() - i,
{
    if i < s.len() {
        lemma_validate_from_plain(s, i + 1, source_count);
        assert(seq![s[i as int]] + s.skip(i + 1 as int) =~= s.skip(i as int));
    } else {
        assert(s.skip(i as int) =~= Seq::<char>::empty());
    }
}

proof fn lemma_pass_leaves_plain_text(s: Seq<char>, source_count: nat)
    requires
        forall|j: int| 0 <= j < s.len() ==> s[j] != '[',
    ensures
        repair_pass(s, source_count) == s,
{
    lemma_validate_from_plain(s, 0, source_count);
    assert(s.skip(0) =~= s);
}

/// Every index that survives in a repaired citation names an actual source:
/// it lies in `1..=source_count`. With no sources, nothing survives.
pub proof fn lemma_kept_indices_in_range(toks: Seq<Seq<char>>, source_count: nat)
    ensures
        forall|k: int|
            0 <= k < valid_tokens(toks, source_count).len() ==> 1 <= digits_value(
                #[trigger] valid_tokens(toks, source_count)[k],
            ) <= source_count,
        source_count == 0 ==> valid_tokens(toks, source_count).len() == 0,
    decreases toks.len(),
{
    if toks.len() > 0 {
        lemma_kept_indices_in_range(toks.drop_last(), source_count);
        let rest = valid_tokens(toks.drop_last(), source_count);
        let v = valid_tokens(toks, source_count);
        assert forall|k: int| 0 <= k < v.len() implies 1 <= digits_value(#[trigger] v[k])
            <= source_count by {
            if k < rest.len() {
                assert(v[k] == rest[k]);
            }
        }
    }
}


/// The total number of characters in a sequence of pieces.
pub open spec fn total_len(p: Seq<Seq<char>>) -> nat
    decreases p.len(),
{
    if p.len() == 0 {
        0
    } else {
        total_len(p.drop_last()) + p.last().len()
    }
}

proof fn lemma_join_len(t: Seq<Seq<char>>)
    ensures
        join_commas(t).len() == if t.len() == 0 {
            0
        } else {
            total_len(t) + t.len() - 1
        },
    decreases t.len(),
{
    if t.len() >= 2 {
        lemma_join_len(t.drop_last());
        assert(total_len(t) == total_len(t.drop_last()) + t.last().len());
    } else if t.len() == 1 {
        assert(t.drop_last().len() == 0);
        assert(total_len(t.drop_last()) == 0);
        assert(total_len(t) == t[0].len());
    }
}

proof fn lemma_valid_shrinks(t: Seq<Seq<char>>, n: nat)
    ensures
        total_len(valid_tokens(t, n)) <= total_len(t),
        valid_tokens(t, n).len() <= t.len(),
    decreases t.len(),
{
    if t.len() > 0 {
        lemma_valid_shrinks(t.drop_last(), n);
        let rest = valid_tokens(t.drop_last(), n);
        if valid_index(t.last(), n) {
            assert(rest.push(t.last()).drop_last() =~= rest);
        }
    }
}

proof fn lemma_trim_start_len(s: Seq<char>)
    ensures
        trim_start(s).len() <= s.len(),
    decreases s.len(),
{
    if s.len() > 0 && crate::text::is_white_space(s[0]) {
        lemma_trim_start_len(s.drop_first());
    }
}

proof fn lemma_trim_end_len(s: Seq<char>)
    ensures
        trim_end(s).len() <= s.len(),
    decreases s.len(),
{
    if s.len() > 0 && crate::text::is_white_space(s.last()) {
        lemma_trim_end_len(s.drop_last());
    }
}

proof fn lemma_tokens_shrink(p: Seq<Seq<char>>)
    ensures
        total_len(tokens_of(p)) <= total_len(p),
        tokens_of(p).len() <= p.len(),
    decreases p.len(),
{
    if p.len() > 0 {
        lemma_tokens_shrink(p.drop_last());
        let rest = tokens_of(p.drop_last());
        let t = trim(p.last());
        lemma_trim_start_len(p.last());
        lemma_trim_end_len(trim_start(p.last()));
        if t.len() > 0 {
            assert(rest.push(t).drop_last() =~= rest);
        }
    }
}

proof fn lemma_split_len(s: Seq<char>, sep: char)
    ensures
        total_len(split_on(s, sep)) + split_on(s, sep).len() == s.len() + 1,
    decreases s.len(),
{
    if s.len() == 0 {
        let e = seq![Seq::<char>::empty()];
        assert(split_on(s, sep) =~= e);
        assert(e.drop_last().len() == 0);
        assert(total_len(e.drop_last()) == 0);
        assert(total_len(e) == 0);
    } else {
        let p = split_on(s.drop_last(), sep);
        lemma_split_len(s.drop_last(), sep);
        lemma_split_on_nonempty(s.drop_last(), sep);
        if s.last() == sep {
            let q = p.push(Seq::<char>::empty());
            assert(q.drop_last() =~= p);
            assert(total_len(q) == total_len(p));
            assert(split_on(s, sep) == q);
        } else {
            let q = p.update(p.len() - 1, p.last().push(s.last()));
            assert(q.drop_last() =~= p.drop_last());
            assert(q.last() == p.last().push(s.last()));
            assert(total_len(q) == total_len(p.drop_last()) + p.last().len() + 1);
            assert(total_len(p) == total_len(p.drop_last()) + p.last().len());
            assert(split_on(s, sep) == q);
        }
    }
}

proof fn lemma_group_join_len(inner: Seq<char>, n: nat)
    ensures
        join_commas(valid_tokens(group_tokens(inner), n)).len() <= inner.len(),
{
    let p = split_on(inner, ',');
    let t = tokens_of(p);
    let v = valid_tokens(t, n);
    lemma_split_len(inner, ',');
    lemma_tokens_shrink(p);
    lemma_valid_shrinks(t, n);
    lemma_join_len(v);
}

proof fn lemma_validate_from_len(s: Seq<char>, i: nat, n: nat)
    requires
        i <= s.len(),
    ensures
        validate_from(s, i, n).len() <= s.len() - i,
    decreases s.len() - i,
{
    if i < s.len() {
        if s[i as int] == '[' && first_close(s, i + 1) is Some {
            let close = first_close(s, i + 1)->0;
            lemma_first_close(s, i + 1);
            let inner = s.subrange(i + 1 as int, close as int);
            let toks = group_tokens(inner);
            if is_citation(toks) {
                lemma_validate_from_len(s, close + 1, n);
                lemma_group_join_len(inner, n);
            } else {
                lemma_validate_from_len(s, i + 1, n);
            }
        } else {
            lemma_validate_from_len(s, i + 1, n);
        }
    }
}

/// A citation already in canonical form: comma-separated decimal indices,
/// with no white space or empty entry, each naming an actual source.
pub open spec fn canonical_citation(inner: Seq<char>, source_count: nat) -> bool {
    let p = split_on(inner, ',');
    forall|k: int|
        0 <= k < p.len() ==> (#[trigger] p[k]).len() > 0 && all_digits(p[k]) && valid_index(
            p[k],
            source_count,
        )
}

proof fn lemma_join_split(s: Seq<char>)
    ensures
        join_commas(split_on(s, ',')) == s,
    decreases s.len(),
{
    if s.len() == 0 {
        assert(split_on(s, ',') =~= seq![Seq::<char>::empty()]);
        assert(s =~= Seq::<char>::empty());
    } else {
        let t = s.drop_last();
        let p = split_on(t, ',');
        lemma_join_split(t);
        lemma_split_on_nonempty(t, ',');
        if s.last() == ',' {
            let q = p.push(Seq::<char>::empty());
            assert(q.drop_last() =~= p);
            assert(join_commas(q) == join_commas(p).push(',') + Seq::<char>::empty());
            assert(t.push(',') + Seq::<char>::empty() =~= s);
        } else {
            let q = p.update(p.len() - 1, p.last().push(s.last()));
            assert(q.drop_last() =~= p.drop_last());
            if p.len() == 1 {
                assert(join_commas(p) == p[0]);
                assert(join_commas(q) == q[0]);
                assert(q[0] =~= p[0].push(s.last()));
                assert(t.push(s.last()) =~= s);
            } else {
                assert(join_commas(p) == join_commas(p.drop_last()).push(',') + p.last());
                assert(join_commas(q) == join_commas(q.drop_last()).push(',') + q.last());
                assert(join_commas(p.drop_last()).push(',') + p.last().push(s.last()) =~= (
                join_commas(p.drop_last()).push(',') + p.last()).push(s.last()));
                assert(t.push(s.last()) =~= s);
            }
        }
    }
}

proof fn lemma_digits_trim_stable(t: Seq<char>)
    requires
        t.len() > 0,
        all_digits(t),
    ensures
        trim(t) == t,
{
    assert('0' <= t[0] && t[0] <= '9');
    assert('0' <= t[t.len() - 1] && t[t.len() - 1] <= '9');
    assert(!crate::text::is_white_space(t[0]));
    assert(trim_start(t) == t);
    assert(!crate::text::is_white_space(t.last()));
    assert(trim_end(t) == t);
}

proof fn lemma_canonical_pieces(p: Seq<Seq<char>>, source_count: nat)
    requires
        forall|k: int|
            0 <= k < p.len() ==> (#[trigger] p[k]).len() > 0 && all_digits(p[k]) && valid_index(
                p[k],
                source_count,
            ),
    ensures
        tokens_of(p) == p,
        valid_tokens(p, source_count) == p,
    decreases p.len(),
{
    if p.len() > 0 {
        let q = p.drop_last();
        assert forall|k: int| 0 <= k < q.len() implies (#[trigger] q[k]).len() > 0 && all_digits(
            q[k],
        ) && valid_index(q[k], source_count) by {
            assert(q[k] == p[k]);
        }
        lemma_canonical_pieces(q, source_count);
        assert(p[p.len() - 1].len() > 0 && all_digits(p[p.len() - 1]));
        lemma_digits_trim_stable(p.last());
        assert(q.push(p.last()) =~= p);
    }
}

proof fn lemma_validate_from_canonical(s: Seq<char>, i: nat, source_count: nat)
    requires
        i <= s.len(),
        forall|j: int|
            0 <= j < s.len() && #[trigger] s[j] == '[' && first_close(s, (j + 1) as nat) is Some
                ==> {
                let inner = s.subrange(j + 1, first_close(s, (j + 1) as nat)->0 as int);
                !is_citation(group_tokens(inner)) || canonical_citation(inner, source_count)
            },
    ensures
        validate_from(s, i, source_count) == s.skip(i as int),
    decreases s.len() - i,
{
    if i < s.len() {
        if s[i as int] == '[' && first_close(s, i + 1) is Some {
            let close = first_close(s, i + 1)->0;
            lemma_first_close(s, i + 1);
            let inner = s.subrange(i + 1 as int, close as int);
            let toks = group_tokens(inner);
            if is_citation(toks) {
                assert(canonical_citation(inner, source_count));
                let p = split_on(inner, ',');
                lemma_canonical_pieces(p, source_count);
                lemma_join_split(inner);
                lemma_validate_from_canonical(s, close + 1, source_count);
                assert(seq!['['] + inner + seq![']'] + s.skip(close + 1 as int) =~= s.skip(
                    i as int,
                ));
            } else {
                lemma_validate_from_canonical(s, i + 1, source_count);
                assert(seq![s[i as int]] + s.skip(i + 1 as int) =~= s.skip(i as int));
            }
        } else {
            lemma_validate_from_canonical(s, i + 1, source_count);
            assert(seq![s[i as int]] + s.skip(i + 1 as int) =~= s.skip(i as int));
        }
    } else {
        assert(s.skip(i as int) =~= Seq::<char>::empty());
    }
}

proof fn lemma_pass_keeps_canonical(s: Seq<char>, source_count: nat)
    requires
        forall|j: int|
            0 <= j < s.len() && #[trigger] s[j] == '[' && first_close(s, (j + 1) as nat) is Some
                ==> {
                let inner = s.subrange(j + 1, first_close(s, (j + 1) as nat)->0 as int);
                !is_citation(group_tokens(inner)) || canonical_citation(inner, source_count)
            },
    ensures
        repair_pass(s, source_count) == s,
{
    lemma_validate_from_canonical(s, 0, source_count);
    assert(s.skip(0) =~= s);
}


proof fn lemma_trim_start_same_len(s: Seq<char>)
    requires
        trim_start(s).len() == s.len(),
    ensures
        trim_start(s) == s,
    decreases s.len(),
{
    if s.len() > 0 && crate::text::is_white_space(s[0]) {
        lemma_trim_start_len(s.drop_first());
    }
}

proof fn lemma_trim_end_same_len(s: Seq<char>)
    requires
        trim_end(s).len() == s.len(),
    ensures
        trim_end(s) == s,
    decreases s.len(),
{
    if s.len() > 0 && crate::text::is_white_space(s.last()) {
        lemma_trim_end_len(s.drop_last());
    }
}

proof fn lemma_trim_same_len(s: Seq<char>)
    requires
        trim(s).len() == s.len(),
    ensures
        trim(s) == s,
{
    lemma_trim_start_len(s);
    lemma_trim_end_len(trim_start(s));
    lemma_trim_start_same_len(s);
    lemma_trim_end_same_len(trim_start(s));
}

/// The characters of the pieces plus one per piece.
pub open spec fn weight(p: Seq<Seq<char>>) -> nat {
    total_len(p) + p.len()
}

proof fn lemma_tokens_weight(p: Seq<Seq<char>>)
    ensures
        weight(tokens_of(p)) <= weight(p),
        (exists|k: int| 0 <= k < p.len() && (trim(#[trigger] p[k]).len() == 0 || trim(p[k]) != p[k]))
            ==> weight(tokens_of(p)) < weight(p),
        (forall|k: int| 0 <= k < p.len() ==> trim(#[trigger] p[k]).len() > 0 && trim(p[k]) == p[k])
            ==> tokens_of(p) == p,
    decreases p.len(),
{
    if p.len() > 0 {
        let q = p.drop_last();
        lemma_tokens_weight(q);
        let rest = tokens_of(q);
        let t = trim(p.last());
        lemma_trim_start_len(p.last());
        lemma_trim_end_len(trim_start(p.last()));
        assert(total_len(p) == total_len(q) + p.last().len());
        if t.len() > 0 {
            assert(rest.push(t).drop_last() =~= rest);
            assert(total_len(rest.push(t)) == total_len(rest) + t.len());
        }
        if exists|k: int| 0 <= k < p.len() && (trim(#[trigger] p[k]).len() == 0 || trim(p[k]) != p[k]) {
            let k = choose|k: int| 0 <= k < p.len() && (trim(#[trigger] p[k]).len() == 0 || trim(p[k]) != p[k]);
            if k < q.len() {
                assert(q[k] == p[k]);
            } else {
                if t.len() > 0 && t != p.last() {
                    if t.len() == p.last().len() {
                        lemma_trim_same_len(p.last());
                    }
                }
            }
        }
        if forall|k: int| 0 <= k < p.len() ==> trim(#[trigger] p[k]).len() > 0 && trim(p[k]) == p[k] {
            assert forall|k: int| 0 <= k < q.len() implies trim(#[trigger] q[k]).len() > 0 && trim(q[k]) == q[k] by {
                assert(q[k] == p[k]);
            }
            assert(trim(p[p.len() - 1]) == p[p.len() - 1]);
            assert(q.push(p.last()) =~= p);
        }
    } else {
        assert(total_len(p) == 0);
    }
}

proof fn lemma_valid_weight(t: Seq<Seq<char>>, n: nat)
    ensures
        weight(valid_tokens(t, n)) <= weight(t),
        (exists|k: int| 0 <= k < t.len() && !valid_index(#[trigger] t[k], n)) ==> weight(
            valid_tokens(t, n),
        ) < weight(t),
        (forall|k: int| 0 <= k < t.len() ==> valid_index(#[trigger] t[k], n)) ==> valid_tokens(t, n)
            == t,
    decreases t.len(),
{
    if t.len() > 0 {
        let q = t.drop_last();
        lemma_valid_weight(q, n);
        let rest = valid_tokens(q, n);
        assert(total_len(t) == total_len(q) + t.last().len());
        if valid_index(t.last(), n) {
            assert(rest.push(t.last()).drop_last() =~= rest);
            assert(total_len(rest.push(t.last())) == total_len(rest) + t.last().len());
        }
        if exists|k: int| 0 <= k < t.len() && !valid_index(#[trigger] t[k], n) {
            let k = choose|k: int| 0 <= k < t.len() && !valid_index(#[trigger] t[k], n);
            if k < q.len() {
                assert(q[k] == t[k]);
            }
        }
        if forall|k: int| 0 <= k < t.len() ==> valid_index(#[trigger] t[k], n) {
            assert forall|k: int| 0 <= k < q.len() implies valid_index(#[trigger] q[k], n) by {
                assert(q[k] == t[k]);
            }
            assert(valid_index(t[t.len() - 1], n));
            assert(q.push(t.last()) =~= t);
        }
    } else {
        assert(total_len(t) == 0);
    }
}

/// A citation that is not in canonical form shrinks when repaired.
proof fn lemma_group_shrinks(inner: Seq<char>, n: nat)
    requires
        is_citation(group_tokens(inner)),
        !canonical_citation(inner, n),
    ensures
        valid_tokens(group_tokens(inner), n).len() == 0 || join_commas(
            valid_tokens(group_tokens(inner), n),
        ).len() < inner.len(),
{
    let p = split_on(inner, ',');
    let t = tokens_of(p);
    let v = valid_tokens(t, n);
    lemma_split_len(inner, ',');
    lemma_tokens_weight(p);
    lemma_valid_weight(t, n);
    lemma_join_len(v);
    let k = choose|k: int|
        0 <= k < p.len() && !((#[trigger] p[k]).len() > 0 && all_digits(p[k]) && valid_index(
            p[k],
            n,
        ));
    if trim(p[k]).len() == 0 || trim(p[k]) != p[k] {
    } else {
        if forall|m: int| 0 <= m < p.len() ==> trim(#[trigger] p[m]).len() > 0 && trim(p[m]) == p[m] {
            assert(t == p);
            assert(all_digits(t[k]));
            assert(!valid_index(t[k], n));
        }
    }
}

/// Every character of comma-joined digit pieces is a digit or a comma.
proof fn lemma_join_chars(p: Seq<Seq<char>>)
    requires
        forall|k: int| 0 <= k < p.len() ==> all_digits(#[trigger] p[k]),
    ensures
        forall|j: int|
            0 <= j < join_commas(p).len() ==> (#[trigger] join_commas(p)[j] == ',' || ('0'
                <= join_commas(p)[j] && join_commas(p)[j] <= '9')),
    decreases p.len(),
{
    if p.len() >= 2 {
        let q = p.drop_last();
        assert forall|k: int| 0 <= k < q.len() implies all_digits(#[trigger] q[k]) by {
            assert(q[k] == p[k]);
        }
        lemma_join_chars(q);
        assert(all_digits(p[p.len() - 1]));
        let a = join_commas(q).push(',');
        assert forall|j: int| 0 <= j < join_commas(p).len() implies (#[trigger] join_commas(p)[j]
            == ',' || ('0' <= join_commas(p)[j] && join_commas(p)[j] <= '9')) by {
            if j < join_commas(q).len() {
                assert(join_commas(p)[j] == join_commas(q)[j]);
            } else if j == join_commas(q).len() {
            } else {
                assert(join_commas(p)[j] == p.last()[j - a.len()]);
            }
        }
    } else if p.len() == 1 {
        assert(all_digits(p[0]));
    }
}

/// A pass either leaves the text from `i` on as it is or makes it shorter.
proof fn lemma_pass_from_shrinks(s: Seq<char>, i: nat, n: nat)
    requires
        i <= s.len(),
    ensures
        validate_from(s, i, n) == s.skip(i as int) || validate_from(s, i, n).len() < s.len() - i,
    decreases s.len() - i,
{
    if i < s.len() {
        if s[i as int] == '[' && first_close(s, i + 1) is Some {
            let c = first_close(s, i + 1)->0;
            lemma_first_close(s, i + 1);
            let inner = s.subrange(i + 1 as int, c as int);
            let toks = group_tokens(inner);
            if is_citation(toks) {
                lemma_pass_from_shrinks(s, c + 1, n);
                lemma_validate_from_len(s, c + 1, n);
                if canonical_citation(inner, n) {
                    lemma_canonical_pieces(split_on(inner, ','), n);
                    lemma_join_split(inner);
                    assert(seq!['['] + inner + seq![']'] =~= s.subrange(i as int, c + 1 as int));
                    if validate_from(s, c + 1, n) == s.skip(c + 1 as int) {
                        assert(s.subrange(i as int, c + 1 as int) + s.skip(c + 1 as int) =~= s.skip(
                            i as int,
                        ));
                    }
                } else {
                    lemma_group_shrinks(inner, n);
                }
            } else {
                lemma_pass_from_shrinks(s, i + 1, n);
                if validate_from(s, i + 1, n) == s.skip(i + 1 as int) {
                    assert(seq![s[i as int]] + s.skip(i + 1 as int) =~= s.skip(i as int));
                }
            }
        } else {
            lemma_pass_from_shrinks(s, i + 1, n);
            if validate_from(s, i + 1, n) == s.skip(i + 1 as int) {
                assert(seq![s[i as int]] + s.skip(i + 1 as int) =~= s.skip(i as int));
            }
        }
    } else {
        assert(s.skip(i as int) =~= Seq::<char>::empty());
    }
}

/// A pass that changes the text makes it shorter.
pub proof fn lemma_pass_shrinks(s: Seq<char>, n: nat)
    ensures
        repair_pass(s, n) != s ==> repair_pass(s, n).len() < s.len(),
{
    lemma_pass_from_shrinks(s, 0, n);
    assert(s.skip(0) =~= s);
}

/// Whether every bracket group of `s` that is a citation is in canonical
/// form.
pub open spec fn all_citations_canonical(s: Seq<char>, n: nat) -> bool {
    forall|j: int|
        0 <= j < s.len() && #[trigger] s[j] == '[' && first_close(s, (j + 1) as nat) is Some ==> {
            let inner = s.subrange(j + 1, first_close(s, (j + 1) as nat)->0 as int);
            is_citation(group_tokens(inner)) ==> canonical_citation(inner, n)
        }
}

/// Whether every bracket group of `s` that is a citation names only actual
/// sources: each of its indices lies in `1..=source_count`.
pub open spec fn cites_only_sources(s: Seq<char>, n: nat) -> bool {
    forall|j: int|
        0 <= j < s.len() && #[trigger] s[j] == '[' && first_close(s, (j + 1) as nat) is Some ==> {
            let toks = group_tokens(s.subrange(j + 1, first_close(s, (j + 1) as nat)->0 as int));
            is_citation(toks) ==> forall|k: int| 0 <= k < toks.len() ==> valid_index(#[trigger] toks[k], n)
        }
}

proof fn lemma_fixed_from(s: Seq<char>, i: nat, n: nat)
    requires
        i <= s.len(),
        validate_from(s, i, n) == s.skip(i as int),
    ensures
        forall|j: int|
            i <= j < s.len() && #[trigger] s[j] == '[' && first_close(s, (j + 1) as nat) is Some ==> {
                let inner = s.subrange(j + 1, first_close(s, (j + 1) as nat)->0 as int);
                is_citation(group_tokens(inner)) ==> canonical_citation(inner, n)
            },
    decreases s.len() - i,
{
    if i < s.len() {
        if s[i as int] == '[' && first_close(s, i + 1) is Some {
            let c = first_close(s, i + 1)->0;
            lemma_first_close(s, i + 1);
            let inner = s.subrange(i + 1 as int, c as int);
            let toks = group_tokens(inner);
            if is_citation(toks) {
                lemma_validate_from_len(s, c + 1, n);
                if !canonical_citation(inner, n) {
                    lemma_group_shrinks(inner, n);
                    assert(validate_from(s, i, n).len() < s.skip(i as int).len());
                }
                let p = split_on(inner, ',');
                lemma_canonical_pieces(p, n);
                lemma_join_split(inner);
                let head = seq!['['] + inner + seq![']'];
                assert(head =~= s.subrange(i as int, c + 1 as int));
                assert(s.skip(i as int) =~= head + s.skip(c + 1 as int));
                assert((head + validate_from(s, c + 1, n)).skip(head.len() as int) =~= validate_from(
                    s,
                    c + 1,
                    n,
                ));
                assert((head + s.skip(c + 1 as int)).skip(head.len() as int) =~= s.skip(c + 1 as int));
                lemma_fixed_from(s, c + 1, n);
                assert forall|k: int| 0 <= k < p.len() implies all_digits(#[trigger] p[k]) by {
                }
                lemma_join_chars(p);
                assert forall|j: int|
                    i <= j < s.len() && #[trigger] s[j] == '[' && first_close(s, (j + 1) as nat) is Some
                        implies {
                        let inner2 = s.subrange(j + 1, first_close(s, (j + 1) as nat)->0 as int);
                        is_citation(group_tokens(inner2)) ==> canonical_citation(inner2, n)
                    } by {
                    if i < j <= c {
                        if j < c {
                            assert(s[j] == inner[j - i - 1]);
                            assert(join_commas(p)[j - i - 1] == inner[j - i - 1]);
                        }
                    }
                }
            } else {
                assert(s.skip(i as int) =~= seq![s[i as int]] + s.skip(i + 1 as int));
                assert((seq![s[i as int]] + validate_from(s, i + 1, n)).drop_first() =~= validate_from(
                    s,
                    i + 1,
                    n,
                ));
                assert((seq![s[i as int]] + s.skip(i + 1 as int)).drop_first() =~= s.skip(i + 1 as int));
                lemma_fixed_from(s, i + 1, n);
            }
        } else {
            assert(s.skip(i as int) =~= seq![s[i as int]] + s.skip(i + 1 as int));
            assert((seq![s[i as int]] + validate_from(s, i + 1, n)).drop_first() =~= validate_from(
                s,
                i + 1,
                n,
            ));
            assert((seq![s[i as int]] + s.skip(i + 1 as int)).drop_first() =~= s.skip(i + 1 as int));
            lemma_fixed_from(s, i + 1, n);
        }
    }
}

/// A text that a repair pass leaves as it is holds only canonical
/// citations.
proof fn lemma_fixed_canonical(s: Seq<char>, n: nat)
    requires
        repair_pass(s, n) == s,
    ensures
        all_citations_canonical(s, n),
{
    assert(s.skip(0) =~= s);
    lemma_fixed_from(s, 0, n);
}

proof fn lemma_canonical_cites_only_sources(s: Seq<char>, n: nat)
    requires
        all_citations_canonical(s, n),
    ensures
        cites_only_sources(s, n),
{
    assert forall|j: int|
        0 <= j < s.len() && #[trigger] s[j] == '[' && first_close(s, (j + 1) as nat) is Some implies {
            let toks = group_tokens(s.subrange(j + 1, first_close(s, (j + 1) as nat)->0 as int));
            is_citation(toks) ==> forall|k: int| 0 <= k < toks.len() ==> valid_index(#[trigger] toks[k], n)
        } by {
        let inner = s.subrange(j + 1, first_close(s, (j + 1) as nat)->0 as int);
        if is_citation(group_tokens(inner)) {
            lemma_canonical_pieces(split_on(inner, ','), n);
        }
    }
}

/// A text that some citation of which names a missing source is changed,
/// and so shortened, by a repair pass.
pub proof fn lemma_unclean_pass_shrinks(t: Seq<char>, n: nat)
    requires
        !cites_only_sources(t, n),
    ensures
        repair_pass(t, n).len() < t.len(),
{
    if repair_pass(t, n) == t {
        lemma_fixed_canonical(t, n);
        lemma_canonical_cites_only_sources(t, n);
    }
    lemma_pass_shrinks(t, n);
}

/// Repair passes repeated while some citation still names a missing source.
pub open spec fn repair_until_clean(t: Seq<char>, source_count: nat) -> Seq<char>
    decreases t.len(),
{
    if cites_only_sources(t, source_count) {
        t
    } else {
        proof {
            lemma_unclean_pass_shrinks(t, source_count);
        }
        repair_until_clean(repair_pass(t, source_count), source_count)
    }
}

/// The repaired text: one repair pass, repeated only while a citation still
/// names a missing source. Removing a group can join a bracket before it to
/// text after it and so form a new group; when that group names a missing
/// source, the next pass repairs it too.
pub open spec fn spec_validate(s: Seq<char>, source_count: nat) -> Seq<char> {
    repair_until_clean(repair_pass(s, source_count), source_count)
}

proof fn lemma_until_clean(t: Seq<char>, n: nat)
    ensures
        cites_only_sources(repair_until_clean(t, n), n),
        repair_until_clean(t, n).len() <= t.len(),
    decreases t.len(),
{
    if !cites_only_sources(t, n) {
        lemma_unclean_pass_shrinks(t, n);
        lemma_until_clean(repair_pass(t, n), n);
    }
}

/// Whether every citation among the characters `chars` names only sources
/// `1..=source_count`.
fn cites_real_sources(chars: &Vec<char>, source_count: usize) -> (r: bool)
    ensures
        r == cites_only_sources(chars@, source_count as nat),
{
    let ghost s = chars@;
    let ghost n = source_count as nat;
    let len = chars.len();
    let mut j: usize = 0;
    while j < len
        invariant
            len == s.len(),
            s == chars@,
            n == source_count,
            j <= len,
            forall|i: int|
                0 <= i < j && #[trigger] s[i] == '[' && first_close(s, (i + 1) as nat) is Some ==> {
                    let toks = group_tokens(s.subrange(i + 1, first_close(s, (i + 1) as nat)->0 as int));
                    is_citation(toks) ==> forall|k: int| 0 <= k < toks.len() ==> valid_index(#[trigger] toks[k], n)
                },
        decreases len - j,
    {
        if chars[j] == '[' {
            match find_closing(chars.as_slice(), j) {
                Some(close) => {
                    proof {
                        lemma_first_close(s, j as nat + 1);
                    }
                    match citation_tokens(chars, j + 1, close, source_count) {
                        Some((valid, count)) => {
                            let ghost toks = group_tokens(s.subrange(j + 1, close as int));
                            proof {
                                lemma_valid_tokens_all(toks, n);
                            }
                            if valid.len() != count {
                                assert(char_vecs(valid@).len() == valid@.len());
                                assert(s[j as int] == '[');
                                return false;
                            }
                            assert(char_vecs(valid@).len() == valid@.len());
                        },
                        None => {},
                    }
                },
                None => {},
            }
        }
        j += 1;
    }
    true
}

proof fn lemma_valid_tokens_all(toks: Seq<Seq<char>>, n: nat)
    ensures
        valid_tokens(toks, n).len() <= toks.len(),
        valid_tokens(toks, n).len() == toks.len() <==> forall|k: int|
            0 <= k < toks.len() ==> valid_index(#[trigger] toks[k], n),
    decreases toks.len(),
{
    if toks.len() > 0 {
        let d = toks.drop_last();
        lemma_valid_tokens_all(d, n);
        if forall|k: int| 0 <= k < toks.len() ==> valid_index(#[trigger] toks[k], n) {
            assert forall|k: int| 0 <= k < d.len() implies valid_index(#[trigger] d[k], n) by {
                assert(d[k] == toks[k]);
            }
        }
        if forall|k: int| 0 <= k < d.len() ==> valid_index(#[trigger] d[k], n) {
            if valid_index(toks.last(), n) {
                assert forall|k: int| 0 <= k < toks.len() implies valid_index(#[trigger] toks[k], n) by {
                    if k < d.len() {
                        assert(d[k] == toks[k]);
                    }
                }
            }
        }
    }
}

/// Remove or repair citation markers that reference invalid sources.
///
/// A bracket group is treated as a citation only when its content is
/// exclusively comma-separated numbers (e.g. `[1]`, `[2,4]`). Anything else
/// (markdown links, prose) is left untouched. Within a citation, valid
/// indices are kept and invalid ones dropped; a citation with no valid
/// indices is removed entirely. When removing a group joins text into a new
/// citation that names a missing source, the text is repaired again, until
/// no citation names a missing source.
pub fn validate(text: &str, source_count: usize) -> (r: String)
    ensures
        r@ == spec_validate(text@, source_count as nat),
        cites_only_sources(r@, source_count as nat),
{
    let ghost n = source_count as nat;
    let mut cur = repair_once(text, source_count);
    loop
        invariant
            spec_validate(text@, n) == repair_until_clean(cur@, n),
            n == source_count,
        decreases cur@.len(),
    {
        let chars = chars_of(cur.as_str());
        if cites_real_sources(&chars, source_count) {
            return cur;
        }
        proof {
            lemma_unclean_pass_shrinks(cur@, n);
        }
        cur = repair_once(cur.as_str(), source_count);
    }
}

/// When one repair pass leaves no citation that names a missing source,
/// validation is that one pass.
pub proof fn lemma_validate_one_pass_when_clean(s: Seq<char>, source_count: nat)
    requires
        cites_only_sources(repair_pass(s, source_count), source_count),
    ensures
        spec_validate(s, source_count) == repair_pass(s, source_count),
{
}

/// Text without any `[` comes back from validation unchanged.
pub proof fn lemma_validate_leaves_plain_text(s: Seq<char>, source_count: nat)
    requires
        forall|j: int| 0 <= j < s.len() ==> s[j] != '[',
    ensures
        spec_validate(s, source_count) == s,
{
    lemma_pass_leaves_plain_text(s, source_count);
}

/// Repairing citations never makes a text longer.
pub proof fn lemma_validate_never_longer(s: Seq<char>, source_count: nat)
    ensures
        spec_validate(s, source_count).len() <= s.len(),
{
    lemma_pass_shrinks(s, source_count);
    lemma_until_clean(repair_pass(s, source_count), source_count);
}

/// Correct citations pass through unchanged: when every bracket group that
/// is a citation is already canonical (`[1]`, `[2,3]`, indices in range),
/// validation returns the text as it is.
pub proof fn lemma_validate_keeps_canonical(s: Seq<char>, source_count: nat)
    requires
        all_citations_canonical(s, source_count),
    ensures
        spec_validate(s, source_count) == s,
{
    lemma_pass_keeps_canonical(s, source_count);
    lemma_canonical_cites_only_sources(s, source_count);
}

/// Repaired text cites only actual sources.
pub proof fn lemma_validate_result_clean(s: Seq<char>, source_count: nat)
    ensures
        cites_only_sources(spec_validate(s, source_count), source_count),
{
    lemma_until_clean(repair_pass(s, source_count), source_count);
}

} // verus!

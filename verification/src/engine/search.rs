//! Shaping SearXNG results into prompt sources.

use vstd::prelude::*;
use vstd::string::StringExecFns;
use crate::engine::citations::Source;
use crate::engine::llm::{strip_trailing_slashes, trim_trailing_slashes};
use crate::text::{chars_of, string_of_range};

verus! {

/// One result of a SearXNG JSON search: its title, URL and content snippet.
#[derive(Debug, Clone)]
pub struct SearchHit {
    pub title: String,
    pub url: String,
    pub content: String,
}

/// The SearXNG search endpoint: the base URL without trailing `/`, then
/// `/search`.
pub fn search_url(base_url: &str) -> (r: String)
    ensures
        r@ == strip_trailing_slashes(base_url@) + "/search"@,
{
    let mut url = trim_trailing_slashes(base_url);
    url.append("/search");
    url
}

/// The first `n` characters of `s` (all of them when it is shorter).
pub open spec fn take_chars(s: Seq<char>, n: nat) -> Seq<char> {
    if s.len() <= n {
        s
    } else {
        s.take(n as int)
    }
}

/// The first `n` characters of `s`.
pub fn truncate_chars(s: &str, n: usize) -> (r: String)
    ensures
        r@ == take_chars(s@, n as nat),
{
    let v = chars_of(s);
    let end = if v.len() <= n {
        v.len()
    } else {
        n
    };
    let r = string_of_range(&v, 0, end);
    assert(v@.subrange(0, end as int) =~= take_chars(s@, n as nat));
    r
}

/// Turns the top `max` search results into numbered sources: the `i`-th
/// result becomes source `i + 1`, with its snippet cut to `snippet_chars`
/// characters.
pub fn sources_from_hits(hits: &[SearchHit], max: usize, snippet_chars: usize) -> (r: Vec<Source>)
    ensures
        r@.len() == if hits@.len() <= max {
            hits@.len()
        } else {
            max as nat
        },
        forall|i: int|
            0 <= i < r@.len() ==> {
                &&& (#[trigger] r@[i]).index == i + 1
                &&& r@[i].title@ == hits@[i].title@
                &&& r@[i].url@ == hits@[i].url@
                &&& r@[i].snippet@ == take_chars(hits@[i].content@, snippet_chars as nat)
            },
{
    let count = if hits.len() <= max {
        hits.len()
    } else {
        max
    };
    let mut out: Vec<Source> = Vec::new();
    let mut i: usize = 0;
    while i < count
        invariant
            count <= hits@.len(),
            count == if hits@.len() <= max {
                hits@.len()
            } else {
                max as nat
            },
            i <= count,
            out@.len() == i,
            forall|m: int|
                0 <= m < i ==> {
                    &&& (#[trigger] out@[m]).index == m + 1
                    &&& out@[m].title@ == hits@[m].title@
                    &&& out@[m].url@ == hits@[m].url@
                    &&& out@[m].snippet@ == take_chars(hits@[m].content@, snippet_chars as nat)
                },
        decreases count - i,
    {
        let h = &hits[i];
        out.push(
            Source {
                index: i + 1,
                title: h.title.clone(),
                url: h.url.clone(),
                snippet: truncate_chars(h.content.as_str(), snippet_chars),
            },
        );
        i += 1;
    }
    out
}

} // verus!

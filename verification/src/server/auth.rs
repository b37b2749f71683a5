//! Session cookies: reading the session token from a `Cookie` header and
//! writing the `Set-Cookie` value that carries a new one.

use vstd::prelude::*;
use vstd::string::StringExecFns;
use crate::store::types::User;
use crate::text::{chars_of, decimal, is_white_space, lemma_split_on_without_sep, push_decimal, range_views, split_on, split_ranges, starts_with_at,
    string_of_range, trim, trim_range};

verus! {

/// Name of the session cookie.
pub const SESSION_COOKIE: &'static str = "42_session";

/// Body of `POST /v1/auth/login`.
#[derive(Debug, Clone)]
pub struct LoginBody {
    pub username: String,
    pub password: String,
}

/// What a login attempt answers, from the outcome of checking the
/// credentials: the user when they are right; status 401 with `invalid
/// credentials` when they are wrong; status 500 with the error when they
/// could not be checked.
pub fn login_result(checked: Result<Option<User>, String>) -> (r: Result<User, (u16, String)>)
    ensures
        match checked {
            Ok(Some(u)) => r matches Ok(v) && v == u,
            Ok(None) => r matches Err((c, m)) && c == 401 && m@ == "invalid credentials"@,
            Err(e) => r matches Err((c, m)) && c == 500 && m@ == e@,
        },
{
    match checked {
        Ok(Some(u)) => Ok(u),
        Ok(None) => Err((401, String::from_str("invalid credentials"))),
        Err(e) => Err((500, e)),
    }
}

/// Extracted, authenticated user for downstream handlers.
#[derive(Debug, Clone)]
pub struct UserIdentity(pub User);

/// The session token among the `;`-separated pairs of a `Cookie` header:
/// the value of the first pair, once trimmed, that starts with
/// `42_session=`.
pub open spec fn session_value(pairs: Seq<Seq<char>>) -> Option<Seq<char>>
    decreases pairs.len(),
{
    if pairs.len() == 0 {
        None
    } else {
        let p = trim(pairs[0]);
        if p.len() >= 11 && p.take(11) == "42_session="@ {
            Some(p.skip(11))
        } else {
            session_value(pairs.drop_first())
        }
    }
}

/// The session token in a `Cookie` header value, if there is one.
pub open spec fn spec_cookie_from(header: Option<Seq<char>>) -> Option<Seq<char>> {
    match header {
        Some(h) => session_value(split_on(h, ';')),
        None => None,
    }
}

/// The session token carried by a request's `Cookie` header (`None` when
/// the request has no readable `Cookie` header).
pub fn cookie_from(header: Option<&str>) -> (r: Option<String>)
    ensures
        match r {
            Some(s) => spec_cookie_from(
                match header {
                    Some(h) => Some(h@),
                    None => None,
                },
            ) == Some(s@),
            None => spec_cookie_from(
                match header {
                    Some(h) => Some(h@),
                    None => None,
                },
            ) is None,
        },
{
    let h = match header {
        Some(h) => h,
        None => return None,
    };
    let v = chars_of(h);
    let ranges = split_ranges(&v, 0, v.len(), ';');
    assert(v@.subrange(0, v@.len() as int) =~= h@);
    let ghost pairs = range_views(v@, ranges@);
    assert(pairs.skip(0) =~= pairs);
    let mut i: usize = 0;
    while i < ranges.len()
        invariant
            i <= ranges@.len(),
            header == Some(h),
            pairs == range_views(v@, ranges@),
            pairs == split_on(h@, ';'),
            forall|m: int| 0 <= m < ranges@.len() ==> (#[trigger] ranges@[m]).0 <= ranges@[m].1 <= v@.len(),
            session_value(pairs) == session_value(pairs.skip(i as int)),
        decreases ranges@.len() - i,
    {
        let (lo, hi) = ranges[i];
        assert(pairs[i as int] == v@.subrange(lo as int, hi as int));
        let (a, b) = trim_range(&v, lo, hi);
        let ghost rest = pairs.skip(i as int);
        assert(rest[0] == pairs[i as int]);
        assert(rest.drop_first() =~= pairs.skip(i + 1));
        if starts_with_at(&v, a, b, "42_session=") {
            proof {
                reveal_strlit("42_session=");
                let p = v@.subrange(a as int, b as int);
                assert(p.take(11) =~= v@.subrange(a as int, a + 11));
                assert(p.skip(11) =~= v@.subrange(a + 11, b as int));
                assert(p == trim(rest[0]));
                assert(session_value(rest) == Some(p.skip(11)));
            }
            return Some(string_of_range(&v, a + 11, b));
        }
        proof {
            reveal_strlit("42_session=");
            let p = v@.subrange(a as int, b as int);
            if p.len() >= 11 {
                assert(p.take(11) =~= v@.subrange(a as int, a + 11));
            }
        }
        i += 1;
    }
    None
}

/// `chrono::TimeDelta::days(days).num_seconds()`: the number of seconds in
/// `days` days. The contract claims the plain product, for the day counts
/// that `TimeDelta` can hold without panicking (far more than admitted).
#[verifier::external_body]
fn days_in_seconds(days: i64) -> (r: i64)
    requires
        0 <= days <= 1_000_000,
    ensures
        r == days * 86400,
{
    chrono::TimeDelta::days(days).num_seconds()
}

/// How long a session lasts: thirty days, in seconds.
pub fn session_ttl_seconds() -> (r: i64)
    ensures
        r == 30 * 86400,
{
    days_in_seconds(30)
}

/// The `Set-Cookie` value that hands the session token `raw` to the
/// browser.
pub open spec fn spec_session_cookie(raw: Seq<char>) -> Seq<char> {
    "42_session="@ + raw + "; HttpOnly; SameSite=Lax; Path=/; Max-Age="@ + decimal(2592000)
}

pub fn session_cookie(raw: &str) -> (r: String)
    ensures
        r@ == spec_session_cookie(raw@),
{
    let mut out = String::from_str("42_session=");
    out.append(raw);
    out.append("; HttpOnly; SameSite=Lax; Path=/; Max-Age=");
    let ttl = session_ttl_seconds();
    push_decimal(&mut out, ttl as usize);
    out
}


/// What the browser sends back of the cookie that `session_cookie` set is
/// read as the same token: for a token without `;` and without white space
/// at its ends, the `Cookie` header `42_session=<token>` yields the token.
pub proof fn lemma_session_cookie_read_back(raw: Seq<char>)
    requires
        forall|i: int| 0 <= i < raw.len() ==> raw[i] != ';',
        raw.len() > 0 ==> !is_white_space(raw.last()),
    ensures
        spec_cookie_from(Some("42_session="@ + raw)) == Some(raw),
{
    reveal_strlit("42_session=");
    let s = "42_session="@ + raw;
    assert forall|i: int| 0 <= i < s.len() implies s[i] != ';' by {
        if i >= 11 {
            assert(s[i] == raw[i - 11]);
        }
    }
    lemma_split_on_without_sep(s, ';');
    assert(split_on(s, ';').drop_first() =~= Seq::<Seq<char>>::empty());
    assert(!is_white_space(s[0]));
    assert(crate::text::trim_start(s) == s);
    assert(s.last() == if raw.len() > 0 {
        raw.last()
    } else {
        '='
    });
    assert(crate::text::trim_end(s) == s);
    assert(s.take(11) =~= "42_session="@);
    assert(s.skip(11) =~= raw);
}

} // verus!

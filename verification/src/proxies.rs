//! Proxy-list handling: the stored JSON list, and the freshly fetched
//! newline-separated text that becomes a list of socks endpoints.

use crate::text::{chars_to_string, str_chars};
use vstd::prelude::*;

verus! {

/// Why a proxy list could not be had.  The front end special-cases a list
/// that does not exist yet.
#[derive(Clone, Copy, Debug, PartialEq, Eq, Structural)]
pub enum ProxyListError {
    /// The list file does not exist yet.
    NotFound,
    /// The text is not a JSON array of strings.
    Malformed,
    /// Another I/O failure.
    Io,
}

/// The JSON array of strings a text stands for, when it is one.
pub uninterp spec fn json_string_list(body: Seq<char>) -> Option<Seq<Seq<char>>>;

/// Relies on `serde_json::from_str::<Vec<String>>`: the JSON array of
/// strings the body holds, when it holds one.
#[verifier::external_body]
fn read_json_string_list(body: &str) -> (r: Option<Vec<String>>)
    ensures
        r.deep_view() == json_string_list(body@),
{
    serde_json::from_str::<Vec<String>>(body).ok()
}

/// Parses the stored proxy list: a JSON array of proxy endpoint strings.
pub fn parse_proxy_list(text: &str) -> (r: Result<Vec<String>, ProxyListError>)
    ensures
        match r {
            Ok(list) => json_string_list(text@) == Some(list.deep_view()),
            Err(e) => e is Malformed && json_string_list(text@) is None,
        },
{
    match read_json_string_list(text) {
        Some(list) => Ok(list),
        None => Err(ProxyListError::Malformed),
    }
}

// ---------------------------------------------------------------------------
// Turning fetched text into endpoint URIs.
// ---------------------------------------------------------------------------

pub open spec fn is_space(c: char) -> bool {
    c == ' ' || c == '\t' || c == '\r' || c == '\n'
}

pub open spec fn trim_start(s: Seq<char>) -> Seq<char>
    decreases s.len(),
{
    if s.len() > 0 && is_space(s.first()) {
        trim_start(s.drop_first())
    } else {
        s
    }
}

pub open spec fn trim_end(s: Seq<char>) -> Seq<char>
    decreases s.len(),
{
    if s.len() > 0 && is_space(s.last()) {
        trim_end(s.drop_last())
    } else {
        s
    }
}

/// The text without leading and trailing whitespace.
pub open spec fn spec_trim(s: Seq<char>) -> Seq<char> {
    trim_end(trim_start(s))
}

/// Splitting on the two-character separator `"\r\n"`.
pub open spec fn split_crlf(s: Seq<char>) -> Seq<Seq<char>>
    decreases s.len(),
{
    if s.len() == 0 {
        seq![Seq::<char>::empty()]
    } else if s.len() >= 2 && s[s.len() - 2] == '\r' && s[s.len() - 1] == '\n' {
        split_crlf(s.take(s.len() - 2)).push(Seq::empty())
    } else {
        let r = split_crlf(s.drop_last());
        r.update(r.len() - 1, r.last().push(s.last()))
    }
}

/// The endpoint URIs the fetched text stands for: its trimmed
/// carriage-return-newline-separated parts, each behind the socks scheme.
pub open spec fn spec_make_uris(text: Seq<char>) -> Seq<Seq<char>> {
    let parts = split_crlf(spec_trim(text));
    Seq::new(parts.len(), |i: int| "socks5://"@ + parts[i])
}

fn is_space_exec(c: char) -> (r: bool)
    ensures
        r == is_space(c),
{
    c == ' ' || c == '\t' || c == '\r' || c == '\n'
}

/// The trimmed characters of `v`.
fn trim_exec(v: &Vec<char>) -> (r: Vec<char>)
    ensures
        r@ == spec_trim(v@),
{
    let n = v.len();
    let mut i: usize = 0;
    proof {
        assert(v@.skip(0) =~= v@);
    }
    while i < n && is_space_exec(v[i])
        invariant
            0 <= i <= n,
            n == v@.len(),
            trim_start(v@) == trim_start(v@.skip(i as int)),
        decreases n - i,
    {
        proof {
            assert(v@.skip(i as int).first() == v@[i as int]);
            assert(v@.skip(i as int).drop_first() =~= v@.skip(i as int + 1));
        }
        i = i + 1;
    }
    proof {
        if i < n {
            assert(v@.skip(i as int).first() == v@[i as int]);
        }
        assert(trim_start(v@) == v@.skip(i as int));
    }
    let mut j: usize = n;
    while j > i && is_space_exec(v[j - 1])
        invariant
            i <= j <= n,
            n == v@.len(),
            trim_start(v@) == v@.skip(i as int),
            trim_end(v@.skip(i as int)) == trim_end(v@.subrange(i as int, j as int)),
        decreases j,
    {
        proof {
            let cur = v@.subrange(i as int, j as int);
            assert(cur.last() == v@[j - 1]);
            assert(cur.drop_last() =~= v@.subrange(i as int, j as int - 1));
        }
        j = j - 1;
    }
    proof {
        let cur = v@.subrange(i as int, j as int);
        if j > i {
            assert(cur.last() == v@[j - 1]);
        }
        assert(trim_end(cur) == cur);
    }
    let mut out: Vec<char> = Vec::new();
    let mut k: usize = i;
    while k < j
        invariant
            i <= k <= j <= n,
            n == v@.len(),
            out@ == v@.subrange(i as int, k as int),
        decreases j - k,
    {
        out.push(v[k]);
        proof {
            assert(v@.subrange(i as int, k as int).push(v@[k as int]) =~= v@.subrange(
                i as int,
                k as int + 1,
            ));
        }
        k = k + 1;
    }
    out
}

/// Splits `v` on `"\r\n"`.
fn split_crlf_exec(v: &Vec<char>) -> (r: Vec<Vec<char>>)
    ensures
        r.deep_view() == split_crlf(v@),
{
    let mut out: Vec<Vec<char>> = Vec::new();
    let mut cur: Vec<char> = Vec::new();
    let n = v.len();
    let mut i: usize = 0;
    proof {
        assert(out.deep_view().push(cur@) =~~= split_crlf(v@.subrange(0, 0)));
    }
    while i < n
        invariant
            0 <= i <= n,
            n == v@.len(),
            out.deep_view().push(cur@) == split_crlf(v@.subrange(0, i as int)),
            i > 0 && v@[i - 1] == '\r' ==> !(i < n && v@[i as int] == '\n'),
        decreases n - i,
    {
        let ghost old_out = out.deep_view();
        let ghost old_cur = cur@;
        let c = v[i];
        if c == '\r' && i + 1 < n && v[i + 1] == '\n' {
            out.push(cur);
            cur = Vec::new();
            proof {
                let pre = v@.subrange(0, i as int + 2);
                assert(pre.len() >= 2);
                assert(pre[pre.len() - 2] == '\r');
                assert(pre[pre.len() - 1] == '\n');
                assert(pre.take(pre.len() - 2) =~= v@.subrange(0, i as int));
                assert(out.deep_view() =~~= old_out.push(old_cur));
                assert(out.deep_view().push(cur@) =~~= split_crlf(pre));
            }
            i = i + 2;
        } else {
            cur.push(c);
            proof {
                let pre = v@.subrange(0, i as int + 1);
                assert(pre.drop_last() =~= v@.subrange(0, i as int));
                assert(pre.last() == v@[i as int]);
                assert(!(pre.len() >= 2 && pre[pre.len() - 2] == '\r' && pre[pre.len() - 1]
                    == '\n')) by {
                    if pre.len() >= 2 && pre[pre.len() - 1] == '\n' {
                        assert(pre[pre.len() - 2] == v@[i - 1]);
                    }
                }
                let r = split_crlf(v@.subrange(0, i as int));
                assert(r == old_out.push(old_cur));
                assert(r.last() == old_cur);
                assert(out.deep_view().push(cur@) =~~= r.update(r.len() - 1, r.last().push(
                    v@[i as int],
                )));
            }
            i = i + 1;
        }
    }
    proof {
        assert(v@.subrange(0, n as int) =~= v@);
    }
    out.push(cur);
    proof {
        assert(out.deep_view() =~~= split_crlf(v@));
    }
    out
}

/// Builds the endpoint URIs from freshly fetched text: trim it, split it on
/// `"\r\n"`, and put each part behind the socks scheme.
pub fn make_proxy_uris(text: &str) -> (r: Vec<String>)
    ensures
        r.deep_view() == spec_make_uris(text@),
{
    let chars = str_chars(text);
    let trimmed = trim_exec(&chars);
    let parts = split_crlf_exec(&trimmed);
    let ghost ps = parts.deep_view();
    let mut out: Vec<String> = Vec::new();
    let n = parts.len();
    let mut k: usize = 0;
    while k < n
        invariant
            0 <= k <= n,
            n == parts@.len(),
            parts.deep_view() == ps,
            ps == split_crlf(spec_trim(text@)),
            out.deep_view() == Seq::new(k as nat, |i: int| "socks5://"@ + ps[i]),
        decreases n - k,
    {
        let part = chars_to_string(&parts[k]);
        let uri = "socks5://".to_owned().concat(part.as_str());
        proof {
            assert(ps[k as int] == parts@[k as int]@);
            assert(uri@ == "socks5://"@ + ps[k as int]);
        }
        let ghost pre_out = out.deep_view();
        out.push(uri);
        proof {
            assert(out.deep_view() =~~= pre_out.push(uri@));
            assert(pre_out.push(uri@) =~~= Seq::new(k as nat + 1, |i: int| "socks5://"@ + ps[i]));
        }
        k = k + 1;
    }
    proof {
        assert(out.deep_view() =~~= spec_make_uris(text@));
    }
    out
}

} // verus!

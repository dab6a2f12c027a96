//! What the relay decides about a proxy request: who may use it, which headers travel, and
//! where the request goes.

use vstd::prelude::*;

use crate::config::Config;
use crate::error::RelayError;
use crate::providers::position_of;
use crate::security::constant_time_eq;
use crate::text::{
    chars_eq_str, from_chars, is_ascii_alnum, lower, lower_chars, split_chars,
    split_on, strip_end, strip_end_chars, strip_start, strip_start_chars, to_chars, trim,
    trim_chars,
};
use crate::url::{parse_url, url_parse};

verus! {

/// A header as it travels: its name (lower-case, as `HeaderMap` keeps names) and its value's
/// bytes.
pub type Header = (String, Vec<u8>);

pub open spec fn header_view(h: Header) -> (Seq<char>, Seq<u8>) {
    (h.0@, h.1@)
}

pub open spec fn headers_view(hs: Seq<Header>) -> Seq<(Seq<char>, Seq<u8>)> {
    hs.map_values(|h: Header| header_view(h))
}

/// A byte that `HeaderValue::to_str` accepts: visible ASCII or tab.
pub open spec fn visible_byte(b: u8) -> bool {
    (32 <= b && b < 127) || b == 9
}

/// Whether a header value reads as text (`HeaderValue::to_str` succeeds).
pub open spec fn value_is_text(v: Seq<u8>) -> bool {
    forall|i: int| 0 <= i < v.len() ==> visible_byte(#[trigger] v[i])
}

/// A header value's bytes as characters.
pub open spec fn value_text(v: Seq<u8>) -> Seq<char> {
    v.map_values(|b: u8| b as char)
}

/// A character that a header name may hold (RFC 9110 `tchar`).
pub open spec fn token_char(c: char) -> bool {
    ||| is_ascii_alnum(c)
    ||| c == '!' || c == '#' || c == '$' || c == '%' || c == '&' || c == '\'' || c == '*'
    ||| c == '+' || c == '-' || c == '.' || c == '^' || c == '_' || c == '`' || c == '|'
    ||| c == '~'
}

/// `HeaderName::from_bytes` on ASCII text: the lower-cased name when the text is one to
/// 65535 token characters.
pub open spec fn header_name_of(t: Seq<char>) -> Option<Seq<char>> {
    if 1 <= t.len() <= 65535 && (forall|i: int| 0 <= i < t.len() ==> token_char(#[trigger] t[i])) {
        Some(lower(t))
    } else {
        None
    }
}

/// The header name that one comma-separated piece of a `Connection` value lists.
pub open spec fn piece_token(p: Seq<char>) -> Option<Seq<char>> {
    let t = trim(p);
    if t.len() == 0 {
        None
    } else {
        header_name_of(t)
    }
}

/// The header names that comma-separated pieces list, in order.
pub open spec fn tokens_of_pieces(ps: Seq<Seq<char>>) -> Seq<Seq<char>>
    decreases ps.len(),
{
    if ps.len() == 0 {
        Seq::<Seq<char>>::empty()
    } else {
        let r = tokens_of_pieces(ps.drop_last());
        match piece_token(ps.last()) {
            Some(t) => r.push(t),
            None => r,
        }
    }
}

/// The header names that one `Connection` value lists.
pub open spec fn tokens_of_value(v: Seq<u8>) -> Seq<Seq<char>> {
    if value_is_text(v) {
        tokens_of_pieces(split_on(value_text(v), ','))
    } else {
        Seq::<Seq<char>>::empty()
    }
}

/// The header names that the `Connection` headers list.
pub open spec fn connection_tokens(hs: Seq<(Seq<char>, Seq<u8>)>) -> Seq<Seq<char>>
    decreases hs.len(),
{
    if hs.len() == 0 {
        Seq::<Seq<char>>::empty()
    } else {
        let r = connection_tokens(hs.drop_last());
        if hs.last().0 == "connection"@ {
            r + tokens_of_value(hs.last().1)
        } else {
            r
        }
    }
}

/// Hop-by-hop headers, which concern one connection only.
pub open spec fn hop_by_hop(name: Seq<char>) -> bool {
    ||| name == "connection"@
    ||| name == "host"@
    ||| name == "proxy-authenticate"@
    ||| name == "proxy-authorization"@
    ||| name == "te"@
    ||| name == "trailer"@
    ||| name == "transfer-encoding"@
    ||| name == "upgrade"@
    ||| name == "content-length"@
}

/// Headers that carry a relay key.
pub open spec fn key_header(name: Seq<char>) -> bool {
    lower(name) == "x-relay-api-key"@ || lower(name) == "x-api-key"@
}

/// Whether a header stays behind, given the names that the `Connection` headers list.
pub open spec fn dropped(name: Seq<char>, tokens: Seq<Seq<char>>) -> bool {
    ||| hop_by_hop(name)
    ||| lower(name) == "keep-alive"@
    ||| key_header(name)
    ||| tokens.contains(name)
}

/// The headers that are not dropped, in order.
pub open spec fn kept(hs: Seq<(Seq<char>, Seq<u8>)>, tokens: Seq<Seq<char>>) -> Seq<
    (Seq<char>, Seq<u8>),
>
    decreases hs.len(),
{
    if hs.len() == 0 {
        hs
    } else {
        let r = kept(hs.drop_last(), tokens);
        if dropped(hs.last().0, tokens) {
            r
        } else {
            r.push(hs.last())
        }
    }
}

/// A value that `HeaderValue::from_str` accepts: no control character but tab (bytes of
/// UTF-8 above ASCII are all accepted).
pub open spec fn text_is_value(s: Seq<char>) -> bool {
    forall|i: int| 0 <= i < s.len() ==> (' ' <= #[trigger] s[i] && s[i] != '\u{7f}') || s[i] == '\t'
}

pub open spec fn has_header(hs: Seq<(Seq<char>, Seq<u8>)>, name: Seq<char>) -> bool {
    exists|i: int| 0 <= i < hs.len() && #[trigger] hs[i].0 == name
}

/// The headers that travel on: all but the dropped ones, in order, and then a request id
/// when one is given, none travels yet, and it makes a valid value.
pub open spec fn forwarded(hs: Seq<(Seq<char>, Seq<u8>)>, request_id: Option<Seq<char>>) -> Seq<
    (Seq<char>, Seq<u8>),
> {
    let k = kept(hs, connection_tokens(hs));
    match request_id {
        Some(id) => if !has_header(k, "x-request-id"@) && text_is_value(id) {
            k.push(("x-request-id"@, vstd::utf8::encode_utf8(id)))
        } else {
            k
        },
        None => k,
    }
}

} // verus!

verus! {

/// The text of a header value, when it reads as text.
fn value_to_text(v: &[u8]) -> (r: Option<Vec<char>>)
    ensures
        match r {
            Some(t) => value_is_text(v@) && t@ == value_text(v@),
            None => !value_is_text(v@),
        },
{
    let mut t: Vec<char> = Vec::new();
    let n = v.len();
    for i in 0..n
        invariant
            n == v@.len(),
            forall|j: int| 0 <= j < i ==> visible_byte(#[trigger] v@[j]),
            t@ == value_text(v@.take(i as int)),
    {
        let b = v[i];
        if !((32 <= b && b < 127) || b == 9) {
            return None;
        }
        t.push(b as char);
        assert(value_text(v@.take(i + 1)) =~= value_text(v@.take(i as int)).push(v@[i as int] as char));
    }
    assert(v@.take(n as int) =~= v@);
    Some(t)
}

fn is_token_char(c: char) -> (b: bool)
    ensures
        b == token_char(c),
{
    ('0' <= c && c <= '9') || ('a' <= c && c <= 'z') || ('A' <= c && c <= 'Z') || c == '!' || c
        == '#' || c == '$' || c == '%' || c == '&' || c == '\'' || c == '*' || c == '+' || c
        == '-' || c == '.' || c == '^' || c == '_' || c == '`' || c == '|' || c == '~'
}

/// The header name that a token spells, lower-cased, if it is one.
fn name_from_token(t: &[char]) -> (r: Option<String>)
    ensures
        crate::url::opt_view(r) == header_name_of(t@),
{
    let n = t.len();
    if n == 0 || n > 65535 {
        return None;
    }
    for i in 0..n
        invariant
            n == t@.len(),
            forall|j: int| 0 <= j < i ==> token_char(#[trigger] t@[j]),
    {
        if !is_token_char(t[i]) {
            return None;
        }
    }
    let l = lower_chars(t);
    Some(from_chars(l.as_slice()))
}

/// The header names that one `Connection` value lists.
fn tokens_in_value(v: &[u8]) -> (r: Vec<String>)
    ensures
        crate::text::strings_view(r@) == tokens_of_value(v@),
{
    let mut tokens: Vec<String> = Vec::new();
    let text = match value_to_text(v) {
        Some(t) => t,
        None => {
            assert(crate::text::strings_view(tokens@) =~= Seq::<Seq<char>>::empty());
            return tokens;
        },
    };
    let pieces = split_chars(text.as_slice(), ',');
    let ghost pv = crate::text::pieces_view(pieces@);
    let n = pieces.len();
    for i in 0..n
        invariant
            n == pieces@.len(),
            pv == crate::text::pieces_view(pieces@),
            crate::text::strings_view(tokens@) == tokens_of_pieces(pv.take(i as int)),
    {
        assert(pv.take(i + 1).drop_last() =~= pv.take(i as int));
        assert(pv.take(i + 1).last() == pieces@[i as int]@);
        let token = trim_chars(pieces[i].as_slice());
        if token.len() != 0 {
            match name_from_token(token.as_slice()) {
                Some(name) => {
                    let ghost before = tokens@;
                    tokens.push(name);
                    assert(crate::text::strings_view(tokens@) =~= crate::text::strings_view(
                        before,
                    ).push(tokens@.last()@));
                },
                None => {},
            }
        }
    }
    assert(pv.take(n as int) =~= pv);
    tokens
}

/// The header names that the `Connection` headers list.
pub fn connection_header_tokens(headers: &[Header]) -> (r: Vec<String>)
    ensures
        crate::text::strings_view(r@) == connection_tokens(headers_view(headers@)),
{
    let ghost hv = headers_view(headers@);
    let mut tokens: Vec<String> = Vec::new();
    let n = headers.len();
    for i in 0..n
        invariant
            n == headers@.len(),
            hv == headers_view(headers@),
            crate::text::strings_view(tokens@) == connection_tokens(hv.take(i as int)),
    {
        assert(hv.take(i + 1).drop_last() =~= hv.take(i as int));
        assert(hv.take(i + 1).last() == header_view(headers@[i as int]));
        if crate::text::str_is(headers[i].0.as_str(), "connection") {
            let more = tokens_in_value(headers[i].1.as_slice());
            let ghost before = tokens@;
            let m = more.len();
            for j in 0..m
                invariant
                    m == more@.len(),
                    crate::text::strings_view(tokens@) == crate::text::strings_view(before)
                        + crate::text::strings_view(more@.take(j as int)),
            {
                let ghost mid = tokens@;
                tokens.push(more[j].clone());
                assert(crate::text::strings_view(more@.take(j + 1)) =~= crate::text::strings_view(
                    more@.take(j as int),
                ).push(more@[j as int]@));
                assert(crate::text::strings_view(tokens@) =~= crate::text::strings_view(mid).push(
                    more@[j as int]@,
                ));
            }
            assert(more@.take(m as int) =~= more@);
        }
    }
    assert(hv.take(n as int) =~= hv);
    tokens
}

/// Whether a name, ignoring ASCII case, is `lit` (which is lower-case).
fn lower_is(name: &[char], lit: &str) -> (b: bool)
    ensures
        b == (lower(name@) == lit@),
{
    let l = lower_chars(name);
    chars_eq_str(l.as_slice(), lit)
}

/// Whether a header stays behind: hop-by-hop, `keep-alive`, a relay key, or listed by the
/// `Connection` headers.
pub fn should_drop_header(name: &str, connection_tokens: &[String]) -> (b: bool)
    ensures
        b == dropped(name@, crate::text::strings_view(connection_tokens@)),
{
    let c = to_chars(name);
    let n = c.as_slice();
    if chars_eq_str(n, "connection") || chars_eq_str(n, "host") || chars_eq_str(
        n,
        "proxy-authenticate",
    ) || chars_eq_str(n, "proxy-authorization") || chars_eq_str(n, "te") || chars_eq_str(
        n,
        "trailer",
    ) || chars_eq_str(n, "transfer-encoding") || chars_eq_str(n, "upgrade") || chars_eq_str(
        n,
        "content-length",
    ) || lower_is(n, "keep-alive") || lower_is(n, "x-relay-api-key") || lower_is(n, "x-api-key") {
        return true;
    }
    let ghost tv = crate::text::strings_view(connection_tokens@);
    let m = connection_tokens.len();
    for i in 0..m
        invariant
            m == connection_tokens@.len(),
            tv == crate::text::strings_view(connection_tokens@),
            c@ == name@,
            forall|j: int| 0 <= j < i ==> tv[j] != name@,
    {
        if crate::text::str_is(connection_tokens[i].as_str(), name) {
            assert(tv[i as int] == name@);
            return true;
        }
    }
    false
}

/// Whether a header list holds a header named `name`.
fn contains_header(hs: &[Header], name: &str) -> (b: bool)
    ensures
        b == has_header(headers_view(hs@), name@),
{
    let ghost hv = headers_view(hs@);
    let n = hs.len();
    for i in 0..n
        invariant
            n == hs@.len(),
            hv == headers_view(hs@),
            forall|j: int| 0 <= j < i ==> hv[j].0 != name@,
    {
        if crate::text::str_is(hs[i].0.as_str(), name) {
            assert(hv[i as int].0 == name@);
            return true;
        }
    }
    false
}

/// Whether `s` makes a valid header value.
fn is_value_text(s: &str) -> (b: bool)
    ensures
        b == text_is_value(s@),
{
    let c = to_chars(s);
    let n = c.len();
    for i in 0..n
        invariant
            n == c@.len(),
            c@ == s@,
            forall|j: int| 0 <= j < i ==> (' ' <= #[trigger] c@[j] && c@[j] != '\u{7f}') || c@[j]
                == '\t',
    {
        let x = c[i];
        if !((' ' <= x && x != '\u{7f}') || x == '\t') {
            return false;
        }
    }
    true
}

pub open spec fn opt_str_view(s: Option<&str>) -> Option<Seq<char>> {
    match s {
        Some(s) => Some(s@),
        None => None,
    }
}

/// The headers that travel on: all but the dropped ones, in order, then the request id when
/// one is given and none travels yet.
pub fn forward_headers(headers: &[Header], request_id: Option<&str>) -> (r: Vec<Header>)
    ensures
        headers_view(r@) == forwarded(headers_view(headers@), opt_str_view(request_id)),
{
    let ghost hv = headers_view(headers@);
    let tokens = connection_header_tokens(headers);
    let ghost tv = crate::text::strings_view(tokens@);
    let mut out: Vec<Header> = Vec::new();
    let n = headers.len();
    for i in 0..n
        invariant
            n == headers@.len(),
            hv == headers_view(headers@),
            tv == connection_tokens(hv),
            tv == crate::text::strings_view(tokens@),
            headers_view(out@) == kept(hv.take(i as int), tv),
    {
        assert(hv.take(i + 1).drop_last() =~= hv.take(i as int));
        assert(hv.take(i + 1).last() == header_view(headers@[i as int]));
        if !should_drop_header(headers[i].0.as_str(), tokens.as_slice()) {
            let ghost before = out@;
            let h: Header = (headers[i].0.clone(), vstd::slice::slice_to_vec(headers[i].1.as_slice()));
            out.push(h);
            assert(headers_view(out@) =~= headers_view(before).push(hv[i as int]));
        }
    }
    assert(hv.take(n as int) =~= hv);
    match request_id {
        Some(id) => {
            if !contains_header(out.as_slice(), "x-request-id") && is_value_text(id) {
                let ghost before = out@;
                let value = vstd::slice::slice_to_vec(id.as_bytes());
                out.push((String::from_str("x-request-id"), value));
                assert(headers_view(out@) =~= headers_view(before).push(
                    ("x-request-id"@, vstd::utf8::encode_utf8(id@)),
                ));
            }
        },
        None => {},
    }
    out
}

} // verus!

verus! {

/// Lets a request through only when the key in its URL is the relay's key.
pub fn authorize_request(provided: &str, expected_api_key: &str) -> (r: Result<(), RelayError>)
    ensures
        match r {
            Ok(()) => provided@ == expected_api_key@,
            Err(e) => e is Unauthorized && provided@ != expected_api_key@,
        },
{
    let p = provided.as_bytes();
    let e = expected_api_key.as_bytes();
    proof {
        vstd::utf8::encode_utf8_decode_utf8(provided@);
        vstd::utf8::encode_utf8_decode_utf8(expected_api_key@);
    }
    if constant_time_eq(p, e) {
        Ok(())
    } else {
        Err(RelayError::Unauthorized)
    }
}

} // verus!

verus! {

/// Admits a request when an admission slot was free; otherwise asks the client to retry.
pub fn check_admission(slot_acquired: bool, retry_after_seconds: u64) -> (r: Result<(), RelayError>)
    ensures
        match r {
            Ok(()) => slot_acquired,
            Err(e) => !slot_acquired && e == (RelayError::TooManyRequests { retry_after_seconds }),
        },
{
    if slot_acquired {
        Ok(())
    } else {
        Err(RelayError::TooManyRequests { retry_after_seconds })
    }
}

/// The position of the first header named `name`, from position `i` on.
pub open spec fn find_from(hs: Seq<(Seq<char>, Seq<u8>)>, name: Seq<char>, i: int) -> Option<int>
    decreases hs.len() - i,
{
    if i < 0 || i >= hs.len() {
        None
    } else if hs[i].0 == name {
        Some(i)
    } else {
        find_from(hs, name, i + 1)
    }
}

/// The request id that the client sent: the first `x-request-id` value, trimmed, when it
/// reads as text and is not blank.
pub open spec fn client_request_id_of(hs: Seq<(Seq<char>, Seq<u8>)>) -> Option<Seq<char>> {
    match find_from(hs, "x-request-id"@, 0) {
        Some(i) => {
            let v = hs[i].1;
            if value_is_text(v) && trim(value_text(v)).len() > 0 {
                Some(trim(value_text(v)))
            } else {
                None
            }
        },
        None => None,
    }
}

/// The position of the first header named `name`.
fn find_header(hs: &[Header], name: &str) -> (r: Option<usize>)
    ensures
        match r {
            Some(i) => {
                &&& find_from(headers_view(hs@), name@, 0) == Some(i as int)
                &&& i < hs@.len()
                &&& hs@[i as int].0@ == name@
            },
            None => find_from(headers_view(hs@), name@, 0) is None,
        },
{
    let ghost hv = headers_view(hs@);
    let n = hs.len();
    for i in 0..n
        invariant
            n == hs@.len(),
            hv == headers_view(hs@),
            find_from(hv, name@, 0) == find_from(hv, name@, i as int),
    {
        assert(hv[i as int] == header_view(hs@[i as int]));
        if crate::text::str_is(hs[i].0.as_str(), name) {
            return Some(i);
        }
    }
    None
}

/// The request id that the client sent, if any.
pub fn client_request_id(headers: &[Header]) -> (r: Option<String>)
    ensures
        crate::url::opt_view(r) == client_request_id_of(headers_view(headers@)),
{
    match find_header(headers, "x-request-id") {
        Some(i) => {
            match value_to_text(headers[i].1.as_slice()) {
                Some(text) => {
                    let t = trim_chars(text.as_slice());
                    if t.len() > 0 {
                        Some(from_chars(t.as_slice()))
                    } else {
                        None
                    }
                },
                None => None,
            }
        },
        None => None,
    }
}

/// A request id made from a time stamp and a counter: `req_`, both in hexadecimal, joined
/// by `_`.
pub fn generated_request_id(now: u128, counter: u64) -> (id: String)
    ensures
        id@ == "req_"@ + crate::text::hex_text(now as nat) + "_"@ + crate::text::hex_text(
            counter as nat,
        ),
{
    let mut id = String::from_str("req_");
    let a = crate::text::hex_string(now);
    let b = crate::text::hex_string(counter as u128);
    id.append(a.as_str());
    id.append("_");
    id.append(b.as_str());
    id
}

/// The upstream URL: the base URL without trailing slashes, a slash, the path without
/// leading slashes, and the query when there is one.
pub open spec fn target_text(base_url: Seq<char>, path: Seq<char>, query: Option<Seq<char>>) -> Seq<
    char,
> {
    let t = strip_end(base_url, '/') + "/"@ + strip_start(path, '/');
    match query {
        Some(q) => t + "?"@ + q,
        None => t,
    }
}

/// Builds the upstream URL for a path below a provider's base URL.
pub fn build_target_url(provider: &crate::providers::ProviderConfig, path: &str, query: Option<&str>) -> (r:
    Result<String, RelayError>)
    ensures
        match r {
            Ok(t) => {
                &&& strip_start(path@, '/').len() > 0
                &&& t@ == target_text(provider.base_url@, path@, opt_str_view(query))
                &&& url_parse(t@) is Ok
            },
            Err(RelayError::InvalidPath) => strip_start(path@, '/').len() == 0,
            Err(RelayError::InvalidTargetUrl(m)) => {
                &&& strip_start(path@, '/').len() > 0
                &&& url_parse(target_text(provider.base_url@, path@, opt_str_view(query))) == Err::<
                    crate::url::UrlView,
                    Seq<char>,
                >(m@)
            },
            Err(_) => false,
        },
{
    let base_chars = to_chars(provider.base_url.as_str());
    let base = strip_end_chars(base_chars.as_slice(), '/');
    let path_chars = to_chars(path);
    let rest = strip_start_chars(path_chars.as_slice(), '/');
    if rest.len() == 0 {
        return Err(RelayError::InvalidPath);
    }
    let base_s = from_chars(base.as_slice());
    let rest_s = from_chars(rest.as_slice());
    let mut target = crate::text::concat3(base_s.as_str(), "/", rest_s.as_str());
    match query {
        Some(q) => {
            target.append("?");
            target.append(q);
        },
        None => {},
    }
    match parse_url(target.as_str()) {
        Ok(_) => Ok(target),
        Err(e) => Err(RelayError::InvalidTargetUrl(e)),
    }
}

/// Where a request goes upstream and with which headers.
pub struct UpstreamRequest {
    pub url: String,
    pub headers: Vec<Header>,
}

/// Decides, before any upstream traffic, where a proxied request goes: the path must not be
/// blank, the provider must be configured, and the URL must parse; the headers that travel
/// are the forwarded ones with the request id.
pub fn plan_forward(
    config: &Config,
    provider: &str,
    path: &str,
    query: Option<&str>,
    headers: &[Header],
    request_id: &str,
) -> (r: Result<UpstreamRequest, RelayError>)
    ensures
        match r {
            Ok(u) => {
                &&& trim(path@).len() > 0
                &&& position_of(config.providers.spec_entries(), provider@) matches Some(i)
                &&& strip_start(path@, '/').len() > 0
                &&& u.url@ == target_text(
                    config.providers.spec_entries()[i].1.base_url,
                    path@,
                    opt_str_view(query),
                )
                &&& url_parse(u.url@) is Ok
                &&& headers_view(u.headers@) == forwarded(headers_view(headers@), Some(request_id@))
            },
            Err(RelayError::InvalidPath) => trim(path@).len() == 0 || (position_of(
                config.providers.spec_entries(),
                provider@,
            ) is Some && strip_start(path@, '/').len() == 0),
            Err(RelayError::UnknownProvider(p)) => {
                &&& trim(path@).len() > 0
                &&& position_of(config.providers.spec_entries(), provider@) is None
                &&& p@ == provider@
            },
            Err(RelayError::InvalidTargetUrl(m)) => {
                &&& trim(path@).len() > 0
                &&& position_of(config.providers.spec_entries(), provider@) matches Some(i)
                &&& strip_start(path@, '/').len() > 0
                &&& url_parse(
                    target_text(
                        config.providers.spec_entries()[i].1.base_url,
                        path@,
                        opt_str_view(query),
                    ),
                ) == Err::<crate::url::UrlView, Seq<char>>(m@)
            },
            Err(_) => false,
        },
{
    let path_chars = to_chars(path);
    let trimmed = trim_chars(path_chars.as_slice());
    if trimmed.len() == 0 {
        return Err(RelayError::InvalidPath);
    }
    let p = match config.providers.get(provider) {
        Some(p) => p,
        None => {
            return Err(RelayError::UnknownProvider(String::from_str(provider)));
        },
    };
    let url = match build_target_url(p, path, query) {
        Ok(u) => u,
        Err(e) => {
            return Err(e);
        },
    };
    let forwarded_headers = forward_headers(headers, Some(request_id));
    Ok(UpstreamRequest { url, headers: forwarded_headers })
}

/// The headers without any named `name`.
pub open spec fn without_header(hs: Seq<(Seq<char>, Seq<u8>)>, name: Seq<char>) -> Seq<
    (Seq<char>, Seq<u8>),
>
    decreases hs.len(),
{
    if hs.len() == 0 {
        hs
    } else if hs.last().0 == name {
        without_header(hs.drop_last(), name)
    } else {
        without_header(hs.drop_last(), name).push(hs.last())
    }
}

/// `HeaderMap::insert`: the first header named `name` takes the value `v` and the others of
/// that name go; with none, the header comes last.
pub open spec fn insert_header(hs: Seq<(Seq<char>, Seq<u8>)>, name: Seq<char>, v: Seq<u8>) -> Seq<
    (Seq<char>, Seq<u8>),
> {
    match find_from(hs, name, 0) {
        Some(i) => hs.take(i).push((name, v)) + without_header(hs.skip(i + 1), name),
        None => hs.push((name, v)),
    }
}

/// The headers that the client gets back: the upstream's, but for the dropped ones, with the
/// request id set.
pub open spec fn returned(hs: Seq<(Seq<char>, Seq<u8>)>, request_id: Seq<char>) -> Seq<
    (Seq<char>, Seq<u8>),
> {
    let k = forwarded(hs, None);
    if text_is_value(request_id) {
        insert_header(k, "x-request-id"@, vstd::utf8::encode_utf8(request_id))
    } else {
        k
    }
}

/// The headers without any named `name`.
fn drop_named(hs: &[Header], name: &str) -> (r: Vec<Header>)
    ensures
        headers_view(r@) == without_header(headers_view(hs@), name@),
{
    let ghost hv = headers_view(hs@);
    let mut out: Vec<Header> = Vec::new();
    let n = hs.len();
    for i in 0..n
        invariant
            n == hs@.len(),
            hv == headers_view(hs@),
            headers_view(out@) == without_header(hv.take(i as int), name@),
    {
        assert(hv.take(i + 1).drop_last() =~= hv.take(i as int));
        assert(hv.take(i + 1).last() == header_view(hs@[i as int]));
        if !crate::text::str_is(hs[i].0.as_str(), name) {
            let ghost before = out@;
            out.push((hs[i].0.clone(), vstd::slice::slice_to_vec(hs[i].1.as_slice())));
            assert(headers_view(out@) =~= headers_view(before).push(hv[i as int]));
        }
    }
    assert(hv.take(n as int) =~= hv);
    out
}

/// The headers that the client gets back from an upstream response.
pub fn response_headers(upstream: &[Header], request_id: &str) -> (r: Vec<Header>)
    ensures
        headers_view(r@) == returned(headers_view(upstream@), request_id@),
{
    let kept_headers = forward_headers(upstream, None);
    if !is_value_text(request_id) {
        return kept_headers;
    }
    let ghost kv = headers_view(kept_headers@);
    let value = vstd::slice::slice_to_vec(request_id.as_bytes());
    match find_header(kept_headers.as_slice(), "x-request-id") {
        Some(i) => {
            let mut out: Vec<Header> = Vec::new();
            for j in 0..i
                invariant
                    i < kept_headers@.len(),
                    kv == headers_view(kept_headers@),
                    headers_view(out@) == kv.take(j as int),
            {
                let ghost before = out@;
                out.push((kept_headers[j].0.clone(), vstd::slice::slice_to_vec(kept_headers[j].1.as_slice())));
                assert(headers_view(out@) =~= headers_view(before).push(kv[j as int]));
                assert(kv.take(j + 1) =~= kv.take(j as int).push(kv[j as int]));
            }
            out.push((String::from_str("x-request-id"), value));
            let end: usize = kept_headers.len();
            assert(i < end);
            let start: usize = i + 1;
            let rest = drop_named(&kept_headers.as_slice()[start..end], "x-request-id");
            assert(headers_view(kept_headers@.subrange(i + 1, kept_headers@.len() as int)) =~= kv.skip(i + 1));
            let ghost front = out@;
            let m = rest.len();
            for j in 0..m
                invariant
                    m == rest@.len(),
                    headers_view(out@) == headers_view(front) + headers_view(rest@.take(j as int)),
            {
                let ghost before = out@;
                out.push((rest[j].0.clone(), vstd::slice::slice_to_vec(rest[j].1.as_slice())));
                assert(headers_view(rest@.take(j + 1)) =~= headers_view(rest@.take(j as int)).push(header_view(rest@[j as int])));
                assert(headers_view(out@) =~= headers_view(before).push(header_view(rest@[j as int])));
            }
            assert(rest@.take(m as int) =~= rest@);
            assert(headers_view(front) =~= kv.take(i as int).push(("x-request-id"@, vstd::utf8::encode_utf8(request_id@))));
            out
        },
        None => {
            let mut out = kept_headers;
            out.push((String::from_str("x-request-id"), value));
            assert(headers_view(out@) =~= kv.push(("x-request-id"@, vstd::utf8::encode_utf8(request_id@))));
            out
        },
    }
}

/// The request path as logged: the relay key replaced by `[redacted]`.
pub fn redacted_proxy_uri(provider: &str, path: &str, query: Option<&str>) -> (s: String)
    ensures
        s@ == "/proxy/[redacted]/"@ + provider@ + "/"@ + path@ + match opt_str_view(query) {
            Some(q) => "?"@ + q,
            None => Seq::<char>::empty(),
        },
{
    let mut s = crate::text::concat3("/proxy/[redacted]/", provider, "/");
    s.append(path);
    match query {
        Some(q) => {
            s.append("?");
            s.append(q);
        },
        None => {},
    }
    s
}

} // verus!

verus! {

/// A header that may travel: neither hop-by-hop, nor `keep-alive`, nor a relay key.
pub open spec fn travels(name: Seq<char>) -> bool {
    !hop_by_hop(name) && lower(name) != "keep-alive"@ && !key_header(name)
}

proof fn lemma_kept_travel(hs: Seq<(Seq<char>, Seq<u8>)>, tokens: Seq<Seq<char>>)
    ensures
        forall|i: int| 0 <= i < kept(hs, tokens).len() ==> travels(#[trigger] kept(hs, tokens)[i].0),
        forall|i: int|
            0 <= i < kept(hs, tokens).len() ==> hs.contains(#[trigger] kept(hs, tokens)[i]),
    decreases hs.len(),
{
    if hs.len() > 0 {
        lemma_kept_travel(hs.drop_last(), tokens);
        let r = kept(hs.drop_last(), tokens);
        assert forall|i: int| 0 <= i < kept(hs, tokens).len() implies hs.contains(
            #[trigger] kept(hs, tokens)[i],
        ) by {
            if i < r.len() {
                let j = choose|j: int| 0 <= j < hs.drop_last().len() && hs.drop_last()[j] == r[i];
                assert(hs[j] == r[i]);
            } else {
                assert(hs[hs.len() - 1] == hs.last());
            }
        }
    }
}

proof fn lemma_request_id_name_travels()
    ensures
        travels("x-request-id"@),
{
    reveal_strlit("x-request-id");
    reveal_strlit("connection");
    reveal_strlit("host");
    reveal_strlit("proxy-authenticate");
    reveal_strlit("proxy-authorization");
    reveal_strlit("te");
    reveal_strlit("trailer");
    reveal_strlit("transfer-encoding");
    reveal_strlit("upgrade");
    reveal_strlit("content-length");
    reveal_strlit("keep-alive");
    reveal_strlit("x-relay-api-key");
    reveal_strlit("x-api-key");
    assert(lower("x-request-id"@).len() == 12);
}

/// No header that reaches the provider is hop-by-hop, `keep-alive` or a relay key, and every
/// one of them came from the client but for the request id that the relay adds.
pub proof fn lemma_forwarded_headers_travel(
    hs: Seq<(Seq<char>, Seq<u8>)>,
    request_id: Option<Seq<char>>,
)
    ensures
        forall|i: int|
            0 <= i < forwarded(hs, request_id).len() ==> travels(
                #[trigger] forwarded(hs, request_id)[i].0,
            ),
        forall|i: int|
            0 <= i < forwarded(hs, request_id).len() ==> hs.contains(
                #[trigger] forwarded(hs, request_id)[i],
            ) || forwarded(hs, request_id)[i].0 == "x-request-id"@,
{
    lemma_kept_travel(hs, connection_tokens(hs));
    lemma_request_id_name_travels();
}

proof fn lemma_without_header_from(hs: Seq<(Seq<char>, Seq<u8>)>, name: Seq<char>)
    ensures
        forall|i: int|
            0 <= i < without_header(hs, name).len() ==> hs.contains(
                #[trigger] without_header(hs, name)[i],
            ),
        forall|i: int|
            0 <= i < without_header(hs, name).len() ==> #[trigger] without_header(hs, name)[i].0
                != name,
    decreases hs.len(),
{
    if hs.len() > 0 {
        lemma_without_header_from(hs.drop_last(), name);
        let r = without_header(hs.drop_last(), name);
        assert forall|i: int| 0 <= i < without_header(hs, name).len() implies hs.contains(
            #[trigger] without_header(hs, name)[i],
        ) by {
            if i < r.len() {
                let j = choose|j: int| 0 <= j < hs.drop_last().len() && hs.drop_last()[j] == r[i];
                assert(hs[j] == r[i]);
            } else {
                assert(hs[hs.len() - 1] == hs.last());
            }
        }
    }
}

proof fn lemma_find_from(hs: Seq<(Seq<char>, Seq<u8>)>, name: Seq<char>, k: int)
    requires
        0 <= k,
    ensures
        find_from(hs, name, k) matches Some(i) ==> k <= i < hs.len() && hs[i].0 == name,
    decreases hs.len() - k,
{
    if k < hs.len() && hs[k].0 != name {
        lemma_find_from(hs, name, k + 1);
    }
}

/// The response headers that the client gets carry the request id, when it makes a valid
/// header value, exactly once; none of them is hop-by-hop, `keep-alive` or a relay key.
pub proof fn lemma_returned_headers(hs: Seq<(Seq<char>, Seq<u8>)>, request_id: Seq<char>)
    ensures
        forall|i: int|
            0 <= i < returned(hs, request_id).len() ==> travels(
                #[trigger] returned(hs, request_id)[i].0,
            ),
        text_is_value(request_id) ==> exists|i: int|
            0 <= i < returned(hs, request_id).len() && #[trigger] returned(hs, request_id)[i] == (
            "x-request-id"@,
            vstd::utf8::encode_utf8(request_id),
        ),
{
    let k = forwarded(hs, None);
    lemma_forwarded_headers_travel(hs, None);
    lemma_request_id_name_travels();
    if text_is_value(request_id) {
        let name = "x-request-id"@;
        let v = vstd::utf8::encode_utf8(request_id);
        let out = insert_header(k, name, v);
        assert(returned(hs, request_id) == out);
        lemma_find_from(k, name, 0);
        match find_from(k, name, 0) {
            Some(i) => {
                let rest = without_header(k.skip(i + 1), name);
                lemma_without_header_from(k.skip(i + 1), name);
                assert(out == k.take(i).push((name, v)) + rest);
                assert(out[i] == (name, v));
                assert(returned(hs, request_id)[i] == (name, v));
                assert forall|j: int| 0 <= j < out.len() implies travels(#[trigger] out[j].0) by {
                    if j < i {
                        assert(out[j] == k[j]);
                    } else if j > i {
                        assert(out[j] == rest[j - i - 1]);
                        let m = choose|m: int|
                            0 <= m < k.skip(i + 1).len() && #[trigger] k.skip(i + 1)[m] == rest[j - i - 1];
                        assert(k.skip(i + 1)[m] == k[i + 1 + m]);
                    }
                }
            },
            None => {
                assert(out[out.len() - 1] == (name, v));
                assert(returned(hs, request_id)[out.len() - 1] == (name, v));
                assert forall|j: int| 0 <= j < out.len() implies travels(#[trigger] out[j].0) by {
                    if j < k.len() {
                        assert(out[j] == k[j]);
                    }
                }
            },
        }
    }
}

} // verus!

verus! {

proof fn lemma_kept_complete(hs: Seq<(Seq<char>, Seq<u8>)>, tokens: Seq<Seq<char>>, i: int)
    requires
        0 <= i < hs.len(),
        !dropped(hs[i].0, tokens),
    ensures
        kept(hs, tokens).contains(hs[i]),
    decreases hs.len(),
{
    let r = kept(hs.drop_last(), tokens);
    if i == hs.len() - 1 {
        assert(kept(hs, tokens) == r.push(hs.last()));
        assert(kept(hs, tokens)[r.len() as int] == hs[i]);
    } else {
        lemma_kept_complete(hs.drop_last(), tokens, i);
        let j = choose|j: int| 0 <= j < r.len() && r[j] == hs.drop_last()[i];
        assert(kept(hs, tokens)[j] == hs[i]);
    }
}

/// Forward by default: every client header that is not hop-by-hop, `keep-alive`, a relay
/// key or listed by `Connection` reaches the provider unchanged.
pub proof fn lemma_client_headers_are_forwarded(
    hs: Seq<(Seq<char>, Seq<u8>)>,
    request_id: Option<Seq<char>>,
    i: int,
)
    requires
        0 <= i < hs.len(),
        !dropped(hs[i].0, connection_tokens(hs)),
    ensures
        forwarded(hs, request_id).contains(hs[i]),
{
    lemma_kept_complete(hs, connection_tokens(hs), i);
    let k = kept(hs, connection_tokens(hs));
    let j = choose|j: int| 0 <= j < k.len() && k[j] == hs[i];
    assert(forwarded(hs, request_id)[j] == hs[i]);
}

} // verus!

verus! {

/// A proxied request as the relay receives it: the key, provider and path from its URL, the
/// URL's query, and its headers.
pub struct ProxyRequest {
    pub api_key: String,
    pub provider: String,
    pub path: String,
    pub query: Option<String>,
    pub headers: Vec<Header>,
}

/// Where handling a proxied request stands.
pub enum ProxyState {
    /// The request has just arrived.
    Received,
    /// The key matched; an admission slot is being taken.
    AwaitingSlot,
    /// A slot was taken; the request id is being made.
    AwaitingRequestId,
    /// Handled.
    Done,
}

/// What the outside world answered.
pub enum ProxyEvent {
    Arrived,
    /// Whether an admission slot was free.
    SlotResult(bool),
    /// The request's id.
    RequestId(String),
}

/// What to do next.
pub enum ProxyAction {
    /// Take an admission slot if one is free.
    AcquireSlot,
    /// Make the request id (the client's, or a fresh one).
    MakeRequestId,
    /// Send this request upstream.
    Forward(UpstreamRequest),
    /// Answer with this error; nothing goes upstream.
    Reject(RelayError),
}

pub open spec fn opt_string_view(s: Option<String>) -> Option<Seq<char>> {
    match s {
        Some(s) => Some(s@),
        None => None,
    }
}

/// Whether an event answers what the state waits for.
pub open spec fn proxy_answers(state: ProxyState, event: ProxyEvent) -> bool {
    match state {
        ProxyState::Received => event is Arrived,
        ProxyState::AwaitingSlot => event is SlotResult,
        ProxyState::AwaitingRequestId => event is RequestId,
        ProxyState::Done => false,
    }
}

/// What `plan_forward` decides for a request, given its request id.
pub open spec fn planned(
    config: Config,
    request: ProxyRequest,
    request_id: Seq<char>,
    r: Result<UpstreamRequest, RelayError>,
) -> bool {
    match r {
        Ok(u) => {
            &&& trim(request.path@).len() > 0
            &&& position_of(config.providers.spec_entries(), request.provider@) matches Some(i)
            &&& strip_start(request.path@, '/').len() > 0
            &&& u.url@ == target_text(
                config.providers.spec_entries()[i].1.base_url,
                request.path@,
                opt_string_view(request.query),
            )
            &&& url_parse(u.url@) is Ok
            &&& headers_view(u.headers@) == forwarded(headers_view(request.headers@), Some(request_id))
        },
        Err(RelayError::InvalidPath) => trim(request.path@).len() == 0 || (position_of(
            config.providers.spec_entries(),
            request.provider@,
        ) is Some && strip_start(request.path@, '/').len() == 0),
        Err(RelayError::UnknownProvider(p)) => {
            &&& trim(request.path@).len() > 0
            &&& position_of(config.providers.spec_entries(), request.provider@) is None
            &&& p@ == request.provider@
        },
        Err(RelayError::InvalidTargetUrl(m)) => {
            &&& trim(request.path@).len() > 0
            &&& position_of(config.providers.spec_entries(), request.provider@) matches Some(i)
            &&& strip_start(request.path@, '/').len() > 0
            &&& url_parse(
                target_text(
                    config.providers.spec_entries()[i].1.base_url,
                    request.path@,
                    opt_string_view(request.query),
                ),
            ) == Err::<crate::url::UrlView, Seq<char>>(m@)
        },
        Err(_) => false,
    }
}

/// One step of handling a proxied request: the key first, then admission, then the request
/// id and the plan for the upstream request.
pub open spec fn proxy_step_spec(
    config: Config,
    expected_key: Seq<char>,
    request: ProxyRequest,
    state: ProxyState,
    event: ProxyEvent,
    next: ProxyState,
    action: ProxyAction,
) -> bool {
    match (state, event) {
        (ProxyState::Received, _) => if request.api_key@ == expected_key {
            next is AwaitingSlot && action is AcquireSlot
        } else {
            next is Done && (action matches ProxyAction::Reject(e) && e is Unauthorized)
        },
        (ProxyState::AwaitingSlot, ProxyEvent::SlotResult(free)) => if free {
            next is AwaitingRequestId && action is MakeRequestId
        } else {
            next is Done && (action matches ProxyAction::Reject(e) && e == (
            RelayError::TooManyRequests {
                retry_after_seconds: config.server.retry_after_seconds,
            }))
        },
        (ProxyState::AwaitingRequestId, ProxyEvent::RequestId(id)) => next is Done && match action {
            ProxyAction::Forward(u) => planned(config, request, id@, Ok(u)),
            ProxyAction::Reject(e) => planned(config, request, id@, Err(e)),
            _ => false,
        },
        _ => false,
    }
}

/// Decides the next step of handling a proxied request.
pub fn proxy_step(
    config: &Config,
    expected_key: &str,
    request: &ProxyRequest,
    state: ProxyState,
    event: ProxyEvent,
) -> (r: (ProxyState, ProxyAction))
    requires
        proxy_answers(state, event),
    ensures
        proxy_step_spec(*config, expected_key@, *request, state, event, r.0, r.1),
{
    match (state, event) {
        (ProxyState::Received, _) => match authorize_request(request.api_key.as_str(), expected_key) {
            Ok(()) => (ProxyState::AwaitingSlot, ProxyAction::AcquireSlot),
            Err(e) => (ProxyState::Done, ProxyAction::Reject(e)),
        },
        (ProxyState::AwaitingSlot, ProxyEvent::SlotResult(free)) => match check_admission(
            free,
            config.server.retry_after_seconds,
        ) {
            Ok(()) => (ProxyState::AwaitingRequestId, ProxyAction::MakeRequestId),
            Err(e) => (ProxyState::Done, ProxyAction::Reject(e)),
        },
        (ProxyState::AwaitingRequestId, ProxyEvent::RequestId(id)) => {
            let query = match &request.query {
                Some(q) => Some(q.as_str()),
                None => None,
            };
            assert(opt_str_view(query) == opt_string_view(request.query));
            match plan_forward(
                config,
                request.provider.as_str(),
                request.path.as_str(),
                query,
                request.headers.as_slice(),
                id.as_str(),
            ) {
                Ok(u) => (ProxyState::Done, ProxyAction::Forward(u)),
                Err(e) => (ProxyState::Done, ProxyAction::Reject(e)),
            }
        },
        (_, _) => {
            proof {
                assert(false);
            }
            (ProxyState::Done, ProxyAction::MakeRequestId)
        },
    }
}

/// A request whose key does not match is answered `401` at once: no slot is taken, no id
/// made and nothing forwarded, whatever its provider, path or headers.
pub proof fn lemma_unauthorized_requests_go_nowhere(
    config: Config,
    expected_key: Seq<char>,
    request: ProxyRequest,
    event: ProxyEvent,
    next: ProxyState,
    action: ProxyAction,
)
    requires
        proxy_step_spec(config, expected_key, request, ProxyState::Received, event, next, action),
        request.api_key@ != expected_key,
    ensures
        next is Done,
        action matches ProxyAction::Reject(e) && e is Unauthorized && crate::error::status_of(e)
            == 401,
{
}

/// Only a step that had a slot and a request id forwards, and what it forwards carries no
/// hop-by-hop or key header.
pub proof fn lemma_forwarding_needs_admission(
    config: Config,
    expected_key: Seq<char>,
    request: ProxyRequest,
    state: ProxyState,
    event: ProxyEvent,
    next: ProxyState,
    action: ProxyAction,
)
    requires
        proxy_step_spec(config, expected_key, request, state, event, next, action),
        action is Forward,
    ensures
        state is AwaitingRequestId,
        event is RequestId,
        forall|i: int|
            0 <= i < headers_view(action->Forward_0.headers@).len() ==> travels(
                #[trigger] headers_view(action->Forward_0.headers@)[i].0,
            ),
{
    let id = event->RequestId_0;
    lemma_forwarded_headers_travel(headers_view(request.headers@), Some(id@));
}

/// A forwarded request goes to the provider's base URL without its trailing slashes, then
/// `/`, then the request's path without its leading slashes, then, when the client sent a
/// query string, `?` and that query string as it came.
pub proof fn lemma_forwarded_url_keeps_the_query(
    config: Config,
    expected_key: Seq<char>,
    request: ProxyRequest,
    state: ProxyState,
    event: ProxyEvent,
    next: ProxyState,
    action: ProxyAction,
)
    requires
        proxy_step_spec(config, expected_key, request, state, event, next, action),
        action is Forward,
    ensures
        exists|i: int|
            0 <= i < config.providers.spec_entries().len()
                && #[trigger] config.providers.spec_entries()[i].0 == request.provider@ && {
                let base = config.providers.spec_entries()[i].1.base_url;
                let stem = strip_end(base, '/') + seq!['/'] + strip_start(request.path@, '/');
                action->Forward_0.url@ == match request.query {
                    Some(q) => stem + seq!['?'] + q@,
                    None => stem,
                }
            },
{
    let i = position_of(config.providers.spec_entries(), request.provider@)->Some_0;
    reveal_strlit("/");
    reveal_strlit("?");
    assert("/"@ =~= seq!['/']);
    assert("?"@ =~= seq!['?']);
    assert(config.providers.spec_entries()[i].0 == request.provider@);
}

/// No header that the relay sends upstream or returns to the client is one of the
/// hop-by-hop headers `connection`, `keep-alive`, `proxy-authenticate`,
/// `proxy-authorization`, `te`, `trailer`, `transfer-encoding` and `upgrade`, nor `host` or
/// `content-length`, which belong to one connection too.
pub proof fn lemma_no_hop_by_hop_header_leaves(
    hs: Seq<(Seq<char>, Seq<u8>)>,
    request_id: Option<Seq<char>>,
    response_id: Seq<char>,
)
    ensures
        forall|i: int| 0 <= i < forwarded(hs, request_id).len() ==> {
            let n = #[trigger] forwarded(hs, request_id)[i].0;
            &&& n != "connection"@ && n != "keep-alive"@ && n != "proxy-authenticate"@
            &&& n != "proxy-authorization"@ && n != "te"@ && n != "trailer"@
            &&& n != "transfer-encoding"@ && n != "upgrade"@ && n != "host"@
            &&& n != "content-length"@
        },
        forall|i: int| 0 <= i < returned(hs, response_id).len() ==> {
            let n = #[trigger] returned(hs, response_id)[i].0;
            &&& n != "connection"@ && n != "keep-alive"@ && n != "proxy-authenticate"@
            &&& n != "proxy-authorization"@ && n != "te"@ && n != "trailer"@
            &&& n != "transfer-encoding"@ && n != "upgrade"@ && n != "host"@
            &&& n != "content-length"@
        },
{
    lemma_forwarded_headers_travel(hs, request_id);
    lemma_returned_headers(hs, response_id);
    reveal_strlit("keep-alive");
    assert(lower("keep-alive"@) =~= "keep-alive"@);
}

/// No header that the relay sends upstream or returns to the client is `keep-alive` or
/// carries a relay key (`x-relay-api-key`, `x-api-key`), in any letter case, and none is
/// one that a `Connection` header of the incoming headers names.
pub proof fn lemma_no_key_header_leaves(
    hs: Seq<(Seq<char>, Seq<u8>)>,
    request_id: Option<Seq<char>>,
    response_id: Seq<char>,
)
    ensures
        forall|i: int| 0 <= i < forwarded(hs, request_id).len() ==> {
            let n = #[trigger] forwarded(hs, request_id)[i].0;
            &&& lower(n) != "keep-alive"@
            &&& lower(n) != "x-relay-api-key"@
            &&& lower(n) != "x-api-key"@
        },
        forall|i: int| 0 <= i < returned(hs, response_id).len() ==> {
            let n = #[trigger] returned(hs, response_id)[i].0;
            &&& lower(n) != "keep-alive"@
            &&& lower(n) != "x-relay-api-key"@
            &&& lower(n) != "x-api-key"@
        },
        forall|i: int|
            0 <= i < forwarded(hs, None).len() ==> !connection_tokens(hs).contains(
                #[trigger] forwarded(hs, None)[i].0,
            ),
{
    lemma_forwarded_headers_travel(hs, request_id);
    lemma_returned_headers(hs, response_id);
    lemma_kept_not_dropped(hs, connection_tokens(hs));
}

proof fn lemma_kept_not_dropped(hs: Seq<(Seq<char>, Seq<u8>)>, tokens: Seq<Seq<char>>)
    ensures
        forall|i: int| 0 <= i < kept(hs, tokens).len() ==> !dropped(#[trigger] kept(hs, tokens)[i].0, tokens),
    decreases hs.len(),
{
    if hs.len() > 0 {
        lemma_kept_not_dropped(hs.drop_last(), tokens);
        let r = kept(hs.drop_last(), tokens);
        assert forall|i: int| 0 <= i < kept(hs, tokens).len() implies !dropped(
            #[trigger] kept(hs, tokens)[i].0,
            tokens,
        ) by {
            if i < r.len() {
                assert(kept(hs, tokens)[i] == r[i]);
            }
        }
    }
}

/// What each step of handling a proxied request answers: a request with the right key asks
/// for a slot and any other is refused with `401`; with a slot it asks for a request id and
/// without one it is refused with `503` and the configured retry delay; then it is either
/// forwarded or refused with `400` for a blank path or `403` for a provider that no
/// configured provider is named.
pub proof fn lemma_proxy_step_answers(
    config: Config,
    expected_key: Seq<char>,
    request: ProxyRequest,
    state: ProxyState,
    event: ProxyEvent,
    next: ProxyState,
    action: ProxyAction,
)
    requires
        proxy_step_spec(config, expected_key, request, state, event, next, action),
    ensures
        state is Received && request.api_key@ == expected_key ==> next is AwaitingSlot
            && action is AcquireSlot,
        state is Received && request.api_key@ != expected_key ==> next is Done && (
        action matches ProxyAction::Reject(e) && crate::error::status_of(e) == 401),
        state is AwaitingSlot && event == ProxyEvent::SlotResult(true) ==> next is AwaitingRequestId && action is MakeRequestId,
        state is AwaitingSlot && event == ProxyEvent::SlotResult(false) ==> next is Done && (action matches ProxyAction::Reject(e)
            && crate::error::status_of(e) == 503 && e == RelayError::TooManyRequests {
            retry_after_seconds: config.server.retry_after_seconds,
        }),
        state is AwaitingRequestId ==> next is Done && (action is Forward || action is Reject),
        state is AwaitingRequestId && trim(request.path@).len() == 0 ==> (action matches ProxyAction::Reject(
            e,
        ) && crate::error::status_of(e) == 400),
        action matches ProxyAction::Reject(e) ==> (crate::error::status_of(e) == 403 ==> {
            &&& (e matches RelayError::UnknownProvider(p) && p@ == request.provider@)
            &&& forall|i: int|
                0 <= i < config.providers.spec_entries().len() ==> #[trigger] config.providers.spec_entries()[i].0
                    != request.provider@
        }),
        action is Forward ==> exists|i: int|
            0 <= i < config.providers.spec_entries().len()
                && #[trigger] config.providers.spec_entries()[i].0 == request.provider@,
{
    if action is Forward || (state is AwaitingRequestId && action is Reject) {
        match position_of(config.providers.spec_entries(), request.provider@) {
            Some(i) => {
                assert(config.providers.spec_entries()[i].0 == request.provider@);
            },
            None => {},
        }
    }
    if let ProxyAction::Reject(e) = action {
        if let RelayError::UnknownProvider(p) = e {
            assert(p@ == request.provider@);
        }
    }
}

} // verus!

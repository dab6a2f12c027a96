//! The relay's configuration: its parts, their defaults, byte sizes, and the rules that a
//! configuration must keep.

use vstd::prelude::*;

use crate::text::{
    chars_eq_str, concat3, copy_range, debug_quote, debug_text, decimal_value, digit_prefix_len,
    is_ascii_alnum, is_digit, lower, lower_chars, quoted_message, strip_end, strip_end_chars,
    strip_start, strip_start_chars, to_chars, trim, trim_chars,
};

use crate::error::ConfigError;
use crate::ip::{ip_is_local, ip_of, ip_text_is_local};
use crate::paths::{beside, resolve_beside};
pub use crate::providers::{ProviderConfig, ProviderMap};
use crate::providers::ProviderView;
use crate::url::{opt_view, parse_url, parsed_view, url_parse, UrlParts, UrlView};

verus! {

/// A number of bytes.
#[derive(Clone, Copy, Debug, PartialEq, Eq, Structural)]
pub struct ByteSize(pub usize);

impl Default for ByteSize {
    fn default() -> (d: Self)
        ensures
            d.0 == 8 * 1024 * 1024,
    {
        ByteSize(8 * 1024 * 1024)
    }
}

/// Where the relay listens and how much it admits.
#[derive(Clone, Debug)]
pub struct ServerConfig {
    pub host: String,
    pub port: u16,
    pub max_body_size: ByteSize,
    pub max_concurrent_requests: usize,
    pub retry_after_seconds: u64,
}

impl Default for ServerConfig {
    fn default() -> (d: Self)
        ensures
            d.host@ == "0.0.0.0"@,
            d.port == 5017,
            d.max_body_size.0 == 8 * 1024 * 1024,
            d.max_concurrent_requests == 800,
            d.retry_after_seconds == 1,
    {
        ServerConfig {
            host: String::from_str("0.0.0.0"),
            port: 5017,
            max_body_size: ByteSize(8 * 1024 * 1024),
            max_concurrent_requests: 800,
            retry_after_seconds: 1,
        }
    }
}

/// The async runtime's size.
#[derive(Clone, Debug)]
pub struct RuntimeConfig {
    pub worker_threads: usize,
}

impl Default for RuntimeConfig {
    fn default() -> (d: Self)
        ensures
            d.worker_threads == 2,
    {
        RuntimeConfig { worker_threads: 2 }
    }
}

/// Outbound timeouts, in seconds.
#[derive(Clone, Debug)]
pub struct TimeoutConfig {
    pub connect: u64,
    pub request: u64,
}

impl Default for TimeoutConfig {
    fn default() -> (d: Self)
        ensures
            d.connect == 10,
            d.request == 300,
    {
        TimeoutConfig { connect: 10, request: 300 }
    }
}

/// Outbound connection pool tuning.
#[derive(Clone, Debug)]
pub struct PoolConfig {
    pub max_idle_per_host: usize,
    pub idle_timeout: u64,
}

impl Default for PoolConfig {
    fn default() -> (d: Self)
        ensures
            d.max_idle_per_host == 8,
            d.idle_timeout == 30,
    {
        PoolConfig { max_idle_per_host: 8, idle_timeout: 30 }
    }
}

/// Where the relay's own API key is kept.
#[derive(Clone, Debug)]
pub struct SecurityConfig {
    pub api_key_file: String,
}

impl Default for SecurityConfig {
    fn default() -> (d: Self)
        ensures
            d.api_key_file@ == "api_key"@,
    {
        SecurityConfig { api_key_file: String::from_str("api_key") }
    }
}

/// An outbound HTTP or SOCKS proxy.
#[derive(Clone, Debug)]
pub struct ProxyConfig {
    pub url: String,
}

/// The relay's whole configuration.
#[derive(Debug)]
pub struct Config {
    pub server: ServerConfig,
    pub runtime: RuntimeConfig,
    pub timeout: TimeoutConfig,
    pub pool: PoolConfig,
    pub security: SecurityConfig,
    pub proxy: Option<ProxyConfig>,
    pub providers: ProviderMap,
}

impl Default for Config {
    fn default() -> (d: Self)
        ensures
            d.server.host@ == "0.0.0.0"@,
            d.server.port == 5017,
            d.server.max_body_size.0 == 8 * 1024 * 1024,
            d.server.max_concurrent_requests == 800,
            d.server.retry_after_seconds == 1,
            d.runtime.worker_threads == 2,
            d.timeout.connect == 10,
            d.timeout.request == 300,
            d.pool.max_idle_per_host == 8,
            d.pool.idle_timeout == 30,
            d.security.api_key_file@ == "api_key"@,
            d.proxy is None,
            d.providers.spec_entries().len() == 0,
    {
        Config {
            server: ServerConfig::default(),
            runtime: RuntimeConfig::default(),
            timeout: TimeoutConfig::default(),
            pool: PoolConfig::default(),
            security: SecurityConfig::default(),
            proxy: None,
            providers: ProviderMap::new(),
        }
    }
}



/// The number of bytes that one unit of a byte-size suffix stands for.
pub open spec fn unit_multiplier(unit: Seq<char>) -> Option<nat> {
    if unit == ""@ || unit == "b"@ {
        Some(1)
    } else if unit == "kb"@ || unit == "kib"@ || unit == "k"@ {
        Some(1024)
    } else if unit == "mb"@ || unit == "mib"@ || unit == "m"@ {
        Some(1024 * 1024)
    } else if unit == "gb"@ || unit == "gib"@ || unit == "g"@ {
        Some(1024 * 1024 * 1024)
    } else {
        None
    }
}

/// What `parse_byte_size` gives for `input`: a count of bytes, or the error message.
pub open spec fn byte_size_of(input: Seq<char>) -> Result<int, Seq<char>> {
    let t = trim(input);
    let k = digit_prefix_len(t);
    let number = decimal_value(t.take(k as int));
    let unit = lower(trim(t.skip(k as int)));
    if t.len() == 0 {
        Err("byte size cannot be empty"@)
    } else if k == 0 {
        Err("byte size "@ + debug_text(t) + " is missing a number"@)
    } else if number > u128::MAX {
        Err("byte size "@ + debug_text(t) + " has an invalid number"@)
    } else {
        match unit_multiplier(unit) {
            None => Err("byte size unit "@ + debug_text(unit) + " is not supported"@),
            Some(m) => if number * m > usize::MAX {
                Err("byte size "@ + debug_text(t) + " is too large"@)
            } else {
                Ok((number * m) as int)
            },
        }
    }
}

/// A parse result seen as a number or a message.
pub open spec fn size_result_view(r: Result<usize, String>) -> Result<int, Seq<char>> {
    match r {
        Ok(n) => Ok(n as int),
        Err(m) => Err(m@),
    }
}

proof fn lemma_digit_prefix_len(s: Seq<char>, k: int)
    requires
        0 <= k <= s.len(),
        forall|j: int| 0 <= j < k ==> is_digit(#[trigger] s[j]),
        k == s.len() || !is_digit(s[k]),
    ensures
        digit_prefix_len(s) == k,
    decreases k,
{
    if k > 0 {
        lemma_digit_prefix_len(s.drop_first(), k - 1);
    }
}

/// Whitespace around a byte size does not change what it reads as.
pub proof fn lemma_byte_size_ignores_outer_whitespace(w1: Seq<char>, s: Seq<char>, w2: Seq<char>)
    requires
        crate::text::all_space(w1),
        crate::text::all_space(w2),
    ensures
        byte_size_of(w1 + s + w2) == byte_size_of(s),
{
    crate::text::lemma_trim_ignores_outer_spaces(w1, s, w2);
}

/// Letter case does not change the size a byte size reads as, nor whether it reads as one.
pub proof fn lemma_byte_size_ignores_case(s: Seq<char>)
    ensures
        byte_size_of(crate::text::upper(s)) is Ok <==> byte_size_of(s) is Ok,
        byte_size_of(s) matches Ok(n) ==> byte_size_of(crate::text::upper(s)) == Ok::<int, Seq<char>>(n),
{
    let t = trim(s);
    crate::text::lemma_upper_trim(s);
    let ut = trim(crate::text::upper(s));
    assert(ut == crate::text::upper(t));
    crate::text::lemma_upper_digit_prefix(t);
    let k = digit_prefix_len(t);
    assert(digit_prefix_len(ut) == k);
    assert(ut.take(k as int) == t.take(k as int));
    crate::text::lemma_digit_prefix_digits(t);
    assert(ut.len() == t.len());
    assert(ut.skip(k as int) =~= crate::text::upper(t.skip(k as int)));
    crate::text::lemma_upper_trim(t.skip(k as int));
    crate::text::lemma_lower_upper(trim(t.skip(k as int)));
    assert(lower(trim(ut.skip(k as int))) == lower(trim(t.skip(k as int))));
}

/// Whether a unit, once lower-cased, is made of ASCII lowercase letters.
spec fn lower_letters(u: Seq<char>) -> bool {
    forall|i: int| 0 <= i < u.len() ==> 'a' <= #[trigger] lower(u)[i] && lower(u)[i] <= 'z'
}

proof fn lemma_unit_reads_whole(n: Seq<char>, u: Seq<char>)
    requires
        n.len() > 0,
        forall|i: int| 0 <= i < n.len() ==> is_digit(#[trigger] n[i]),
        lower_letters(u),
    ensures
        trim(n + u) == n + u,
        digit_prefix_len(n + u) == n.len(),
        (n + u).take(n.len() as int) == n,
        lower(trim((n + u).skip(n.len() as int))) == lower(u),
{
    let t = n + u;
    assert forall|i: int| 0 <= i < u.len() implies crate::text::is_ascii_alpha(#[trigger] u[i]) by {
        assert(lower(u)[i] == crate::text::lower_char(u[i]));
    }
    assert(t[0] == n[0]);
    assert(crate::text::trim_start(t) == t);
    if u.len() > 0 {
        assert(t.last() == u[u.len() - 1]);
    } else {
        assert(t.last() == n[n.len() - 1]);
    }
    assert(crate::text::trim_end(t) == t);
    lemma_digit_prefix_len(t, n.len() as int);
    assert(t.take(n.len() as int) =~= n);
    assert(t.skip(n.len() as int) =~= u);
    if u.len() > 0 {
        assert(crate::text::trim_start(u) == u);
        assert(crate::text::trim_end(u) == u);
    }
}

/// A decimal number followed by a unit reads as that number times the unit's size, whatever
/// the unit's letter case: no unit or `b` is one byte, `k`, `kb` and `kib` are 1024 bytes,
/// `m`, `mb` and `mib` are 1024 * 1024 bytes, and `g`, `gb` and `gib` are 1024 * 1024 * 1024
/// bytes, as long as the count fits in a `usize`.
pub proof fn lemma_byte_size_units(n: Seq<char>, u: Seq<char>)
    requires
        n.len() > 0,
        forall|i: int| 0 <= i < n.len() ==> is_digit(#[trigger] n[i]),
    ensures
        (u.len() == 0 || lower(u) == "b"@) && decimal_value(n) <= usize::MAX ==> byte_size_of(
            n + u,
        ) == Ok::<int, Seq<char>>(decimal_value(n) as int),
        (lower(u) == "k"@ || lower(u) == "kb"@ || lower(u) == "kib"@) && decimal_value(n) * 1024
            <= usize::MAX ==> byte_size_of(n + u) == Ok::<int, Seq<char>>(
            (decimal_value(n) * 1024) as int,
        ),
        (lower(u) == "m"@ || lower(u) == "mb"@ || lower(u) == "mib"@) && decimal_value(n)
            * 1048576 <= usize::MAX ==> byte_size_of(n + u) == Ok::<int, Seq<char>>(
            (decimal_value(n) * 1048576) as int,
        ),
        (lower(u) == "g"@ || lower(u) == "gb"@ || lower(u) == "gib"@) && decimal_value(n)
            * 1073741824 <= usize::MAX ==> byte_size_of(n + u) == Ok::<int, Seq<char>>(
            (decimal_value(n) * 1073741824) as int,
        ),
{
    reveal_strlit("");
    reveal_strlit("b");
    reveal_strlit("k");
    reveal_strlit("kb");
    reveal_strlit("kib");
    reveal_strlit("m");
    reveal_strlit("mb");
    reveal_strlit("mib");
    reveal_strlit("g");
    reveal_strlit("gb");
    reveal_strlit("gib");
    let l = lower(u);
    if u.len() == 0 || l == "b"@ || l == "k"@ || l == "kb"@ || l == "kib"@ || l == "m"@ || l
        == "mb"@ || l == "mib"@ || l == "g"@ || l == "gb"@ || l == "gib"@ {
        assert(l.len() <= 3);
        assert(l.len() >= 1 ==> 'a' <= l[0] && l[0] <= 'z');
        assert(l.len() >= 2 ==> 'a' <= l[1] && l[1] <= 'z');
        assert(l.len() >= 3 ==> 'a' <= l[2] && l[2] <= 'z');
        assert(lower_letters(u));
        if u.len() == 0 {
            assert(l =~= ""@);
        }
        let m = unit_multiplier(l)->Some_0;
        assert(unit_multiplier(l) is Some);
        if decimal_value(n) * m <= usize::MAX {
            lemma_unit_value(n, u, m);
        }
    }
}

proof fn lemma_number_then_rest(n: Seq<char>, x: Seq<char>)
    requires
        n.len() > 0,
        forall|i: int| 0 <= i < n.len() ==> is_digit(#[trigger] n[i]),
        x.len() > 0,
        !crate::text::is_space(x.last()),
        !is_digit(x[0]),
    ensures
        trim(n + x) == n + x,
        digit_prefix_len(n + x) == n.len(),
        (n + x).take(n.len() as int) == n,
        (n + x).skip(n.len() as int) == x,
{
    let t = n + x;
    assert(t[0] == n[0]);
    assert(crate::text::trim_start(t) == t);
    assert(t.last() == x.last());
    assert(crate::text::trim_end(t) == t);
    assert(t[n.len() as int] == x[0]);
    lemma_digit_prefix_len(t, n.len() as int);
    assert(t.take(n.len() as int) =~= n);
    assert(t.skip(n.len() as int) =~= x);
}

/// Whitespace between a number and its unit does not change the size it reads as, nor
/// whether it reads as one: `2 gib` is `2gib`.
pub proof fn lemma_byte_size_space_before_unit(n: Seq<char>, w: Seq<char>, u: Seq<char>)
    requires
        n.len() > 0,
        forall|i: int| 0 <= i < n.len() ==> is_digit(#[trigger] n[i]),
        crate::text::all_space(w),
        u.len() > 0,
        !crate::text::is_space(u.last()),
        !crate::text::is_space(u[0]),
        !is_digit(u[0]),
    ensures
        byte_size_of(n + w + u) is Ok <==> byte_size_of(n + u) is Ok,
        byte_size_of(n + u) is Ok ==> byte_size_of(n + w + u) == byte_size_of(n + u),
{
    let x = w + u;
    assert(n + w + u =~= n + x);
    if w.len() > 0 {
        assert(crate::text::is_space(w[0]));
        assert(x[0] == w[0]);
        assert(!is_digit(x[0]));
    } else {
        assert(x =~= u);
    }
    assert(x.last() == u.last());
    lemma_number_then_rest(n, x);
    lemma_number_then_rest(n, u);
    crate::text::lemma_trim_start_skips_spaces(w, u);
    assert(trim(x) == trim(u));
}

proof fn lemma_unit_value(n: Seq<char>, u: Seq<char>, m: nat)
    requires
        n.len() > 0,
        forall|i: int| 0 <= i < n.len() ==> is_digit(#[trigger] n[i]),
        lower_letters(u),
        unit_multiplier(lower(u)) == Some(m),
        decimal_value(n) * m <= usize::MAX,
    ensures
        byte_size_of(n + u) == Ok::<int, Seq<char>>((decimal_value(n) * m) as int),
{
    lemma_unit_reads_whole(n, u);
    assert(m >= 1);
    assert(decimal_value(n) <= decimal_value(n) * m) by (nonlinear_arith)
        requires
            m >= 1,
    ;
}

/// Reads a byte count such as `8MB`, `1024` or `2 gib`.
pub fn parse_byte_size(input: &str) -> (res: Result<usize, String>)
    ensures
        size_result_view(res) == byte_size_of(input@),
{
    let chars = to_chars(input);
    let t = trim_chars(chars.as_slice());
    let n = t.len();
    if n == 0 {
        return Err(String::from_str("byte size cannot be empty"));
    }
    let mut k: usize = 0;
    while k < n && '0' <= t[k] && t[k] <= '9'
        invariant
            n == t@.len(),
            k <= n,
            forall|j: int| 0 <= j < k ==> is_digit(#[trigger] t@[j]),
        decreases n - k,
    {
        k = k + 1;
    }
    proof {
        lemma_digit_prefix_len(t@, k as int);
    }
    if k == 0 {
        return Err(quoted_message("byte size ", t.as_slice(), " is missing a number"));
    }
    let mut value: u128 = 0;
    let mut overflow = false;
    for i in 0..k
        invariant
            k <= n == t@.len(),
            forall|j: int| 0 <= j < k ==> is_digit(#[trigger] t@[j]),
            !overflow ==> value == decimal_value(t@.take(i as int)),
            overflow ==> decimal_value(t@.take(i as int)) > u128::MAX,
    {
        assert(t@.take(i + 1).drop_last() =~= t@.take(i as int));
        assert(is_digit(t@[i as int]));
        let d: u128 = (t[i] as u32 - '0' as u32) as u128;
        if !overflow {
            match value.checked_mul(10) {
                Some(a) => match a.checked_add(d) {
                    Some(b) => {
                        value = b;
                    },
                    None => {
                        overflow = true;
                    },
                },
                None => {
                    overflow = true;
                },
            }
        }
    }
    let number = copy_range(t.as_slice(), k, n);
    let trimmed_unit = trim_chars(number.as_slice());
    let unit = lower_chars(trimmed_unit.as_slice());
    assert(t@.skip(k as int) =~= number@);
    if overflow {
        return Err(quoted_message("byte size ", t.as_slice(), " has an invalid number"));
    }
    let multiplier: u128 = if chars_eq_str(unit.as_slice(), "") || chars_eq_str(unit.as_slice(), "b") {
        1
    } else if chars_eq_str(unit.as_slice(), "kb") || chars_eq_str(unit.as_slice(), "kib")
        || chars_eq_str(unit.as_slice(), "k") {
        1024
    } else if chars_eq_str(unit.as_slice(), "mb") || chars_eq_str(unit.as_slice(), "mib")
        || chars_eq_str(unit.as_slice(), "m") {
        1024 * 1024
    } else if chars_eq_str(unit.as_slice(), "gb") || chars_eq_str(unit.as_slice(), "gib")
        || chars_eq_str(unit.as_slice(), "g") {
        1024 * 1024 * 1024
    } else {
        return Err(quoted_message("byte size unit ", unit.as_slice(), " is not supported"));
    };
    match value.checked_mul(multiplier) {
        Some(bytes) => {
            if bytes > usize::MAX as u128 {
                Err(quoted_message("byte size ", t.as_slice(), " is too large"))
            } else {
                Ok(bytes as usize)
            }
        },
        None => Err(quoted_message("byte size ", t.as_slice(), " is too large")),
    }
}

} // verus!

verus! {

/// Whether `r` is `Ok` when there is no problem and otherwise a validation error that
/// carries exactly the problem's message.
pub open spec fn reports(r: Result<(), ConfigError>, problem: Option<Seq<char>>) -> bool {
    match r {
        Ok(()) => problem is None,
        Err(ConfigError::Validation(m)) => problem == Some(m@),
        Err(_) => false,
    }
}

pub open spec fn name_char_ok(c: char) -> bool {
    is_ascii_alnum(c) || c == '-' || c == '_'
}

/// What is wrong with a provider name, if anything.
pub open spec fn name_problem(name: Seq<char>) -> Option<Seq<char>> {
    if name.len() == 0 {
        Some("provider names cannot be empty"@)
    } else if !(forall|i: int| 0 <= i < name.len() ==> name_char_ok(#[trigger] name[i])) {
        Some(
            "provider name "@ + debug_text(name)
                + " may only contain ASCII letters, numbers, '-' and '_'"@,
        )
    } else {
        None
    }
}

/// A host without the one pair of square brackets that sets off an IPv6 address in a URL.
pub open spec fn unbracket(host: Seq<char>) -> Seq<char> {
    if host.len() >= 2 && host[0] == '[' && host.last() == ']' {
        host.subrange(1, host.len() - 1)
    } else {
        host
    }
}

/// Whether a URL host names this machine or a private, local or reserved address.
pub open spec fn private_target(host: Option<Seq<char>>) -> bool {
    match host {
        None => true,
        Some(h) => {
            let name = lower(strip_end(h, '.'));
            ||| name == "localhost"@
            ||| name == "localhost.localdomain"@
            ||| (ip_of(unbracket(name)) matches Some(ip) && ip_is_local(ip))
        },
    }
}

/// What is wrong with a provider's parsed base URL, if anything.
pub open spec fn parsed_url_problem(name: Seq<char>, allow_private: bool, u: UrlView) -> Option<
    Seq<char>,
> {
    let prefix = "providers."@ + name;
    if u.scheme != "http"@ && u.scheme != "https"@ {
        Some(prefix + ".base_url scheme "@ + debug_text(u.scheme) + " is not supported"@)
    } else if u.host is None {
        Some(prefix + ".base_url must include a host"@)
    } else if u.username.len() != 0 || u.password is Some {
        Some(prefix + ".base_url must not include credentials"@)
    } else if u.query is Some || u.fragment is Some {
        Some(prefix + ".base_url must not include query or fragment components"@)
    } else if name == "cloudflare"@ && u.host == Some("gateway.ai.cloudflare.com"@) && strip_end(
        strip_start(u.path, '/'),
        '/',
    ).len() != 0 {
        Some(
            "providers.cloudflare.base_url must be https://gateway.ai.cloudflare.com; put /v1/<account-id>/<gateway-name>/compat/... in the relay request path"@,
        )
    } else if !allow_private && private_target(u.host) {
        Some(
            prefix
                + ".base_url points to a private or local target; set allow_private: true only for intentional private upstreams"@,
        )
    } else {
        None
    }
}

/// What is wrong with a provider's base URL, given how it parsed.
pub open spec fn url_outcome_problem(
    name: Seq<char>,
    allow_private: bool,
    parsed: Result<UrlView, Seq<char>>,
) -> Option<Seq<char>> {
    match parsed {
        Err(e) => Some("providers."@ + name + ".base_url is invalid: "@ + e),
        Ok(u) => parsed_url_problem(name, allow_private, u),
    }
}

/// What is wrong with a provider, if anything.
pub open spec fn provider_problem(name: Seq<char>, p: ProviderView) -> Option<Seq<char>> {
    match name_problem(name) {
        Some(m) => Some(m),
        None => url_outcome_problem(name, p.allow_private, url_parse(p.base_url)),
    }
}

/// The problem of the first provider, from position `i` on, that has one.
pub open spec fn first_provider_problem(entries: Seq<(Seq<char>, ProviderView)>, i: int) -> Option<
    Seq<char>,
>
    decreases entries.len() - i,
{
    if i < 0 || i >= entries.len() {
        None
    } else {
        match provider_problem(entries[i].0, entries[i].1) {
            Some(m) => Some(m),
            None => first_provider_problem(entries, i + 1),
        }
    }
}

/// What is wrong with the outbound proxy's URL, given how it parsed.
pub open spec fn proxy_outcome_problem(parsed: Result<UrlView, Seq<char>>) -> Option<Seq<char>> {
    match parsed {
        Err(e) => Some("proxy.url is invalid: "@ + e),
        Ok(u) => if u.scheme == "http"@ || u.scheme == "https"@ || u.scheme == "socks5"@
            || u.scheme == "socks5h"@ {
            None
        } else {
            Some("proxy.url scheme "@ + debug_text(u.scheme) + " is not supported"@)
        },
    }
}

/// The first rule that a configuration breaks, as its message.
pub open spec fn config_problem(c: Config) -> Option<Seq<char>> {
    if c.server.port == 0 {
        Some("server.port must be greater than 0"@)
    } else if c.server.max_body_size.0 == 0 {
        Some("server.max_body_size must be greater than 0"@)
    } else if c.server.max_concurrent_requests == 0 {
        Some("server.max_concurrent_requests must be greater than 0"@)
    } else if c.runtime.worker_threads == 0 {
        Some("runtime.worker_threads must be greater than 0"@)
    } else if c.timeout.connect == 0 || c.timeout.request == 0 {
        Some("timeout.connect and timeout.request must be greater than 0"@)
    } else if c.pool.max_idle_per_host == 0 || c.pool.idle_timeout == 0 {
        Some("pool.max_idle_per_host and pool.idle_timeout must be greater than 0"@)
    } else if c.security.api_key_file@.len() == 0 {
        Some("security.api_key_file must not be empty"@)
    } else if c.providers.spec_entries().len() == 0 {
        Some("at least one provider must be configured"@)
    } else {
        match first_provider_problem(c.providers.spec_entries(), 0) {
            Some(m) => Some(m),
            None => match c.proxy {
                Some(p) => proxy_outcome_problem(url_parse(p.url@)),
                None => None,
            },
        }
    }
}

/// A configuration with an outbound proxy is valid exactly when it would be valid without
/// the proxy and the proxy URL parses with the scheme `http`, `https`, `socks5` or `socks5h`;
/// any other scheme, or a URL that does not parse, is refused.
pub proof fn lemma_proxy_schemes(c: Config, p: ProxyConfig)
    requires
        c.proxy == Some(p),
    ensures
        config_problem(c) is None <==> {
            &&& config_problem(
                Config {
                    server: c.server,
                    runtime: c.runtime,
                    timeout: c.timeout,
                    pool: c.pool,
                    security: c.security,
                    proxy: None,
                    providers: c.providers,
                },
            ) is None
            &&& url_parse(p.url@) matches Ok(u) && (u.scheme == "http"@ || u.scheme == "https"@
                || u.scheme == "socks5"@ || u.scheme == "socks5h"@)
        },
{
}

fn invalid(message: &str) -> (r: Result<(), ConfigError>)
    ensures
        reports(r, Some(message@)),
{
    Err(ConfigError::Validation(String::from_str(message)))
}

/// Checks that a provider name is non-empty and made of ASCII letters, digits, `-` and `_`.
pub fn validate_provider_name(name: &str) -> (r: Result<(), ConfigError>)
    ensures
        reports(r, name_problem(name@)),
{
    let chars = to_chars(name);
    let n = chars.len();
    if n == 0 {
        return invalid("provider names cannot be empty");
    }
    for i in 0..n
        invariant
            n == chars@.len(),
            chars@ == name@,
            forall|j: int| 0 <= j < i ==> name_char_ok(#[trigger] chars@[j]),
    {
        let c = chars[i];
        let ok = ('0' <= c && c <= '9') || ('a' <= c && c <= 'z') || ('A' <= c && c <= 'Z') || c
            == '-' || c == '_';
        if !ok {
            assert(!name_char_ok(chars@[i as int]));
            return Err(
                ConfigError::Validation(
                    quoted_message(
                        "provider name ",
                        chars.as_slice(),
                        " may only contain ASCII letters, numbers, '-' and '_'",
                    ),
                ),
            );
        }
    }
    Ok(())
}

/// Whether a URL host names this machine or a private, local or reserved address.
pub fn is_private_target(host: &Option<String>) -> (b: bool)
    ensures
        b == private_target(opt_view(*host)),
{
    match host {
        None => true,
        Some(h) => {
            let chars = to_chars(h.as_str());
            let stripped = strip_end_chars(chars.as_slice(), '.');
            let name = lower_chars(stripped.as_slice());
            chars_eq_str(name.as_slice(), "localhost") || chars_eq_str(
                name.as_slice(),
                "localhost.localdomain",
            ) || ip_text_is_local(unbracket_chars(name.as_slice()).as_slice())
        },
    }
}

fn unbracket_chars(host: &[char]) -> (r: Vec<char>)
    ensures
        r@ == unbracket(host@),
{
    let n = host.len();
    if n >= 2 && host[0] == '[' && host[n - 1] == ']' {
        copy_range(host, 1, n - 1)
    } else {
        copy_range(host, 0, n)
    }
}

/// `"providers." + name + suffix` as a validation error.
fn provider_error(name: &str, suffix: &str) -> (r: Result<(), ConfigError>)
    ensures
        reports(r, Some("providers."@ + name@ + suffix@)),
{
    Err(ConfigError::Validation(concat3("providers.", name, suffix)))
}

/// Checks a provider's base URL as parsed: an `http` or `https` URL with a host, without
/// credentials, query or fragment, not a Cloudflare gateway URL with a path, and not a
/// private target unless the provider allows it.
pub fn check_provider_url(name: &str, allow_private: bool, parsed: &Result<UrlParts, String>) -> (r:
    Result<(), ConfigError>)
    ensures
        reports(r, url_outcome_problem(name@, allow_private, parsed_view(*parsed))),
{
    let u = match parsed {
        Err(e) => {
            let mut m = concat3("providers.", name, ".base_url is invalid: ");
            m.append(e.as_str());
            return Err(ConfigError::Validation(m));
        },
        Ok(u) => u,
    };
    let scheme = to_chars(u.scheme.as_str());
    if !chars_eq_str(scheme.as_slice(), "http") && !chars_eq_str(scheme.as_slice(), "https") {
        let mut m = concat3("providers.", name, ".base_url scheme ");
        let q = debug_quote(u.scheme.as_str());
        m.append(q.as_str());
        m.append(" is not supported");
        return Err(ConfigError::Validation(m));
    }
    if u.host.is_none() {
        return provider_error(name, ".base_url must include a host");
    }
    if !u.username.as_str().is_empty() || u.password.is_some() {
        return provider_error(name, ".base_url must not include credentials");
    }
    if u.query.is_some() || u.fragment.is_some() {
        return provider_error(name, ".base_url must not include query or fragment components");
    }
    let name_chars = to_chars(name);
    if chars_eq_str(name_chars.as_slice(), "cloudflare") {
        let on_gateway = match &u.host {
            Some(h) => {
                let hc = to_chars(h.as_str());
                chars_eq_str(hc.as_slice(), "gateway.ai.cloudflare.com")
            },
            None => false,
        };
        if on_gateway {
            let path = to_chars(u.path.as_str());
            let front = strip_start_chars(path.as_slice(), '/');
            let inner = strip_end_chars(front.as_slice(), '/');
            if inner.len() != 0 {
                return invalid(
                    "providers.cloudflare.base_url must be https://gateway.ai.cloudflare.com; put /v1/<account-id>/<gateway-name>/compat/... in the relay request path",
                );
            }
        }
    }
    if !allow_private && is_private_target(&u.host) {
        return provider_error(
            name,
            ".base_url points to a private or local target; set allow_private: true only for intentional private upstreams",
        );
    }
    Ok(())
}

/// Checks a provider's base URL.
fn validate_provider_url(name: &str, provider: &ProviderConfig) -> (r: Result<(), ConfigError>)
    ensures
        reports(r, url_outcome_problem(name@, provider.allow_private, url_parse(provider.base_url@))),
{
    let parsed = parse_url(provider.base_url.as_str());
    check_provider_url(name, provider.allow_private, &parsed)
}

/// Checks an outbound proxy URL as parsed: its scheme must be `http`, `https`, `socks5` or
/// `socks5h`.
pub fn check_proxy_url(parsed: &Result<UrlParts, String>) -> (r: Result<(), ConfigError>)
    ensures
        reports(r, proxy_outcome_problem(parsed_view(*parsed))),
{
    match parsed {
        Err(e) => {
            let mut m = String::from_str("proxy.url is invalid: ");
            m.append(e.as_str());
            Err(ConfigError::Validation(m))
        },
        Ok(u) => {
            let scheme = to_chars(u.scheme.as_str());
            if chars_eq_str(scheme.as_slice(), "http") || chars_eq_str(scheme.as_slice(), "https")
                || chars_eq_str(scheme.as_slice(), "socks5") || chars_eq_str(
                scheme.as_slice(),
                "socks5h",
            ) {
                Ok(())
            } else {
                let q = debug_quote(u.scheme.as_str());
                Err(ConfigError::Validation(concat3("proxy.url scheme ", q.as_str(), " is not supported")))
            }
        },
    }
}

impl Config {
    /// Checks every rule of a configuration and reports the first one broken.
    #[verifier::loop_isolation(false)]
    pub fn validate(&self) -> (r: Result<(), ConfigError>)
        ensures
            reports(r, config_problem(*self)),
    {
        if self.server.port == 0 {
            return invalid("server.port must be greater than 0");
        }
        if self.server.max_body_size.0 == 0 {
            return invalid("server.max_body_size must be greater than 0");
        }
        if self.server.max_concurrent_requests == 0 {
            return invalid("server.max_concurrent_requests must be greater than 0");
        }
        if self.runtime.worker_threads == 0 {
            return invalid("runtime.worker_threads must be greater than 0");
        }
        if self.timeout.connect == 0 || self.timeout.request == 0 {
            return invalid("timeout.connect and timeout.request must be greater than 0");
        }
        if self.pool.max_idle_per_host == 0 || self.pool.idle_timeout == 0 {
            return invalid("pool.max_idle_per_host and pool.idle_timeout must be greater than 0");
        }
        if self.security.api_key_file.as_str().is_empty() {
            return invalid("security.api_key_file must not be empty");
        }
        if self.providers.is_empty() {
            return invalid("at least one provider must be configured");
        }
        let n = self.providers.len();
        for i in 0..n
            invariant
                n == self.providers.spec_entries().len(),
                first_provider_problem(self.providers.spec_entries(), 0)
                    == first_provider_problem(self.providers.spec_entries(), i as int),
        {
            let (name, provider) = self.providers.entry(i);
            match validate_provider_name(name.as_str()) {
                Err(e) => {
                    return Err(e);
                },
                Ok(()) => {},
            }
            match validate_provider_url(name.as_str(), provider) {
                Err(e) => {
                    return Err(e);
                },
                Ok(()) => {},
            }
        }
        match &self.proxy {
            Some(proxy) => {
                let parsed = parse_url(proxy.url.as_str());
                check_proxy_url(&parsed)
            },
            None => Ok(()),
        }
    }
}

} // verus!

verus! {

/// Where a configured path lies: absolute as it is, relative beside the configuration file.
pub fn resolve_config_relative_path(config_path: &str, configured_path: String) -> (r: String)
    ensures
        r@ == beside(config_path@, configured_path@),
{
    resolve_beside(config_path, configured_path)
}

impl Config {
    /// Finishes a configuration read from the file at `config_path`: resolves the API key
    /// file beside it, then validates.
    pub fn finish_loading(&mut self, config_path: &str) -> (r: Result<(), ConfigError>)
        ensures
            final(self).security.api_key_file@ == beside(
                config_path@,
                old(self).security.api_key_file@,
            ),
            final(self).server == old(self).server,
            final(self).runtime == old(self).runtime,
            final(self).timeout == old(self).timeout,
            final(self).pool == old(self).pool,
            final(self).proxy == old(self).proxy,
            final(self).providers == old(self).providers,
            reports(r, config_problem(*final(self))),
    {
        let mut configured = String::new();
        std::mem::swap(&mut configured, &mut self.security.api_key_file);
        self.security.api_key_file = resolve_config_relative_path(config_path, configured);
        self.validate()
    }
}

} // verus!

verus! {

proof fn lemma_no_problem_from(entries: Seq<(Seq<char>, ProviderView)>, k: int, i: int)
    requires
        0 <= k <= i < entries.len(),
        first_provider_problem(entries, k) is None,
    ensures
        provider_problem(entries[i].0, entries[i].1) is None,
    decreases i - k,
{
    if k < i {
        lemma_no_problem_from(entries, k + 1, i);
    }
}

/// A configuration that validates forwards only to providers named with ASCII letters,
/// digits, `-` and `_`, whose base URLs are `http` or `https` URLs with a host, without
/// credentials, query or fragment, and that point to a private or local target only where
/// the provider allows it.
pub proof fn lemma_valid_config_providers_are_safe(c: Config, i: int)
    requires
        config_problem(c) is None,
        0 <= i < c.providers.spec_entries().len(),
    ensures
        ({
            let (name, p) = c.providers.spec_entries()[i];
            &&& name.len() > 0
            &&& forall|j: int| 0 <= j < name.len() ==> name_char_ok(#[trigger] name[j])
            &&& url_parse(p.base_url) matches Ok(u)
            &&& (u.scheme == "http"@ || u.scheme == "https"@)
            &&& u.host is Some
            &&& u.username.len() == 0 && u.password is None
            &&& u.query is None && u.fragment is None
            &&& (p.allow_private || !private_target(u.host))
        }),
{
    lemma_no_problem_from(c.providers.spec_entries(), 0, i);
}

proof fn lemma_all_providers_fine(entries: Seq<(Seq<char>, ProviderView)>, k: int)
    requires
        0 <= k,
        forall|i: int| k <= i < entries.len() ==> (#[trigger] provider_problem(entries[i].0, entries[i].1)) is None,
    ensures
        first_provider_problem(entries, k) is None,
    decreases entries.len() - k,
{
    if k < entries.len() {
        lemma_all_providers_fine(entries, k + 1);
    }
}

/// A provider is accepted exactly when its name is non-empty and made of ASCII letters,
/// digits, `-` and `_`, and its base URL parses as an `http` or `https` URL with a host,
/// without user name, password, query or fragment, is not a Cloudflare gateway URL with a
/// path, and is a private or local target only where the provider allows it.
pub proof fn lemma_provider_rules(name: Seq<char>, p: ProviderView)
    ensures
        provider_problem(name, p) is None <==> {
            &&& name.len() > 0
            &&& forall|j: int|
                0 <= j < name.len() ==> ('a' <= #[trigger] name[j] && name[j] <= 'z') || ('A'
                    <= name[j] && name[j] <= 'Z') || ('0' <= name[j] && name[j] <= '9')
                    || name[j] == '-' || name[j] == '_'
            &&& url_parse(p.base_url) matches Ok(u)
            &&& (u.scheme == "http"@ || u.scheme == "https"@)
            &&& u.host is Some
            &&& u.username.len() == 0
            &&& u.password is None
            &&& u.query is None
            &&& u.fragment is None
            &&& !(name == "cloudflare"@ && u.host == Some("gateway.ai.cloudflare.com"@)
                && strip_end(strip_start(u.path, '/'), '/').len() != 0)
            &&& (p.allow_private || !private_target(u.host))
        },
{
}

/// A configuration validates exactly when its port, body size, concurrency, worker
/// threads, timeouts and pool settings are all above zero, it names a key file, it has at
/// least one provider, every provider is accepted, and its proxy, if any, parses with the
/// scheme `http`, `https`, `socks5` or `socks5h`.
pub proof fn lemma_config_rules(c: Config)
    ensures
        config_problem(c) is None <==> {
            &&& c.server.port > 0
            &&& c.server.max_body_size.0 > 0
            &&& c.server.max_concurrent_requests > 0
            &&& c.runtime.worker_threads > 0
            &&& c.timeout.connect > 0 && c.timeout.request > 0
            &&& c.pool.max_idle_per_host > 0 && c.pool.idle_timeout > 0
            &&& c.security.api_key_file@.len() > 0
            &&& c.providers.spec_entries().len() > 0
            &&& forall|i: int|
                0 <= i < c.providers.spec_entries().len() ==> (#[trigger] provider_problem(
                    c.providers.spec_entries()[i].0,
                    c.providers.spec_entries()[i].1,
                )) is None
            &&& c.proxy matches Some(px) ==> (url_parse(px.url@) matches Ok(u) && (u.scheme
                == "http"@ || u.scheme == "https"@ || u.scheme == "socks5"@ || u.scheme
                == "socks5h"@))
        },
{
    let entries = c.providers.spec_entries();
    if first_provider_problem(entries, 0) is None {
        assert forall|i: int| 0 <= i < entries.len() implies (#[trigger] provider_problem(
            entries[i].0,
            entries[i].1,
        )) is None by {
            lemma_no_problem_from(entries, 0, i);
        }
    }
    if forall|i: int| 0 <= i < entries.len() ==> (#[trigger] provider_problem(entries[i].0, entries[i].1)) is None {
        lemma_all_providers_fine(entries, 0);
    }
}

/// A host named `localhost` or `localhost.localdomain`, in any letter case and with any
/// trailing dots, and a URL without a host, count as private targets.
pub proof fn lemma_localhost_is_private(h: Seq<char>)
    requires
        lower(strip_end(h, '.')) == "localhost"@ || lower(strip_end(h, '.')) == "localhost.localdomain"@,
    ensures
        private_target(Some(h)),
        private_target(None),
{
}

} // verus!

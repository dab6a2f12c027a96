//! Operations on strings seen as sequences of characters.

use vstd::prelude::*;

verus! {

/// Appends one character to a string with `String::push`; trusted to leave the old
/// characters in place and add `c` after them, as its documentation says.
#[verifier::external_body]
pub(crate) fn push_char(s: &mut String, c: char)
    ensures
        final(s)@ == old(s)@.push(c),
{
    s.push(c);
}

/// The characters of `s`, in order.
pub fn to_chars(s: &str) -> (chars: Vec<char>)
    ensures
        chars@ == s@,
{
    broadcast use vstd::string::group_string_axioms;

    let mut chars: Vec<char> = Vec::new();
    for c in it: s.chars()
        invariant
            it.seq() == s@,
            chars@ == it.seq().take(it.index()),
    {
        chars.push(c);
    }
    chars
}

/// A string holding exactly the characters of `chars`.
pub fn from_chars(chars: &[char]) -> (s: String)
    ensures
        s@ == chars@,
{
    let mut s = String::new();
    let n = chars.len();
    for i in 0..n
        invariant
            n == chars@.len(),
            s@ == chars@.subrange(0, i as int),
    {
        push_char(&mut s, chars[i]);
        assert(chars@.subrange(0, i + 1) == chars@.subrange(0, i as int).push(chars@[i as int]));
    }
    assert(chars@.subrange(0, n as int) == chars@);
    s
}

} // verus!

verus! {

/// Rust's `char::is_whitespace`: the Unicode `White_Space` property.
pub open spec fn is_space(c: char) -> bool {
    ||| ('\u{9}' <= c && c <= '\u{d}')
    ||| c == ' '
    ||| c == '\u{85}'
    ||| c == '\u{a0}'
    ||| c == '\u{1680}'
    ||| ('\u{2000}' <= c && c <= '\u{200a}')
    ||| c == '\u{2028}'
    ||| c == '\u{2029}'
    ||| c == '\u{202f}'
    ||| c == '\u{205f}'
    ||| c == '\u{3000}'
}

pub open spec fn is_digit(c: char) -> bool {
    '0' <= c && c <= '9'
}

pub open spec fn is_ascii_alpha(c: char) -> bool {
    ('a' <= c && c <= 'z') || ('A' <= c && c <= 'Z')
}

pub open spec fn is_ascii_alnum(c: char) -> bool {
    is_digit(c) || is_ascii_alpha(c)
}

/// `char::to_ascii_lowercase`.
pub open spec fn lower_char(c: char) -> char {
    if 'A' <= c && c <= 'Z' {
        ((c as u32) + 32) as char
    } else {
        c
    }
}

/// `str::to_ascii_lowercase`.
pub open spec fn lower(s: Seq<char>) -> Seq<char> {
    s.map_values(|c: char| lower_char(c))
}

/// `s` without its leading whitespace.
pub open spec fn trim_start(s: Seq<char>) -> Seq<char>
    decreases s.len(),
{
    if s.len() > 0 && is_space(s[0]) {
        trim_start(s.drop_first())
    } else {
        s
    }
}

/// `s` without its trailing whitespace.
pub open spec fn trim_end(s: Seq<char>) -> Seq<char>
    decreases s.len(),
{
    if s.len() > 0 && is_space(s.last()) {
        trim_end(s.drop_last())
    } else {
        s
    }
}

/// `str::trim`.
pub open spec fn trim(s: Seq<char>) -> Seq<char> {
    trim_end(trim_start(s))
}

/// `s` without any leading copies of `c` (`str::trim_start_matches`).
pub open spec fn strip_start(s: Seq<char>, c: char) -> Seq<char>
    decreases s.len(),
{
    if s.len() > 0 && s[0] == c {
        strip_start(s.drop_first(), c)
    } else {
        s
    }
}

/// `s` without any trailing copies of `c` (`str::trim_end_matches`).
pub open spec fn strip_end(s: Seq<char>, c: char) -> Seq<char>
    decreases s.len(),
{
    if s.len() > 0 && s.last() == c {
        strip_end(s.drop_last(), c)
    } else {
        s
    }
}

pub open spec fn starts_with(s: Seq<char>, prefix: Seq<char>) -> bool {
    prefix.len() <= s.len() && s.take(prefix.len() as int) == prefix
}

/// Whether `c` is whitespace.
pub fn char_is_space(c: char) -> (b: bool)
    ensures
        b == is_space(c),
{
    ('\u{9}' <= c && c <= '\u{d}') || c == ' ' || c == '\u{85}' || c == '\u{a0}' || c
        == '\u{1680}' || ('\u{2000}' <= c && c <= '\u{200a}') || c == '\u{2028}' || c
        == '\u{2029}' || c == '\u{202f}' || c == '\u{205f}' || c == '\u{3000}'
}

/// `char::to_ascii_lowercase`.
pub fn char_lower(c: char) -> (l: char)
    ensures
        l == lower_char(c),
{
    if 'A' <= c && c <= 'Z' {
        let code: u8 = (c as u32 + 32) as u8;
        code as char
    } else {
        c
    }
}

/// The part of `s` between the first and the last non-whitespace character.
pub fn trim_chars(s: &[char]) -> (t: Vec<char>)
    ensures
        t@ == trim(s@),
{
    let n = s.len();
    let mut start: usize = 0;
    assert(s@.skip(0) =~= s@);
    while start < n && char_is_space(s[start])
        invariant
            n == s@.len(),
            start <= n,
            trim_start(s@) == trim_start(s@.skip(start as int)),
        decreases n - start,
    {
        assert(s@.skip(start as int).drop_first() =~= s@.skip(start + 1));
        start = start + 1;
    }
    let mut end: usize = n;
    while end > start && char_is_space(s[end - 1])
        invariant
            n == s@.len(),
            start <= end <= n,
            trim_end(s@.skip(start as int)) == trim_end(s@.subrange(start as int, end as int)),
        decreases end - start,
    {
        assert(s@.subrange(start as int, end as int).drop_last() =~= s@.subrange(
            start as int,
            end - 1,
        ));
        end = end - 1;
    }
    assert(s@.skip(start as int) =~= s@.subrange(start as int, n as int));
    let mut t: Vec<char> = Vec::new();
    let mut i = start;
    while i < end
        invariant
            n == s@.len(),
            start <= i <= end <= n,
            t@ == s@.subrange(start as int, i as int),
        decreases end - i,
    {
        t.push(s[i]);
        assert(s@.subrange(start as int, i + 1) =~= s@.subrange(start as int, i as int).push(
            s@[i as int],
        ));
        i = i + 1;
    }
    t
}

/// `s` with every ASCII capital turned into lowercase.
pub fn lower_chars(s: &[char]) -> (l: Vec<char>)
    ensures
        l@ == lower(s@),
{
    let mut l: Vec<char> = Vec::new();
    let n = s.len();
    for i in 0..n
        invariant
            n == s@.len(),
            l@ == lower(s@.take(i as int)),
    {
        l.push(char_lower(s[i]));
        assert(lower(s@.take(i + 1)) =~= lower(s@.take(i as int)).push(lower_char(s@[i as int])));
    }
    assert(s@.take(n as int) =~= s@);
    l
}

/// `s` without leading copies of `c`.
pub fn strip_start_chars(s: &[char], c: char) -> (t: Vec<char>)
    ensures
        t@ == strip_start(s@, c),
{
    let n = s.len();
    let mut start: usize = 0;
    assert(s@.skip(0) =~= s@);
    while start < n && s[start] == c
        invariant
            n == s@.len(),
            start <= n,
            strip_start(s@, c) == strip_start(s@.skip(start as int), c),
        decreases n - start,
    {
        assert(s@.skip(start as int).drop_first() =~= s@.skip(start + 1));
        start = start + 1;
    }
    copy_range(s, start, n)
}

/// `s` without trailing copies of `c`.
pub fn strip_end_chars(s: &[char], c: char) -> (t: Vec<char>)
    ensures
        t@ == strip_end(s@, c),
{
    let n = s.len();
    let mut end: usize = n;
    assert(s@.take(n as int) =~= s@);
    while end > 0 && s[end - 1] == c
        invariant
            n == s@.len(),
            end <= n,
            strip_end(s@, c) == strip_end(s@.take(end as int), c),
        decreases end,
    {
        assert(s@.take(end as int).drop_last() =~= s@.take(end - 1));
        end = end - 1;
    }
    assert(s@.take(n as int) =~= s@);
    copy_range(s, 0, end)
}

/// The characters of `s` from `start` up to `end`.
pub fn copy_range(s: &[char], start: usize, end: usize) -> (t: Vec<char>)
    requires
        start <= end <= s@.len(),
    ensures
        t@ == s@.subrange(start as int, end as int),
{
    let mut t: Vec<char> = Vec::new();
    let mut i = start;
    while i < end
        invariant
            start <= i <= end <= s@.len(),
            t@ == s@.subrange(start as int, i as int),
        decreases end - i,
    {
        t.push(s[i]);
        assert(s@.subrange(start as int, i + 1) =~= s@.subrange(start as int, i as int).push(
            s@[i as int],
        ));
        i = i + 1;
    }
    t
}

/// Whether `s` begins with `prefix`.
pub fn has_prefix(s: &[char], prefix: &[char]) -> (b: bool)
    ensures
        b == starts_with(s@, prefix@),
{
    if prefix.len() > s.len() {
        return false;
    }
    let n = prefix.len();
    for i in 0..n
        invariant
            n == prefix@.len(),
            n <= s@.len(),
            forall|j: int| 0 <= j < i ==> s@[j] == prefix@[j],
    {
        if s[i] != prefix[i] {
            return false;
        }
    }
    assert(s@.take(n as int) =~= prefix@);
    true
}

/// Whether two character sequences are equal.
pub fn chars_eq(a: &[char], b: &[char]) -> (e: bool)
    ensures
        e == (a@ == b@),
{
    if a.len() != b.len() {
        return false;
    }
    let n = a.len();
    for i in 0..n
        invariant
            n == a@.len(),
            n == b@.len(),
            forall|j: int| 0 <= j < i ==> a@[j] == b@[j],
    {
        if a[i] != b[i] {
            return false;
        }
    }
    assert(a@ =~= b@);
    true
}

/// Whether `s` holds the same characters as `lit`.
pub fn chars_eq_str(s: &[char], lit: &str) -> (e: bool)
    ensures
        e == (s@ == lit@),
{
    let l = to_chars(lit);
    chars_eq(s, l.as_slice())
}

/// A new string holding `a` followed by `b` followed by `c`.
pub fn concat3(a: &str, b: &str, c: &str) -> (s: String)
    ensures
        s@ == a@ + b@ + c@,
{
    let mut s = String::from_str(a);
    s.append(b);
    s.append(c);
    s
}

} // verus!

verus! {

/// What `{:?}` prints for a string: the string quoted, with its characters escaped as
/// `char::escape_debug` escapes them.
pub uninterp spec fn debug_text(s: Seq<char>) -> Seq<char>;

/// Formats `s` with `{:?}` (`<str as Debug>::fmt`); trusted to give `debug_text` of the
/// characters, a function of them alone. What that text is (quotes and `escape_debug`) is not
/// stated.
#[verifier::external_body]
pub(crate) fn debug_quote(s: &str) -> (q: String)
    ensures
        q@ == debug_text(s@),
{
    format!("{s:?}")
}

/// `prefix`, then `s` as `{:?}` prints it, then `suffix`.
pub fn quoted_message(prefix: &str, s: &[char], suffix: &str) -> (m: String)
    ensures
        m@ == prefix@ + debug_text(s@) + suffix@,
{
    let text = from_chars(s);
    let q = debug_quote(text.as_str());
    concat3(prefix, q.as_str(), suffix)
}

} // verus!

verus! {

/// The order of `String`s: lexicographic by code point, a proper prefix first.
pub open spec fn chars_lt(a: Seq<char>, b: Seq<char>) -> bool
    decreases a.len(),
{
    if a.len() == 0 {
        b.len() > 0
    } else if b.len() == 0 {
        false
    } else if a[0] != b[0] {
        a[0] < b[0]
    } else {
        chars_lt(a.drop_first(), b.drop_first())
    }
}

pub proof fn lemma_chars_lt_irreflexive(a: Seq<char>)
    ensures
        !chars_lt(a, a),
    decreases a.len(),
{
    if a.len() > 0 {
        lemma_chars_lt_irreflexive(a.drop_first());
    }
}

pub proof fn lemma_chars_lt_transitive(a: Seq<char>, b: Seq<char>, c: Seq<char>)
    requires
        chars_lt(a, b),
        chars_lt(b, c),
    ensures
        chars_lt(a, c),
    decreases a.len(),
{
    if a.len() > 0 && b.len() > 0 && c.len() > 0 && a[0] == b[0] && b[0] == c[0] {
        lemma_chars_lt_transitive(a.drop_first(), b.drop_first(), c.drop_first());
    }
}

pub proof fn lemma_chars_lt_total(a: Seq<char>, b: Seq<char>)
    ensures
        a == b || chars_lt(a, b) || chars_lt(b, a),
    decreases a.len(),
{
    if a.len() > 0 && b.len() > 0 && a[0] == b[0] {
        lemma_chars_lt_total(a.drop_first(), b.drop_first());
        if a.drop_first() == b.drop_first() {
            assert(a =~= seq![a[0]] + a.drop_first());
            assert(b =~= seq![b[0]] + b.drop_first());
        }
    } else if a.len() == 0 && b.len() == 0 {
        assert(a =~= b);
    }
}

/// Whether `a` comes before `b` in the order of strings.
pub fn chars_less(a: &[char], b: &[char]) -> (lt: bool)
    ensures
        lt == chars_lt(a@, b@),
{
    let mut i: usize = 0;
    assert(a@.skip(0) =~= a@);
    assert(b@.skip(0) =~= b@);
    loop
        invariant
            i <= a@.len(),
            i <= b@.len(),
            chars_lt(a@, b@) == chars_lt(a@.skip(i as int), b@.skip(i as int)),
        decreases a@.len() - i,
    {
        if i == a.len() {
            return i < b.len();
        }
        if i == b.len() {
            return false;
        }
        if a[i] != b[i] {
            return a[i] < b[i];
        }
        assert(a@.skip(i as int).drop_first() =~= a@.skip(i + 1));
        assert(b@.skip(i as int).drop_first() =~= b@.skip(i + 1));
        i = i + 1;
    }
}

} // verus!

verus! {

/// The pieces of `s` between the copies of `sep` (`str::split`); there is always at least one.
pub open spec fn split_on(s: Seq<char>, sep: char) -> Seq<Seq<char>>
    decreases s.len(),
{
    if s.len() == 0 {
        seq![Seq::<char>::empty()]
    } else {
        let r = split_on(s.drop_last(), sep);
        if s.last() == sep {
            r.push(Seq::<char>::empty())
        } else {
            r.update(r.len() - 1, r.last().push(s.last()))
        }
    }
}

pub proof fn lemma_split_on_nonempty(s: Seq<char>, sep: char)
    ensures
        split_on(s, sep).len() >= 1,
    decreases s.len(),
{
    if s.len() > 0 {
        lemma_split_on_nonempty(s.drop_last(), sep);
    }
}

/// The views of a list of character vectors.
pub open spec fn pieces_view(v: Seq<Vec<char>>) -> Seq<Seq<char>> {
    v.map_values(|x: Vec<char>| x@)
}

/// Splits `s` at every `sep`.
pub fn split_chars(s: &[char], sep: char) -> (pieces: Vec<Vec<char>>)
    ensures
        pieces_view(pieces@) == split_on(s@, sep),
        pieces@.len() >= 1,
{
    let mut pieces: Vec<Vec<char>> = Vec::new();
    let mut current: Vec<char> = Vec::new();
    let n = s.len();
    assert(s@.take(0) =~= Seq::<char>::empty());
    for i in 0..n
        invariant
            n == s@.len(),
            pieces_view(pieces@).push(current@) == split_on(s@.take(i as int), sep),
    {
        proof {
            lemma_split_on_nonempty(s@.take(i as int), sep);
        }
        assert(s@.take(i + 1).drop_last() =~= s@.take(i as int));
        if s[i] == sep {
            let mut done: Vec<char> = Vec::new();
            std::mem::swap(&mut done, &mut current);
            pieces.push(done);
            assert(pieces_view(pieces@).push(current@) =~= split_on(s@.take(i as int), sep).push(
                Seq::<char>::empty(),
            ));
        } else {
            let ghost before = pieces_view(pieces@).push(current@);
            current.push(s[i]);
            assert(pieces_view(pieces@).push(current@) =~= before.update(
                before.len() - 1,
                before.last().push(s@[i as int]),
            ));
        }
    }
    assert(s@.take(n as int) =~= s@);
    pieces.push(current);
    assert(pieces_view(pieces@) =~= split_on(s@, sep));
    pieces
}

} // verus!

verus! {

/// The number of leading ASCII digits of `s`.
pub open spec fn digit_prefix_len(s: Seq<char>) -> nat
    decreases s.len(),
{
    if s.len() > 0 && is_digit(s[0]) {
        1 + digit_prefix_len(s.drop_first())
    } else {
        0
    }
}

/// The number that a string of ASCII digits spells in base ten.
pub open spec fn decimal_value(s: Seq<char>) -> nat
    decreases s.len(),
{
    if s.len() == 0 {
        0
    } else {
        decimal_value(s.drop_last()) * 10 + ((s.last() as int - '0' as int) as nat)
    }
}

} // verus!

verus! {

/// Whether `s` and `lit` hold the same characters.
pub fn str_is(s: &str, lit: &str) -> (b: bool)
    ensures
        b == (s@ == lit@),
{
    let a = to_chars(s);
    chars_eq_str(a.as_slice(), lit)
}

/// Whether `s` begins with `prefix`.
pub fn str_starts_with(s: &str, prefix: &str) -> (b: bool)
    ensures
        b == starts_with(s@, prefix@),
{
    let a = to_chars(s);
    let p = to_chars(prefix);
    has_prefix(a.as_slice(), p.as_slice())
}

/// `s` without any number of leading copies of `prefix` (`str::trim_start_matches` with a
/// string pattern).
pub open spec fn strip_prefixes(s: Seq<char>, prefix: Seq<char>) -> Seq<char>
    decreases s.len(),
{
    if prefix.len() > 0 && starts_with(s, prefix) {
        strip_prefixes(s.skip(prefix.len() as int), prefix)
    } else {
        s
    }
}

/// `s` without any number of leading copies of `prefix`.
pub fn strip_prefixes_str(s: &str, prefix: &str) -> (t: String)
    ensures
        t@ == strip_prefixes(s@, prefix@),
{
    let a = to_chars(s);
    let p = to_chars(prefix);
    let n = a.len();
    let m = p.len();
    let mut start: usize = 0;
    assert(a@.skip(0) =~= a@);
    while m > 0 && start <= n && n - start >= m && has_prefix_at(a.as_slice(), start, p.as_slice())
        invariant
            n == a@.len(),
            m == p@.len(),
            a@ == s@,
            p@ == prefix@,
            start <= n,
            strip_prefixes(s@, prefix@) == strip_prefixes(a@.skip(start as int), prefix@),
        decreases n - start,
    {
        assert(a@.skip(start as int).skip(m as int) =~= a@.skip(start + m));
        start = start + m;
    }
    proof {
        if m > 0 && n - start >= m {
            assert(!starts_with(a@.skip(start as int), p@));
        }
    }
    let rest = copy_range(a.as_slice(), start, n);
    assert(rest@ =~= a@.skip(start as int));
    from_chars(rest.as_slice())
}

/// Whether `s`, from position `start`, begins with `prefix`.
pub fn has_prefix_at(s: &[char], start: usize, prefix: &[char]) -> (b: bool)
    requires
        start <= s@.len(),
    ensures
        b == starts_with(s@.skip(start as int), prefix@),
{
    let n = s.len();
    let m = prefix.len();
    if n - start < m {
        return false;
    }
    for i in 0..m
        invariant
            n == s@.len(),
            m == prefix@.len(),
            start + m <= n,
            forall|j: int| 0 <= j < i ==> s@[start + j] == prefix@[j],
    {
        if s[start + i] != prefix[i] {
            assert(s@.skip(start as int).take(m as int)[i as int] != prefix@[i as int]);
            return false;
        }
    }
    assert(s@.skip(start as int).take(m as int) =~= prefix@);
    true
}

/// The pieces of `parts` joined with `sep` between them (`[T]::join`).
pub open spec fn join_with(parts: Seq<Seq<char>>, sep: Seq<char>) -> Seq<char>
    decreases parts.len(),
{
    if parts.len() == 0 {
        Seq::<char>::empty()
    } else if parts.len() == 1 {
        parts[0]
    } else {
        join_with(parts.drop_last(), sep) + sep + parts.last()
    }
}

/// The views of a list of strings.
pub open spec fn strings_view(v: Seq<String>) -> Seq<Seq<char>> {
    v.map_values(|s: String| s@)
}

/// The strings of `parts` joined with `sep` between them.
pub fn join_strings(parts: &[String], sep: &str) -> (s: String)
    ensures
        s@ == join_with(strings_view(parts@), sep@),
{
    let mut s = String::new();
    let n = parts.len();
    for i in 0..n
        invariant
            n == parts@.len(),
            s@ == join_with(strings_view(parts@.take(i as int)), sep@),
    {
        assert(strings_view(parts@.take(i + 1)).drop_last() =~= strings_view(parts@.take(i as int)));
        if i > 0 {
            s.append(sep);
        } else {
            assert(s@ =~= Seq::<char>::empty());
        }
        s.append(parts[i].as_str());
    }
    assert(parts@.take(n as int) =~= parts@);
    s
}

} // verus!

verus! {

/// The lowercase hexadecimal digit for `d`.
pub open spec fn hex_digit_char(d: nat) -> char {
    if d < 10 {
        (d + '0' as nat) as char
    } else {
        (d - 10 + 'a' as nat) as char
    }
}

/// `n` in lowercase hexadecimal without leading zeros (`{:x}`).
pub open spec fn hex_text(n: nat) -> Seq<char>
    decreases n,
{
    if n < 16 {
        seq![hex_digit_char(n)]
    } else {
        hex_text(n / 16).push(hex_digit_char(n % 16))
    }
}

/// `n` in decimal without leading zeros (`{}`).
pub open spec fn decimal_text(n: nat) -> Seq<char>
    decreases n,
{
    if n < 10 {
        seq![(n + '0' as nat) as char]
    } else {
        decimal_text(n / 10).push(((n % 10) + '0' as nat) as char)
    }
}

pub(crate) fn digit_char(d: u32) -> (c: char)
    requires
        d < 16,
    ensures
        c == hex_digit_char(d as nat),
{
    if d < 10 {
        ((d + 48) as u8) as char
    } else {
        ((d - 10 + 97) as u8) as char
    }
}

/// The characters of `digits` in reverse order, as a string.
fn reversed_string(digits: &Vec<char>) -> (s: String)
    ensures
        s@ == digits@.reverse(),
{
    let mut s = String::new();
    let mut i = digits.len();
    assert(digits@.take(i as int) =~= digits@);
    while i > 0
        invariant
            i <= digits@.len(),
            s@ + digits@.take(i as int).reverse() == digits@.reverse(),
        decreases i,
    {
        let ghost before = s@;
        push_char(&mut s, digits[i - 1]);
        assert(digits@.take(i as int).reverse() =~= seq![digits@[i - 1]] + digits@.take(
            i - 1,
        ).reverse());
        assert(s@ + digits@.take(i - 1).reverse() =~= before + digits@.take(i as int).reverse());
        i = i - 1;
    }
    assert(s@ + digits@.take(0).reverse() =~= s@);
    s
}

/// `n` in lowercase hexadecimal.
pub fn hex_string(n: u128) -> (s: String)
    ensures
        s@ == hex_text(n as nat),
{
    let mut digits: Vec<char> = Vec::new();
    let mut rest: u128 = n;
    while rest >= 16
        invariant
            hex_text(n as nat) == hex_text(rest as nat) + digits@.reverse(),
        decreases rest,
    {
        let d = digit_char((rest % 16) as u32);
        assert(hex_text(rest as nat) == hex_text((rest / 16) as nat).push(d));
        let ghost before = digits@;
        digits.push(d);
        assert(digits@.reverse() =~= seq![d] + before.reverse());
        assert(hex_text((rest / 16) as nat).push(d) + before.reverse() =~= hex_text((rest / 16) as nat) + digits@.reverse());
        rest = rest / 16;
    }
    let d = digit_char(rest as u32);
    let ghost before = digits@;
    digits.push(d);
    assert(digits@.reverse() =~= seq![d] + before.reverse());
    assert(hex_text(rest as nat) == seq![d]);
    let s = reversed_string(&digits);
    assert(Seq::<char>::empty() + digits@.reverse() =~= digits@.reverse());
    s
}

/// `n` in decimal.
pub fn decimal_string(n: u64) -> (s: String)
    ensures
        s@ == decimal_text(n as nat),
{
    let mut digits: Vec<char> = Vec::new();
    let mut rest: u64 = n;
    while rest >= 10
        invariant
            decimal_text(n as nat) == decimal_text(rest as nat) + digits@.reverse(),
        decreases rest,
    {
        let d = ((rest % 10) as u8 + 48) as char;
        assert(decimal_text(rest as nat) == decimal_text((rest / 10) as nat).push(d));
        let ghost before = digits@;
        digits.push(d);
        assert(digits@.reverse() =~= seq![d] + before.reverse());
        assert(decimal_text((rest / 10) as nat).push(d) + before.reverse() =~= decimal_text(
            (rest / 10) as nat,
        ) + digits@.reverse());
        rest = rest / 10;
    }
    let d = (rest as u8 + 48) as char;
    let ghost before = digits@;
    digits.push(d);
    assert(digits@.reverse() =~= seq![d] + before.reverse());
    assert(decimal_text(rest as nat) == seq![d]);
    let s = reversed_string(&digits);
    assert(Seq::<char>::empty() + digits@.reverse() =~= digits@.reverse());
    s
}

} // verus!

verus! {

/// Whether every character of `s` is whitespace.
pub open spec fn all_space(s: Seq<char>) -> bool {
    forall|i: int| 0 <= i < s.len() ==> is_space(#[trigger] s[i])
}

/// Leading whitespace does not change what `trim_start` leaves.
pub proof fn lemma_trim_start_skips_spaces(w: Seq<char>, s: Seq<char>)
    requires
        all_space(w),
    ensures
        trim_start(w + s) == trim_start(s),
    decreases w.len(),
{
    if w.len() == 0 {
        assert(w + s =~= s);
    } else {
        assert(is_space(w[0]));
        assert((w + s)[0] == w[0]);
        assert((w + s).drop_first() =~= w.drop_first() + s);
        lemma_trim_start_skips_spaces(w.drop_first(), s);
    }
}

/// Trailing whitespace does not change what `trim_end` leaves.
pub proof fn lemma_trim_end_skips_spaces(s: Seq<char>, w: Seq<char>)
    requires
        all_space(w),
    ensures
        trim_end(s + w) == trim_end(s),
    decreases w.len(),
{
    if w.len() == 0 {
        assert(s + w =~= s);
    } else {
        assert(is_space(w[w.len() - 1]));
        assert((s + w).last() == w.last());
        assert((s + w).drop_last() =~= s + w.drop_last());
        lemma_trim_end_skips_spaces(s, w.drop_last());
    }
}

proof fn lemma_trim_ignores_trailing_spaces(s: Seq<char>, w: Seq<char>)
    requires
        all_space(w),
    ensures
        trim(s + w) == trim(s),
    decreases s.len(),
{
    if s.len() == 0 {
        assert(s + w =~= w);
        lemma_trim_start_skips_spaces(w, Seq::<char>::empty());
        assert(w + Seq::<char>::empty() =~= w);
    } else if is_space(s[0]) {
        assert((s + w)[0] == s[0]);
        assert((s + w).drop_first() =~= s.drop_first() + w);
        lemma_trim_ignores_trailing_spaces(s.drop_first(), w);
    } else {
        assert((s + w)[0] == s[0]);
        lemma_trim_end_skips_spaces(s, w);
    }
}

/// Whitespace around a string does not change what `trim` leaves.
pub proof fn lemma_trim_ignores_outer_spaces(w1: Seq<char>, s: Seq<char>, w2: Seq<char>)
    requires
        all_space(w1),
        all_space(w2),
    ensures
        trim(w1 + s + w2) == trim(s),
{
    assert(w1 + s + w2 =~= w1 + (s + w2));
    lemma_trim_start_skips_spaces(w1, s + w2);
    lemma_trim_ignores_trailing_spaces(s, w2);
}

/// `char::to_ascii_uppercase`.
pub open spec fn upper_char(c: char) -> char {
    if 'a' <= c && c <= 'z' {
        ((c as u32) - 32) as char
    } else {
        c
    }
}

/// `str::to_ascii_uppercase`.
pub open spec fn upper(s: Seq<char>) -> Seq<char> {
    s.map_values(|c: char| upper_char(c))
}

proof fn lemma_upper_trim_start(s: Seq<char>)
    ensures
        trim_start(upper(s)) == upper(trim_start(s)),
    decreases s.len(),
{
    if s.len() > 0 {
        assert(upper(s)[0] == upper_char(s[0]));
        assert(is_space(upper_char(s[0])) == is_space(s[0]));
        assert(upper(s).drop_first() =~= upper(s.drop_first()));
        lemma_upper_trim_start(s.drop_first());
    }
}

proof fn lemma_upper_trim_end(s: Seq<char>)
    ensures
        trim_end(upper(s)) == upper(trim_end(s)),
    decreases s.len(),
{
    if s.len() > 0 {
        assert(upper(s).last() == upper_char(s.last()));
        assert(is_space(upper_char(s.last())) == is_space(s.last()));
        assert(upper(s).drop_last() =~= upper(s.drop_last()));
        lemma_upper_trim_end(s.drop_last());
    }
}

/// Upper-casing and trimming may be done in either order.
pub proof fn lemma_upper_trim(s: Seq<char>)
    ensures
        trim(upper(s)) == upper(trim(s)),
{
    lemma_upper_trim_start(s);
    lemma_upper_trim_end(trim_start(s));
}

/// The leading digits of a string are digits, and there are no more of them than characters.
pub proof fn lemma_digit_prefix_digits(s: Seq<char>)
    ensures
        digit_prefix_len(s) <= s.len(),
        forall|j: int| 0 <= j < digit_prefix_len(s) ==> is_digit(#[trigger] s[j]),
    decreases s.len(),
{
    if s.len() > 0 && is_digit(s[0]) {
        lemma_digit_prefix_digits(s.drop_first());
        assert forall|j: int| 0 <= j < digit_prefix_len(s) implies is_digit(#[trigger] s[j]) by {
            if j > 0 {
                assert(s[j] == s.drop_first()[j - 1]);
            }
        }
    }
}

/// Upper-casing keeps the leading ASCII digits as they are.
pub proof fn lemma_upper_digit_prefix(s: Seq<char>)
    ensures
        digit_prefix_len(upper(s)) == digit_prefix_len(s),
        upper(s).take(digit_prefix_len(s) as int) == s.take(digit_prefix_len(s) as int),
    decreases s.len(),
{
    if s.len() > 0 {
        assert(upper(s)[0] == upper_char(s[0]));
        assert(upper(s).drop_first() =~= upper(s.drop_first()));
        lemma_upper_digit_prefix(s.drop_first());
        if !is_digit(s[0]) {
            assert(!is_digit(upper_char(s[0])));
        }
    }
    lemma_digit_prefix_digits(s);
    let k = digit_prefix_len(s) as int;
    assert forall|j: int| 0 <= j < k implies upper(s).take(k)[j] == s.take(k)[j] by {
        assert(is_digit(s[j]));
        assert(upper(s)[j] == upper_char(s[j]));
    }
    assert(upper(s).take(k) =~= s.take(k));
}

/// Lower-casing an upper-cased string gives what lower-casing the string gives.
pub proof fn lemma_lower_upper(s: Seq<char>)
    ensures
        lower(upper(s)) == lower(s),
{
    assert forall|i: int| 0 <= i < s.len() implies lower(upper(s))[i] == lower(s)[i] by {
        let c = s[i];
        assert(lower_char(upper_char(c)) == lower_char(c));
    }
    assert(lower(upper(s)) =~= lower(s));
}

} // verus!

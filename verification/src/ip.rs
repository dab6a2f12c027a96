//! Reading IP address literals the way `str::parse::<IpAddr>` reads them, and telling
//! private and local addresses apart.

use vstd::prelude::*;

use crate::text::{decimal_value, is_digit, pieces_view, split_chars, split_on};

verus! {

pub open spec fn is_hex_digit(c: char) -> bool {
    is_digit(c) || ('a' <= c && c <= 'f') || ('A' <= c && c <= 'F')
}

pub open spec fn hex_digit_value(c: char) -> nat {
    if is_digit(c) {
        (c as int - '0' as int) as nat
    } else if 'a' <= c && c <= 'f' {
        (c as int - 'a' as int + 10) as nat
    } else {
        (c as int - 'A' as int + 10) as nat
    }
}

/// The number that a string of hexadecimal digits spells.
pub open spec fn hex_value(s: Seq<char>) -> nat
    decreases s.len(),
{
    if s.len() == 0 {
        0
    } else {
        hex_value(s.drop_last()) * 16 + hex_digit_value(s.last())
    }
}

/// One part of a dotted IPv4 address: one to three decimal digits, no leading zero unless
/// it is the only digit, at most 255.
pub open spec fn octet_ok(p: Seq<char>) -> bool {
    &&& 1 <= p.len() <= 3
    &&& forall|i: int| 0 <= i < p.len() ==> is_digit(#[trigger] p[i])
    &&& (p.len() == 1 || p[0] != '0')
    &&& decimal_value(p) <= 255
}

/// The four octets of a dotted IPv4 address.
pub open spec fn ipv4_octets(s: Seq<char>) -> Option<Seq<nat>> {
    let parts = split_on(s, '.');
    if parts.len() == 4 && (forall|i: int| 0 <= i < 4 ==> octet_ok(#[trigger] parts[i])) {
        Some(parts.map_values(|p: Seq<char>| decimal_value(p)))
    } else {
        None
    }
}

/// One group of an IPv6 address: one to four hexadecimal digits.
pub open spec fn group_ok(p: Seq<char>) -> bool {
    &&& 1 <= p.len() <= 4
    &&& forall|i: int| 0 <= i < p.len() ==> is_hex_digit(#[trigger] p[i])
}

pub open spec fn all_groups_ok(parts: Seq<Seq<char>>) -> bool {
    forall|i: int| 0 <= i < parts.len() ==> group_ok(#[trigger] parts[i])
}

pub open spec fn hex_values(parts: Seq<Seq<char>>) -> Seq<nat> {
    parts.map_values(|p: Seq<char>| hex_value(p))
}

/// The 16-bit groups of colon-separated hexadecimal groups, hexadecimal groups only.
pub open spec fn hex_groups(parts: Seq<Seq<char>>) -> Option<Seq<nat>> {
    if all_groups_ok(parts) {
        Some(hex_values(parts))
    } else {
        None
    }
}

/// The 16-bit groups of colon-separated groups, of which the last may be a dotted IPv4
/// address standing for two groups.
pub open spec fn mixed_groups(parts: Seq<Seq<char>>) -> Option<Seq<nat>> {
    if parts.len() > 0 && ipv4_octets(parts.last()) is Some && all_groups_ok(parts.drop_last()) {
        let o = ipv4_octets(parts.last())->0;
        Some(hex_values(parts.drop_last()) + seq![o[0] * 256 + o[1], o[2] * 256 + o[3]])
    } else {
        hex_groups(parts)
    }
}

/// `k` is where the first `::` of `s` begins.
pub open spec fn first_double_colon(s: Seq<char>, k: int) -> bool {
    &&& 0 <= k && k + 1 < s.len()
    &&& s[k] == ':' && s[k + 1] == ':'
    &&& forall|j: int| 0 <= j < k ==> !(s[j] == ':' && #[trigger] s[j + 1] == ':')
}

/// The eight 16-bit groups of an IPv6 address: eight groups (the last two may be written as
/// a dotted IPv4 address), or groups before and after one `::` that stands for at least one
/// group of zeros.
pub open spec fn ipv6_groups(s: Seq<char>) -> Option<Seq<nat>> {
    if exists|k: int| first_double_colon(s, k) {
        let k = choose|k: int| first_double_colon(s, k);
        let head = s.take(k);
        let tail = s.skip(k + 2);
        let h = if head.len() == 0 {
            Some(Seq::<nat>::empty())
        } else {
            hex_groups(split_on(head, ':'))
        };
        let t = if tail.len() == 0 {
            Some(Seq::<nat>::empty())
        } else {
            mixed_groups(split_on(tail, ':'))
        };
        if h is Some && t is Some && h->0.len() + t->0.len() <= 7 {
            Some(h->0 + Seq::new((8 - h->0.len() - t->0.len()) as nat, |i: int| 0nat) + t->0)
        } else {
            None
        }
    } else {
        match mixed_groups(split_on(s, ':')) {
            Some(g) => if g.len() == 8 {
                Some(g)
            } else {
                None
            },
            None => None,
        }
    }
}

/// An IP address: four octets or eight 16-bit groups.
pub enum IpValue {
    V4(Seq<nat>),
    V6(Seq<nat>),
}

/// `str::parse::<IpAddr>`: an IPv4 address if `s` reads as one, else an IPv6 address.
pub open spec fn ip_of(s: Seq<char>) -> Option<IpValue> {
    match ipv4_octets(s) {
        Some(o) => Some(IpValue::V4(o)),
        None => match ipv6_groups(s) {
            Some(g) => Some(IpValue::V6(g)),
            None => None,
        },
    }
}

/// Private (RFC 1918), loopback, link-local, broadcast, documentation or unspecified.
pub open spec fn ipv4_is_local(o: Seq<nat>) -> bool {
    ||| o[0] == 10
    ||| (o[0] == 172 && 16 <= o[1] <= 31)
    ||| (o[0] == 192 && o[1] == 168)
    ||| o[0] == 127
    ||| (o[0] == 169 && o[1] == 254)
    ||| (o[0] == 255 && o[1] == 255 && o[2] == 255 && o[3] == 255)
    ||| (o[0] == 192 && o[1] == 0 && o[2] == 2)
    ||| (o[0] == 198 && o[1] == 51 && o[2] == 100)
    ||| (o[0] == 203 && o[1] == 0 && o[2] == 113)
    ||| (o[0] == 0 && o[1] == 0 && o[2] == 0 && o[3] == 0)
}

/// Loopback, unspecified, unique local (`fc00::/7`) or link-local unicast (`fe80::/10`).
pub open spec fn ipv6_is_local(g: Seq<nat>) -> bool {
    ||| ((forall|i: int| 0 <= i < 7 ==> g[i] == 0) && (g[7] == 0 || g[7] == 1))
    ||| (0xfc00 <= g[0] <= 0xfdff)
    ||| (0xfe80 <= g[0] <= 0xfebf)
}

pub open spec fn ip_is_local(ip: IpValue) -> bool {
    match ip {
        IpValue::V4(o) => ipv4_is_local(o),
        IpValue::V6(g) => ipv6_is_local(g),
    }
}

} // verus!

verus! {

pub open spec fn nat_view_u8(v: Seq<u8>) -> Seq<nat> {
    v.map_values(|x: u8| x as nat)
}

pub open spec fn nat_view_u16(v: Seq<u16>) -> Seq<nat> {
    v.map_values(|x: u16| x as nat)
}

/// The value of one dotted-IPv4 part.
fn parse_octet(p: &[char]) -> (r: Option<u8>)
    ensures
        match r {
            Some(v) => octet_ok(p@) && v as nat == decimal_value(p@),
            None => !octet_ok(p@),
        },
{
    let n = p.len();
    if n == 0 || n > 3 {
        return None;
    }
    if n > 1 && p[0] == '0' {
        return None;
    }
    let mut v: u32 = 0;
    for i in 0..n
        invariant
            n == p@.len(),
            1 <= n <= 3,
            forall|j: int| 0 <= j < i ==> is_digit(#[trigger] p@[j]),
            v == decimal_value(p@.take(i as int)),
            v <= (if i == 0 {
                0int
            } else if i == 1 {
                9
            } else if i == 2 {
                99
            } else {
                999
            }),
    {
        let c = p[i];
        if !('0' <= c && c <= '9') {
            return None;
        }
        assert(p@.take(i + 1).drop_last() =~= p@.take(i as int));
        v = v * 10 + (c as u32 - '0' as u32);
    }
    assert(p@.take(n as int) =~= p@);
    if v > 255 {
        return None;
    }
    Some(v as u8)
}

/// The value of one IPv6 group.
fn parse_group(p: &[char]) -> (r: Option<u16>)
    ensures
        match r {
            Some(v) => group_ok(p@) && v as nat == hex_value(p@),
            None => !group_ok(p@),
        },
{
    let n = p.len();
    if n == 0 || n > 4 {
        return None;
    }
    let mut v: u32 = 0;
    for i in 0..n
        invariant
            n == p@.len(),
            1 <= n <= 4,
            forall|j: int| 0 <= j < i ==> is_hex_digit(#[trigger] p@[j]),
            v == hex_value(p@.take(i as int)),
            v <= (if i == 0 {
                0int
            } else if i == 1 {
                15
            } else if i == 2 {
                255
            } else if i == 3 {
                4095
            } else {
                65535
            }),
    {
        let c = p[i];
        let d: u32 = if '0' <= c && c <= '9' {
            c as u32 - '0' as u32
        } else if 'a' <= c && c <= 'f' {
            c as u32 - 'a' as u32 + 10
        } else if 'A' <= c && c <= 'F' {
            c as u32 - 'A' as u32 + 10
        } else {
            return None;
        };
        assert(p@.take(i + 1).drop_last() =~= p@.take(i as int));
        v = v * 16 + d;
    }
    assert(p@.take(n as int) =~= p@);
    Some(v as u16)
}

/// The octets of a dotted IPv4 address.
pub fn parse_ipv4(s: &[char]) -> (r: Option<Vec<u8>>)
    ensures
        match r {
            Some(o) => o@.len() == 4 && ipv4_octets(s@) == Some(nat_view_u8(o@)),
            None => ipv4_octets(s@) is None,
        },
{
    let parts = split_chars(s, '.');
    let ghost pv = split_on(s@, '.');
    assert(pv == pieces_view(parts@));
    if parts.len() != 4 {
        return None;
    }
    let mut octets: Vec<u8> = Vec::new();
    for i in 0..4
        invariant
            pv == pieces_view(parts@),
            pv == split_on(s@, '.'),
            parts@.len() == 4,
            octets@.len() == i,
            forall|j: int| 0 <= j < i ==> octet_ok(#[trigger] pv[j]),
            forall|j: int| 0 <= j < i ==> octets@[j] as nat == decimal_value(#[trigger] pv[j]),
    {
        assert(pv[i as int] == parts@[i as int]@);
        match parse_octet(parts[i].as_slice()) {
            Some(v) => {
                octets.push(v);
            },
            None => {
                assert(!octet_ok(pv[i as int]));
                return None;
            },
        }
    }
    assert(nat_view_u8(octets@) =~= pv.map_values(|p: Seq<char>| decimal_value(p)));
    Some(octets)
}

/// The values of colon-separated hexadecimal groups.
fn parse_hex_groups(parts: &[Vec<char>]) -> (r: Option<Vec<u16>>)
    ensures
        match r {
            Some(g) => hex_groups(pieces_view(parts@)) == Some(nat_view_u16(g@)),
            None => hex_groups(pieces_view(parts@)) is None,
        },
{
    let ghost pv = pieces_view(parts@);
    let n = parts.len();
    let mut groups: Vec<u16> = Vec::new();
    for i in 0..n
        invariant
            n == parts@.len(),
            pv == pieces_view(parts@),
            groups@.len() == i,
            forall|j: int| 0 <= j < i ==> group_ok(#[trigger] pv[j]),
            forall|j: int| 0 <= j < i ==> groups@[j] as nat == hex_value(#[trigger] pv[j]),
    {
        assert(pv[i as int] == parts@[i as int]@);
        match parse_group(parts[i].as_slice()) {
            Some(v) => {
                groups.push(v);
            },
            None => {
                assert(!all_groups_ok(pv));
                return None;
            },
        }
    }
    assert(nat_view_u16(groups@) =~= hex_values(pv));
    Some(groups)
}

/// The values of colon-separated groups whose last may be a dotted IPv4 address.
fn parse_mixed_groups(parts: &[Vec<char>]) -> (r: Option<Vec<u16>>)
    ensures
        match r {
            Some(g) => mixed_groups(pieces_view(parts@)) == Some(nat_view_u16(g@)),
            None => mixed_groups(pieces_view(parts@)) is None,
        },
{
    let ghost pv = pieces_view(parts@);
    let n = parts.len();
    if n > 0 {
        assert(pv.last() == parts@[n - 1]@);
        match parse_ipv4(parts[n - 1].as_slice()) {
            Some(o) => {
                let front = &parts[0..n - 1];
                assert(pieces_view(front@) =~= pv.drop_last());
                match parse_hex_groups(front) {
                    Some(mut g) => {
                        let ghost gv = nat_view_u16(g@);
                        let hi: u16 = o[0] as u16 * 256 + o[1] as u16;
                        let lo: u16 = o[2] as u16 * 256 + o[3] as u16;
                        g.push(hi);
                        g.push(lo);
                        assert(nat_view_u16(g@) =~= gv + seq![
                            nat_view_u8(o@)[0] * 256 + nat_view_u8(o@)[1],
                            nat_view_u8(o@)[2] * 256 + nat_view_u8(o@)[3],
                        ]);
                        return Some(g);
                    },
                    None => {},
                }
            },
            None => {},
        }
    }
    parse_hex_groups(parts)
}

} // verus!

verus! {

/// The eight groups of an IPv6 address.
pub fn parse_ipv6(s: &[char]) -> (r: Option<Vec<u16>>)
    ensures
        match r {
            Some(g) => g@.len() == 8 && ipv6_groups(s@) == Some(nat_view_u16(g@)),
            None => ipv6_groups(s@) is None,
        },
{
    let n = s.len();
    let mut k: usize = 0;
    let mut found = false;
    while n > 0 && k < n - 1
        invariant_except_break
            !found,
        invariant
            n == s@.len(),
            forall|j: int| 0 <= j < k ==> !(s@[j] == ':' && #[trigger] s@[j + 1] == ':'),
        ensures
            found ==> first_double_colon(s@, k as int),
            found ==> k + 1 < n,
            !found ==> forall|j: int|
                0 <= j && j + 1 < n ==> !(s@[j] == ':' && #[trigger] s@[j + 1] == ':'),
        decreases n - k,
    {
        if s[k] == ':' && s[k + 1] == ':' {
            found = true;
            break;
        }
        k = k + 1;
    }
    if found {
        proof {
            let kk = choose|kk: int| first_double_colon(s@, kk);
            if kk < k {
                assert(!(s@[kk] == ':' && s@[kk + 1] == ':'));
            } else if kk > k {
                assert(!(s@[k as int] == ':' && s@[k + 1] == ':'));
            }
        }
        let head = crate::text::copy_range(s, 0, k);
        let tail = crate::text::copy_range(s, k + 2, n);
        assert(head@ =~= s@.take(k as int));
        assert(tail@ =~= s@.skip(k + 2));
        let h = if head.len() == 0 {
            let e: Vec<u16> = Vec::new();
            assert(nat_view_u16(e@) =~= Seq::<nat>::empty());
            Some(e)
        } else {
            let parts = split_chars(head.as_slice(), ':');
            parse_hex_groups(parts.as_slice())
        };
        let t = if tail.len() == 0 {
            let e: Vec<u16> = Vec::new();
            assert(nat_view_u16(e@) =~= Seq::<nat>::empty());
            Some(e)
        } else {
            let parts = split_chars(tail.as_slice(), ':');
            parse_mixed_groups(parts.as_slice())
        };
        match (h, t) {
            (Some(hg), Some(tg)) => {
                if hg.len() <= 7 && tg.len() <= 7 - hg.len() {
                    let mut g = hg;
                    let zeros = 8 - g.len() - tg.len();
                    let ghost hv = nat_view_u16(g@);
                    let ghost tv = nat_view_u16(tg@);
                    let mut z: usize = 0;
                    while z < zeros
                        invariant
                            z <= zeros,
                            nat_view_u16(g@) == hv + Seq::new(z as nat, |i: int| 0nat),
                        decreases zeros - z,
                    {
                        let ghost before = g@;
                        g.push(0);
                        assert(g@ == before.push(0u16));
                        assert(nat_view_u16(g@) =~= hv + Seq::new((z + 1) as nat, |i: int| 0nat)) by {
                            assert(nat_view_u16(g@) =~= nat_view_u16(before).push(0nat));
                        }
                        z = z + 1;
                    }
                    let mut j: usize = 0;
                    let ghost mid = nat_view_u16(g@);
                    while j < tg.len()
                        invariant
                            j <= tg@.len(),
                            tv == nat_view_u16(tg@),
                            nat_view_u16(g@) == mid + tv.take(j as int),
                        decreases tg@.len() - j,
                    {
                        let ghost before = g@;
                        g.push(tg[j]);
                        assert(nat_view_u16(g@) =~= mid + tv.take(j + 1)) by {
                            assert(nat_view_u16(g@) =~= nat_view_u16(before).push(tg@[j as int] as nat));
                            assert(tv.take(j + 1) =~= tv.take(j as int).push(tv[j as int]));
                        }
                        j = j + 1;
                    }
                    assert(tv.take(tg@.len() as int) =~= tv);
                    Some(g)
                } else {
                    None
                }
            },
            _ => None,
        }
    } else {
        proof {
            assert(!exists|kk: int| first_double_colon(s@, kk));
        }
        let parts = split_chars(s, ':');
        match parse_mixed_groups(parts.as_slice()) {
            Some(g) => if g.len() == 8 {
                Some(g)
            } else {
                None
            },
            None => None,
        }
    }
}

} // verus!

verus! {

/// Whether `s` reads as an IP address that is private or local.
pub fn ip_text_is_local(s: &[char]) -> (b: bool)
    ensures
        b == (ip_of(s@) matches Some(ip) && ip_is_local(ip)),
{
    match parse_ipv4(s) {
        Some(o) => {
            let ghost ov = nat_view_u8(o@);
            assert(ov[0] == o@[0] as nat && ov[1] == o@[1] as nat && ov[2] == o@[2] as nat
                && ov[3] == o@[3] as nat);
            let (a, b, c, d) = (o[0], o[1], o[2], o[3]);
            a == 10 || (a == 172 && 16 <= b && b <= 31) || (a == 192 && b == 168) || a == 127 || (
            a == 169 && b == 254) || (a == 255 && b == 255 && c == 255 && d == 255) || (a == 192
                && b == 0 && c == 2) || (a == 198 && b == 51 && c == 100) || (a == 203 && b == 0
                && c == 113) || (a == 0 && b == 0 && c == 0 && d == 0)
        },
        None => match parse_ipv6(s) {
            Some(g) => {
                let ghost gv = nat_view_u16(g@);
                assert(forall|i: int| 0 <= i < 8 ==> gv[i] == #[trigger] g@[i] as nat);
                let low_zero = g[0] == 0 && g[1] == 0 && g[2] == 0 && g[3] == 0 && g[4] == 0
                    && g[5] == 0 && g[6] == 0;
                assert(low_zero == (forall|i: int| 0 <= i < 7 ==> gv[i] == 0)) by {
                    if !low_zero {
                        assert(gv[0] != 0 || gv[1] != 0 || gv[2] != 0 || gv[3] != 0 || gv[4] != 0
                            || gv[5] != 0 || gv[6] != 0);
                    }
                }
                (low_zero && (g[7] == 0 || g[7] == 1)) || (0xfc00 <= g[0] && g[0] <= 0xfdff) || (
                0xfe80 <= g[0] && g[0] <= 0xfebf)
            },
            None => false,
        },
    }
}

} // verus!

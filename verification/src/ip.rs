//! IPv4 and IPv6 address literals, as accepted for listener bind addresses.
use vstd::prelude::*;

use crate::text::{ascii_lower, chars_of, lower_char, sub_chars};

verus! {

/// A parsed IP address: an IPv4 address as its 32-bit value, an IPv6 address as its 128-bit value.
#[derive(Clone, Copy, Debug, PartialEq, Eq, Structural)]
pub enum IpAddress {
    V4(u32),
    V6(u128),
}

impl IpAddress {
    /// An IPv6 address.
    pub fn is_ipv6(&self) -> (res: bool)
        ensures
            res == (*self is V6),
    {
        match self {
            IpAddress::V4(_) => false,
            IpAddress::V6(_) => true,
        }
    }

    /// The wildcard address (`0.0.0.0` or `::`).
    pub open spec fn spec_is_unspecified(self) -> bool {
        match self {
            IpAddress::V4(v) => v == 0,
            IpAddress::V6(v) => v == 0,
        }
    }

    /// The wildcard address (`0.0.0.0` or `::`).
    pub fn is_unspecified(&self) -> (res: bool)
        ensures
            res == self.spec_is_unspecified(),
    {
        match self {
            IpAddress::V4(v) => *v == 0,
            IpAddress::V6(v) => *v == 0,
        }
    }
}

/// `s` cut at every `sep` (what `str::split` with a single character gives).
pub open spec fn split(s: Seq<char>, sep: char) -> Seq<Seq<char>>
    decreases s.len(),
{
    if s.len() == 0 {
        seq![Seq::<char>::empty()]
    } else {
        let r = split(s.drop_last(), sep);
        if s.last() == sep {
            r.push(Seq::<char>::empty())
        } else {
            r.update(r.len() - 1, r.last().push(s.last()))
        }
    }
}

pub proof fn lemma_split_nonempty(s: Seq<char>, sep: char)
    ensures
        split(s, sep).len() >= 1,
    decreases s.len(),
{
    if s.len() > 0 {
        lemma_split_nonempty(s.drop_last(), sep);
    }
}

/// The views of a list of character vectors.
pub open spec fn parts_view(parts: Seq<Vec<char>>) -> Seq<Seq<char>> {
    parts.map_values(|p: Vec<char>| p@)
}

/// Cuts `s` at every `sep`.
pub fn split_chars(s: &Vec<char>, sep: char) -> (res: Vec<Vec<char>>)
    ensures
        parts_view(res@) == split(s@, sep),
{
    let mut done: Vec<Vec<char>> = Vec::new();
    let mut current: Vec<char> = Vec::new();
    let mut i: usize = 0;
    while i < s.len()
        invariant
            i <= s.len(),
            parts_view(done@).push(current@) == split(s@.take(i as int), sep),
        decreases s.len() - i,
    {
        let c = s[i];
        let ghost prev_done = done@;
        let ghost prev_current = current@;
        assert(s@.take(i + 1).drop_last() =~= s@.take(i as int));
        if c == sep {
            done.push(current);
            current = Vec::new();
            assert(parts_view(done@) =~= parts_view(prev_done).push(prev_current));
        } else {
            current.push(c);
        }
        i = i + 1;
        assert(parts_view(done@).push(current@) =~= split(s@.take(i as int), sep));
    }
    assert(s@.take(i as int) =~= s@);
    done.push(current);
    done
}

/// A decimal digit.
pub open spec fn is_dec_digit(c: char) -> bool {
    '0' <= c <= '9'
}

/// The value of a run of decimal digits.
pub open spec fn dec_value(s: Seq<char>) -> nat
    decreases s.len(),
{
    if s.len() == 0 {
        0
    } else {
        dec_value(s.drop_last()) * 10 + ((s.last() as u32) - 48) as nat
    }
}

/// One IPv4 octet: one to three decimal digits without a leading zero, at most 255.
pub open spec fn octet(p: Seq<char>) -> Option<u8> {
    if 1 <= p.len() <= 3 && (forall|i: int| 0 <= i < p.len() ==> is_dec_digit(#[trigger] p[i])) && (
    p.len() == 1 || p[0] != '0') && dec_value(p) <= 255 {
        Some(dec_value(p) as u8)
    } else {
        None
    }
}

/// The value of a dotted-quad IPv4 literal: exactly four octets separated by `.`.
pub open spec fn parse_v4(s: Seq<char>) -> Option<u32> {
    let parts = split(s, '.');
    if parts.len() == 4 && (forall|i: int| 0 <= i < 4 ==> (#[trigger] octet(parts[i])) is Some) {
        Some(
            (octet(parts[0]).unwrap() * 16777216 + octet(parts[1]).unwrap() * 65536 + octet(
                parts[2],
            ).unwrap() * 256 + octet(parts[3]).unwrap()) as u32,
        )
    } else {
        None
    }
}

/// A hexadecimal digit (either case).
pub open spec fn is_hex_digit(c: char) -> bool {
    ('0' <= c <= '9') || ('a' <= c <= 'f') || ('A' <= c <= 'F')
}

/// The value of a hexadecimal digit.
pub open spec fn hex_digit_value(c: char) -> nat {
    if '0' <= c <= '9' {
        ((c as u32) - 48) as nat
    } else if 'a' <= c <= 'f' {
        ((c as u32) - 87) as nat
    } else {
        ((c as u32) - 55) as nat
    }
}

/// The value of a run of hexadecimal digits.
pub open spec fn hex_value(s: Seq<char>) -> nat
    decreases s.len(),
{
    if s.len() == 0 {
        0
    } else {
        hex_value(s.drop_last()) * 16 + hex_digit_value(s.last())
    }
}

/// One IPv6 group: one to four hexadecimal digits.
pub open spec fn h16(p: Seq<char>) -> Option<u16> {
    if 1 <= p.len() <= 4 && (forall|i: int| 0 <= i < p.len() ==> is_hex_digit(#[trigger] p[i])) {
        Some(hex_value(p) as u16)
    } else {
        None
    }
}

/// The groups written by `parts`, when every part is a group.
pub open spec fn groups_of(parts: Seq<Seq<char>>) -> Option<Seq<u16>> {
    if forall|i: int| 0 <= i < parts.len() ==> (#[trigger] h16(parts[i])) is Some {
        Some(Seq::new(parts.len(), |i: int| h16(parts[i]).unwrap()))
    } else {
        None
    }
}

/// The groups written by `parts`, whose last part may be an embedded IPv4 address
/// (which stands for two groups).
pub open spec fn groups_with_v4(parts: Seq<Seq<char>>) -> Option<Seq<u16>> {
    if parts.len() >= 1 && parse_v4(parts.last()) is Some {
        let v = parse_v4(parts.last()).unwrap();
        match groups_of(parts.drop_last()) {
            Some(g) => Some(g + seq![(v / 65536) as u16, (v % 65536) as u16]),
            None => None,
        }
    } else {
        groups_of(parts)
    }
}

/// Whether `s` has `::` starting at `i`.
pub open spec fn double_colon_at(s: Seq<char>, i: int) -> bool {
    0 <= i && i + 1 < s.len() && s[i] == ':' && s[i + 1] == ':'
}

/// The first position at or after `i` where `::` starts.
pub open spec fn first_double_colon_from(s: Seq<char>, i: int) -> Option<int>
    decreases s.len() - i,
{
    if i < 0 || i + 1 >= s.len() {
        None
    } else if double_colon_at(s, i) {
        Some(i)
    } else {
        first_double_colon_from(s, i + 1)
    }
}

/// The 128-bit value of eight groups, most significant first.
pub open spec fn v6_value(g: Seq<u16>) -> nat {
    (g[0] * 0x10000_0000_0000_0000_0000_0000_0000 + g[1] * 0x1_0000_0000_0000_0000_0000_0000 + g[2]
        * 0x1_0000_0000_0000_0000_0000 + g[3] * 0x1_0000_0000_0000_0000 + g[4] * 0x1_0000_0000_0000
        + g[5] * 0x1_0000_0000 + g[6] * 0x1_0000 + g[7]) as nat
}

/// The groups of an IPv6 literal: eight groups, or a `::` standing for one or more zero groups
/// between the groups before it and those after it; only the last part may be an embedded
/// IPv4 address.
pub open spec fn v6_groups(s: Seq<char>) -> Option<Seq<u16>> {
    match first_double_colon_from(s, 0) {
        Some(p) => {
            let head = s.take(p);
            let tail = s.skip(p + 2);
            let hg = if head.len() == 0 {
                Some(Seq::<u16>::empty())
            } else {
                groups_of(split(head, ':'))
            };
            let tg = if tail.len() == 0 {
                Some(Seq::<u16>::empty())
            } else {
                groups_with_v4(split(tail, ':'))
            };
            match (hg, tg) {
                (Some(h), Some(t)) => if h.len() + t.len() <= 7 {
                    Some(h + Seq::new((8 - h.len() - t.len()) as nat, |i: int| 0u16) + t)
                } else {
                    None
                },
                _ => None,
            }
        },
        None => match groups_with_v4(split(s, ':')) {
            Some(g) => if g.len() == 8 {
                Some(g)
            } else {
                None
            },
            None => None,
        },
    }
}

/// The value of an IPv6 literal.
pub open spec fn parse_v6(s: Seq<char>) -> Option<u128> {
    match v6_groups(s) {
        Some(g) => Some(v6_value(g) as u128),
        None => None,
    }
}

/// The address written by an IPv4 or IPv6 literal (what `str::parse::<IpAddr>` accepts).
pub open spec fn parse_ip(s: Seq<char>) -> Option<IpAddress> {
    match parse_v4(s) {
        Some(v) => Some(IpAddress::V4(v)),
        None => match parse_v6(s) {
            Some(v) => Some(IpAddress::V6(v)),
            None => None,
        },
    }
}

/// The value of one IPv4 octet.
fn octet_value(p: &Vec<char>) -> (res: Option<u8>)
    ensures
        res == octet(p@),
{
    if p.len() < 1 || p.len() > 3 {
        return None;
    }
    let mut value: u32 = 0;
    let mut i: usize = 0;
    while i < p.len()
        invariant
            1 <= p.len() <= 3,
            i <= p.len(),
            forall|j: int| 0 <= j < i ==> is_dec_digit(#[trigger] p@[j]),
            value == dec_value(p@.take(i as int)),
            value < 1000,
            i == 0 ==> value == 0,
            i == 1 ==> value < 10,
            i == 2 ==> value < 100,
        decreases p.len() - i,
    {
        let c = p[i];
        if !('0' <= c && c <= '9') {
            return None;
        }
        assert(p@.take(i + 1).drop_last() =~= p@.take(i as int));
        value = value * 10 + (c as u32 - 48);
        i = i + 1;
    }
    assert(p@.take(i as int) =~= p@);
    if p.len() > 1 && p[0] == '0' {
        return None;
    }
    if value > 255 {
        return None;
    }
    Some(value as u8)
}

/// The value of a dotted-quad IPv4 literal.
pub fn parse_ipv4_chars(s: &Vec<char>) -> (res: Option<u32>)
    ensures
        res == parse_v4(s@),
{
    let parts = split_chars(s, '.');
    let ghost pv = parts_view(parts@);
    if parts.len() != 4 {
        return None;
    }
    assert(pv[0] == parts@[0]@ && pv[1] == parts@[1]@ && pv[2] == parts@[2]@ && pv[3]
        == parts@[3]@);
    let a = octet_value(&parts[0]);
    let b = octet_value(&parts[1]);
    let c = octet_value(&parts[2]);
    let d = octet_value(&parts[3]);
    match (a, b, c, d) {
        (Some(a), Some(b), Some(c), Some(d)) => {
            assert(forall|i: int| 0 <= i < 4 ==> (#[trigger] octet(pv[i])) is Some) by {
                assert(octet(pv[0]) is Some && octet(pv[1]) is Some && octet(pv[2]) is Some
                    && octet(pv[3]) is Some);
            }
            Some((a as u32) * 16777216 + (b as u32) * 65536 + (c as u32) * 256 + (d as u32))
        },
        _ => {
            assert(!(forall|i: int| 0 <= i < 4 ==> (#[trigger] octet(pv[i])) is Some)) by {
                if octet(pv[0]) is Some && octet(pv[1]) is Some && octet(pv[2]) is Some {
                    assert(octet(pv[3]) is None);
                }
            }
            None
        },
    }
}

/// The value of one IPv6 group.
fn h16_value(p: &Vec<char>) -> (res: Option<u16>)
    ensures
        res == h16(p@),
{
    if p.len() < 1 || p.len() > 4 {
        return None;
    }
    let mut value: u32 = 0;
    let mut i: usize = 0;
    while i < p.len()
        invariant
            1 <= p.len() <= 4,
            i <= p.len(),
            forall|j: int| 0 <= j < i ==> is_hex_digit(#[trigger] p@[j]),
            value == hex_value(p@.take(i as int)),
            i == 0 ==> value == 0,
            i == 1 ==> value < 16,
            i == 2 ==> value < 256,
            i == 3 ==> value < 4096,
            i == 4 ==> value < 65536,
        decreases p.len() - i,
    {
        let c = p[i];
        let d: u32 = if '0' <= c && c <= '9' {
            c as u32 - 48
        } else if 'a' <= c && c <= 'f' {
            c as u32 - 87
        } else if 'A' <= c && c <= 'F' {
            c as u32 - 55
        } else {
            return None;
        };
        assert(p@.take(i + 1).drop_last() =~= p@.take(i as int));
        value = value * 16 + d;
        i = i + 1;
    }
    assert(p@.take(i as int) =~= p@);
    Some(value as u16)
}

/// The groups written by `parts`, when every part is a group.
fn plain_groups(parts: &Vec<Vec<char>>, upto: usize) -> (res: Option<Vec<u16>>)
    requires
        upto <= parts.len(),
    ensures
        match res {
            Some(g) => groups_of(parts_view(parts@).take(upto as int)) == Some(g@),
            None => groups_of(parts_view(parts@).take(upto as int)) is None,
        },
{
    let ghost pv = parts_view(parts@).take(upto as int);
    let mut out: Vec<u16> = Vec::new();
    let mut i: usize = 0;
    while i < upto
        invariant
            upto <= parts.len(),
            pv == parts_view(parts@).take(upto as int),
            i <= upto,
            out@.len() == i,
            forall|j: int| 0 <= j < i ==> (#[trigger] h16(pv[j])) == Some(out@[j]),
        decreases upto - i,
    {
        assert(pv[i as int] == parts@[i as int]@);
        match h16_value(&parts[i]) {
            Some(g) => {
                out.push(g);
            },
            None => {
                assert(h16(pv[i as int]) is None);
                return None;
            },
        }
        i = i + 1;
    }
    assert(Seq::new(pv.len(), |k: int| h16(pv[k]).unwrap()) =~= out@);
    Some(out)
}

/// The groups written by `parts`, whose last part may be an embedded IPv4 address.
fn groups_with_embedded_v4(parts: &Vec<Vec<char>>) -> (res: Option<Vec<u16>>)
    ensures
        match res {
            Some(g) => groups_with_v4(parts_view(parts@)) == Some(g@),
            None => groups_with_v4(parts_view(parts@)) is None,
        },
{
    let ghost pv = parts_view(parts@);
    assert(pv.take(parts.len() as int) =~= pv);
    if parts.len() >= 1 {
        let last = parts.len() - 1;
        assert(pv.last() == parts@[last as int]@);
        assert(pv.take(last as int) =~= pv.drop_last());
        if let Some(v) = parse_ipv4_chars(&parts[last]) {
            match plain_groups(parts, last) {
                Some(mut g) => {
                    let ghost g0 = g@;
                    g.push((v / 65536) as u16);
                    g.push((v % 65536) as u16);
                    assert(g@ =~= g0 + seq![(v / 65536) as u16, (v % 65536) as u16]);
                    return Some(g);
                },
                None => {
                    return None;
                },
            }
        }
    }
    plain_groups(parts, parts.len())
}

/// The first position where `::` starts in `s`.
fn find_double_colon(s: &Vec<char>) -> (res: Option<usize>)
    ensures
        match res {
            Some(p) => first_double_colon_from(s@, 0) == Some(p as int) && p + 1 < s.len(),
            None => first_double_colon_from(s@, 0) is None,
        },
{
    let mut i: usize = 0;
    while i < s.len() && s.len() - i > 1
        invariant
            i <= s.len(),
            first_double_colon_from(s@, 0) == first_double_colon_from(s@, i as int),
        decreases s.len() - i,
    {
        if s[i] == ':' && s[i + 1] == ':' {
            return Some(i);
        }
        i = i + 1;
    }
    None
}

/// The 128-bit value of eight groups.
fn groups_value(g: &Vec<u16>) -> (res: u128)
    requires
        g.len() == 8,
    ensures
        res == v6_value(g@),
{
    (g[0] as u128) * 0x10000_0000_0000_0000_0000_0000_0000 + (g[1] as u128)
        * 0x1_0000_0000_0000_0000_0000_0000 + (g[2] as u128) * 0x1_0000_0000_0000_0000_0000 + (
    g[3] as u128) * 0x1_0000_0000_0000_0000 + (g[4] as u128) * 0x1_0000_0000_0000 + (g[5] as u128)
        * 0x1_0000_0000 + (g[6] as u128) * 0x1_0000 + (g[7] as u128)
}

/// The value of an IPv6 literal.
pub fn parse_ipv6_chars(s: &Vec<char>) -> (res: Option<u128>)
    ensures
        res == parse_v6(s@),
{
    match find_double_colon(s) {
        Some(p) => {
            let head = sub_chars(s, 0, p);
            let tail = sub_chars(s, p + 2, s.len());
            assert(head@ =~= s@.take(p as int));
            assert(tail@ =~= s@.skip(p + 2));
            let hg: Option<Vec<u16>> = if head.len() == 0 {
                Some(Vec::new())
            } else {
                let hp = split_chars(&head, ':');
                let r = plain_groups(&hp, hp.len());
                assert(parts_view(hp@).take(hp.len() as int) =~= parts_view(hp@));
                r
            };
            let tg: Option<Vec<u16>> = if tail.len() == 0 {
                Some(Vec::new())
            } else {
                let tp = split_chars(&tail, ':');
                groups_with_embedded_v4(&tp)
            };
            match (hg, tg) {
                (Some(h), Some(t)) => {
                    if h.len() <= 7 && t.len() <= 7 - h.len() {
                        let mut all: Vec<u16> = Vec::new();
                        let mut i: usize = 0;
                        while i < h.len()
                            invariant
                                i <= h.len(),
                                all@ == h@.take(i as int),
                            decreases h.len() - i,
                        {
                            all.push(h[i]);
                            i = i + 1;
                            assert(all@ =~= h@.take(i as int));
                        }
                        let zeros = 8 - h.len() - t.len();
                        let mut z: usize = 0;
                        while z < zeros
                            invariant
                                h.len() + t.len() <= 7,
                                zeros == 8 - h.len() - t.len(),
                                z <= zeros,
                                all@ == h@ + Seq::new(z as nat, |k: int| 0u16),
                            decreases zeros - z,
                        {
                            all.push(0);
                            z = z + 1;
                            assert(all@ =~= h@ + Seq::new(z as nat, |k: int| 0u16));
                        }
                        let mut j: usize = 0;
                        while j < t.len()
                            invariant
                                h.len() + t.len() <= 7,
                                zeros == 8 - h.len() - t.len(),
                                j <= t.len(),
                                all@ == h@ + Seq::new(zeros as nat, |k: int| 0u16) + t@.take(
                                    j as int,
                                ),
                            decreases t.len() - j,
                        {
                            all.push(t[j]);
                            j = j + 1;
                            assert(all@ =~= h@ + Seq::new(zeros as nat, |k: int| 0u16) + t@.take(
                                j as int,
                            ));
                        }
                        assert(t@.take(j as int) =~= t@);
                        Some(groups_value(&all))
                    } else {
                        None
                    }
                },
                _ => None,
            }
        },
        None => {
            let parts = split_chars(s, ':');
            match groups_with_embedded_v4(&parts) {
                Some(g) => {
                    if g.len() == 8 {
                        Some(groups_value(&g))
                    } else {
                        None
                    }
                },
                None => None,
            }
        },
    }
}

/// The address written by `s`, when it is an IPv4 or IPv6 literal.
pub fn parse_ip_chars(s: &Vec<char>) -> (res: Option<IpAddress>)
    ensures
        res == parse_ip(s@),
{
    match parse_ipv4_chars(s) {
        Some(v) => Some(IpAddress::V4(v)),
        None => match parse_ipv6_chars(s) {
            Some(v) => Some(IpAddress::V6(v)),
            None => None,
        },
    }
}

/// The address written by `text`, when it is an IPv4 or IPv6 literal.
pub fn parse_ip_address(text: &str) -> (res: Option<IpAddress>)
    ensures
        res == parse_ip(text@),
{
    let chars = chars_of(text);
    parse_ip_chars(&chars)
}


/// Lowering a character keeps what an address literal reads of it: separators stay separators,
/// digits stay the same digits, and a hexadecimal digit keeps its value.
proof fn lemma_lower_char_literal(c: char)
    ensures
        (lower_char(c) == ':') == (c == ':'),
        (lower_char(c) == '.') == (c == '.'),
        is_dec_digit(lower_char(c)) == is_dec_digit(c),
        is_dec_digit(c) ==> lower_char(c) == c,
        is_hex_digit(lower_char(c)) == is_hex_digit(c),
        is_hex_digit(c) ==> hex_digit_value(lower_char(c)) == hex_digit_value(c),
{
}

/// Each part lowered.
pub open spec fn lower_parts(parts: Seq<Seq<char>>) -> Seq<Seq<char>> {
    parts.map_values(|p: Seq<char>| ascii_lower(p))
}

proof fn lemma_lower_drop_last(s: Seq<char>)
    requires
        s.len() > 0,
    ensures
        ascii_lower(s).drop_last() == ascii_lower(s.drop_last()),
        ascii_lower(s).last() == lower_char(s.last()),
{
    assert(ascii_lower(s).drop_last() =~= ascii_lower(s.drop_last()));
}

/// Cutting at `:` or `.` and then lowering each part is lowering and then cutting.
proof fn lemma_split_lower(s: Seq<char>, sep: char)
    requires
        sep == ':' || sep == '.',
    ensures
        split(ascii_lower(s), sep) == lower_parts(split(s, sep)),
    decreases s.len(),
{
    if s.len() == 0 {
        assert(ascii_lower(s) =~= Seq::<char>::empty());
        assert(ascii_lower(Seq::<char>::empty()) =~= Seq::<char>::empty());
        assert(lower_parts(seq![Seq::<char>::empty()]) =~= seq![Seq::<char>::empty()]);
    } else {
        let l = ascii_lower(s);
        lemma_lower_drop_last(s);
        lemma_split_lower(s.drop_last(), sep);
        lemma_lower_char_literal(s.last());
        lemma_split_nonempty(s.drop_last(), sep);
        let r = split(s.drop_last(), sep);
        assert(l.len() > 0);
        if s.last() == sep {
            assert(ascii_lower(Seq::<char>::empty()) =~= Seq::<char>::empty());
            assert(lower_parts(r).push(Seq::<char>::empty()) =~= lower_parts(
                r.push(Seq::<char>::empty()),
            ));
        } else {
            let last = r.last();
            assert(ascii_lower(last.push(s.last())) =~= ascii_lower(last).push(lower_char(s.last())));
            assert(lower_parts(r).update(
                r.len() - 1,
                lower_parts(r).last().push(lower_char(s.last())),
            ) =~= lower_parts(r.update(r.len() - 1, last.push(s.last()))));
        }
    }
}

/// An octet reads the same lowered.
proof fn lemma_octet_lower(p: Seq<char>)
    ensures
        octet(ascii_lower(p)) == octet(p),
{
    if forall|i: int| 0 <= i < p.len() ==> is_dec_digit(#[trigger] p[i]) {
        assert forall|i: int| 0 <= i < p.len() implies ascii_lower(p)[i] == p[i] by {
            lemma_lower_char_literal(p[i]);
        }
        assert(ascii_lower(p) =~= p);
    } else {
        let i = choose|i: int| 0 <= i < p.len() && !is_dec_digit(#[trigger] p[i]);
        lemma_lower_char_literal(p[i]);
        assert(!is_dec_digit(ascii_lower(p)[i]));
    }
}

/// An IPv4 literal reads the same lowered.
proof fn lemma_parse_v4_lower(s: Seq<char>)
    ensures
        parse_v4(ascii_lower(s)) == parse_v4(s),
{
    lemma_split_lower(s, '.');
    let parts = split(s, '.');
    let lp = split(ascii_lower(s), '.');
    assert forall|i: int| 0 <= i < parts.len() implies octet(lp[i]) == octet(parts[i]) by {
        lemma_octet_lower(parts[i]);
    }
    if parts.len() == 4 {
        assert(octet(lp[0]) == octet(parts[0]));
        assert(octet(lp[1]) == octet(parts[1]));
        assert(octet(lp[2]) == octet(parts[2]));
        assert(octet(lp[3]) == octet(parts[3]));
    }
}

/// A run of hexadecimal digits has the value of its lower-case spelling.
proof fn lemma_hex_value_lower(p: Seq<char>)
    requires
        forall|i: int| 0 <= i < p.len() ==> is_hex_digit(#[trigger] p[i]),
    ensures
        hex_value(ascii_lower(p)) == hex_value(p),
    decreases p.len(),
{
    if p.len() > 0 {
        lemma_lower_drop_last(p);
        lemma_hex_value_lower(p.drop_last());
        lemma_lower_char_literal(p.last());
        assert(is_hex_digit(p[p.len() - 1]));
    }
}

/// A group reads the same lowered: upper-case hexadecimal digits are digits of the same value.
pub proof fn lemma_h16_lower(p: Seq<char>)
    ensures
        h16(ascii_lower(p)) == h16(p),
{
    if forall|i: int| 0 <= i < p.len() ==> is_hex_digit(#[trigger] p[i]) {
        assert forall|i: int| 0 <= i < p.len() implies is_hex_digit(#[trigger] ascii_lower(p)[i]) by {
            lemma_lower_char_literal(p[i]);
        }
        lemma_hex_value_lower(p);
    } else {
        let i = choose|i: int| 0 <= i < p.len() && !is_hex_digit(#[trigger] p[i]);
        lemma_lower_char_literal(p[i]);
        assert(!is_hex_digit(ascii_lower(p)[i]));
    }
}

proof fn lemma_groups_of_lower(parts: Seq<Seq<char>>)
    ensures
        groups_of(lower_parts(parts)) == groups_of(parts),
{
    let lp = lower_parts(parts);
    assert forall|i: int| 0 <= i < parts.len() implies h16(lp[i]) == h16(parts[i]) by {
        lemma_h16_lower(parts[i]);
    }
    if forall|i: int| 0 <= i < parts.len() ==> (#[trigger] h16(parts[i])) is Some {
        assert(forall|i: int| 0 <= i < lp.len() ==> (#[trigger] h16(lp[i])) is Some);
        assert(Seq::new(lp.len(), |i: int| h16(lp[i]).unwrap()) =~= Seq::new(
            parts.len(),
            |i: int| h16(parts[i]).unwrap(),
        ));
    } else {
        let i = choose|i: int| 0 <= i < parts.len() && !((#[trigger] h16(parts[i])) is Some);
        assert(!(h16(lp[i]) is Some));
    }
}

proof fn lemma_groups_with_v4_lower(parts: Seq<Seq<char>>)
    ensures
        groups_with_v4(lower_parts(parts)) == groups_with_v4(parts),
{
    let lp = lower_parts(parts);
    lemma_groups_of_lower(parts);
    if parts.len() >= 1 {
        lemma_parse_v4_lower(parts.last());
        assert(lp.last() == ascii_lower(parts.last()));
        assert(lp.drop_last() =~= lower_parts(parts.drop_last()));
        lemma_groups_of_lower(parts.drop_last());
    }
}

proof fn lemma_first_double_colon_lower(s: Seq<char>, i: int)
    ensures
        first_double_colon_from(ascii_lower(s), i) == first_double_colon_from(s, i),
    decreases s.len() - i,
{
    if !(i < 0 || i + 1 >= s.len()) {
        lemma_lower_char_literal(s[i]);
        lemma_lower_char_literal(s[i + 1]);
        assert(double_colon_at(ascii_lower(s), i) == double_colon_at(s, i));
        lemma_first_double_colon_lower(s, i + 1);
    }
}

proof fn lemma_v6_groups_lower(s: Seq<char>)
    ensures
        v6_groups(ascii_lower(s)) == v6_groups(s),
{
    let l = ascii_lower(s);
    lemma_first_double_colon_lower(s, 0);
    match first_double_colon_from(s, 0) {
        Some(p) => {
            assert(0 <= p && p + 1 < s.len()) by {
                lemma_first_double_colon_bounds(s, 0);
            }
            assert(l.take(p) =~= ascii_lower(s.take(p)));
            assert(l.skip(p + 2) =~= ascii_lower(s.skip(p + 2)));
            lemma_split_lower(s.take(p), ':');
            lemma_split_lower(s.skip(p + 2), ':');
            lemma_groups_of_lower(split(s.take(p), ':'));
            lemma_groups_with_v4_lower(split(s.skip(p + 2), ':'));
        },
        None => {
            lemma_split_lower(s, ':');
            lemma_groups_with_v4_lower(split(s, ':'));
        },
    }
}

proof fn lemma_first_double_colon_bounds(s: Seq<char>, i: int)
    ensures
        first_double_colon_from(s, i) matches Some(p) ==> i <= p && p + 1 < s.len(),
    decreases s.len() - i,
{
    if !(i < 0 || i + 1 >= s.len()) && !double_colon_at(s, i) {
        lemma_first_double_colon_bounds(s, i + 1);
    }
}

/// Address literals are read without regard to ASCII case: a text and its lower-case spelling
/// write the same address, or are both refused (so `FE80::1` is `fe80::1`).
pub proof fn lemma_parse_ip_case_insensitive(s: Seq<char>)
    ensures
        parse_ip(ascii_lower(s)) == parse_ip(s),
{
    lemma_parse_v4_lower(s);
    lemma_v6_groups_lower(s);
}

} // verus!

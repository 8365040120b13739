//! Network addresses as text.

use crate::text;
use vstd::prelude::*;

verus! {

/// The number that two bytes stand for, the high byte first.
pub open spec fn be16(hi: u8, lo: u8) -> int {
    hi * 256 + lo
}

/// The number that four bytes stand for, the highest byte first.
pub open spec fn be32(a: u8, b: u8, c: u8, d: u8) -> int {
    a * 16777216 + b * 65536 + c * 256 + d
}

/// Reads a 16-bit number, the high byte first.
pub fn read_be16(hi: u8, lo: u8) -> (r: u16)
    ensures
        r == be16(hi, lo),
{
    (hi as u16) * 256 + (lo as u16)
}

/// Reads a 32-bit number, the highest byte first.
pub fn read_be32(a: u8, b: u8, c: u8, d: u8) -> (r: u32)
    ensures
        r == be32(a, b, c, d),
{
    (a as u32) * 16777216 + (b as u32) * 65536 + (c as u32) * 256 + (d as u32)
}

/// The dotted text of an IPv4 address.
pub open spec fn ipv4_text(a: u8, b: u8, c: u8, d: u8) -> Seq<char> {
    text::dec(a as nat) + "."@ + text::dec(b as nat) + "."@ + text::dec(c as nat) + "."@ + text::dec(d as nat)
}

/// Writes an IPv4 address in dotted form.
pub fn format_ipv4(a: u8, b: u8, c: u8, d: u8) -> (r: String)
    ensures
        r@ == ipv4_text(a, b, c, d),
{
    let mut s = text::dec_string(a as u64);
    s.append(".");
    text::push_dec(&mut s, b as u64);
    s.append(".");
    text::push_dec(&mut s, c as u64);
    s.append(".");
    text::push_dec(&mut s, d as u64);
    s
}

/// The 16-bit group `i` of an IPv6 address.
pub open spec fn group_at(bytes: Seq<u8>, i: int) -> int {
    be16(bytes[2 * i], bytes[2 * i + 1])
}

/// The hexadecimal texts of the groups `from..to` of an IPv6 address.
pub open spec fn group_texts(bytes: Seq<u8>, from: int, to: int) -> Seq<Seq<char>> {
    Seq::new((to - from) as nat, |i: int| text::hex(group_at(bytes, from + i) as nat))
}

/// The groups `from..to` of an IPv6 address with colons between them.
pub open spec fn groups_text(bytes: Seq<u8>, from: int, to: int) -> Seq<char> {
    text::join_spec(group_texts(bytes, from, to), ":"@)
}

/// Writes the groups `from..to` of an IPv6 address.
pub fn format_groups(bytes: &[u8], from: usize, to: usize) -> (r: String)
    requires
        bytes@.len() >= 16,
        from <= to <= 8,
    ensures
        r@ == groups_text(bytes@, from as int, to as int),
{
    let mut parts: Vec<String> = Vec::new();
    let mut i: usize = from;
    while i < to
        invariant
            from <= i <= to <= 8,
            bytes@.len() >= 16,
            text::texts(parts@) == group_texts(bytes@, from as int, i as int),
        decreases to - i,
    {
        let mut s = String::new();
        text::push_hex(&mut s, read_be16(bytes[2 * i], bytes[2 * i + 1]) as u64);
        assert(s@ =~= text::hex(group_at(bytes@, i as int) as nat));
        let ghost before = text::texts(parts@);
        parts.push(s);
        assert(text::texts(parts@) =~= before.push(s@));
        assert(text::texts(parts@) =~= group_texts(bytes@, from as int, i + 1));
        i += 1;
    }
    text::join(&parts, ":")
}

/// The number of zero groups that stand from group `i` on without a break.
pub open spec fn zero_groups_at(bytes: Seq<u8>, i: int) -> int
    decreases 8 - i,
{
    if i >= 8 || group_at(bytes, i) != 0 {
        0
    } else {
        1 + zero_groups_at(bytes, i + 1)
    }
}

/// Among the groups from `i` on, the one at which the longest run of zero groups
/// begins, the leftmost where several are equally long.
pub open spec fn longest_zeros_from(bytes: Seq<u8>, i: int) -> int
    decreases 8 - i,
{
    if i >= 8 {
        8
    } else {
        let later = longest_zeros_from(bytes, i + 1);
        if zero_groups_at(bytes, i) >= zero_groups_at(bytes, later) {
            i
        } else {
            later
        }
    }
}

/// Whether an IPv6 address is an IPv4 address written in 16 bytes.
pub open spec fn is_ipv4_mapped(bytes: Seq<u8>) -> bool {
    (forall|i: int| 0 <= i < 10 ==> bytes[i] == 0) && bytes[10] == 255 && bytes[11] == 255
}

/// The shortened text of an IPv6 address: the longest run of two or more zero
/// groups is written as two colons.
pub open spec fn ipv6_text(bytes: Seq<u8>) -> Seq<char> {
    if is_ipv4_mapped(bytes) {
        "::ffff:"@ + ipv4_text(bytes[12], bytes[13], bytes[14], bytes[15])
    } else {
        let start = longest_zeros_from(bytes, 0);
        let len = zero_groups_at(bytes, start);
        if len > 1 {
            groups_text(bytes, 0, start) + "::"@ + groups_text(bytes, start + len, 8)
        } else {
            groups_text(bytes, 0, 8)
        }
    }
}

/// Writes an IPv6 address in its shortened form.
pub fn format_ipv6_short(bytes: &[u8]) -> (r: String)
    requires
        bytes@.len() == 16,
    ensures
        r@ == ipv6_text(bytes@),
{
    let mut mapped: bool = bytes[10] == 255 && bytes[11] == 255;
    let mut j: usize = 0;
    while j < 10
        invariant
            bytes@.len() == 16,
            j <= 10,
            mapped <==> (forall|i: int| 0 <= i < j ==> bytes@[i] == 0) && bytes@[10] == 255
                && bytes@[11] == 255,
        decreases 10 - j,
    {
        mapped = mapped && bytes[j] == 0;
        j += 1;
    }
    if mapped {
        let mut s = String::from_str("::ffff:");
        s.append(format_ipv4(bytes[12], bytes[13], bytes[14], bytes[15]).as_str());
        return s;
    }
    let mut i: usize = 8;
    let mut run: usize = 0;
    let mut best: usize = 8;
    let mut best_len: usize = 0;
    while i > 0
        invariant
            bytes@.len() == 16,
            i <= 8,
            run <= 8 - i,
            best <= 8,
            run == zero_groups_at(bytes@, i as int),
            best == longest_zeros_from(bytes@, i as int),
            best_len == zero_groups_at(bytes@, best as int),
            best + best_len <= 8,
        decreases i,
    {
        i -= 1;
        if read_be16(bytes[2 * i], bytes[2 * i + 1]) == 0 {
            run += 1;
        } else {
            run = 0;
        }
        if run >= best_len {
            best = i;
            best_len = run;
        }
    }
    if best_len > 1 {
        let mut s = format_groups(bytes, 0, best);
        s.append("::");
        s.append(format_groups(bytes, best + best_len, 8).as_str());
        s
    } else {
        format_groups(bytes, 0, 8)
    }
}

/// Whether a text is a number from 0 to 255 in decimal, without leading zeros.
pub open spec fn is_octet(s: Seq<char>) -> bool {
    exists|v: u8| s == text::dec(v as nat)
}

/// The value of a decimal digit, or none.
fn decimal_digit(c: char) -> (r: Option<u16>)
    ensures
        match r {
            Some(v) => v < 10 && c == text::digit_char(v as int),
            None => forall|d: int| 0 <= d < 10 ==> c != text::digit_char(d),
        },
{
    match c {
        '0' => Some(0),
        '1' => Some(1),
        '2' => Some(2),
        '3' => Some(3),
        '4' => Some(4),
        '5' => Some(5),
        '6' => Some(6),
        '7' => Some(7),
        '8' => Some(8),
        '9' => Some(9),
        _ => None,
    }
}

proof fn lemma_dec_small(v: nat)
    requires
        v < 1000,
    ensures
        v < 10 ==> text::dec(v) == seq![text::digit_char(v as int)],
        10 <= v < 100 ==> text::dec(v) == seq![text::digit_char((v / 10) as int), text::digit_char((v % 10) as int)],
        100 <= v ==> text::dec(v) == seq![
            text::digit_char((v / 100) as int),
            text::digit_char((v / 10 % 10) as int),
            text::digit_char((v % 10) as int),
        ],
{
    reveal_with_fuel(text::dec, 3);
    if v < 10 {
    } else if v < 100 {
        assert(text::dec(v) =~= seq![text::digit_char((v / 10) as int), text::digit_char((v % 10) as int)]);
    } else {
        assert(v / 10 / 10 == v / 100);
        assert(text::dec(v) =~= seq![
            text::digit_char((v / 100) as int),
            text::digit_char((v / 10 % 10) as int),
            text::digit_char((v % 10) as int),
        ]);
    }
}

proof fn lemma_digit_char_injective(a: int, b: int)
    requires
        0 <= a < 16,
        0 <= b < 16,
        text::digit_char(a) == text::digit_char(b),
    ensures
        a == b,
{
}

/// Reads a number from 0 to 255 in decimal, without leading zeros.
pub fn parse_octet(s: &Vec<char>) -> (r: Option<u8>)
    ensures
        match r {
            Some(v) => s@ == text::dec(v as nat),
            None => !is_octet(s@),
        },
{
    proof {
        assert forall|v: u8| #[trigger] text::dec(v as nat) == s@ implies 1 <= s@.len() <= 3 by {
            lemma_dec_small(v as nat);
        }
    }
    if s.len() == 0 || s.len() > 3 {
        return None;
    }
    let mut value: u16 = 0;
    let mut i: usize = 0;
    while i < s.len()
        invariant
            1 <= s.len() <= 3,
            i <= s.len(),
            i == 0 ==> value == 0,
            i == 1 ==> value < 10 && s@[0] == text::digit_char(value as int),
            i == 2 ==> value < 100 && s@[0] == text::digit_char(value as int / 10) && s@[1]
                == text::digit_char(value as int % 10),
            i == 3 ==> value < 1000 && s@[0] == text::digit_char(value as int / 100) && s@[1]
                == text::digit_char(value as int / 10 % 10) && s@[2] == text::digit_char(value as int % 10),
        decreases s.len() - i,
    {
        match decimal_digit(s[i]) {
            Some(d) => {
                value = value * 10 + d;
            },
            None => {
                proof {
                    assert forall|v: u8| #[trigger] text::dec(v as nat) != s@ by {
                        lemma_dec_small(v as nat);
                    }
                }
                return None;
            },
        }
        i += 1;
    }
    let zero_prefix: bool = s.len() > 1 && s[0] == '0';
    if zero_prefix || value > 255 {
        proof {
            assert forall|v: u8| #[trigger] text::dec(v as nat) != s@ by {
                lemma_dec_small(v as nat);
                if text::dec(v as nat) == s@ {
                    if s@.len() == 2 {
                        lemma_digit_char_injective(v as int / 10, value as int / 10);
                        lemma_digit_char_injective(v as int % 10, value as int % 10);
                    } else if s@.len() == 3 {
                        lemma_digit_char_injective(v as int / 100, value as int / 100);
                        lemma_digit_char_injective(v as int / 10 % 10, value as int / 10 % 10);
                        lemma_digit_char_injective(v as int % 10, value as int % 10);
                    } else {
                        lemma_digit_char_injective(v as int, value as int);
                    }
                }
            }
        }
        return None;
    }
    proof {
        lemma_dec_small(value as nat);
        assert(s@ =~= text::dec(value as nat));
    }
    Some(value as u8)
}

/// Whether the parts between the dots are those of an IPv4 address.
pub open spec fn is_ipv4_parts(p: Seq<Seq<char>>) -> bool {
    p.len() == 4 && forall|i: int| 0 <= i < 4 ==> is_octet(#[trigger] p[i])
}

/// Whether a text is an IPv4 address in dotted form.
pub open spec fn is_ipv4_address(s: Seq<char>) -> bool {
    is_ipv4_parts(text::split_spec(s, '.'))
}

/// Whether a text is an IPv4 address from 224.0.0.0 to 239.255.255.255.
pub open spec fn is_ipv4_multicast(s: Seq<char>) -> bool {
    is_ipv4_address(s) && exists|v: u8|
        224 <= v <= 239 && text::split_spec(s, '.')[0] == #[trigger] text::dec(v as nat)
}

/// The first octet of an IPv4 address in dotted form.
fn parse_ipv4_first(s: &Vec<char>) -> (r: Option<u8>)
    ensures
        match r {
            Some(v) => is_ipv4_address(s@) && text::split_spec(s@, '.')[0] == text::dec(v as nat),
            None => !is_ipv4_address(s@),
        },
{
    let parts = text::split(s, '.');
    let ghost p = text::split_spec(s@, '.');
    if parts.len() != 4 {
        return None;
    }
    assert(forall|i: int| 0 <= i < 4 ==> #[trigger] p[i] == parts@[i]@);
    let first = parse_octet(&parts[0]);
    let second = parse_octet(&parts[1]);
    let third = parse_octet(&parts[2]);
    let fourth = parse_octet(&parts[3]);
    match first {
        Some(v) => {
            if second.is_some() && third.is_some() && fourth.is_some() {
                assert(is_octet(p[0]) && is_octet(p[1]) && is_octet(p[2]) && is_octet(p[3]));
                Some(v)
            } else {
                assert(!is_octet(p[1]) || !is_octet(p[2]) || !is_octet(p[3]));
                None
            }
        },
        None => {
            assert(!is_octet(p[0]));
            None
        },
    }
}

/// The value of a hexadecimal digit in either case, or -1.
pub open spec fn hex_digit_value(c: char) -> int {
    if '0' <= c <= '9' {
        c as int - '0' as int
    } else if 'a' <= c <= 'f' {
        c as int - 'a' as int + 10
    } else if 'A' <= c <= 'F' {
        c as int - 'A' as int + 10
    } else {
        -1
    }
}

/// Whether a text is one group of an IPv6 address: one to four hexadecimal digits.
pub open spec fn is_group(s: Seq<char>) -> bool {
    1 <= s.len() <= 4 && forall|i: int| 0 <= i < s.len() ==> hex_digit_value(#[trigger] s[i]) >= 0
}

/// The number that a group of hexadecimal digits stands for.
pub open spec fn group_value(s: Seq<char>) -> int
    decreases s.len(),
{
    if s.len() == 0 {
        0
    } else {
        group_value(s.drop_last()) * 16 + hex_digit_value(s.last())
    }
}

/// Reads one group of an IPv6 address.
fn parse_group(s: &Vec<char>) -> (r: Option<u16>)
    ensures
        match r {
            Some(v) => is_group(s@) && v == group_value(s@),
            None => !is_group(s@),
        },
{
    if s.len() == 0 || s.len() > 4 {
        return None;
    }
    let mut value: u32 = 0;
    let mut i: usize = 0;
    while i < s.len()
        invariant
            1 <= s.len() <= 4,
            i <= s.len(),
            value == group_value(s@.take(i as int)),
            i == 0 ==> value == 0,
            i == 1 ==> value < 16,
            i == 2 ==> value < 256,
            i == 3 ==> value < 4096,
            i == 4 ==> value < 65536,
            forall|k: int| 0 <= k < i ==> hex_digit_value(#[trigger] s@[k]) >= 0,
        decreases s.len() - i,
    {
        let c: char = s[i];
        let d: u32 = if '0' <= c && c <= '9' {
            c as u32 - '0' as u32
        } else if 'a' <= c && c <= 'f' {
            c as u32 - 'a' as u32 + 10
        } else if 'A' <= c && c <= 'F' {
            c as u32 - 'A' as u32 + 10
        } else {
            assert(hex_digit_value(s@[i as int]) < 0);
            return None;
        };
        assert(s@.take(i + 1).drop_last() =~= s@.take(i as int));
        value = value * 16 + d;
        i += 1;
    }
    assert(s@.take(i as int) =~= s@);
    Some(value as u16)
}

/// Whether the parts are groups of an IPv6 address, of which the last may be an
/// IPv4 address in dotted form.
pub open spec fn is_group_list(p: Seq<Seq<char>>) -> bool {
    p.len() > 0 && (forall|i: int| 0 <= i < p.len() - 1 ==> is_group(#[trigger] p[i])) && (is_group(
        p.last(),
    ) || is_ipv4_address(p.last()))
}

/// The number of 16-bit groups that a list of groups stands for.
pub open spec fn group_count(p: Seq<Seq<char>>) -> int {
    p.len() + if is_group(p.last()) {
        0int
    } else {
        1int
    }
}

/// Whether the parts between the colons are those of an IPv6 address in which two
/// colons, after the groups before part `k`, stand for one or more zero groups.
pub open spec fn is_shortened_at(p: Seq<Seq<char>>, k: int) -> bool {
    &&& 1 <= k <= p.len() - 2
    &&& forall|i: int| 0 <= i < k ==> is_group(#[trigger] p[i])
    &&& p[k].len() == 0
    &&& (p.skip(k + 1).len() == 1 && p.skip(k + 1)[0].len() == 0) || (is_group_list(p.skip(k + 1))
        && k + group_count(p.skip(k + 1)) <= 7)
    &&& k <= 7
}

/// Whether a text is an IPv6 address that begins with the byte 255.
pub open spec fn is_ipv6_multicast(s: Seq<char>) -> bool {
    let p = text::split_spec(s, ':');
    &&& is_group(p[0])
    &&& group_value(p[0]) >= 0xff00
    &&& (is_group_list(p) && group_count(p) == 8) || exists|k: int| is_shortened_at(p, k)
}

/// The number of groups that the parts from `from` on stand for, or none where they
/// are not groups.
fn count_groups(parts: &Vec<Vec<char>>, from: usize) -> (r: Option<usize>)
    requires
        from < parts.len() <= 9,
    ensures
        match r {
            Some(n) => is_group_list(text::fields(parts@).skip(from as int)) && n == group_count(
                text::fields(parts@).skip(from as int),
            ),
            None => !is_group_list(text::fields(parts@).skip(from as int)),
        },
{
    let ghost p = text::fields(parts@).skip(from as int);
    let last: usize = parts.len() - 1;
    assert(p.last() == parts@[last as int]@);
    let mut i: usize = from;
    while i < last
        invariant
            from <= i <= last,
            last == parts@.len() - 1,
            parts@.len() <= 9,
            p == text::fields(parts@).skip(from as int),
            forall|k: int| 0 <= k < i - from ==> is_group(#[trigger] p[k]),
        decreases last - i,
    {
        assert(p[i - from] == parts@[i as int]@);
        if parse_group(&parts[i]).is_none() {
            return None;
        }
        i += 1;
    }
    if parse_group(&parts[last]).is_some() {
        return Some(last - from + 1);
    }
    if parse_ipv4_first(&parts[last]).is_some() {
        return Some(last - from + 2);
    }
    None
}

/// Decides whether the parts between the colons are those of an IPv6 address that
/// begins with the byte 255.
fn has_ipv6_multicast_parts(parts: &Vec<Vec<char>>) -> (r: bool)
    requires
        parts@.len() > 0,
    ensures
        r <==> {
            let p = text::fields(parts@);
            &&& is_group(p[0])
            &&& group_value(p[0]) >= 0xff00
            &&& (is_group_list(p) && group_count(p) == 8) || exists|k: int| is_shortened_at(p, k)
        },
{
    let ghost p = text::fields(parts@);
    assert(forall|i: int| 0 <= i < p.len() ==> #[trigger] p[i] == parts@[i]@);
    let first = parse_group(&parts[0]);
    match first {
        Some(v) => {
            if v < 0xff00 {
                return false;
            }
        },
        None => {
            return false;
        },
    }
    if parts.len() > 9 {
        return false;
    }
    let mut k: usize = 1;
    while k < parts.len()
        invariant
            1 <= k <= parts@.len() <= 9,
            p == text::fields(parts@),
            forall|i: int| 0 <= i < p.len() ==> #[trigger] p[i] == parts@[i]@,
            is_group(p[0]),
            group_value(p[0]) >= 0xff00,
            forall|i: int| 0 <= i < k ==> is_group(#[trigger] p[i]),
        decreases parts.len() - k,
    {
        if parts[k].len() == 0 {
            assert(!is_group(p[k as int]) && !is_ipv4_address(p[k as int])) by {
                assert(text::split_spec(p[k as int], '.').len() == 1);
            }
            assert(forall|m: int| is_shortened_at(p, m) ==> m == k) by {
                assert(!is_group(p[k as int]));
            }
            if k + 1 >= parts.len() || k > 7 {
                return false;
            }
            if k + 2 == parts.len() && parts[k + 1].len() == 0 {
                assert(p.skip(k + 1).len() == 1 && p.skip(k + 1)[0].len() == 0);
                assert(is_shortened_at(p, k as int));
                return true;
            }
            return match count_groups(parts, k + 1) {
                Some(n) => {
                    let fits: bool = k + n <= 7;
                    assert(fits ==> is_shortened_at(p, k as int));
                    fits
                },
                None => false,
            };
        }
        if parse_group(&parts[k]).is_none() {
            assert(!is_group(p[k as int]) && p[k as int].len() > 0);
            assert forall|m: int| is_shortened_at(p, m) implies m < k by {
                if m > k {
                    assert(is_group(p[k as int]));
                }
            }
            assert(forall|m: int| 1 <= m < k ==> is_group(#[trigger] p[m]));
            assert(forall|m: int| !is_shortened_at(p, m));
            if k + 1 < parts.len() {
                return false;
            }
            return match count_groups(parts, 0) {
                Some(n) => {
                    assert(p.skip(0) =~= p);
                    n == 8
                },
                None => {
                    assert(p.skip(0) =~= p);
                    false
                },
            };
        }
        k += 1;
    }
    assert(forall|m: int| 0 <= m < p.len() ==> is_group(p[m]));
    assert(forall|m: int| !is_shortened_at(p, m));
    parts.len() == 8
}

/// Whether a text is an IP address that is meant for a group of hosts.
pub open spec fn is_multicast_text(s: Seq<char>) -> bool {
    is_ipv4_multicast(s) || is_ipv6_multicast(s)
}

/// Decides whether a text is a multicast IP address. A text that is no address is
/// none.
pub fn is_multicast_address(addr: &str) -> (r: bool)
    ensures
        r == is_multicast_text(addr@),
{
    let chars = text::chars_of(addr);
    if let Some(v) = parse_ipv4_first(&chars) {
        if v >= 224 && v <= 239 {
            assert(text::split_spec(addr@, '.')[0] == text::dec(v as nat));
            return true;
        }
        proof {
            assert forall|w: u8| 224 <= w <= 239 implies text::split_spec(addr@, '.')[0]
                != #[trigger] text::dec(w as nat) by {
                if text::dec(w as nat) == text::dec(v as nat) {
                    lemma_dec_octet_injective(w, v);
                }
            }
        }
    }
    let parts = text::split(&chars, ':');
    has_ipv6_multicast_parts(&parts)
}

/// Two octets with the same text are equal.
proof fn lemma_dec_octet_injective(a: u8, b: u8)
    requires
        text::dec(a as nat) == text::dec(b as nat),
    ensures
        a == b,
{
    lemma_dec_small(a as nat);
    lemma_dec_small(b as nat);
    let da = text::dec(a as nat);
    let db = text::dec(b as nat);
    assert(da.len() == db.len());
    if a < 10 {
        assert(da[0] == db[0]);
    } else if a < 100 {
        assert(da[0] == db[0] && da[1] == db[1]);
    } else {
        assert(da[0] == db[0] && da[1] == db[1] && da[2] == db[2]);
    }
}

/// Numbers of two and four bytes are read with the highest byte first: the bytes come out
/// again by division.
pub proof fn numbers_are_read_from_the_highest_byte(a: u8, b: u8, c: u8, d: u8)
    ensures
        be16(a, b) / 256 == a,
        be16(a, b) % 256 == b,
        be32(a, b, c, d) / 0x1_0000 == be16(a, b),
        be32(a, b, c, d) % 0x1_0000 == be16(c, d),
{
}

proof fn lemma_dec_without(n: nat, c: char)
    requires
        (c as int) < 48 || c as int > 57,
    ensures
        !text::dec(n).contains(c),
{
    text::decimal_texts_are_read_back(n);
}

proof fn lemma_hex_without(n: nat, c: char)
    requires
        (c as int) < 48 || 57 < (c as int) < 97 || c as int > 102,
    ensures
        !text::hex(n).contains(c),
{
    text::hexadecimal_texts_are_read_back(n);
}

proof fn lemma_ipv4_fields(a: u8, b: u8, c: u8, d: u8)
    ensures
        text::split_spec(ipv4_text(a, b, c, d), '.') == seq![
            text::dec(a as nat),
            text::dec(b as nat),
            text::dec(c as nat),
            text::dec(d as nat),
        ],
        forall|i: int|
            0 <= i < ipv4_text(a, b, c, d).len() ==> (#[trigger] ipv4_text(a, b, c, d)[i]) != ':',
        ipv4_text(a, b, c, d).contains('.'),
{
    reveal_strlit(".");
    let sep = seq!['.'];
    assert("."@ =~= sep);
    let p = seq![
        text::dec(a as nat),
        text::dec(b as nat),
        text::dec(c as nat),
        text::dec(d as nat),
    ];
    lemma_dec_without(a as nat, '.');
    lemma_dec_without(b as nat, '.');
    lemma_dec_without(c as nat, '.');
    lemma_dec_without(d as nat, '.');
    lemma_dec_without(a as nat, ':');
    lemma_dec_without(b as nat, ':');
    lemma_dec_without(c as nat, ':');
    lemma_dec_without(d as nat, ':');
    let x = text::dec(a as nat);
    let y = text::dec(b as nat);
    let z = text::dec(c as nat);
    let w = text::dec(d as nat);
    text::joining_goes_part_by_part(seq![x], sep, y);
    text::joining_goes_part_by_part(seq![x, y], sep, z);
    text::joining_goes_part_by_part(seq![x, y, z], sep, w);
    assert(seq![x].push(y) =~= seq![x, y]);
    assert(seq![x, y].push(z) =~= seq![x, y, z]);
    assert(seq![x, y, z].push(w) =~= p);
    text::joining_goes_part_by_part(seq![x], sep, x);
    assert(text::join_spec(p, sep) =~= ipv4_text(a, b, c, d));
    text::joined_parts_come_apart(p, '.');
    let s = ipv4_text(a, b, c, d);
    assert(s[x.len() as int] == '.');
    assert forall|i: int| 0 <= i < s.len() implies (#[trigger] s[i]) != ':' by {
        let n1 = x.len() as int;
        let n2 = n1 + 1 + y.len();
        let n3 = n2 + 1 + z.len();
        if i < n1 {
            assert(s[i] == x[i]);
        } else if n1 < i < n2 {
            assert(s[i] == y[i - n1 - 1]);
        } else if n2 < i < n3 {
            assert(s[i] == z[i - n2 - 1]);
        } else if i > n3 {
            assert(s[i] == w[i - n3 - 1]);
        }
    }
}

/// The text of an IPv4 address holds its four numbers in order, with dots between them.
pub proof fn ipv4_texts_hold_four_numbers(a: u8, b: u8, c: u8, d: u8)
    ensures
        text::split_spec(ipv4_text(a, b, c, d), '.').len() == 4,
        text::number_of(text::split_spec(ipv4_text(a, b, c, d), '.')[0], 10) == a,
        text::number_of(text::split_spec(ipv4_text(a, b, c, d), '.')[1], 10) == b,
        text::number_of(text::split_spec(ipv4_text(a, b, c, d), '.')[2], 10) == c,
        text::number_of(text::split_spec(ipv4_text(a, b, c, d), '.')[3], 10) == d,
{
    lemma_ipv4_fields(a, b, c, d);
    text::decimal_texts_are_read_back(a as nat);
    text::decimal_texts_are_read_back(b as nat);
    text::decimal_texts_are_read_back(c as nat);
    text::decimal_texts_are_read_back(d as nat);
}

/// An IPv4 address is that of a group of hosts where its first number is one from 224 to 239,
/// and else it is not.
pub proof fn groups_of_hosts_are_told_by_the_first_number(a: u8, b: u8, c: u8, d: u8)
    ensures
        is_multicast_text(ipv4_text(a, b, c, d)) == (224 <= a <= 239),
{
    let s = ipv4_text(a, b, c, d);
    lemma_ipv4_fields(a, b, c, d);
    let p = text::split_spec(s, '.');
    assert(is_ipv4_address(s)) by {
        assert(p[0] == text::dec(a as nat));
        assert(p[1] == text::dec(b as nat));
        assert(p[2] == text::dec(c as nat));
        assert(p[3] == text::dec(d as nat));
    }
    if 224 <= a <= 239 {
        assert(p[0] == text::dec(a as nat));
    } else {
        assert forall|v: u8| 224 <= v <= 239 implies p[0] != #[trigger] text::dec(v as nat) by {
            if p[0] == text::dec(v as nat) {
                lemma_dec_octet_injective(a, v);
            }
        }
    }
    assert(!s.contains(':'));
    text::lemma_unsplit(s, ':');
    let q = text::split_spec(s, ':');
    let k = choose|k: int| 0 <= k < s.len() && s[k] == '.';
    assert(hex_digit_value(s[k]) == -1);
    assert(!is_group(q[0]));
}

proof fn lemma_group_fields(bytes: Seq<u8>)
    requires
        bytes.len() >= 16,
    ensures
        text::split_spec(groups_text(bytes, 0, 8), ':') == group_texts(bytes, 0, 8),
{
    reveal_strlit(":");
    assert(":"@ =~= seq![':']);
    let p = group_texts(bytes, 0, 8);
    assert forall|i: int| 0 <= i < p.len() implies !(#[trigger] p[i]).contains(':') by {
        lemma_hex_without(group_at(bytes, i) as nat, ':');
    }
    text::joined_parts_come_apart(p, ':');
}

/// The long text of an IPv6 address holds its eight groups of two bytes in order, in
/// hexadecimal and with colons between them.
pub proof fn ipv6_texts_hold_eight_groups(bytes: Seq<u8>, i: int)
    requires
        bytes.len() >= 16,
        0 <= i < 8,
    ensures
        text::split_spec(groups_text(bytes, 0, 8), ':').len() == 8,
        text::number_of(text::split_spec(groups_text(bytes, 0, 8), ':')[i], 16) == bytes[2 * i]
            * 256 + bytes[2 * i + 1],
{
    lemma_group_fields(bytes);
    text::hexadecimal_texts_are_read_back(group_at(bytes, i) as nat);
}

proof fn lemma_group_value(s: Seq<char>)
    requires
        forall|i: int|
            0 <= i < s.len() ==> 48 <= (#[trigger] s[i]) as int <= 57 || 97 <= s[i] as int <= 102,
    ensures
        group_value(s) == text::number_of(s, 16),
    decreases s.len(),
{
    if s.len() > 0 {
        let front = s.drop_last();
        assert forall|i: int| 0 <= i < front.len() implies 48 <= (#[trigger] front[i]) as int <= 57
            || 97 <= front[i] as int <= 102 by {
            assert(front[i] == s[i]);
        }
        lemma_group_value(front);
        let c = s[s.len() - 1];
        assert(48 <= c as int <= 57 || 97 <= c as int <= 102);
    }
}

proof fn lemma_hex_len(n: nat)
    requires
        n < 0x1_0000,
    ensures
        1 <= text::hex(n).len() <= 4,
{
    reveal_with_fuel(text::hex, 5);
}

/// The long text of an IPv6 address is that of a group of hosts where its first byte is 255,
/// and else it is not.
pub proof fn ipv6_groups_of_hosts_are_told_by_the_first_byte(bytes: Seq<u8>)
    requires
        bytes.len() >= 16,
    ensures
        is_multicast_text(groups_text(bytes, 0, 8)) == (bytes[0] == 255),
{
    let s = groups_text(bytes, 0, 8);
    let p = group_texts(bytes, 0, 8);
    lemma_group_fields(bytes);
    assert forall|i: int| 0 <= i < 8 implies is_group(#[trigger] p[i]) && group_value(p[i])
        == group_at(bytes, i) by {
        let n = group_at(bytes, i) as nat;
        lemma_hex_len(n);
        text::hexadecimal_texts_are_read_back(n);
        lemma_group_value(p[i]);
    }
    assert(is_group(p[0]) && group_value(p[0]) == group_at(bytes, 0));
    assert(is_group(p[7]));
    assert(is_group_list(p) && group_count(p) == 8);
    assert(!is_ipv4_address(s)) by {
        text::split_fields_are_joined_again(s, ':');
        let q = text::split_spec(s, '.');
        if is_ipv4_address(s) {
            assert(!s.contains('.')) by {
                if s.contains('.') {
                    lemma_char_of_groups(bytes, 8, '.');
                }
            }
            text::lemma_unsplit(s, '.');
        }
    }
}

proof fn lemma_char_of_groups(bytes: Seq<u8>, n: int, c: char)
    requires
        bytes.len() >= 16,
        0 <= n <= 8,
        (c as int) < 48,
    ensures
        !groups_text(bytes, 0, n).contains(c),
    decreases n,
{
    reveal_strlit(":");
    let p = group_texts(bytes, 0, n);
    if n > 0 {
        lemma_char_of_groups(bytes, n - 1, c);
        lemma_hex_without(group_at(bytes, n - 1) as nat, c);
        assert(p.drop_last() =~= group_texts(bytes, 0, n - 1));
        let s = groups_text(bytes, 0, n);
        let front = groups_text(bytes, 0, n - 1);
        if s.contains(c) {
            let k = choose|k: int| 0 <= k < s.len() && s[k] == c;
            if n > 1 {
                if k < front.len() {
                    assert(front[k] == c);
                } else if k > front.len() {
                    assert(p.last()[k - front.len() - 1] == c);
                }
            } else {
                assert(p[0][k] == c);
            }
        }
    }
}

proof fn lemma_zero_groups(bytes: Seq<u8>, i: int)
    requires
        0 <= i <= 8,
    ensures
        0 <= zero_groups_at(bytes, i) <= 8 - i,
        forall|g: int|
            i <= g < i + zero_groups_at(bytes, i) ==> #[trigger] group_at(bytes, g) == 0,
        i + zero_groups_at(bytes, i) < 8 ==> group_at(bytes, i + zero_groups_at(bytes, i)) != 0,
    decreases 8 - i,
{
    if i < 8 && group_at(bytes, i) == 0 {
        lemma_zero_groups(bytes, i + 1);
    }
}

proof fn lemma_longest(bytes: Seq<u8>, i: int)
    requires
        0 <= i <= 8,
    ensures
        i <= longest_zeros_from(bytes, i) <= 8,
        forall|j: int|
            i <= j <= 8 ==> #[trigger] zero_groups_at(bytes, j) <= zero_groups_at(
                bytes,
                longest_zeros_from(bytes, i),
            ),
        forall|j: int|
            i <= j < longest_zeros_from(bytes, i) ==> #[trigger] zero_groups_at(bytes, j)
                < zero_groups_at(bytes, longest_zeros_from(bytes, i)),
    decreases 8 - i,
{
    if i < 8 {
        lemma_longest(bytes, i + 1);
    }
}

/// In the short text of an IPv6 address two colons stand for one run of zero groups: at least
/// two, none longer, and of equally long ones the first. Where no two groups in a row are zero
/// it is the long text. An IPv4 address in 16 bytes is shown as such.
pub proof fn two_colons_stand_for_the_longest_zeros(bytes: Seq<u8>, first: int, count: int)
    requires
        bytes.len() == 16,
        0 <= first,
        0 < count,
        first + count <= 8,
        forall|b: int| 2 * first <= b < 2 * (first + count) ==> #[trigger] bytes[b] == 0,
        !((forall|b: int| 0 <= b < 10 ==> #[trigger] bytes[b] == 0) && bytes[10] == 255
            && bytes[11] == 255),
    ensures
        ipv6_text(bytes) == groups_text(bytes, 0, 8) || exists|start: int, len: int|
            #![trigger groups_text(bytes, 0, start), groups_text(bytes, start + len, 8)]
            {
                &&& 0 <= start && 2 <= len && start + len <= 8
                &&& forall|b: int| 2 * start <= b < 2 * (start + len) ==> #[trigger] bytes[b] == 0
                &&& count <= len
                &&& count == len ==> start <= first
                &&& ipv6_text(bytes) == groups_text(bytes, 0, start) + "::"@ + groups_text(
                    bytes,
                    start + len,
                    8,
                )
            },
        count >= 2 ==> exists|start: int, len: int|
            #![trigger groups_text(bytes, 0, start), groups_text(bytes, start + len, 8)]
            {
                &&& 0 <= start && count <= len && start + len <= 8
                &&& count == len ==> start <= first
                &&& ipv6_text(bytes) == groups_text(bytes, 0, start) + "::"@ + groups_text(
                    bytes,
                    start + len,
                    8,
                )
            },
{
    let start = longest_zeros_from(bytes, 0);
    let len = zero_groups_at(bytes, start);
    lemma_longest(bytes, 0);
    lemma_zero_groups(bytes, start);
    lemma_zero_groups(bytes, first);
    let z = zero_groups_at(bytes, first);
    assert(z >= count) by {
        if z < count {
            let g = first + z;
            assert(bytes[2 * g] == 0 && bytes[2 * g + 1] == 0);
            assert(group_at(bytes, g) == 0);
        }
    }
    assert(z <= len);
    assert(!is_ipv4_mapped(bytes));
    assert forall|b: int| 2 * start <= b < 2 * (start + len) implies #[trigger] bytes[b] == 0 by {
        let g = b / 2;
        assert(group_at(bytes, g) == 0);
        assert(b == 2 * g || b == 2 * g + 1);
    }
    if len > 1 {
        assert(ipv6_text(bytes) == groups_text(bytes, 0, start) + "::"@ + groups_text(
            bytes,
            start + len,
            8,
        ));
    }
}

/// An IPv6 address in which no two groups in a row are zero is shown in its long text.
pub proof fn addresses_without_zeros_are_not_shortened(bytes: Seq<u8>)
    requires
        bytes.len() == 16,
        forall|g: int|
            0 <= g < 7 ==> !(#[trigger] bytes[2 * g] == 0 && bytes[2 * g + 1] == 0 && bytes[2 * g
                + 2] == 0 && bytes[2 * g + 3] == 0),
    ensures
        ipv6_text(bytes) == groups_text(bytes, 0, 8),
{
    let start = longest_zeros_from(bytes, 0);
    let len = zero_groups_at(bytes, start);
    lemma_longest(bytes, 0);
    lemma_zero_groups(bytes, start);
    if len > 1 {
        assert(group_at(bytes, start) == 0 && group_at(bytes, start + 1) == 0);
        assert(bytes[2 * start] == 0);
        assert(bytes[2 * (start + 1)] == 0 && bytes[2 * (start + 1) + 1] == 0);
    }
    assert(!is_ipv4_mapped(bytes)) by {
        assert(!(bytes[2 * 0int] == 0 && bytes[1] == 0 && bytes[2] == 0 && bytes[3] == 0));
    }
}

/// An IPv4 address in 16 bytes is shown by its four numbers.
pub proof fn ipv4_addresses_in_16_bytes_are_shown_as_such(a: u8, b: u8, c: u8, d: u8)
    ensures
        ipv6_text(seq![0u8, 0, 0, 0, 0, 0, 0, 0, 0, 0, 255, 255, a, b, c, d]) == "::ffff:"@
            + ipv4_text(a, b, c, d),
{
}

} // verus!

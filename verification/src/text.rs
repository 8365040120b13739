//! Text as sequences of characters: numbers, joined lists, split fields.

use vstd::prelude::*;

verus! {

/// The character for a digit below 16, in lower case.
pub open spec fn digit_char(d: int) -> char {
    seq!['0', '1', '2', '3', '4', '5', '6', '7', '8', '9', 'a', 'b', 'c', 'd', 'e', 'f'][d]
}

/// The decimal text of a number, without leading zeros.
pub open spec fn dec(n: nat) -> Seq<char>
    decreases n,
{
    if n < 10 {
        seq![digit_char(n as int)]
    } else {
        dec(n / 10).push(digit_char((n % 10) as int))
    }
}

/// The decimal text of an integer, with a minus sign where it is negative.
pub open spec fn dec_int(i: int) -> Seq<char> {
    if i < 0 {
        "-"@ + dec((-i) as nat)
    } else {
        dec(i as nat)
    }
}

/// The hexadecimal text of a number, in lower case and without leading zeros.
pub open spec fn hex(n: nat) -> Seq<char>
    decreases n,
{
    if n < 16 {
        seq![digit_char(n as int)]
    } else {
        hex(n / 16).push(digit_char((n % 16) as int))
    }
}

/// The lowest `width` hexadecimal digits of a number.
pub open spec fn hex_fixed(n: nat, width: nat) -> Seq<char>
    decreases width,
{
    if width == 0 {
        Seq::empty()
    } else {
        hex_fixed(n / 16, (width - 1) as nat).push(digit_char((n % 16) as int))
    }
}

/// The parts in order, with `sep` between each two of them.
pub open spec fn join_spec(parts: Seq<Seq<char>>, sep: Seq<char>) -> Seq<char>
    decreases parts.len(),
{
    if parts.len() == 0 {
        Seq::empty()
    } else if parts.len() == 1 {
        parts[0]
    } else {
        join_spec(parts.drop_last(), sep) + sep + parts.last()
    }
}

/// The texts of a list of strings.
pub open spec fn texts(v: Seq<String>) -> Seq<Seq<char>> {
    v.map_values(|s: String| s@)
}

/// The text of a string that may be missing.
pub open spec fn opt_text(o: Option<String>) -> Option<Seq<char>> {
    match o {
        Some(s) => Some(s@),
        None => None,
    }
}

/// A copy of a string that may be missing.
pub fn clone_opt(o: &Option<String>) -> (r: Option<String>)
    ensures
        r == *o,
{
    match o {
        Some(s) => Some(s.clone()),
        None => None,
    }
}

/// Appends one digit below 16.
pub fn push_digit(s: &mut String, d: u8)
    requires
        d < 16,
    ensures
        final(s)@ == old(s)@.push(digit_char(d as int)),
{
    proof {
        reveal_strlit("0");
        reveal_strlit("1");
        reveal_strlit("2");
        reveal_strlit("3");
        reveal_strlit("4");
        reveal_strlit("5");
        reveal_strlit("6");
        reveal_strlit("7");
        reveal_strlit("8");
        reveal_strlit("9");
        reveal_strlit("a");
        reveal_strlit("b");
        reveal_strlit("c");
        reveal_strlit("d");
        reveal_strlit("e");
        reveal_strlit("f");
    }
    let t: &str = match d {
        0 => "0",
        1 => "1",
        2 => "2",
        3 => "3",
        4 => "4",
        5 => "5",
        6 => "6",
        7 => "7",
        8 => "8",
        9 => "9",
        10 => "a",
        11 => "b",
        12 => "c",
        13 => "d",
        14 => "e",
        _ => "f",
    };
    assert(t@ =~= seq![digit_char(d as int)]);
    s.append(t);
    assert(s@ =~= old(s)@.push(digit_char(d as int)));
}

/// Appends the decimal text of a number.
pub fn push_dec(s: &mut String, n: u64)
    ensures
        final(s)@ == old(s)@ + dec(n as nat),
    decreases n,
{
    if n >= 10 {
        push_dec(s, n / 10);
    }
    push_digit(s, (n % 10) as u8);
    assert(s@ =~= old(s)@ + dec(n as nat));
}

/// Appends the decimal text of a number of up to 128 bits.
pub fn push_dec_wide(s: &mut String, n: u128)
    ensures
        final(s)@ == old(s)@ + dec(n as nat),
    decreases n,
{
    if n >= 10 {
        push_dec_wide(s, n / 10);
    }
    push_digit(s, (n % 10) as u8);
    assert(s@ =~= old(s)@ + dec(n as nat));
}

/// Appends the decimal text of a signed number of up to 128 bits.
pub fn push_dec_int_wide(s: &mut String, i: i128)
    ensures
        final(s)@ == old(s)@ + dec_int(i as int),
{
    if i < 0 {
        s.append("-");
        let m: u128 = if i == i128::MIN {
            170141183460469231731687303715884105728
        } else {
            (-i) as u128
        };
        push_dec_wide(s, m);
        assert(s@ =~= old(s)@ + dec_int(i as int));
    } else {
        push_dec_wide(s, i as u128);
    }
}

/// The texts of bytes, with two hexadecimal digits each.
pub open spec fn byte_texts(b: Seq<u8>) -> Seq<Seq<char>> {
    b.map_values(|x: u8| hex_fixed(x as nat, 2))
}

/// A list of bytes in brackets, with two hexadecimal digits each.
pub open spec fn byte_list(b: Seq<u8>) -> Seq<char> {
    "["@ + join_spec(byte_texts(b), ", "@) + "]"@
}

/// Writes a list of bytes in brackets.
pub fn format_byte_list(b: &Vec<u8>) -> (r: String)
    ensures
        r@ == byte_list(b@),
{
    let mut parts: Vec<String> = Vec::new();
    let mut i: usize = 0;
    assert(texts(parts@) =~= byte_texts(b@).take(0));
    while i < b.len()
        invariant
            i <= b@.len(),
            texts(parts@) == byte_texts(b@).take(i as int),
        decreases b.len() - i,
    {
        let mut t = String::new();
        push_hex_fixed(&mut t, b[i] as u64, 2);
        assert(t@ =~= hex_fixed(b@[i as int] as nat, 2));
        let ghost before = texts(parts@);
        parts.push(t);
        assert(texts(parts@) =~= before.push(t@));
        assert(texts(parts@) =~= byte_texts(b@).take(i + 1));
        i += 1;
    }
    assert(byte_texts(b@).take(i as int) =~= byte_texts(b@));
    let mut s = String::from_str("[");
    s.append(join(&parts, ", ").as_str());
    s.append("]");
    s
}

/// Appends the decimal text of a signed number.
pub fn push_dec_int(s: &mut String, i: i64)
    ensures
        final(s)@ == old(s)@ + dec_int(i as int),
{
    if i < 0 {
        s.append("-");
        let m: u64 = if i == i64::MIN {
            9223372036854775808
        } else {
            (-i) as u64
        };
        push_dec(s, m);
        assert(s@ =~= old(s)@ + dec_int(i as int));
    } else {
        push_dec(s, i as u64);
    }
}

/// The decimal text of a number.
pub fn dec_string(n: u64) -> (r: String)
    ensures
        r@ == dec(n as nat),
{
    let mut s = String::new();
    push_dec(&mut s, n);
    assert(s@ =~= dec(n as nat));
    s
}

/// Appends the hexadecimal text of a number.
pub fn push_hex(s: &mut String, n: u64)
    ensures
        final(s)@ == old(s)@ + hex(n as nat),
    decreases n,
{
    if n >= 16 {
        push_hex(s, n / 16);
    }
    push_digit(s, (n % 16) as u8);
    assert(s@ =~= old(s)@ + hex(n as nat));
}

/// Appends the lowest `width` hexadecimal digits of a number.
pub fn push_hex_fixed(s: &mut String, n: u64, width: usize)
    ensures
        final(s)@ == old(s)@ + hex_fixed(n as nat, width as nat),
    decreases width,
{
    if width > 0 {
        push_hex_fixed(s, n / 16, width - 1);
        push_digit(s, (n % 16) as u8);
    }
    assert(s@ =~= old(s)@ + hex_fixed(n as nat, width as nat));
}

/// Joins the parts with `sep` between each two of them.
pub fn join(parts: &Vec<String>, sep: &str) -> (r: String)
    ensures
        r@ == join_spec(texts(parts@), sep@),
{
    let mut s = String::new();
    let mut i: usize = 0;
    while i < parts.len()
        invariant
            i <= parts.len(),
            s@ == join_spec(texts(parts@).take(i as int), sep@),
        decreases parts.len() - i,
    {
        let ghost before = s@;
        if i > 0 {
            s.append(sep);
        }
        s.append(parts[i].as_str());
        proof {
            let t = texts(parts@).take(i + 1);
            assert(t.drop_last() =~= texts(parts@).take(i as int));
            assert(t.last() == parts@[i as int]@);
            assert(s@ =~= join_spec(t, sep@));
        }
        i += 1;
    }
    assert(texts(parts@).take(i as int) =~= texts(parts@));
    s
}

/// The characters of a text.
pub fn chars_of(s: &str) -> (r: Vec<char>)
    ensures
        r@ == s@,
{
    let mut out: Vec<char> = Vec::new();
    for c in it: s.chars()
        invariant
            out@ == it.seq().take(it.index()),
            it.seq() == s@,
    {
        out.push(c);
        assert(out@ =~= it.seq().take(it.index() + 1));
    }
    assert(out@ =~= s@);
    out
}

/// The fields of a text that stand between the separators `c`.
pub open spec fn split_spec(s: Seq<char>, c: char) -> Seq<Seq<char>>
    decreases s.len(),
{
    if s.len() == 0 {
        seq![Seq::empty()]
    } else {
        let front = split_spec(s.drop_last(), c);
        if s.last() == c {
            front.push(Seq::empty())
        } else {
            front.drop_last().push(front.last().push(s.last()))
        }
    }
}

/// The characters of each field of a list.
pub open spec fn fields(v: Seq<Vec<char>>) -> Seq<Seq<char>> {
    v.map_values(|f: Vec<char>| f@)
}

/// Splits a text at each separator `c`.
pub fn split(s: &Vec<char>, c: char) -> (r: Vec<Vec<char>>)
    ensures
        fields(r@) == split_spec(s@, c),
        r@.len() > 0,
{
    let mut done: Vec<Vec<char>> = Vec::new();
    let mut field: Vec<char> = Vec::new();
    let mut i: usize = 0;
    assert(fields(done@).push(field@) =~= split_spec(s@.take(0), c));
    while i < s.len()
        invariant
            i <= s.len(),
            fields(done@).push(field@) == split_spec(s@.take(i as int), c),
        decreases s.len() - i,
    {
        let ghost before = fields(done@).push(field@);
        proof {
            assert(s@.take(i + 1).drop_last() =~= s@.take(i as int));
            assert(before.drop_last() =~= fields(done@));
        }
        if s[i] == c {
            done.push(field);
            assert(fields(done@) =~= before);
            field = Vec::new();
        } else {
            field.push(s[i]);
        }
        assert(fields(done@).push(field@) =~= split_spec(s@.take(i + 1), c));
        i += 1;
    }
    assert(s@.take(i as int) =~= s@);
    let ghost last = fields(done@).push(field@);
    done.push(field);
    assert(fields(done@) =~= last);
    done
}

/// The number that a text of digits stands for, read from the left.
pub open spec fn number_of(s: Seq<char>, base: int) -> int
    decreases s.len(),
{
    if s.len() == 0 {
        0
    } else {
        base * number_of(s.drop_last(), base) + if s.last() as int >= 97 {
            s.last() as int - 87
        } else {
            s.last() as int - 48
        }
    }
}

proof fn lemma_digit(d: int)
    requires
        0 <= d < 16,
    ensures
        digit_char(d) as int == if d < 10 {
            d + 48
        } else {
            d + 87
        },
{
}

/// A number that is written in decimal is read back from its text, which holds nothing but
/// the digits from 0 to 9 and no zero in front.
pub proof fn decimal_texts_are_read_back(n: nat)
    ensures
        number_of(dec(n), 10) == n,
        dec(n).len() >= 1,
        forall|i: int| 0 <= i < dec(n).len() ==> 48 <= (#[trigger] dec(n)[i]) as int <= 57,
        dec(n).len() > 1 ==> dec(n)[0] as int != 48,
        n > 0 ==> dec(n)[0] as int != 48,
    decreases n,
{
    lemma_digit((n % 10) as int);
    if n < 10 {
        assert(dec(n).drop_last() =~= Seq::<char>::empty());
        assert(number_of(dec(n).drop_last(), 10) == 0);
    } else {
        decimal_texts_are_read_back(n / 10);
        assert(dec(n).drop_last() =~= dec(n / 10));
        assert forall|i: int| 0 <= i < dec(n).len() implies 48 <= (#[trigger] dec(n)[i]) as int
            <= 57 by {
            if i < dec(n / 10).len() {
                assert(dec(n)[i] == dec(n / 10)[i]);
            }
        }
        assert(dec(n)[0] == dec(n / 10)[0]);
    }
}

/// A number below zero is written as a minus sign and the number without it.
pub proof fn signs_are_written(i: int)
    ensures
        i >= 0 ==> number_of(dec_int(i), 10) == i && dec_int(i)[0] != '-',
        i < 0 ==> dec_int(i)[0] == '-' && number_of(dec_int(i).drop_first(), 10) == -i,
{
    reveal_strlit("-");
    if i < 0 {
        decimal_texts_are_read_back((-i) as nat);
        assert(dec_int(i).drop_first() =~= dec((-i) as nat));
    } else {
        decimal_texts_are_read_back(i as nat);
        assert(48 <= dec(i as nat)[0] as int);
    }
}

/// A number that is written in hexadecimal is read back from its text, which holds nothing
/// but the digits from 0 to 9 and the small letters from a to f, and no zero in front.
pub proof fn hexadecimal_texts_are_read_back(n: nat)
    ensures
        number_of(hex(n), 16) == n,
        hex(n).len() >= 1,
        forall|i: int|
            0 <= i < hex(n).len() ==> 48 <= (#[trigger] hex(n)[i]) as int <= 57 || 97 <= hex(
                n,
            )[i] as int <= 102,
        hex(n).len() > 1 ==> hex(n)[0] as int != 48,
        n > 0 ==> hex(n)[0] as int != 48,
    decreases n,
{
    lemma_digit((n % 16) as int);
    if n < 16 {
        assert(hex(n).drop_last() =~= Seq::<char>::empty());
        assert(number_of(hex(n).drop_last(), 16) == 0);
    } else {
        hexadecimal_texts_are_read_back(n / 16);
        assert(hex(n).drop_last() =~= hex(n / 16));
        assert forall|i: int| 0 <= i < hex(n).len() implies 48 <= (#[trigger] hex(n)[i]) as int
            <= 57 || 97 <= hex(n)[i] as int <= 102 by {
            if i < hex(n / 16).len() {
                assert(hex(n)[i] == hex(n / 16)[i]);
            }
        }
        assert(hex(n)[0] == hex(n / 16)[0]);
    }
}

proof fn lemma_fixed_step(n: nat, width: nat)
    requires
        width > 0,
    ensures
        hex_fixed(n, width).len() == width,
        hex_fixed(n, width).drop_last() == hex_fixed(n / 16, (width - 1) as nat),
        hex_fixed(n, width).last() == digit_char((n % 16) as int),
    decreases width,
{
    if width > 1 {
        lemma_fixed_step(n / 16, (width - 1) as nat);
    }
    assert(hex_fixed(n, width).drop_last() =~= hex_fixed(n / 16, (width - 1) as nat));
}

/// A number that is written with a fixed count of hexadecimal digits has as many, and is read
/// back from them where they are enough for it: two for a byte, four for two bytes and eight
/// for four.
pub proof fn fixed_hexadecimal_texts_are_read_back(n: nat)
    ensures
        hex_fixed(n, 2).len() == 2,
        hex_fixed(n, 4).len() == 4,
        hex_fixed(n, 8).len() == 8,
        n < 0x100 ==> number_of(hex_fixed(n, 2), 16) == n,
        n < 0x1_0000 ==> number_of(hex_fixed(n, 4), 16) == n,
        n < 0x1_0000_0000 ==> number_of(hex_fixed(n, 8), 16) == n,
        forall|w: nat, i: int|
            0 <= i < hex_fixed(n, w).len() ==> 48 <= (#[trigger] hex_fixed(n, w)[i]) as int <= 57
                || 97 <= hex_fixed(n, w)[i] as int <= 102,
{
    lemma_fixed_step(n, 2);
    lemma_fixed_step(n, 4);
    lemma_fixed_step(n, 8);
    assert(vstd::arithmetic::power::pow(16, 2) == 0x100) by {
        reveal_with_fuel(vstd::arithmetic::power::pow, 3);
    }
    assert(vstd::arithmetic::power::pow(16, 4) == 0x1_0000) by {
        reveal_with_fuel(vstd::arithmetic::power::pow, 5);
    }
    assert(vstd::arithmetic::power::pow(16, 8) == 0x1_0000_0000) by {
        reveal_with_fuel(vstd::arithmetic::power::pow, 9);
    }
    if n < 0x100 {
        lemma_fixed_value(n, 2);
    }
    if n < 0x1_0000 {
        lemma_fixed_value(n, 4);
    }
    if n < 0x1_0000_0000 {
        lemma_fixed_value(n, 8);
    }
    assert forall|w: nat, i: int| 0 <= i < hex_fixed(n, w).len() implies 48 <= (
    #[trigger] hex_fixed(n, w)[i]) as int <= 57 || 97 <= hex_fixed(n, w)[i] as int <= 102 by {
        lemma_fixed_digits(n, w);
    }
}

proof fn lemma_fixed_digits(n: nat, width: nat)
    ensures
        forall|i: int|
            0 <= i < hex_fixed(n, width).len() ==> 48 <= (#[trigger] hex_fixed(n, width)[i]) as int
                <= 57 || 97 <= hex_fixed(n, width)[i] as int <= 102,
    decreases width,
{
    if width > 0 {
        lemma_fixed_digits(n / 16, (width - 1) as nat);
        lemma_digit((n % 16) as int);
        let front = hex_fixed(n / 16, (width - 1) as nat);
        assert forall|i: int| 0 <= i < hex_fixed(n, width).len() implies 48 <= (
        #[trigger] hex_fixed(n, width)[i]) as int <= 57 || 97 <= hex_fixed(n, width)[i] as int
            <= 102 by {
            if i < front.len() {
                assert(hex_fixed(n, width)[i] == front[i]);
            }
        }
    }
}

proof fn lemma_fixed_value(n: nat, width: nat)
    requires
        n < vstd::arithmetic::power::pow(16, width),
    ensures
        number_of(hex_fixed(n, width), 16) == n,
    decreases width,
{
    reveal(vstd::arithmetic::power::pow);
    if width > 0 {
        lemma_fixed_step(n, width);
        let below = vstd::arithmetic::power::pow(16, (width - 1) as nat);
        assert(vstd::arithmetic::power::pow(16, width) == 16 * below);
        lemma_fixed_value(n / 16, (width - 1) as nat);
        lemma_digit((n % 16) as int);
    }
}

/// Parts that are joined with a separator come apart again at it, where none of them holds
/// it, and fields into which a text was split give the text when they are joined.
pub proof fn joined_parts_come_apart(parts: Seq<Seq<char>>, c: char)
    requires
        parts.len() > 0,
        forall|i: int| 0 <= i < parts.len() ==> !(#[trigger] parts[i]).contains(c),
    ensures
        split_spec(join_spec(parts, seq![c]), c) == parts,
    decreases parts.len(),
{
    let front = parts.drop_last();
    let last = parts.last();
    assert(!parts[parts.len() - 1].contains(c));
    if parts.len() == 1 {
        lemma_unsplit(last, c);
        assert(split_spec(last, c) =~= parts);
    } else {
        assert forall|i: int| 0 <= i < front.len() implies !(#[trigger] front[i]).contains(c) by {
            assert(front[i] == parts[i]);
        }
        joined_parts_come_apart(front, c);
        lemma_split_joined(join_spec(front, seq![c]), last, c);
        lemma_unsplit(last, c);
        assert(split_spec(join_spec(parts, seq![c]), c) =~= parts);
    }
}

/// A text without a separator is one field.
pub proof fn lemma_unsplit(s: Seq<char>, c: char)
    requires
        !s.contains(c),
    ensures
        split_spec(s, c) == seq![s],
    decreases s.len(),
{
    if s.len() > 0 {
        let front = s.drop_last();
        assert(!front.contains(c)) by {
            if front.contains(c) {
                let i = choose|i: int| 0 <= i < front.len() && front[i] == c;
                assert(s[i] == c);
            }
        }
        assert(s[s.len() - 1] != c);
        lemma_unsplit(front, c);
        assert(front.push(s.last()) =~= s);
        assert(split_spec(s, c) =~= seq![s]);
    } else {
        assert(s =~= Seq::empty());
        assert(split_spec(s, c) =~= seq![s]);
    }
}

/// The fields of two texts with a separator between them are those of both.
pub proof fn lemma_split_joined(a: Seq<char>, b: Seq<char>, c: char)
    ensures
        split_spec(a + seq![c] + b, c) == split_spec(a, c) + split_spec(b, c),
        split_spec(b, c).len() > 0,
    decreases b.len(),
{
    let whole = a + seq![c] + b;
    if b.len() == 0 {
        assert(whole.drop_last() =~= a);
        assert(whole.last() == c);
        assert(split_spec(whole, c) =~= split_spec(a, c) + split_spec(b, c));
    } else {
        let front = b.drop_last();
        lemma_split_joined(a, front, c);
        assert(whole.drop_last() =~= a + seq![c] + front);
        assert(whole.last() == b.last());
        let x = split_spec(a, c);
        let y = split_spec(front, c);
        assert((x + y).last() == y.last());
        assert((x + y).drop_last() =~= x + y.drop_last());
        assert(split_spec(whole, c) =~= x + split_spec(b, c));
    }
}

/// Fields into which a text was split at a separator hold none, and give the text again when
/// they are joined with it.
pub proof fn split_fields_are_joined_again(s: Seq<char>, c: char)
    ensures
        split_spec(s, c).len() > 0,
        join_spec(split_spec(s, c), seq![c]) == s,
        forall|i: int| 0 <= i < split_spec(s, c).len() ==> !(#[trigger] split_spec(s, c)[i]).contains(c),
    decreases s.len(),
{
    let f = split_spec(s, c);
    if s.len() == 0 {
        assert(join_spec(f, seq![c]) =~= s);
    } else {
        let front = s.drop_last();
        let g = split_spec(front, c);
        split_fields_are_joined_again(front, c);
        if s.last() == c {
            assert(f.drop_last() =~= g);
            assert(join_spec(f, seq![c]) =~= s);
            assert forall|i: int| 0 <= i < f.len() implies !(#[trigger] f[i]).contains(c) by {
                if i < g.len() {
                    assert(f[i] == g[i]);
                }
            }
        } else {
            assert(f.drop_last() =~= g.drop_last());
            assert(f.last() == g.last().push(s.last()));
            let sep = seq![c];
            if g.len() == 1 {
                assert(join_spec(f, sep) =~= s);
            } else {
                let before = join_spec(g.drop_last(), sep);
                assert(join_spec(g, sep) == before + sep + g.last());
                assert(join_spec(f, sep) == before + sep + f.last());
                assert(front =~= before + sep + g.last());
                assert(s =~= front.push(s.last()));
                assert(join_spec(f, sep) =~= s);
            }
            assert forall|i: int| 0 <= i < f.len() implies !(#[trigger] f[i]).contains(c) by {
                if i < g.len() - 1 {
                    assert(f[i] == g[i]);
                } else {
                    assert(!g[g.len() - 1].contains(c));
                    if f[i].contains(c) {
                        let k = choose|k: int| 0 <= k < f[i].len() && f[i][k] == c;
                        assert(k < g.last().len());
                        assert(g.last()[k] == c);
                    }
                }
            }
        }
    }
}

/// One more part goes behind the others with the separator between; a single part stands
/// alone.
pub proof fn joining_goes_part_by_part(parts: Seq<Seq<char>>, sep: Seq<char>, part: Seq<char>)
    ensures
        join_spec(Seq::empty(), sep) == Seq::<char>::empty(),
        join_spec(seq![part], sep) == part,
        parts.len() > 0 ==> join_spec(parts.push(part), sep) == join_spec(parts, sep) + sep + part,
{
    assert(parts.push(part).drop_last() =~= parts);
}

/// A list of bytes stands in square brackets, with two digits for each byte and a comma and a
/// space between.
pub proof fn byte_lists_show_each_byte(b: Seq<u8>)
    ensures
        b.len() == 0 ==> byte_list(b) == "[]"@,
        b.len() > 0 ==> byte_list(b).len() == 4 * b.len(),
        forall|i: int|
            0 <= i < b.len() ==> number_of(
                #[trigger] byte_list(b).subrange(4 * i + 1, 4 * i + 3),
                16,
            ) == b[i],
        forall|i: int| 0 < i < b.len() ==> #[trigger] byte_list(b).subrange(4 * i - 1, 4 * i + 1) == ", "@,
{
    reveal_strlit("[]");
    reveal_strlit("[");
    reveal_strlit("]");
    reveal_strlit(", ");
    if b.len() == 0 {
        assert(byte_list(b) =~= "[]"@);
    } else {
        lemma_byte_texts(b);
        let t = join_spec(byte_texts(b), ", "@);
        let all = byte_list(b);
        assert(forall|k: int| 0 <= k < t.len() ==> all[k + 1] == t[k]);
        assert forall|i: int| 0 <= i < b.len() implies number_of(
            #[trigger] all.subrange(4 * i + 1, 4 * i + 3),
            16,
        ) == b[i] by {
            assert(all.subrange(4 * i + 1, 4 * i + 3) =~= t.subrange(4 * i, 4 * i + 2));
        }
        assert forall|i: int| 0 < i < b.len() implies #[trigger] all.subrange(4 * i - 1, 4 * i + 1)
            == ", "@ by {
            assert(all.subrange(4 * i - 1, 4 * i + 1) =~= t.subrange(4 * i - 2, 4 * i));
        }
    }
}

proof fn lemma_byte_texts(b: Seq<u8>)
    requires
        b.len() > 0,
    ensures
        join_spec(byte_texts(b), ", "@).len() == 4 * b.len() - 2,
        forall|i: int|
            0 <= i < b.len() ==> number_of(
                #[trigger] join_spec(byte_texts(b), ", "@).subrange(4 * i, 4 * i + 2),
                16,
            ) == b[i],
        forall|i: int|
            0 < i < b.len() ==> #[trigger] join_spec(byte_texts(b), ", "@).subrange(
                4 * i - 2,
                4 * i,
            ) == ", "@,
    decreases b.len(),
{
    reveal_strlit(", ");
    let t = join_spec(byte_texts(b), ", "@);
    let x = b.last();
    fixed_hexadecimal_texts_are_read_back(x as nat);
    assert(byte_texts(b).last() == hex_fixed(x as nat, 2));
    if b.len() == 1 {
        assert(t =~= hex_fixed(x as nat, 2));
        assert(t.subrange(0, 2) =~= t);
    } else {
        let front = b.drop_last();
        assert(byte_texts(b).drop_last() =~= byte_texts(front));
        let u = join_spec(byte_texts(front), ", "@);
        lemma_byte_texts(front);
        let n = b.len() as int;
        assert forall|i: int| 0 <= i < b.len() implies number_of(
            #[trigger] t.subrange(4 * i, 4 * i + 2),
            16,
        ) == b[i] by {
            if i < n - 1 {
                assert(t.subrange(4 * i, 4 * i + 2) =~= u.subrange(4 * i, 4 * i + 2));
                assert(front[i] == b[i]);
            } else {
                assert(t.subrange(4 * i, 4 * i + 2) =~= hex_fixed(x as nat, 2));
            }
        }
        assert forall|i: int| 0 < i < b.len() implies #[trigger] t.subrange(4 * i - 2, 4 * i)
            == ", "@ by {
            if i < n - 1 {
                assert(t.subrange(4 * i - 2, 4 * i) =~= u.subrange(4 * i - 2, 4 * i));
            } else {
                assert(t.subrange(4 * i - 2, 4 * i) =~= ", "@);
            }
        }
    }
}

} // verus!

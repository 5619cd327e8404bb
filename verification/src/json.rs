//! The pieces of the text framing: numbers in decimal, quoted texts with
//! escapes, and fixed words. The text framing is compact JSON in one fixed
//! form: each value has exactly one text, and a reader accepts exactly that
//! text.

use crate::wire::occurs_at;
use crate::wire::string_from_utf8;
use vstd::prelude::*;
use vstd::string::StringSliceAdditionalSpecFns;
use vstd::utf8::decode_utf8;
use vstd::utf8::decode_utf8_encode_utf8;
use vstd::utf8::encode_utf8;
use vstd::utf8::encode_utf8_decode_utf8;
use vstd::utf8::encode_utf8_valid_utf8;
use vstd::pervasive::unreached;
use vstd::utf8::is_leading_byte_width_1;
use vstd::utf8::length_of_first_scalar;
use vstd::utf8::partial_valid_utf8_extend_ascii_block;
use vstd::utf8::pop_first_scalar;
use vstd::utf8::valid_first_scalar;
use vstd::utf8::valid_utf8;
use vstd::utf8::valid_utf8_concat;

verus! {

/// The byte is a decimal digit.
pub open spec fn is_digit(b: u8) -> bool {
    0x30 <= b && b <= 0x39
}

/// The decimal digits of `n`, without leading zeros.
pub open spec fn digits(n: nat) -> Seq<u8>
    decreases n,
{
    if n < 10 {
        seq![(0x30 + n) as u8]
    } else {
        digits(n / 10).push((0x30 + n % 10) as u8)
    }
}

/// The number that decimal digits spell.
pub open spec fn digits_value(d: Seq<u8>) -> nat
    decreases d.len(),
{
    if d.len() == 0 {
        0
    } else {
        10 * digits_value(d.drop_last()) + (d.last() - 0x30) as nat
    }
}

/// Decimal digits in the one form that a number has: at least one digit,
/// and no leading zero before another digit.
pub open spec fn canonical_digits(d: Seq<u8>) -> bool {
    &&& d.len() >= 1
    &&& forall|i: int| 0 <= i < d.len() ==> is_digit(#[trigger] d[i])
    &&& d.len() > 1 ==> d[0] != 0x30
}

/// The text of an integer: a minus sign for a negative one, then the
/// digits of its magnitude.
pub open spec fn int_json(v: int) -> Seq<u8> {
    if v < 0 {
        seq![0x2du8] + digits((-v) as nat)
    } else {
        digits(v as nat)
    }
}

/// The text of an integer that another field follows: the integer, then a
/// comma.
pub open spec fn int_comma_json(v: int) -> Seq<u8> {
    int_json(v) + seq![0x2cu8]
}

/// How many digits stand in `s` from `pos` on without a break.
pub open spec fn digit_run(s: Seq<u8>, pos: int) -> nat
    decreases s.len() - pos,
{
    if 0 <= pos < s.len() && is_digit(s[pos]) {
        1 + digit_run(s, pos + 1)
    } else {
        0
    }
}

/// What reading a number without sign at `pos` yields.
pub open spec fn nat_at(s: Seq<u8>, pos: int) -> Option<(nat, int)> {
    let run = digit_run(s, pos);
    let d = s.subrange(pos, pos + run);
    if 0 <= pos && pos + run <= s.len() && canonical_digits(d) {
        Some((digits_value(d), pos + run))
    } else {
        None
    }
}

/// What reading an integer at `pos` yields.
pub open spec fn int_at(s: Seq<u8>, pos: int) -> Option<(int, int)> {
    if 0 <= pos < s.len() && s[pos] == 0x2d {
        match nat_at(s, pos + 1) {
            Some((n, p)) => if n == 0 {
                None
            } else {
                Some((-(n as int), p))
            },
            None => None,
        }
    } else {
        match nat_at(s, pos) {
            Some((n, p)) => Some((n as int, p)),
            None => None,
        }
    }
}

/// What reading an integer between `low` and `high` and the comma behind
/// it yields.
pub open spec fn int_comma_at(s: Seq<u8>, pos: int, low: int, high: int) -> Option<(int, int)> {
    match int_at(s, pos) {
        Some((v, p)) => if low <= v <= high && p < s.len() && s[p] == 0x2c {
            Some((v, p + 1))
        } else {
            None
        },
        None => None,
    }
}

proof fn lemma_digits(n: nat)
    ensures
        canonical_digits(digits(n)),
        digits_value(digits(n)) == n,
        n >= 1 ==> digits(n)[0] != 0x30,
    decreases n,
{
    if n < 10 {
        let d = digits(n);
        assert(d.drop_last() =~= Seq::<u8>::empty());
        assert(digits_value(d.drop_last()) == 0);
    } else {
        lemma_digits(n / 10);
        let front = digits(n / 10);
        let d = digits(n);
        assert(d.drop_last() =~= front);
        assert(d[0] == front[0]);
        assert forall|i: int| 0 <= i < d.len() implies is_digit(#[trigger] d[i]) by {
            if i < front.len() {
                assert(d[i] == front[i]);
            }
        }
    }
}

proof fn lemma_digits_value_positive(d: Seq<u8>)
    requires
        canonical_digits(d),
        d[0] != 0x30,
    ensures
        digits_value(d) >= 1,
    decreases d.len(),
{
    if d.len() == 1 {
        assert(d.drop_last() =~= Seq::<u8>::empty());
        assert(digits_value(d.drop_last()) == 0);
        assert(d.last() == d[0]);
    } else {
        let front = d.drop_last();
        assert(front[0] == d[0]);
        assert forall|i: int| 0 <= i < front.len() implies is_digit(#[trigger] front[i]) by {
            assert(front[i] == d[i]);
        }
        lemma_digits_value_positive(front);
    }
}

proof fn lemma_digits_of_value(d: Seq<u8>)
    requires
        canonical_digits(d),
    ensures
        digits(digits_value(d)) == d,
    decreases d.len(),
{
    if d.len() == 1 {
        assert(d.drop_last() =~= Seq::<u8>::empty());
        assert(digits_value(d.drop_last()) == 0);
        assert(d.last() == d[0]);
        assert(is_digit(d[0]));
        assert(digits(digits_value(d)) =~= d);
    } else {
        let front = d.drop_last();
        assert(front[0] == d[0]);
        assert forall|i: int| 0 <= i < front.len() implies is_digit(#[trigger] front[i]) by {
            assert(front[i] == d[i]);
        }
        lemma_digits_of_value(front);
        lemma_digits_value_positive(front);
        assert(is_digit(d[d.len() - 1]));
        let v = digits_value(d);
        assert(v / 10 == digits_value(front));
        assert(v % 10 == (d.last() - 0x30) as nat);
        assert(digits(v) =~= d);
    }
}

proof fn lemma_digit_run(s: Seq<u8>, pos: int)
    requires
        0 <= pos,
    ensures
        pos + digit_run(s, pos) <= s.len() || digit_run(s, pos) == 0,
        forall|i: int| pos <= i < pos + digit_run(s, pos) ==> is_digit(#[trigger] s[i]),
        pos + digit_run(s, pos) >= s.len() || !is_digit(s[pos + digit_run(s, pos)]),
    decreases s.len() - pos,
{
    if pos < s.len() && is_digit(s[pos]) {
        lemma_digit_run(s, pos + 1);
    }
}

proof fn lemma_digit_run_unique(s: Seq<u8>, pos: int, k: nat)
    requires
        0 <= pos,
        pos + k <= s.len(),
        forall|i: int| pos <= i < pos + k ==> is_digit(#[trigger] s[i]),
        pos + k == s.len() || !is_digit(s[pos + k]),
    ensures
        digit_run(s, pos) == k,
    decreases k,
{
    if k > 0 {
        assert(is_digit(s[pos]));
        lemma_digit_run_unique(s, pos + 1, (k - 1) as nat);
    }
}

/// A number is read at `pos` exactly where its digits stand there and no
/// digit follows them.
proof fn lemma_nat_at(s: Seq<u8>, pos: int, n: nat)
    ensures
        nat_at(s, pos) == Some((n, pos + digits(n).len())) <==> occurs_at(digits(n), s, pos) && (
        pos + digits(n).len() == s.len() || !is_digit(s[pos + digits(n).len()])),
        nat_at(s, pos) matches Some((w, p)) ==> p == pos + digits(w).len(),
{
    lemma_digits(n);
    let d = digits(n);
    if 0 <= pos {
        lemma_digit_run(s, pos);
        let run = digit_run(s, pos);
        let got = s.subrange(pos, pos + run);
        if canonical_digits(got) {
            lemma_digits_of_value(got);
        }
        if occurs_at(d, s, pos) && (pos + d.len() == s.len() || !is_digit(s[pos + d.len()])) {
            assert forall|i: int| pos <= i < pos + d.len() implies is_digit(#[trigger] s[i]) by {
                assert(s.subrange(pos, pos + d.len())[i - pos] == d[i - pos]);
            }
            lemma_digit_run_unique(s, pos, d.len());
        }
    }
}

/// An integer is read at `pos` exactly where its text stands there and no
/// digit follows it.
proof fn lemma_int_at(s: Seq<u8>, pos: int, v: int)
    ensures
        int_at(s, pos) == Some((v, pos + int_json(v).len())) <==> occurs_at(int_json(v), s, pos)
            && (pos + int_json(v).len() == s.len() || !is_digit(s[pos + int_json(v).len()])),
        int_at(s, pos) matches Some((w, p)) ==> p == pos + int_json(w).len(),
{
    let m: nat = if v < 0 {
        (-v) as nat
    } else {
        v as nat
    };
    lemma_digits(m);
    if v < 0 {
        crate::wire::lemma_occurs_concat(seq![0x2du8], digits(m), s, pos);
        lemma_nat_at(s, pos + 1, m);
        if occurs_at(seq![0x2du8], s, pos) {
            assert(s.subrange(pos, pos + 1)[0] == 0x2du8);
        }
        if 0 <= pos < s.len() && s[pos] == 0x2d {
            assert(s.subrange(pos, pos + 1) =~= seq![0x2du8]);
        }
        if 0 <= pos < s.len() && s[pos] != 0x2d {
            lemma_nat_at(s, pos, 0);
            if let Some((w, p)) = nat_at(s, pos) {
                lemma_nat_at(s, pos, w);
            }
        }
    } else {
        lemma_nat_at(s, pos, m);
        if occurs_at(digits(m), s, pos) {
            assert(s.subrange(pos, pos + digits(m).len())[0] == digits(m)[0]);
            assert(is_digit(digits(m)[0]));
        }
        if 0 <= pos < s.len() && s[pos] == 0x2d {
            if let Some((w, p)) = nat_at(s, pos + 1) {
                lemma_nat_at(s, pos + 1, w);
            }
        }
    }
    if let Some((w, p)) = int_at(s, pos) {
        if 0 <= pos < s.len() && s[pos] == 0x2d {
            if let Some((n, q)) = nat_at(s, pos + 1) {
                lemma_nat_at(s, pos + 1, n);
            }
        } else {
            if let Some((n, q)) = nat_at(s, pos) {
                lemma_nat_at(s, pos, n);
            }
        }
    }
}

/// An integer and its comma are read at `pos` exactly where the integer
/// is in range and its text and a comma stand there.
pub proof fn lemma_int_comma_at(s: Seq<u8>, pos: int, low: int, high: int, v: int)
    ensures
        int_comma_at(s, pos, low, high) == Some((v, pos + int_comma_json(v).len())) <==> low <= v
            <= high && occurs_at(int_comma_json(v), s, pos),
        int_comma_at(s, pos, low, high) matches Some((w, p)) ==> p == pos + int_comma_json(
            w,
        ).len() && low <= w <= high,
{
    lemma_int_at(s, pos, v);
    crate::wire::lemma_occurs_concat(int_json(v), seq![0x2cu8], s, pos);
    let end = pos + int_json(v).len();
    if occurs_at(seq![0x2cu8], s, end) {
        assert(s.subrange(end, end + 1)[0] == 0x2cu8);
    }
    if 0 <= end < s.len() && s[end] == 0x2c {
        assert(s.subrange(end, end + 1) =~= seq![0x2cu8]);
    }
    if let Some((w, p)) = int_at(s, pos) {
        lemma_int_at(s, pos, w);
    }
}

fn put_digits(out: &mut Vec<u8>, n: u64)
    ensures
        final(out)@ == old(out)@ + digits(n as nat),
    decreases n,
{
    if n < 10 {
        out.push((0x30 + n) as u8);
        assert(out@ =~= old(out)@ + digits(n as nat));
    } else {
        put_digits(out, n / 10);
        out.push((0x30 + n % 10) as u8);
        assert(out@ =~= old(out)@ + digits(n as nat));
    }
}

/// Appends the text of an integer.
pub(crate) fn put_int(out: &mut Vec<u8>, v: i32)
    ensures
        final(out)@ == old(out)@ + int_json(v as int),
{
    let wide: i64 = v as i64;
    if wide < 0 {
        out.push(0x2du8);
        put_digits(out, (-wide) as u64);
    } else {
        put_digits(out, wide as u64);
    }
    assert(out@ =~= old(out)@ + int_json(v as int));
}

/// Appends the text of an integer and a comma.
pub(crate) fn put_int_comma(out: &mut Vec<u8>, v: i32)
    ensures
        final(out)@ == old(out)@ + int_comma_json(v as int),
{
    put_int(out, v);
    out.push(0x2cu8);
    assert(out@ =~= old(out)@ + int_comma_json(v as int));
}

/// The text of an integer is made of a minus sign and digits, plain ASCII
/// all of them.
pub proof fn lemma_int_json_ascii(v: int)
    ensures
        forall|i: int| 0 <= i < int_json(v).len() ==> #[trigger] int_json(v)[i] < 0x80,
{
    if v < 0 {
        lemma_digits((-v) as nat);
    } else {
        lemma_digits(v as nat);
    }
}

/// Reads an integer between `low` and `high` and the comma behind it.
pub(crate) fn read_int_comma(bytes: &[u8], pos: usize, low: i64, high: i64) -> (r: Option<(i64, usize)>)
    requires
        pos <= bytes@.len(),
        -0x8000_0000 <= low <= high <= 0x7fff_ffff,
    ensures
        match r {
            Some((v, p)) => int_comma_at(bytes@, pos as int, low as int, high as int) == Some(
                (v as int, p as int),
            ) && p <= bytes@.len(),
            None => int_comma_at(bytes@, pos as int, low as int, high as int) is None,
        },
{
    let len = bytes.len();
    if pos >= len {
        proof {
            lemma_digit_run(bytes@, pos as int);
            assert(bytes@.subrange(pos as int, pos as int).len() == 0);
        }
        return None;
    }
    let negative = bytes[pos] == 0x2d;
    let start: usize = if negative {
        pos + 1
    } else {
        pos
    };
    let mut i: usize = start;
    let mut acc: u64 = 0;
    while i < len && 0x30 <= bytes[i] && bytes[i] <= 0x39
        invariant
            start <= i <= len,
            len == bytes@.len(),
            digit_run(bytes@, start as int) == (i - start) + digit_run(bytes@, i as int),
            forall|j: int| start <= j < i ==> is_digit(#[trigger] bytes@[j]),
            acc <= 0x1_0000_0000,
            acc == if digits_value(bytes@.subrange(start as int, i as int)) < 0x1_0000_0000 {
                digits_value(bytes@.subrange(start as int, i as int))
            } else {
                0x1_0000_0000
            },
        decreases len - i,
    {
        let digit: u64 = (bytes[i] - 0x30) as u64;
        proof {
            let next = bytes@.subrange(start as int, i + 1);
            assert(next.drop_last() =~= bytes@.subrange(start as int, i as int));
            assert(next.last() == bytes@[i as int]);
        }
        let grown: u64 = acc * 10 + digit;
        acc = if grown < 0x1_0000_0000 {
            grown
        } else {
            0x1_0000_0000
        };
        i += 1;
    }
    proof {
        lemma_digit_run(bytes@, i as int);
        assert(digit_run(bytes@, i as int) == 0);
    }
    let ghost d = bytes@.subrange(start as int, i as int);
    if i == start {
        return None;
    }
    if i - start > 1 && bytes[start] == 0x30 {
        assert(d[0] == 0x30);
        return None;
    }
    assert(canonical_digits(d)) by {
        assert forall|j: int| 0 <= j < d.len() implies is_digit(#[trigger] d[j]) by {
            assert(d[j] == bytes@[start + j]);
        }
        assert(d[0] == bytes@[start as int]);
    }
    if acc >= 0x1_0000_0000 {
        return None;
    }
    let value: i64 = if negative {
        if acc == 0 {
            return None;
        }
        -(acc as i64)
    } else {
        acc as i64
    };
    if value < low || value > high {
        return None;
    }
    if i < len && bytes[i] == 0x2c {
        Some((value, i + 1))
    } else {
        None
    }
}

/// The lowercase hexadecimal digit for a number below sixteen.
pub open spec fn hex_digit(n: nat) -> u8 {
    if n < 10 {
        (0x30 + n) as u8
    } else {
        (0x61 + n - 10) as u8
    }
}

/// The byte has a two-letter escape: quote, backslash, backspace, form
/// feed, line feed, carriage return or tab.
pub open spec fn short_escaped(b: u8) -> bool {
    b == 0x22 || b == 0x5c || b == 0x08 || b == 0x0c || b == 0x0a || b == 0x0d || b == 0x09
}

/// The letter that follows the backslash in a byte's two-letter escape.
pub open spec fn short_letter(b: u8) -> u8 {
    if b == 0x08 {
        0x62
    } else if b == 0x0c {
        0x66
    } else if b == 0x0a {
        0x6e
    } else if b == 0x0d {
        0x72
    } else if b == 0x09 {
        0x74
    } else {
        b
    }
}

/// How one byte of a text stands between the quotes: a two-letter escape
/// where it has one, `\u00` and two hexadecimal digits for any other
/// control byte, and the byte itself otherwise.
pub open spec fn escape_byte(b: u8) -> Seq<u8> {
    if short_escaped(b) {
        seq![0x5cu8, short_letter(b)]
    } else if b < 0x20 {
        seq![0x5cu8, 0x75u8, 0x30u8, 0x30u8, hex_digit((b / 16) as nat), hex_digit((b % 16) as nat)]
    } else {
        seq![b]
    }
}

/// How the bytes of a text stand between the quotes.
pub open spec fn escape(raw: Seq<u8>) -> Seq<u8>
    decreases raw.len(),
{
    if raw.len() == 0 {
        Seq::empty()
    } else {
        escape_byte(raw[0]) + escape(raw.drop_first())
    }
}

/// The text of a text: a quote, its UTF-8 form with escapes, a quote.
pub open spec fn str_json(t: Seq<char>) -> Seq<u8> {
    seq![0x22u8] + escape(encode_utf8(t)) + seq![0x22u8]
}

/// The number that a lowercase hexadecimal digit stands for.
pub open spec fn hex_value(b: u8) -> Option<nat> {
    if 0x30 <= b <= 0x39 {
        Some((b - 0x30) as nat)
    } else if 0x61 <= b <= 0x66 {
        Some((b - 0x61 + 10) as nat)
    } else {
        None
    }
}

/// The byte that a two-letter escape with this letter stands for.
pub open spec fn short_byte(letter: u8) -> Option<u8> {
    if letter == 0x22 || letter == 0x5c {
        Some(letter)
    } else if letter == 0x62 {
        Some(0x08u8)
    } else if letter == 0x66 {
        Some(0x0cu8)
    } else if letter == 0x6e {
        Some(0x0au8)
    } else if letter == 0x72 {
        Some(0x0du8)
    } else if letter == 0x74 {
        Some(0x09u8)
    } else {
        None
    }
}

/// What reading one byte of a text between the quotes at `pos` yields:
/// the byte, and the index behind what stood for it.
pub open spec fn unescape_at(s: Seq<u8>, pos: int) -> Option<(u8, int)> {
    if !(0 <= pos < s.len()) || s[pos] == 0x22 || s[pos] < 0x20 {
        None
    } else if s[pos] != 0x5c {
        Some((s[pos], pos + 1))
    } else if pos + 1 >= s.len() {
        None
    } else if s[pos + 1] != 0x75 {
        match short_byte(s[pos + 1]) {
            Some(b) => Some((b, pos + 2)),
            None => None,
        }
    } else if pos + 5 >= s.len() || s[pos + 2] != 0x30 || s[pos + 3] != 0x30 {
        None
    } else {
        match (hex_value(s[pos + 4]), hex_value(s[pos + 5])) {
            (Some(high), Some(low)) => {
                let b = (16 * high + low) as u8;
                if high < 2 && !short_escaped(b) {
                    Some((b, pos + 6))
                } else {
                    None
                }
            },
            _ => None,
        }
    }
}

/// What reading the bytes of a text from `pos` up to the closing quote
/// yields: the bytes, and the index behind the quote.
pub open spec fn raw_at(s: Seq<u8>, pos: int) -> Option<(Seq<u8>, int)>
    decreases s.len() - pos,
{
    if !(0 <= pos < s.len()) {
        None
    } else if s[pos] == 0x22 {
        Some((Seq::empty(), pos + 1))
    } else {
        match unescape_at(s, pos) {
            Some((b, p)) => if p > pos {
                match raw_at(s, p) {
                    Some((rest, q)) => Some((seq![b] + rest, q)),
                    None => None,
                }
            } else {
                None
            },
            None => None,
        }
    }
}

/// What reading a quoted text at `pos` yields.
pub open spec fn str_json_at(s: Seq<u8>, pos: int) -> Option<(Seq<char>, int)> {
    if 0 <= pos < s.len() && s[pos] == 0x22 {
        match raw_at(s, pos + 1) {
            Some((raw, q)) => if valid_utf8(raw) {
                Some((decode_utf8(raw), q))
            } else {
                None
            },
            None => None,
        }
    } else {
        None
    }
}

proof fn lemma_hex(n: nat)
    requires
        n < 16,
    ensures
        hex_value(hex_digit(n)) == Some(n),
{
}

proof fn lemma_hex_of_value(b: u8)
    requires
        hex_value(b) is Some,
    ensures
        hex_value(b)->Some_0 < 16,
        hex_digit(hex_value(b)->Some_0) == b,
{
}

/// What stands for a byte is read back as that byte, and nothing else is.
proof fn lemma_unescape_at(s: Seq<u8>, pos: int, b: u8)
    ensures
        unescape_at(s, pos) == Some((b, pos + escape_byte(b).len())) <==> occurs_at(
            escape_byte(b),
            s,
            pos,
        ),
        unescape_at(s, pos) matches Some((w, p)) ==> p == pos + escape_byte(w).len() && p > pos,
        escape_byte(b).len() >= 1,
        escape_byte(b)[0] != 0x22,
{
    let e = escape_byte(b);
    if occurs_at(e, s, pos) {
        assert forall|i: int| 0 <= i < e.len() implies s[pos + i] == e[i] by {
            assert(s.subrange(pos, pos + e.len())[i] == e[i]);
        }
        if !short_escaped(b) && b < 0x20 {
            assert(s[pos] == e[0]);
            assert(s[pos + 1] == e[1]);
            assert(s[pos + 2] == e[2]);
            assert(s[pos + 3] == e[3]);
            assert(s[pos + 4] == e[4]);
            assert(s[pos + 5] == e[5]);
            lemma_hex((b / 16) as nat);
            lemma_hex((b % 16) as nat);
        } else if short_escaped(b) {
            assert(s[pos] == e[0]);
            assert(s[pos + 1] == e[1]);
        } else {
            assert(s[pos] == e[0]);
        }
    }
    if let Some((w, p)) = unescape_at(s, pos) {
        let f = escape_byte(w);
        if s[pos] != 0x5c {
        } else if s[pos + 1] != 0x75 {
        } else {
            lemma_hex_of_value(s[pos + 4]);
            lemma_hex_of_value(s[pos + 5]);
        }
        assert(p == pos + f.len());
        assert(s.subrange(pos, pos + f.len()) =~= f);
    }
}

/// The bytes of a text are read up to the closing quote exactly where what
/// stands for them, and then a quote, stands at `pos`.
proof fn lemma_raw_at_complete(s: Seq<u8>, pos: int, raw: Seq<u8>)
    requires
        occurs_at(escape(raw) + seq![0x22u8], s, pos),
    ensures
        raw_at(s, pos) == Some((raw, pos + escape(raw).len() + 1)),
    decreases raw.len(),
{
    crate::wire::lemma_occurs_concat(escape(raw), seq![0x22u8], s, pos);
    if raw.len() == 0 {
        assert(s.subrange(pos, pos + 1)[0] == 0x22u8);
        assert(raw =~= Seq::<u8>::empty());
    } else {
        let head = escape_byte(raw[0]);
        let tail = raw.drop_first();
        crate::wire::lemma_occurs_concat(head, escape(tail), s, pos);
        lemma_unescape_at(s, pos, raw[0]);
        assert(s.subrange(pos, pos + head.len())[0] == head[0]);
        crate::wire::lemma_occurs_concat(escape(tail), seq![0x22u8], s, pos + head.len());
        lemma_raw_at_complete(s, pos + head.len(), tail);
        assert(seq![raw[0]] + tail =~= raw);
    }
}

proof fn lemma_raw_at_sound(s: Seq<u8>, pos: int)
    ensures
        raw_at(s, pos) matches Some((raw, q)) ==> q == pos + escape(raw).len() + 1 && occurs_at(
            escape(raw) + seq![0x22u8],
            s,
            pos,
        ),
    decreases s.len() - pos,
{
    if let Some((raw, q)) = raw_at(s, pos) {
        if s[pos] == 0x22 {
            assert(escape(raw) + seq![0x22u8] =~= seq![0x22u8]);
            assert(s.subrange(pos, pos + 1) =~= seq![0x22u8]);
        } else {
            let (b, p) = unescape_at(s, pos)->Some_0;
            lemma_unescape_at(s, pos, b);
            lemma_raw_at_sound(s, p);
            let (rest, q2) = raw_at(s, p)->Some_0;
            assert(raw == seq![b] + rest);
            assert(raw.drop_first() =~= rest);
            assert(raw[0] == b);
            crate::wire::lemma_occurs_concat(escape_byte(b), escape(rest) + seq![0x22u8], s, pos);
            assert(escape(raw) + seq![0x22u8] =~= escape_byte(b) + (escape(rest) + seq![0x22u8]));
        }
    }
}

/// A quoted text read at `pos` is the one whose text stands there.
pub proof fn lemma_str_json_at(s: Seq<u8>, pos: int, t: Seq<char>)
    ensures
        str_json_at(s, pos) == Some((t, pos + str_json(t).len())) <==> occurs_at(
            str_json(t),
            s,
            pos,
        ),
        str_json_at(s, pos) matches Some((w, p)) ==> p == pos + str_json(w).len(),
        str_json(t).len() >= 2,
        str_json(t)[0] == 0x22,
{
    let body = encode_utf8(t);
    encode_utf8_valid_utf8(t);
    encode_utf8_decode_utf8(t);
    assert(str_json(t) =~= seq![0x22u8] + (escape(body) + seq![0x22u8]));
    crate::wire::lemma_occurs_concat(seq![0x22u8], escape(body) + seq![0x22u8], s, pos);
    if occurs_at(seq![0x22u8], s, pos) {
        assert(s.subrange(pos, pos + 1)[0] == 0x22u8);
    }
    if 0 <= pos < s.len() && s[pos] == 0x22 {
        assert(s.subrange(pos, pos + 1) =~= seq![0x22u8]);
        lemma_raw_at_sound(s, pos + 1);
        if occurs_at(escape(body) + seq![0x22u8], s, pos + 1) {
            lemma_raw_at_complete(s, pos + 1, body);
        }
        if let Some((raw, q)) = raw_at(s, pos + 1) {
            if valid_utf8(raw) {
                decode_utf8_encode_utf8(raw);
                let w = decode_utf8(raw);
                assert(str_json(w) =~= seq![0x22u8] + (escape(raw) + seq![0x22u8]));
            }
        }
    }
}

proof fn lemma_escape_push(raw: Seq<u8>, b: u8)
    ensures
        escape(raw.push(b)) == escape(raw) + escape_byte(b),
    decreases raw.len(),
{
    if raw.len() == 0 {
        let one = raw.push(b);
        assert(one.drop_first() =~= Seq::<u8>::empty());
        assert(escape(one.drop_first()) =~= Seq::<u8>::empty());
        assert(escape(raw) =~= Seq::<u8>::empty());
        assert(escape(one) =~= escape_byte(b) + escape(one.drop_first()));
        assert(escape(one) =~= escape(raw) + escape_byte(b));
    } else {
        assert(raw.push(b).drop_first() =~= raw.drop_first().push(b));
        lemma_escape_push(raw.drop_first(), b);
        assert(escape(raw.push(b)) =~= escape(raw) + escape_byte(b));
    }
}

fn hex_letter(n: u8) -> (r: u8)
    requires
        n < 16,
    ensures
        r == hex_digit(n as nat),
{
    if n < 10 {
        0x30 + n
    } else {
        0x61 + (n - 10)
    }
}

/// Appends the text of a text.
pub(crate) fn put_str_json(out: &mut Vec<u8>, s: &str)
    ensures
        final(out)@ == old(out)@ + str_json(s@),
{
    let body = s.as_bytes();
    out.push(0x22u8);
    let ghost head = out@;
    let mut i: usize = 0;
    while i < body.len()
        invariant
            i <= body.len(),
            body@ == encode_utf8(s@),
            out@ == head + escape(body@.take(i as int)),
        decreases body.len() - i,
    {
        let b: u8 = body[i];
        proof {
            assert(body@.take(i + 1) =~= body@.take(i as int).push(b));
            lemma_escape_push(body@.take(i as int), b);
        }
        let ghost before = out@;
        if b == 0x22 || b == 0x5c {
            out.push(0x5cu8);
            out.push(b);
        } else if b == 0x08 {
            out.push(0x5cu8);
            out.push(0x62u8);
        } else if b == 0x0c {
            out.push(0x5cu8);
            out.push(0x66u8);
        } else if b == 0x0a {
            out.push(0x5cu8);
            out.push(0x6eu8);
        } else if b == 0x0d {
            out.push(0x5cu8);
            out.push(0x72u8);
        } else if b == 0x09 {
            out.push(0x5cu8);
            out.push(0x74u8);
        } else if b < 0x20 {
            out.push(0x5cu8);
            out.push(0x75u8);
            out.push(0x30u8);
            out.push(0x30u8);
            out.push(hex_letter(b / 16));
            out.push(hex_letter(b % 16));
        } else {
            out.push(b);
        }
        assert(out@ =~= before + escape_byte(b));
        assert(out@ =~= head + escape(body@.take(i + 1)));
        i += 1;
    }
    assert(body@.take(i as int) =~= body@);
    out.push(0x22u8);
    assert(out@ =~= old(out)@ + str_json(s@));
}

fn hex_number(b: u8) -> (r: Option<u8>)
    ensures
        match r {
            Some(n) => hex_value(b) == Some(n as nat),
            None => hex_value(b) is None,
        },
{
    if 0x30 <= b && b <= 0x39 {
        Some(b - 0x30)
    } else if 0x61 <= b && b <= 0x66 {
        Some(b - 0x61 + 10)
    } else {
        None
    }
}

fn read_escaped(bytes: &[u8], pos: usize) -> (r: Option<(u8, usize)>)
    requires
        pos < bytes@.len(),
    ensures
        match r {
            Some((b, p)) => unescape_at(bytes@, pos as int) == Some((b, p as int)) && pos < p
                <= bytes@.len(),
            None => unescape_at(bytes@, pos as int) is None,
        },
{
    let len = bytes.len();
    let first: u8 = bytes[pos];
    if first == 0x22 || first < 0x20 {
        None
    } else if first != 0x5c {
        Some((first, pos + 1))
    } else if len - pos < 2 {
        None
    } else {
        let letter: u8 = bytes[pos + 1];
        if letter == 0x22 || letter == 0x5c {
            Some((letter, pos + 2))
        } else if letter == 0x62 {
            Some((0x08u8, pos + 2))
        } else if letter == 0x66 {
            Some((0x0cu8, pos + 2))
        } else if letter == 0x6e {
            Some((0x0au8, pos + 2))
        } else if letter == 0x72 {
            Some((0x0du8, pos + 2))
        } else if letter == 0x74 {
            Some((0x09u8, pos + 2))
        } else if letter != 0x75 {
            None
        } else if len - pos < 6 || bytes[pos + 2] != 0x30 || bytes[pos + 3] != 0x30 {
            None
        } else {
            match (hex_number(bytes[pos + 4]), hex_number(bytes[pos + 5])) {
                (Some(high), Some(low)) => {
                    if high >= 2 {
                        return None;
                    }
                    let b: u8 = 16 * high + low;
                    if b == 0x08 || b == 0x0c || b == 0x0a || b == 0x0d || b == 0x09 {
                        None
                    } else {
                        Some((b, pos + 6))
                    }
                },
                _ => None,
            }
        }
    }
}

/// Reads a quoted text at `pos`.
pub(crate) fn read_str_json(bytes: &[u8], pos: usize) -> (r: Option<(String, usize)>)
    requires
        pos <= bytes@.len(),
    ensures
        match r {
            Some((v, p)) => str_json_at(bytes@, pos as int) == Some((v@, p as int)) && p
                <= bytes@.len(),
            None => str_json_at(bytes@, pos as int) is None,
        },
{
    let len = bytes.len();
    if pos >= len || bytes[pos] != 0x22 {
        return None;
    }
    let mut raw: Vec<u8> = Vec::new();
    let mut at: usize = pos + 1;
    loop
        invariant
            pos < at <= len,
            len == bytes@.len(),
            bytes@[pos as int] == 0x22,
            raw_at(bytes@, pos + 1) == (match raw_at(bytes@, at as int) {
                Some((rest, q)) => Some((raw@ + rest, q)),
                None => None,
            }),
        decreases len - at,
    {
        if at >= len {
            return None;
        }
        if bytes[at] == 0x22 {
            proof {
                assert(raw@ + Seq::<u8>::empty() =~= raw@);
                assert(raw_at(bytes@, at as int) == Some((Seq::<u8>::empty(), at + 1)));
                assert(raw_at(bytes@, pos + 1) == Some((raw@, at + 1)));
            }
            return match string_from_utf8(raw) {
                Some(text) => {
                    proof {
                        encode_utf8_decode_utf8(text@);
                    }
                    Some((text, at + 1))
                },
                None => None,
            };
        }
        match read_escaped(bytes, at) {
            Some((b, next)) => {
                proof {
                    match raw_at(bytes@, next as int) {
                        Some((rest, q)) => {
                            assert(raw@ + (seq![b] + rest) =~= raw@.push(b) + rest);
                        },
                        None => {},
                    }
                }
                raw.push(b);
                at = next;
            },
            None => {
                return None;
            },
        }
    }
}

/// Appends the bytes of a fixed word.
pub(crate) fn put_word(out: &mut Vec<u8>, word: &str)
    ensures
        final(out)@ == old(out)@ + word.spec_bytes(),
{
    out.extend_from_slice(word.as_bytes());
    assert(out@ =~= old(out)@ + word.spec_bytes());
}

/// Reads a fixed word at `pos`: the index behind it where it stands
/// there.
pub(crate) fn read_word(bytes: &[u8], pos: usize, word: &str) -> (r: Option<usize>)
    requires
        pos <= bytes@.len(),
    ensures
        match r {
            Some(p) => occurs_at(word.spec_bytes(), bytes@, pos as int) && p == pos
                + word.spec_bytes().len() && p <= bytes@.len(),
            None => !occurs_at(word.spec_bytes(), bytes@, pos as int),
        },
{
    let expected = word.as_bytes();
    let len = bytes.len();
    if len - pos < expected.len() {
        return None;
    }
    let mut i: usize = 0;
    while i < expected.len()
        invariant
            i <= expected.len(),
            len == bytes@.len(),
            pos + expected.len() <= len,
            expected@ == word.spec_bytes(),
            forall|j: int| 0 <= j < i ==> bytes@[pos + j] == expected@[j],
        decreases expected.len() - i,
    {
        if bytes[pos + i] != expected[i] {
            proof {
                if occurs_at(expected@, bytes@, pos as int) {
                    assert(bytes@.subrange(pos as int, pos + expected@.len())[i as int]
                        == expected@[i as int]);
                }
            }
            return None;
        }
        i += 1;
    }
    assert(bytes@.subrange(pos as int, pos + expected@.len()) =~= expected@);
    Some(pos + expected.len())
}

/// Two byte strings that differ at some index do not both stand at the
/// same place.
pub proof fn lemma_words_differ(a: Seq<u8>, b: Seq<u8>, s: Seq<u8>, pos: int, i: int)
    requires
        0 <= i < a.len(),
        i < b.len(),
        a[i] != b[i],
    ensures
        !(occurs_at(a, s, pos) && occurs_at(b, s, pos)),
{
    if occurs_at(a, s, pos) && occurs_at(b, s, pos) {
        assert(s.subrange(pos, pos + a.len())[i] == a[i]);
        assert(s.subrange(pos, pos + b.len())[i] == b[i]);
    }
}


/// Bytes that are plain ASCII, all of them, are well-formed UTF-8.
pub proof fn lemma_ascii_is_utf8(s: Seq<u8>)
    requires
        forall|i: int| 0 <= i < s.len() ==> #[trigger] s[i] < 0x80,
    ensures
        valid_utf8(s),
{
    assert(s.subrange(0, 0) =~= Seq::<u8>::empty());
    assert forall|i: int| 0 <= 0 <= i < s.len() <= s.len() implies #[trigger] is_leading_byte_width_1(
        s[i],
    ) by {}
    partial_valid_utf8_extend_ascii_block(s, 0, s.len() as int);
    assert(s.subrange(0, s.len() as int) =~= s);
}

/// The text of an integer is well-formed UTF-8.
pub proof fn lemma_int_json_is_utf8(v: int)
    ensures
        valid_utf8(int_json(v)),
        valid_utf8(int_comma_json(v)),
{
    lemma_int_json_ascii(v);
    lemma_ascii_is_utf8(int_json(v));
    lemma_ascii_is_utf8(int_comma_json(v));
}

proof fn lemma_escape_concat(a: Seq<u8>, b: Seq<u8>)
    ensures
        escape(a + b) == escape(a) + escape(b),
    decreases a.len(),
{
    if a.len() == 0 {
        assert(a + b =~= b);
        assert(escape(a) + escape(b) =~= escape(b));
    } else {
        assert((a + b).drop_first() =~= a.drop_first() + b);
        lemma_escape_concat(a.drop_first(), b);
        assert(escape(a + b) =~= escape(a) + escape(b));
    }
}

proof fn lemma_escape_high(b: Seq<u8>)
    requires
        forall|i: int| 0 <= i < b.len() ==> #[trigger] b[i] >= 0x80,
    ensures
        escape(b) == b,
    decreases b.len(),
{
    if b.len() > 0 {
        lemma_escape_high(b.drop_first());
        assert(b[0] >= 0x80);
        assert(escape(b) =~= b);
    } else {
        assert(escape(b) =~= b);
    }
}

/// What stands for well-formed UTF-8 between the quotes is well-formed
/// UTF-8 again: escapes are plain ASCII, and stand for single ASCII bytes
/// only.
pub proof fn lemma_escape_is_utf8(b: Seq<u8>)
    requires
        valid_utf8(b),
    ensures
        valid_utf8(escape(b)),
    decreases b.len(),
{
    if b.len() > 0 {
        let k = length_of_first_scalar(b);
        let first = b.subrange(0, k);
        let rest = pop_first_scalar(b);
        assert(b =~= first + rest);
        lemma_escape_concat(first, rest);
        lemma_escape_is_utf8(rest);
        if k == 1 {
            let e = escape_byte(b[0]);
            assert(first.drop_first() =~= Seq::<u8>::empty());
            assert(escape(first.drop_first()) =~= Seq::<u8>::empty());
            assert(escape(first) =~= e);
            assert forall|i: int| 0 <= i < e.len() implies #[trigger] e[i] < 0x80 by {}
            lemma_ascii_is_utf8(e);
        } else {
            assert forall|i: int| 0 <= i < first.len() implies #[trigger] first[i] >= 0x80 by {}
            lemma_escape_high(first);
            assert(valid_first_scalar(first));
            assert(pop_first_scalar(first) =~= Seq::<u8>::empty());
            assert(valid_utf8(first)) by {
                reveal_with_fuel(valid_utf8, 2);
            }
        }
        valid_utf8_concat(escape(first), escape(rest));
    }
}

/// The text of a text is well-formed UTF-8.
pub proof fn lemma_str_json_is_utf8(t: Seq<char>)
    ensures
        valid_utf8(str_json(t)),
{
    let quote = seq![0x22u8];
    encode_utf8_valid_utf8(t);
    lemma_escape_is_utf8(encode_utf8(t));
    lemma_ascii_is_utf8(quote);
    valid_utf8_concat(quote, escape(encode_utf8(t)));
    valid_utf8_concat(quote + escape(encode_utf8(t)), quote);
}

/// The text that bytes spell, where the bytes are well-formed UTF-8.
pub(crate) fn text_of(bytes: Vec<u8>) -> (text: String)
    requires
        valid_utf8(bytes@),
    ensures
        encode_utf8(text@) == bytes@,
{
    match string_from_utf8(bytes) {
        Some(text) => text,
        None => unreached(),
    }
}


} // verus!

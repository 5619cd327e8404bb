//! The binary layout of the values that messages are made of: fixed-width
//! little-endian integers, length-prefixed UTF-8 strings and one-byte option
//! tags. Each layout is given as a function from a value to its bytes; a
//! reader accepts exactly the bytes that the layout produces.

use vstd::prelude::*;
use vstd::slice::slice_subrange;
use vstd::slice::slice_to_vec;
use vstd::utf8::decode_utf8;
use vstd::utf8::decode_utf8_encode_utf8;
use vstd::utf8::encode_utf8;
use vstd::utf8::encode_utf8_decode_utf8;
use vstd::utf8::encode_utf8_valid_utf8;
use vstd::utf8::valid_utf8;

verus! {

/// 256 to the power `n`.
pub open spec fn pow256(n: nat) -> nat
    decreases n,
{
    if n == 0 {
        1
    } else {
        256 * pow256((n - 1) as nat)
    }
}

/// The `n` low bytes of `x`, least significant first.
pub open spec fn le_bytes(x: nat, n: nat) -> Seq<u8>
    decreases n,
{
    if n == 0 {
        Seq::empty()
    } else {
        seq![(x % 256) as u8] + le_bytes(x / 256, (n - 1) as nat)
    }
}

/// The number that `s` spells, least significant byte first.
pub open spec fn le_value(s: Seq<u8>) -> nat
    decreases s.len(),
{
    if s.len() == 0 {
        0
    } else {
        s[0] as nat + 256 * le_value(s.drop_first())
    }
}

/// The bit pattern of `v` in two's complement, as an unsigned number.
pub open spec fn i32_bits(v: i32) -> nat {
    if v >= 0 {
        v as nat
    } else {
        (v + 0x1_0000_0000) as nat
    }
}

/// The signed number whose two's complement bit pattern is `u`.
pub open spec fn i32_of_bits(u: nat) -> i32 {
    if u < 0x8000_0000 {
        u as i32
    } else {
        (u - 0x1_0000_0000) as i32
    }
}

/// `e` stands in `s` from index `pos` on.
pub open spec fn occurs_at(e: Seq<u8>, s: Seq<u8>, pos: int) -> bool {
    0 <= pos && pos + e.len() <= s.len() && s.subrange(pos, pos + e.len()) == e
}

/// The layout of a 16-bit unsigned integer: two bytes.
pub open spec fn u16_encoding(v: u16) -> Seq<u8> {
    le_bytes(v as nat, 2)
}

/// The layout of a 32-bit unsigned integer: four bytes.
pub open spec fn u32_encoding(v: u32) -> Seq<u8> {
    le_bytes(v as nat, 4)
}

/// The layout of a 32-bit signed integer: its bit pattern in four bytes.
pub open spec fn i32_encoding(v: i32) -> Seq<u8> {
    le_bytes(i32_bits(v), 4)
}

/// The layout of a length or count: eight bytes.
pub open spec fn len_encoding(n: nat) -> Seq<u8> {
    le_bytes(n, 8)
}

/// A text can be laid out when its UTF-8 length fits the eight-byte prefix.
pub open spec fn str_wf(s: Seq<char>) -> bool {
    encode_utf8(s).len() < pow256(8)
}

/// The layout of a text: the length of its UTF-8 form, then that form.
pub open spec fn str_encoding(s: Seq<char>) -> Seq<u8> {
    len_encoding(encode_utf8(s).len()) + encode_utf8(s)
}

/// An optional text can be laid out when the text, if any, can be.
pub open spec fn opt_str_wf(o: Option<Seq<char>>) -> bool {
    match o {
        Some(s) => str_wf(s),
        None => true,
    }
}

/// The layout of an optional text: a zero byte for none, a one byte and
/// the text's layout for some.
pub open spec fn opt_str_encoding(o: Option<Seq<char>>) -> Seq<u8> {
    match o {
        Some(s) => seq![1u8] + str_encoding(s),
        None => seq![0u8],
    }
}

/// What reading an `n`-byte integer at `pos` yields: the number and the
/// index behind it.
pub open spec fn uint_at(s: Seq<u8>, pos: int, n: nat) -> Option<(nat, int)> {
    if 0 <= pos && pos + n <= s.len() {
        Some((le_value(s.subrange(pos, pos + n)), pos + n))
    } else {
        None
    }
}

/// What reading a signed 32-bit integer at `pos` yields.
pub open spec fn i32_at(s: Seq<u8>, pos: int) -> Option<(i32, int)> {
    match uint_at(s, pos, 4) {
        Some((u, p)) => Some((i32_of_bits(u), p)),
        None => None,
    }
}

/// What reading a text at `pos` yields.
pub open spec fn str_at(s: Seq<u8>, pos: int) -> Option<(Seq<char>, int)> {
    match uint_at(s, pos, 8) {
        Some((len, p)) => if p + len <= s.len() && valid_utf8(s.subrange(p, p + len)) {
            Some((decode_utf8(s.subrange(p, p + len)), p + len))
        } else {
            None
        },
        None => None,
    }
}

/// What reading an optional text at `pos` yields.
pub open spec fn opt_str_at(s: Seq<u8>, pos: int) -> Option<(Option<Seq<char>>, int)> {
    if 0 <= pos < s.len() {
        if s[pos] == 0 {
            Some((None, pos + 1))
        } else if s[pos] == 1 {
            match str_at(s, pos + 1) {
                Some((t, p)) => Some((Some(t), p)),
                None => None,
            }
        } else {
            None
        }
    } else {
        None
    }
}

/// The powers of 256 that the layouts use.
pub proof fn lemma_pow256_values()
    ensures
        pow256(0) == 1,
        pow256(1) == 0x100,
        pow256(2) == 0x1_0000,
        pow256(3) == 0x100_0000,
        pow256(4) == 0x1_0000_0000,
        pow256(5) == 0x100_0000_0000,
        pow256(6) == 0x1_0000_0000_0000,
        pow256(7) == 0x100_0000_0000_0000,
        pow256(8) == 0x1_0000_0000_0000_0000,
{
    reveal_with_fuel(pow256, 10);
}

/// A number laid out in `n` bytes takes `n` bytes.
pub proof fn lemma_le_bytes_len(x: nat, n: nat)
    ensures
        le_bytes(x, n).len() == n,
    decreases n,
{
    if n > 0 {
        lemma_le_bytes_len(x / 256, (n - 1) as nat);
    }
}

/// The number that `n` bytes spell is below `256^n`.
pub proof fn lemma_le_value_bound(s: Seq<u8>)
    ensures
        le_value(s) < pow256(s.len()),
    decreases s.len(),
{
    if s.len() > 0 {
        lemma_le_value_bound(s.drop_first());
    }
}

/// Reading back the `n` bytes of a number below `256^n` gives the number.
pub proof fn lemma_le_value_of_bytes(x: nat, n: nat)
    requires
        x < pow256(n),
    ensures
        le_value(le_bytes(x, n)) == x,
    decreases n,
{
    lemma_le_bytes_len(x, n);
    if n > 0 {
        let rest = le_bytes(x / 256, (n - 1) as nat);
        assert(le_bytes(x, n).drop_first() =~= rest);
        lemma_le_value_of_bytes(x / 256, (n - 1) as nat);
    }
}

/// Laying out the number that bytes spell gives the bytes.
pub proof fn lemma_le_bytes_of_value(s: Seq<u8>)
    ensures
        le_bytes(le_value(s), s.len()) == s,
    decreases s.len(),
{
    if s.len() > 0 {
        lemma_le_bytes_of_value(s.drop_first());
        let v = le_value(s);
        let r = le_value(s.drop_first());
        assert(v % 256 == s[0] as nat);
        assert(v / 256 == r);
        assert(le_bytes(v, s.len()) =~= s);
    } else {
        assert(le_bytes(le_value(s), s.len()) =~= s);
    }
}

/// The bit pattern of a signed integer fits four bytes, and gives the
/// integer back.
proof fn lemma_i32_bits(v: i32)
    ensures
        i32_bits(v) < pow256(4),
        i32_of_bits(i32_bits(v)) == v,
{
    lemma_pow256_values();
}

/// A bit pattern of four bytes is the bit pattern of the signed integer
/// that it stands for.
proof fn lemma_i32_of_bits(u: nat)
    requires
        u < pow256(4),
    ensures
        i32_bits(i32_of_bits(u)) == u,
{
    lemma_pow256_values();
}

/// A concatenation stands at `pos` exactly when its first part stands
/// there and its second part right behind.
pub proof fn lemma_occurs_concat(a: Seq<u8>, b: Seq<u8>, s: Seq<u8>, pos: int)
    ensures
        occurs_at(a + b, s, pos) <==> occurs_at(a, s, pos) && occurs_at(b, s, pos + a.len()),
{
    if occurs_at(a + b, s, pos) {
        assert(s.subrange(pos, pos + a.len()) =~= a) by {
            assert forall|i: int| 0 <= i < a.len() implies s[pos + i] == a[i] by {
                assert(s.subrange(pos, pos + (a + b).len())[i] == (a + b)[i]);
            }
        }
        assert(s.subrange(pos + a.len(), pos + a.len() + b.len()) =~= b) by {
            assert forall|i: int| 0 <= i < b.len() implies s[pos + a.len() + i] == b[i] by {
                assert(s.subrange(pos, pos + (a + b).len())[a.len() + i] == (a + b)[a.len() + i]);
            }
        }
    }
    if occurs_at(a, s, pos) && occurs_at(b, s, pos + a.len()) {
        assert(s.subrange(pos, pos + (a + b).len()) =~= a + b) by {
            assert forall|i: int| 0 <= i < (a + b).len() implies s[pos + i] == (a + b)[i] by {
                if i < a.len() {
                    assert(s.subrange(pos, pos + a.len())[i] == a[i]);
                } else {
                    assert(s.subrange(pos + a.len(), pos + a.len() + b.len())[i - a.len()] == b[i
                        - a.len()]);
                }
            }
        }
    }
}

/// An `n`-byte integer read at `pos` is one whose layout stands there.
pub proof fn lemma_uint_at(s: Seq<u8>, pos: int, n: nat, x: nat)
    requires
        x < pow256(n),
    ensures
        uint_at(s, pos, n) == Some((x, pos + n)) <==> occurs_at(le_bytes(x, n), s, pos),
{
    lemma_le_bytes_len(x, n);
    if 0 <= pos && pos + n <= s.len() {
        let part = s.subrange(pos, pos + n);
        lemma_le_bytes_of_value(part);
        lemma_le_value_of_bytes(x, n);
    }
}

/// A signed integer read at `pos` is the one whose layout stands there.
pub proof fn lemma_i32_at(s: Seq<u8>, pos: int, v: i32)
    ensures
        i32_at(s, pos) == Some((v, pos + 4)) <==> occurs_at(i32_encoding(v), s, pos),
        i32_encoding(v).len() == 4,
        i32_at(s, pos) matches Some((w, p)) ==> p == pos + 4,
{
    lemma_i32_bits(v);
    lemma_uint_at(s, pos, 4, i32_bits(v));
    lemma_le_bytes_len(i32_bits(v), 4);
    if let Some((u, p)) = uint_at(s, pos, 4) {
        lemma_le_value_bound(s.subrange(pos, pos + 4));
        lemma_i32_of_bits(u);
    }
}

/// A text read at `pos` is the one whose layout stands there.
pub proof fn lemma_str_at(s: Seq<u8>, pos: int, t: Seq<char>)
    ensures
        str_at(s, pos) == Some((t, pos + str_encoding(t).len())) <==> str_wf(t) && occurs_at(
            str_encoding(t),
            s,
            pos,
        ),
        str_at(s, pos) matches Some((w, p)) ==> p == pos + str_encoding(w).len(),
{
    let body = encode_utf8(t);
    lemma_le_bytes_len(body.len(), 8);
    lemma_occurs_concat(len_encoding(body.len()), body, s, pos);
    encode_utf8_valid_utf8(t);
    encode_utf8_decode_utf8(t);
    if str_wf(t) {
        lemma_uint_at(s, pos, 8, body.len());
    }
    if let Some((len, p)) = uint_at(s, pos, 8) {
        lemma_le_value_bound(s.subrange(pos, pos + 8));
        if p + len <= s.len() && valid_utf8(s.subrange(p, p + len)) {
            let got = s.subrange(p, p + len);
            let w = decode_utf8(got);
            decode_utf8_encode_utf8(got);
            lemma_le_bytes_len(encode_utf8(w).len(), 8);
            lemma_uint_at(s, pos, 8, len);
        }
    }
}

/// An optional text read at `pos` is the one whose layout stands there.
pub proof fn lemma_opt_str_at(s: Seq<u8>, pos: int, o: Option<Seq<char>>)
    ensures
        opt_str_at(s, pos) == Some((o, pos + opt_str_encoding(o).len())) <==> opt_str_wf(o)
            && occurs_at(opt_str_encoding(o), s, pos),
        opt_str_at(s, pos) matches Some((w, p)) ==> p == pos + opt_str_encoding(w).len(),
{
    match o {
        Some(t) => {
            lemma_occurs_concat(seq![1u8], str_encoding(t), s, pos);
            lemma_str_at(s, pos + 1, t);
            if occurs_at(seq![1u8], s, pos) {
                assert(s.subrange(pos, pos + 1)[0] == 1u8);
            }
            if 0 <= pos < s.len() && s[pos] == 1 {
                assert(s.subrange(pos, pos + 1) =~= seq![1u8]);
            }
        },
        None => {
            if occurs_at(seq![0u8], s, pos) {
                assert(s.subrange(pos, pos + 1)[0] == 0u8);
            }
            if 0 <= pos < s.len() && s[pos] == 0 {
                assert(s.subrange(pos, pos + 1) =~= seq![0u8]);
            }
        },
    }
    if let Some((w, p)) = opt_str_at(s, pos) {
        if let Some(t) = w {
            lemma_str_at(s, pos + 1, t);
        }
    }
}

/// Appends the `n` low bytes of `v`, least significant first.
pub(crate) fn put_le(out: &mut Vec<u8>, v: u64, n: usize)
    ensures
        final(out)@ == old(out)@ + le_bytes(v as nat, n as nat),
    decreases n,
{
    if n > 0 {
        let low: u8 = (v % 256) as u8;
        out.push(low);
        put_le(out, v / 256, n - 1);
        assert(final(out)@ =~= old(out)@ + le_bytes(v as nat, n as nat));
    } else {
        assert(out@ =~= old(out)@ + le_bytes(v as nat, n as nat));
    }
}

/// Appends the layout of a signed 32-bit integer.
pub(crate) fn put_i32(out: &mut Vec<u8>, v: i32)
    ensures
        final(out)@ == old(out)@ + i32_encoding(v),
{
    let wide: i64 = v as i64;
    let bits: u64 = if v >= 0 {
        wide as u64
    } else {
        (wide + 0x1_0000_0000) as u64
    };
    put_le(out, bits, 4);
}

/// Appends the layout of a text.
pub(crate) fn put_str(out: &mut Vec<u8>, s: &str)
    ensures
        final(out)@ == old(out)@ + str_encoding(s@),
        str_wf(s@),
{
    let body = s.as_bytes();
    proof {
        lemma_pow256_values();
    }
    put_le(out, body.len() as u64, 8);
    let ghost mid = out@;
    out.extend_from_slice(body);
    assert(out@ =~= mid + body@);
    assert(out@ =~= old(out)@ + str_encoding(s@));
}

/// Appends the layout of an optional text.
pub(crate) fn put_opt_str(out: &mut Vec<u8>, o: &Option<String>)
    ensures
        final(out)@ == old(out)@ + opt_str_encoding(opt_str_view(*o)),
        opt_str_wf(opt_str_view(*o)),
{
    match o {
        Some(s) => {
            out.push(1u8);
            put_str(out, s.as_str());
            assert(out@ =~= old(out)@ + opt_str_encoding(opt_str_view(*o)));
        },
        None => {
            out.push(0u8);
            assert(out@ =~= old(out)@ + opt_str_encoding(opt_str_view(*o)));
        },
    }
}

/// The value of an optional text.
pub open spec fn opt_str_view(o: Option<String>) -> Option<Seq<char>> {
    match o {
        Some(s) => Some(s@),
        None => None,
    }
}

/// Reads the number that the `n` bytes from `pos` on spell.
pub(crate) fn get_le(bytes: &[u8], pos: usize, n: usize) -> (r: u64)
    requires
        n <= 8,
        pos + n <= bytes@.len(),
    ensures
        r == le_value(bytes@.subrange(pos as int, pos + n)),
    decreases n,
{
    if n == 0 {
        0
    } else {
        assert(pos < bytes.len());
        let rest = get_le(bytes, pos + 1, n - 1);
        let ghost part = bytes@.subrange(pos as int, pos + n);
        proof {
            assert(part.drop_first() =~= bytes@.subrange(pos + 1, pos + 1 + (n - 1)));
            lemma_le_value_bound(part.drop_first());
            lemma_pow256_values();
            lemma_pow256_monotone((n - 1) as nat, 7);
        }
        bytes[pos] as u64 + 256 * rest
    }
}

/// The powers of 256 grow with the exponent.
proof fn lemma_pow256_monotone(a: nat, b: nat)
    requires
        a <= b,
    ensures
        pow256(a) <= pow256(b),
    decreases b,
{
    if a < b {
        lemma_pow256_monotone(a, (b - 1) as nat);
    }
}

/// Reads an `n`-byte integer at `pos`, if that many bytes are left.
pub(crate) fn read_uint(bytes: &[u8], pos: usize, n: usize) -> (r: Option<(u64, usize)>)
    requires
        n <= 8,
        pos <= bytes@.len(),
    ensures
        match r {
            Some((v, p)) => uint_at(bytes@, pos as int, n as nat) == Some((v as nat, p as int)),
            None => uint_at(bytes@, pos as int, n as nat) is None,
        },
{
    if bytes.len() - pos < n {
        None
    } else {
        Some((get_le(bytes, pos, n), pos + n))
    }
}

/// Reads a signed 32-bit integer at `pos`.
pub(crate) fn read_i32(bytes: &[u8], pos: usize) -> (r: Option<(i32, usize)>)
    requires
        pos <= bytes@.len(),
    ensures
        match r {
            Some((v, p)) => i32_at(bytes@, pos as int) == Some((v, p as int)),
            None => i32_at(bytes@, pos as int) is None,
        },
{
    match read_uint(bytes, pos, 4) {
        Some((u, p)) => {
            proof {
                lemma_le_value_bound(bytes@.subrange(pos as int, pos + 4));
                lemma_pow256_values();
            }
            let v: i32 = if u < 0x8000_0000 {
                u as i32
            } else {
                (u as i64 - 0x1_0000_0000) as i32
            };
            Some((v, p))
        },
        None => None,
    }
}

/// [`String::from_utf8`]: the text that the bytes spell in UTF-8, or
/// nothing where they are not well-formed UTF-8. The text's own UTF-8
/// form is then the bytes that were given.
#[verifier::external_body]
pub(crate) fn string_from_utf8(bytes: Vec<u8>) -> (r: Option<String>)
    ensures
        match r {
            Some(s) => valid_utf8(bytes@) && encode_utf8(s@) == bytes@,
            None => !valid_utf8(bytes@),
        },
{
    String::from_utf8(bytes).ok()
}

/// Reads a text at `pos`.
pub(crate) fn read_str(bytes: &[u8], pos: usize) -> (r: Option<(String, usize)>)
    requires
        pos <= bytes@.len(),
    ensures
        match r {
            Some((v, p)) => str_at(bytes@, pos as int) == Some((v@, p as int)),
            None => str_at(bytes@, pos as int) is None,
        },
{
    match read_uint(bytes, pos, 8) {
        Some((len, p)) => {
            if len > (bytes.len() - p) as u64 {
                return None;
            }
            let end: usize = p + len as usize;
            let body = slice_to_vec(slice_subrange(bytes, p, end));
            match string_from_utf8(body) {
                Some(s) => {
                    proof {
                        encode_utf8_decode_utf8(s@);
                    }
                    Some((s, end))
                },
                None => None,
            }
        },
        None => None,
    }
}

/// Reads an optional text at `pos`.
pub(crate) fn read_opt_str(bytes: &[u8], pos: usize) -> (r: Option<(Option<String>, usize)>)
    requires
        pos <= bytes@.len(),
    ensures
        match r {
            Some((v, p)) => opt_str_at(bytes@, pos as int) == Some((opt_str_view(v), p as int)),
            None => opt_str_at(bytes@, pos as int) is None,
        },
{
    if pos >= bytes.len() {
        return None;
    }
    let tag: u8 = bytes[pos];
    if tag == 0 {
        Some((None, pos + 1))
    } else if tag == 1 {
        match read_str(bytes, pos + 1) {
            Some((s, p)) => Some((Some(s), p)),
            None => None,
        }
    } else {
        None
    }
}

} // verus!

//! Percent-encoding of path segments, and the decoding that undoes it.
use percent_encoding::percent_encode_byte;
use vstd::prelude::*;

verus! {

/// Bytes that stand for themselves in an asset URL: ASCII letters and
/// digits, `.` and `-`.
pub open spec fn is_kept(b: u8) -> bool {
    (0x30 <= b && b <= 0x39) || (0x41 <= b && b <= 0x5a) || (0x61 <= b && b <= 0x7a) || b == 0x2e
        || b == 0x2d
}

/// Upper-case hex digit of a value below 16.
pub open spec fn hex_digit(n: u8) -> char {
    if n < 10 {
        ((n + 0x30) as u8) as char
    } else {
        ((n + 0x37) as u8) as char
    }
}

pub open spec fn is_hex(c: char) -> bool {
    ('0' <= c && c <= '9') || ('A' <= c && c <= 'F') || ('a' <= c && c <= 'f')
}

pub open spec fn hex_value(c: char) -> u8 {
    if '0' <= c && c <= '9' {
        ((c as u32) - 0x30) as u8
    } else if 'A' <= c && c <= 'F' {
        ((c as u32) - 0x37) as u8
    } else {
        ((c as u32) - 0x57) as u8
    }
}

/// The characters that one byte becomes.
pub open spec fn encode_byte(b: u8) -> Seq<char> {
    if is_kept(b) {
        seq![b as char]
    } else {
        seq!['%', hex_digit(b / 16), hex_digit(b % 16)]
    }
}

/// A segment's bytes, each kept or written as `%XX`.
pub open spec fn encode_segment(s: Seq<u8>) -> Seq<char>
    decreases s.len(),
{
    if s.len() == 0 {
        Seq::empty()
    } else {
        encode_byte(s[0]) + encode_segment(s.skip(1))
    }
}

/// Standard percent-decoding of one segment: reads up to the next `/` or the
/// end, and returns the bytes and what is left (empty, or starting at `/`).
pub open spec fn decode_segment(s: Seq<char>) -> (Seq<u8>, Seq<char>)
    decreases s.len(),
{
    if s.len() == 0 || s[0] == '/' {
        (Seq::empty(), s)
    } else if s[0] == '%' && s.len() >= 3 && is_hex(s[1]) && is_hex(s[2]) {
        let (d, r) = decode_segment(s.skip(3));
        (seq![(hex_value(s[1]) * 16 + hex_value(s[2])) as u8] + d, r)
    } else {
        let (d, r) = decode_segment(s.skip(1));
        (seq![(s[0] as u32) as u8] + d, r)
    }
}

/// Relies on percent_encoding::percent_encode_byte: `%` and the byte's two
/// upper-case hex digits, read from a fixed table.
#[verifier::external_body]
fn escaped_byte(b: u8) -> (r: &'static str)
    ensures
        r@ == seq!['%', hex_digit(b / 16), hex_digit(b % 16)],
{
    percent_encode_byte(b)
}

/// Relies on String::push: appends one character.
#[verifier::external_body]
pub(crate) fn push_char(s: &mut String, c: char)
    ensures
        final(s)@ == old(s)@.push(c),
{
    s.push(c)
}

/// Whether a byte stands for itself in an asset URL.
pub fn byte_is_kept(b: u8) -> (r: bool)
    ensures
        r == is_kept(b),
{
    (0x30 <= b && b <= 0x39) || (0x41 <= b && b <= 0x5a) || (0x61 <= b && b <= 0x7a) || b == 0x2e
        || b == 0x2d
}

proof fn lemma_encode_push(s: Seq<u8>, b: u8)
    ensures
        encode_segment(s.push(b)) == encode_segment(s) + encode_byte(b),
    decreases s.len(),
{
    if s.len() == 0 {
        assert(s.push(b).skip(1) =~= Seq::<u8>::empty());
        assert(s.push(b)[0] == b);
        assert(encode_segment(s.push(b).skip(1)) == Seq::<char>::empty());
        assert(encode_segment(s) == Seq::<char>::empty());
        assert(encode_segment(s.push(b)) =~= encode_segment(s) + encode_byte(b));
    } else {
        assert(s.push(b).skip(1) =~= s.skip(1).push(b));
        lemma_encode_push(s.skip(1), b);
        assert(encode_segment(s.push(b)) =~= encode_segment(s) + encode_byte(b));
    }
}

/// Appends the percent-encoding of a segment to `url`.
pub fn append_encoded(url: &mut String, seg: &[u8])
    ensures
        final(url)@ == old(url)@ + encode_segment(seg@),
{
    let n = seg.len();
    let mut i: usize = 0;
    while i < n
        invariant
            n == seg@.len(),
            i <= n,
            url@ == old(url)@ + encode_segment(seg@.take(i as int)),
        decreases n - i,
    {
        let b = seg[i];
        proof {
            lemma_encode_push(seg@.take(i as int), b);
            assert(seg@.take(i as int).push(b) =~= seg@.take(i + 1));
        }
        if byte_is_kept(b) {
            push_char(url, b as char);
        } else {
            url.append(escaped_byte(b));
        }
        i = i + 1;
    }
    assert(seg@.take(n as int) =~= seg@);
}

proof fn lemma_hex_round_trip(n: u8)
    requires
        n < 16,
    ensures
        is_hex(hex_digit(n)),
        hex_value(hex_digit(n)) == n,
        hex_digit(n) != '/',
{
}

/// Decoding an encoded segment followed by nothing, or by text that starts at
/// a `/`, gives back the segment's bytes and that text.
pub proof fn lemma_decode_encoded(s: Seq<u8>, t: Seq<char>)
    requires
        t.len() == 0 || t[0] == '/',
    ensures
        decode_segment(encode_segment(s) + t) == (s, t),
    decreases s.len(),
{
    if s.len() == 0 {
        assert(encode_segment(s) + t =~= t);
    } else {
        let b = s[0];
        let rest = encode_segment(s.skip(1)) + t;
        lemma_decode_encoded(s.skip(1), t);
        lemma_hex_round_trip(b / 16);
        lemma_hex_round_trip(b % 16);
        let whole = encode_segment(s) + t;
        assert(whole =~= encode_byte(b) + rest);
        if is_kept(b) {
            assert(whole.skip(1) =~= rest);
            assert(((b as char) as u32) as u8 == b);
        } else {
            assert(whole.skip(3) =~= rest);
            assert((hex_value(hex_digit(b / 16)) * 16 + hex_value(hex_digit(b % 16))) as u8 == b);
        }
        assert(seq![b] + s.skip(1) =~= s);
    }
}

} // verus!

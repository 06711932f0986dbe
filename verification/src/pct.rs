//! Percent-encoding for values embedded in URL path segments. The escape
//! set covers the C0 controls and DEL, every non-ASCII character (as the
//! `%XX` of each of its UTF-8 bytes), and the characters significant
//! inside a path segment — space, quote, angle brackets, backtick and the
//! separator itself, since a project identifier may contain `/`. The
//! `%XX` text of one byte comes from the percent-encoding crate.

use vstd::prelude::*;

use vstd::utf8::encode_utf8;

verus! {

/// An ASCII character this library escapes in a URL path segment.
pub open spec fn pct_escaped(c: char) -> bool {
    let u = c as u32;
    ||| u < 0x20
    ||| u == 0x7F
    ||| u == 0x20
    ||| u == 0x22
    ||| u == 0x3C
    ||| u == 0x3E
    ||| u == 0x60
    ||| u == 0x2F
}

/// The uppercase hexadecimal digit for a value below sixteen.
pub open spec fn hex_upper(d: int) -> char {
    if d < 10 {
        ((0x30 + d) as u8) as char
    } else {
        ((0x37 + d) as u8) as char
    }
}

/// The three characters that escape one byte.
pub open spec fn byte_esc(b: u8) -> Seq<char> {
    seq!['%', hex_upper(b as int / 16), hex_upper(b as int % 16)]
}

/// Every byte of a run escaped in order.
pub open spec fn bytes_esc(bs: Seq<u8>) -> Seq<char>
    decreases bs.len(),
{
    if bs.len() == 0 {
        Seq::empty()
    } else {
        bytes_esc(bs.drop_last()) + byte_esc(bs.last())
    }
}

/// What one character contributes to the encoded form: its own escape
/// when it is ASCII and in the set, the escapes of its UTF-8 bytes when
/// it is not ASCII, and itself otherwise.
pub open spec fn pct_char_seq(c: char) -> Seq<char> {
    if c as int >= 0x80 {
        bytes_esc(encode_utf8(seq![c]))
    } else if pct_escaped(c) {
        byte_esc(c as u8)
    } else {
        seq![c]
    }
}

/// The percent-encoded form of a whole segment.
pub open spec fn pct_encoded(s: Seq<char>) -> Seq<char>
    decreases s.len(),
{
    if s.len() == 0 {
        Seq::empty()
    } else {
        pct_encoded(s.drop_last()) + pct_char_seq(s.last())
    }
}

/// Relies on percent_encoding::percent_encode_byte: `%` and the two
/// uppercase hex digits of the byte.
#[verifier::external_body]
fn pct_byte(b: u8) -> (r: &'static str)
    ensures
        r@ == byte_esc(b),
{
    percent_encoding::percent_encode_byte(b)
}

/// Relies on char::encode_utf8: the UTF-8 bytes of one character.
#[verifier::external_body]
fn char_utf8_bytes(c: char) -> (r: Vec<u8>)
    ensures
        r@ == encode_utf8(seq![c]),
{
    let mut buf = [0u8; 4];
    c.encode_utf8(&mut buf).as_bytes().to_vec()
}

/// Percent-encodes one URL path segment.
pub fn pct_encode_segment(s: &str) -> (r: String)
    ensures
        r@ == pct_encoded(s@),
{
    let n = s.unicode_len();
    let mut out = String::new();
    let mut i: usize = 0;
    while i < n
        invariant
            0 <= i <= n,
            n == s@.len(),
            out@ == pct_encoded(s@.take(i as int)),
        decreases n - i,
    {
        let c = s.get_char(i);
        let u = c as u32;
        if u >= 0x80 {
            let bs = char_utf8_bytes(c);
            let m = bs.len();
            let mut k: usize = 0;
            proof {
                assert(bs@.take(0) =~= Seq::<u8>::empty());
            }
            while k < m
                invariant
                    0 <= k <= m,
                    m == bs@.len(),
                    bs@ == encode_utf8(seq![c]),
                    out@ == pct_encoded(s@.take(i as int)) + bytes_esc(bs@.take(k as int)),
                decreases m - k,
            {
                out.append(pct_byte(bs[k]));
                proof {
                    assert(bs@.take(k + 1).drop_last() =~= bs@.take(k as int));
                    assert(bs@.take(k + 1).last() == bs@[k as int]);
                }
                k = k + 1;
            }
            proof {
                assert(bs@.take(m as int) =~= bs@);
            }
        } else if u < 0x20 || u == 0x7F || u == 0x20 || u == 0x22 || u == 0x3C || u == 0x3E || u
            == 0x60 || u == 0x2F {
            out.append(pct_byte(u as u8));
        } else {
            out.push(c);
        }
        proof {
            assert(s@.take(i + 1).drop_last() =~= s@.take(i as int));
            assert(s@.take(i + 1).last() == s@[i as int]);
        }
        i = i + 1;
    }
    proof {
        assert(s@.take(n as int) =~= s@);
    }
    out
}

} // verus!

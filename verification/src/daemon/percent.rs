//! Percent-encoding of the string fields of the wire protocol.
//!
//! Bytes from 0x21 to 0x7E other than `%` pass through; every other byte is
//! written as `%` and two uppercase hexadecimal digits. The decoder accepts
//! any `%` with two hexadecimal digits of either case.

use vstd::prelude::*;
use vstd::utf8::*;
use crate::decimal;
use crate::daemon::proto::{ProtoError, ProtoErrorView};
use crate::decimal::hex_upper_char;
use crate::text::string_from_utf8;

verus! {

/// The bytes that are written as they are.
pub open spec fn passes(b: u8) -> bool {
    0x21 <= b <= 0x7e && b != 0x25
}

/// How one byte is written.
pub open spec fn escape_byte(b: u8) -> Seq<char> {
    if passes(b) {
        seq![b as char]
    } else {
        seq!['%', decimal::hex_upper((b / 16) as nat), decimal::hex_upper((b % 16) as nat)]
    }
}

/// How a run of bytes is written.
pub open spec fn escape_bytes(b: Seq<u8>) -> Seq<char>
    decreases b.len(),
{
    if b.len() == 0 {
        Seq::empty()
    } else {
        escape_byte(b[0]) + escape_bytes(b.skip(1))
    }
}

/// The encoded form of `s`.
pub open spec fn percent_encoded(s: Seq<char>) -> Seq<char> {
    escape_bytes(encode_utf8(s))
}

/// The value of a hexadecimal digit of either case.
pub open spec fn nibble(b: u8) -> Option<nat> {
    if 48 <= b <= 57 {
        Some((b - 48) as nat)
    } else if 97 <= b <= 102 {
        Some((b - 87) as nat)
    } else if 65 <= b <= 70 {
        Some((b - 55) as nat)
    } else {
        None
    }
}

/// The bytes that an encoded run stands for, or why it is malformed.
pub open spec fn unescape(b: Seq<u8>) -> Result<Seq<u8>, Seq<char>>
    decreases b.len(),
{
    if b.len() == 0 {
        Ok(Seq::empty())
    } else if b[0] != 0x25 {
        match unescape(b.skip(1)) {
            Ok(rest) => Ok(seq![b[0]] + rest),
            Err(e) => Err(e),
        }
    } else if b.len() < 3 {
        Err("truncated percent escape"@)
    } else {
        match (nibble(b[1]), nibble(b[2])) {
            (Some(hi), Some(lo)) => match unescape(b.skip(3)) {
                Ok(rest) => Ok(seq![(16 * hi + lo) as u8] + rest),
                Err(e) => Err(e),
            },
            _ => Err("invalid hex in percent escape"@),
        }
    }
}

/// The string that `s` encodes, or why there is none.
pub open spec fn percent_decoded(s: Seq<char>) -> Result<Seq<char>, ProtoErrorView> {
    match unescape(encode_utf8(s)) {
        Err(e) => Err(ProtoErrorView::Malformed(e)),
        Ok(b) => if valid_utf8(b) {
            Ok(decode_utf8(b))
        } else {
            Err(ProtoErrorView::Malformed("decoded bytes are not valid UTF-8"@))
        },
    }
}

/// Encodes `s`.
pub fn percent_encode(s: &str) -> (r: String)
    ensures
        r@ == percent_encoded(s@),
{
    let bytes: &[u8] = s.as_bytes();
    let mut out: String = String::new();
    let mut i: usize = 0;
    proof {
        assert(bytes@.skip(0) =~= bytes@);
        assert(out@ + escape_bytes(bytes@.skip(0)) =~= escape_bytes(bytes@));
    }
    while i < bytes.len()
        invariant
            i <= bytes@.len(),
            out@ + escape_bytes(bytes@.skip(i as int)) == escape_bytes(bytes@),
        decreases bytes@.len() - i,
    {
        let b: u8 = bytes[i];
        let ghost before = out@;
        let ghost rest = bytes@.skip(i as int);
        if 0x21 <= b && b <= 0x7e && b != 0x25 {
            out.push(b as char);
        } else {
            out.push('%');
            out.push(hex_upper_char(b / 16));
            out.push(hex_upper_char(b % 16));
        }
        proof {
            assert(rest[0] == b);
            assert(rest.skip(1) =~= bytes@.skip(i as int + 1));
            assert(out@ =~= before + escape_byte(b));
            assert(out@ + escape_bytes(rest.skip(1)) =~= before + (escape_byte(b) + escape_bytes(
                rest.skip(1),
            )));
        }
        i += 1;
    }
    proof {
        assert(bytes@.skip(i as int).len() == 0);
        assert(out@ + escape_bytes(bytes@.skip(i as int)) =~= out@);
    }
    out
}

/// The value of a hexadecimal digit.
pub fn hex_nibble(b: u8) -> (r: Result<u8, ProtoError>)
    ensures
        match r {
            Ok(n) => nibble(b) == Some(n as nat) && n < 16,
            Err(e) => nibble(b) is None && e@ == ProtoErrorView::Malformed(
                "invalid hex in percent escape"@,
            ),
        },
{
    if 48 <= b && b <= 57 {
        Ok(b - 48)
    } else if 97 <= b && b <= 102 {
        Ok(b - 87)
    } else if 65 <= b && b <= 70 {
        Ok(b - 55)
    } else {
        Err(ProtoError::Malformed("invalid hex in percent escape"))
    }
}

/// Decodes `s`.
pub fn percent_decode(s: &str) -> (r: Result<String, ProtoError>)
    ensures
        match r {
            Ok(t) => percent_decoded(s@) == Ok::<Seq<char>, ProtoErrorView>(t@),
            Err(e) => percent_decoded(s@) == Err::<Seq<char>, ProtoErrorView>(e@),
        },
{
    let bytes: &[u8] = s.as_bytes();
    let mut out: Vec<u8> = Vec::new();
    let mut i: usize = 0;
    proof {
        assert(bytes@.skip(0) =~= bytes@);
        if let Ok(rest) = unescape(bytes@) {
            assert(out@ + rest =~= rest);
        }
    }
    while i < bytes.len()
        invariant
            i <= bytes@.len(),
            bytes@ == encode_utf8(s@),
            match unescape(bytes@.skip(i as int)) {
                Ok(rest) => unescape(bytes@) == Ok::<Seq<u8>, Seq<char>>(out@ + rest),
                Err(e) => unescape(bytes@) == Err::<Seq<u8>, Seq<char>>(e),
            },
        decreases bytes@.len() - i,
    {
        let ghost tail = bytes@.skip(i as int);
        let ghost before = out@;
        let b: u8 = bytes[i];
        proof {
            assert(tail[0] == b);
        }
        if b == 0x25 {
            if bytes.len() - i < 3 {
                return Err(ProtoError::Malformed("truncated percent escape"));
            }
            proof {
                assert(tail[1] == bytes@[i + 1]);
                assert(tail[2] == bytes@[i + 2]);
                assert(tail.skip(3) =~= bytes@.skip(i as int + 3));
            }
            let hi: u8 = match hex_nibble(bytes[i + 1]) {
                Ok(n) => n,
                Err(e) => {
                    return Err(e);
                },
            };
            let lo: u8 = match hex_nibble(bytes[i + 2]) {
                Ok(n) => n,
                Err(e) => {
                    return Err(e);
                },
            };
            let byte: u8 = hi * 16 + lo;
            out.push(byte);
            proof {
                if let Ok(rest) = unescape(tail.skip(3)) {
                    assert(out@ + rest =~= before + (seq![byte] + rest));
                }
            }
            i += 3;
        } else {
            out.push(b);
            proof {
                assert(tail.skip(1) =~= bytes@.skip(i as int + 1));
                if let Ok(rest) = unescape(tail.skip(1)) {
                    assert(out@ + rest =~= before + (seq![b] + rest));
                }
            }
            i += 1;
        }
    }
    proof {
        assert(bytes@.skip(i as int).len() == 0);
        assert(out@ + Seq::<u8>::empty() =~= out@);
    }
    match string_from_utf8(out) {
        Some(t) => Ok(t),
        None => Err(ProtoError::Malformed("decoded bytes are not valid UTF-8")),
    }
}

// ── Laws ────────────────────────────────────────────────────────────────────

/// An encoded string holds only the characters from `!` to `~`: no blank, no
/// control character, nothing outside ASCII.
pub proof fn law_encoded_is_visible_ascii(s: Seq<char>)
    ensures
        forall|i: int|
            0 <= i < percent_encoded(s).len() ==> '!' <= #[trigger] percent_encoded(s)[i] <= '~',
{
    lemma_escaped_visible(encode_utf8(s));
}

proof fn lemma_escaped_visible(b: Seq<u8>)
    ensures
        forall|i: int| 0 <= i < escape_bytes(b).len() ==> '!' <= #[trigger] escape_bytes(b)[i] <= '~',
    decreases b.len(),
{
    if b.len() > 0 {
        lemma_escaped_visible(b.skip(1));
        let head = escape_byte(b[0]);
        let rest = escape_bytes(b.skip(1));
        assert forall|i: int| 0 <= i < escape_bytes(b).len() implies '!'
            <= #[trigger] escape_bytes(b)[i] <= '~' by {
            if i >= head.len() {
                assert((head + rest)[i] == rest[i - head.len()]);
            } else {
                assert((head + rest)[i] == head[i]);
            }
        }
    }
}

/// The bytes of a string of visible ASCII characters are those characters.
proof fn lemma_visible_bytes(t: Seq<char>)
    requires
        forall|i: int| 0 <= i < t.len() ==> '!' <= #[trigger] t[i] <= '~',
    ensures
        encode_utf8(t) == Seq::new(t.len(), |i: int| t[i] as u8),
{
    assert(is_ascii_chars(t));
    is_ascii_chars_encode_utf8(t);
    assert(encode_utf8(t) =~= Seq::new(t.len(), |i: int| t[i] as u8));
}

proof fn lemma_unescape_escaped(b: Seq<u8>)
    ensures
        unescape(encode_utf8(escape_bytes(b))) == Ok::<Seq<u8>, Seq<char>>(b),
    decreases b.len(),
{
    lemma_escaped_visible(b);
    lemma_visible_bytes(escape_bytes(b));
    let e = encode_utf8(escape_bytes(b));
    if b.len() == 0 {
        assert(b =~= Seq::empty());
    } else {
        let rest = b.skip(1);
        lemma_unescape_escaped(rest);
        lemma_escaped_visible(rest);
        lemma_visible_bytes(escape_bytes(rest));
        let head = escape_byte(b[0]);
        assert(e.skip(head.len() as int) =~= encode_utf8(escape_bytes(rest)));
        assert(seq![b[0]] + rest =~= b);
        if passes(b[0]) {
            assert(e[0] == b[0]);
        } else {
            let hi = (b[0] / 16) as nat;
            let lo = (b[0] % 16) as nat;
            assert(e[0] == 0x25);
            assert(e[1] == decimal::hex_upper(hi) as u8);
            assert(e[2] == decimal::hex_upper(lo) as u8);
            assert(nibble(e[1]) == Some(hi));
            assert(nibble(e[2]) == Some(lo));
            assert(16 * hi + lo == b[0]);
        }
    }
}

/// Decoding an encoded string gives the string back, whatever it holds.
pub proof fn law_decode_inverts_encode(s: Seq<char>)
    ensures
        percent_decoded(percent_encoded(s)) == Ok::<Seq<char>, ProtoErrorView>(s),
{
    lemma_unescape_escaped(encode_utf8(s));
    encode_utf8_valid_utf8(s);
    encode_utf8_decode_utf8(s);
}

} // verus!

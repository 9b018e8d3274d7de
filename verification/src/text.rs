//! Decimal numbers and zero-terminated strings, as the Query Protocol writes
//! them.

use vstd::prelude::*;
use vstd::utf8::{
    decode_utf8, encode_scalar, encode_utf8, encode_utf8_decode_utf8, encode_utf8_valid_utf8,
    valid_utf8,
};

use crate::buffer::{first_index, lemma_first_index, lemma_first_index_unique, PacketBuffer};
use crate::error::{CCProxyError, CCProxyResult};
use crate::foreign::string_from_utf8;

verus! {

/// The ASCII digit of a number below ten.
pub open spec fn digit(n: nat) -> u8 {
    (0x30 + n) as u8
}

/// The decimal digits of `n`, without leading zeros.
pub open spec fn decimal(n: nat) -> Seq<u8>
    decreases n,
{
    if n < 10 {
        seq![digit(n)]
    } else {
        decimal(n / 10).push(digit(n % 10))
    }
}

/// The decimal digits of `n`, after a minus sign where it is negative.
pub open spec fn signed_decimal(n: int) -> Seq<u8> {
    if n < 0 {
        seq![0x2du8] + decimal((-n) as nat)
    } else {
        decimal(n as nat)
    }
}

/// True for a non-empty sequence of ASCII digits.
pub open spec fn is_digits(s: Seq<u8>) -> bool {
    &&& s.len() > 0
    &&& forall|i: int| 0 <= i < s.len() ==> 0x30 <= #[trigger] s[i] <= 0x39
}

/// The number that decimal digits write.
pub open spec fn digits_value(s: Seq<u8>) -> nat
    decreases s.len(),
{
    if s.len() == 0 {
        0
    } else {
        (digits_value(s.drop_last()) * 10 + (s.last() - 0x30)) as nat
    }
}

/// The number that `s` writes as an optional plus sign and decimal digits, where
/// it fits.
pub open spec fn parse_u64(s: Seq<u8>) -> Option<u64> {
    let t = if s.len() > 0 && s[0] == 0x2b {
        s.drop_first()
    } else {
        s
    };
    if is_digits(t) && digits_value(t) <= u64::MAX {
        Some(digits_value(t) as u64)
    } else {
        None
    }
}

/// The number that `s` writes as an optional sign and decimal digits, where it
/// fits.
pub open spec fn parse_i32(s: Seq<u8>) -> Option<i32> {
    let signed = s.len() > 0 && (s[0] == 0x2b || s[0] == 0x2d);
    let t = if signed {
        s.drop_first()
    } else {
        s
    };
    let n: int = if signed && s[0] == 0x2d {
        -(digits_value(t) as int)
    } else {
        digits_value(t) as int
    };
    if is_digits(t) && i32::MIN <= n <= i32::MAX {
        Some(n as i32)
    } else {
        None
    }
}

/// The decimal digits of a number write that number.
pub proof fn lemma_decimal(n: nat)
    ensures
        is_digits(decimal(n)),
        digits_value(decimal(n)) == n,
    decreases n,
{
    if n < 10 {
        reveal_with_fuel(digits_value, 2);
        assert(decimal(n).drop_last() =~= Seq::<u8>::empty());
    } else {
        lemma_decimal(n / 10);
        assert(decimal(n).drop_last() =~= decimal(n / 10));
    }
}

/// Reading an unsigned number gives back what was written.
pub proof fn lemma_u64_round_trip(n: u64)
    ensures
        parse_u64(decimal(n as nat)) == Some(n),
{
    lemma_decimal(n as nat);
}

/// Reading a signed number gives back what was written.
pub proof fn lemma_i32_round_trip(n: i32)
    ensures
        parse_i32(signed_decimal(n as int)) == Some(n),
{
    if n < 0 {
        lemma_decimal((-n) as nat);
        assert(signed_decimal(n as int).drop_first() =~= decimal((-n) as nat));
    } else {
        lemma_decimal(n as nat);
    }
}

/// True for bytes below 128, none of them zero.
pub open spec fn is_plain_ascii(s: Seq<u8>) -> bool {
    forall|i: int| 0 <= i < s.len() ==> 0 < #[trigger] s[i] < 0x80
}

/// Plain ASCII bytes are valid UTF-8.
pub proof fn lemma_ascii_valid(s: Seq<u8>)
    requires
        is_plain_ascii(s),
    ensures
        valid_utf8(s),
    decreases s.len(),
{
    if s.len() > 0 {
        let b = s[0];
        assert((b & 0x7f) as u32 == b as u32) by (bit_vector)
            requires
                b < 0x80,
        ;
        assert(vstd::utf8::pop_first_scalar(s) =~= s.drop_first());
        lemma_ascii_valid(s.drop_first());
    }
}

/// Decimal digits, signed or not, are plain ASCII.
pub proof fn lemma_decimal_ascii(n: int)
    ensures
        is_plain_ascii(signed_decimal(n)),
        n >= 0 ==> is_plain_ascii(decimal(n as nat)),
{
    if n < 0 {
        lemma_decimal((-n) as nat);
    } else {
        lemma_decimal(n as nat);
    }
}

/// The zero-terminated UTF-8 form of a text.
pub open spec fn nul_terminated(text: Seq<char>) -> Seq<u8> {
    encode_utf8(text).push(0)
}

proof fn lemma_char_zero(c: char)
    ensures
        c as u32 == 0 <==> c == '\0',
{
}

/// A text has the character zero where its UTF-8 form has the byte zero, and
/// nowhere else.
pub proof fn lemma_nul_bytes(text: Seq<char>)
    ensures
        encode_utf8(text).contains(0u8) <==> text.contains('\0'),
    decreases text.len(),
{
    if text.len() > 0 {
        let c = text[0] as u32;
        let head = encode_scalar(c);
        let tail = text.drop_first();
        lemma_nul_bytes(tail);
        lemma_char_zero(text[0]);
        assert(head.contains(0u8) <==> c == 0) by {
            assert(c <= 0x7f ==> (c & 0x7f) as u8 == c as u8) by (bit_vector);
            assert(0xC0u8 | ((c >> 6) & 0x1F) as u8 != 0) by (bit_vector);
            assert(0xE0u8 | ((c >> 12) & 0x0F) as u8 != 0) by (bit_vector);
            assert(0xF0u8 | ((c >> 18) & 0x7) as u8 != 0) by (bit_vector);
            assert(0x80u8 | (c & 0x3F) as u8 != 0) by (bit_vector);
            assert(0x80u8 | ((c >> 6) & 0x3F) as u8 != 0) by (bit_vector);
            assert(0x80u8 | ((c >> 12) & 0x3F) as u8 != 0) by (bit_vector);
            if c == 0 {
                assert(head[0] == 0u8);
            }
        }
        assert(encode_utf8(text) == head + encode_utf8(tail));
        if text.contains('\0') {
            if c == 0 {
                let i = choose|i: int| 0 <= i < head.len() && head[i] == 0u8;
                assert(encode_utf8(text)[i] == 0u8);
            } else {
                let j = choose|j: int| 0 <= j < text.len() && text[j] == '\0';
                assert(tail[j - 1] == '\0');
                let i = choose|i: int| 0 <= i < encode_utf8(tail).len() && encode_utf8(tail)[i] == 0u8;
                assert(encode_utf8(text)[head.len() + i] == 0u8);
            }
        }
        if encode_utf8(text).contains(0u8) {
            let i = choose|i: int| 0 <= i < encode_utf8(text).len() && encode_utf8(text)[i] == 0u8;
            if i < head.len() {
                assert(head[i] == 0u8);
                assert(head.contains(0u8));
                assert(c == 0);
                assert(text[0] == '\0');
            } else {
                assert(encode_utf8(tail)[i - head.len()] == 0u8);
                let j = choose|j: int| 0 <= j < tail.len() && tail[j] == '\0';
                assert(text[j + 1] == '\0');
            }
        }
    }
}

/// The bytes of the string at the start of `rest`: those before the first zero
/// byte. Where there is none, the last byte is left off.
pub open spec fn string_bytes(rest: Seq<u8>) -> Seq<u8> {
    if first_index(rest, 0) < rest.len() {
        rest.take(first_index(rest, 0))
    } else if rest.len() > 0 {
        rest.drop_last()
    } else {
        rest
    }
}

/// What follows the string at the start of `rest`.
pub open spec fn after_string(rest: Seq<u8>) -> Seq<u8> {
    if first_index(rest, 0) < rest.len() {
        rest.skip(first_index(rest, 0) + 1)
    } else {
        Seq::empty()
    }
}

/// The outcome of reading a string, and what is left.
pub open spec fn take_string(rest: Seq<u8>) -> (CCProxyResult<Seq<char>>, Seq<u8>) {
    if valid_utf8(string_bytes(rest)) {
        (Ok(decode_utf8(string_bytes(rest))), after_string(rest))
    } else {
        (Err(CCProxyError::QueryInvalid), after_string(rest))
    }
}

/// Reading a string gives back the text that was written, and leaves what
/// follows it.
pub proof fn lemma_string_round_trip(text: Seq<char>, tail: Seq<u8>)
    requires
        !text.contains('\0'),
    ensures
        take_string(nul_terminated(text) + tail) == (
            Ok::<Seq<char>, CCProxyError>(text),
            tail,
        ),
{
    let bytes = encode_utf8(text);
    let rest = nul_terminated(text) + tail;
    lemma_nul_bytes(text);
    assert forall|i: int| 0 <= i < bytes.len() implies rest[i] != 0 by {
        assert(rest[i] == bytes[i]);
        assert(bytes.contains(bytes[i]));
    }
    lemma_first_index_unique(rest, 0, bytes.len() as int);
    assert(string_bytes(rest) =~= bytes);
    assert(after_string(rest) =~= tail);
    encode_utf8_valid_utf8(text);
    encode_utf8_decode_utf8(text);
}

/// The outcome of reading a string, as a result over text.
pub open spec fn string_result(res: CCProxyResult<String>) -> CCProxyResult<Seq<char>> {
    match res {
        Ok(s) => Ok(s@),
        Err(e) => Err(e),
    }
}

/// Reads a zero-terminated string.
pub fn read_string_to_null(buf: &mut PacketBuffer) -> (res: CCProxyResult<String>)
    ensures
        final(buf).data() == old(buf).data(),
        (string_result(res), final(buf).rest()) == take_string(old(buf).rest()),
{
    let mut string: Vec<u8> = buf.read_until_nul();
    let ghost rest = old(buf).rest();
    proof {
        lemma_first_index(rest, 0);
    }
    string.pop();
    assert(string@ =~= string_bytes(rest));
    match string_from_utf8(string) {
        Some(s) => {
            proof {
                encode_utf8_decode_utf8(s@);
            }
            Ok(s)
        },
        None => Err(CCProxyError::QueryInvalid),
    }
}

/// The zero-terminated form of a string, which has to be free of the character
/// zero itself.
pub fn to_cstring(s: &str) -> (res: CCProxyResult<Vec<u8>>)
    ensures
        match res {
            Ok(bytes) => !s@.contains('\0') && bytes@ == nul_terminated(s@) && bytes@
                == encode_utf8(s@) + seq![0u8],
            Err(e) => s@.contains('\0') && e == CCProxyError::QueryInvalid,
        },
{
    let text: &[u8] = s.as_bytes();
    let mut bytes: Vec<u8> = Vec::new();
    let mut i: usize = 0;
    proof {
        lemma_nul_bytes(s@);
    }
    while i < text.len()
        invariant
            i <= text@.len(),
            text@ == encode_utf8(s@),
            bytes@ == text@.take(i as int),
            forall|j: int| 0 <= j < i ==> text@[j] != 0,
            encode_utf8(s@).contains(0u8) <==> s@.contains('\0'),
        decreases text@.len() - i,
    {
        if text[i] == 0 {
            assert(text@[i as int] == 0u8);
            return Err(CCProxyError::QueryInvalid);
        }
        bytes.push(text[i]);
        i = i + 1;
    }
    assert(bytes@ =~= encode_utf8(s@));
    bytes.push(0);
    assert(bytes@ =~= encode_utf8(s@) + seq![0u8]);
    Ok(bytes)
}

} // verus!

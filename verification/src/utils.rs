//! Word and packed-string utilities shared by both header formats.
//!
//! Every length or pointer wider than 16 bits is stored as a pair of
//! big-endian 16-bit words; text is stored as 16-bit words holding two
//! 8-bit characters each, together with an explicit character count.

use vstd::prelude::*;
use vstd::utf8::{
    decode_utf8, encode_utf8_decode_utf8, encode_utf8_valid_utf8, is_ascii_chars,
    is_ascii_chars_encode_utf8, valid_utf8,
};

verus! {

/// The 32-bit value encoded by a most-significant / least-significant word
/// pair, stated arithmetically.
pub open spec fn spec_combine(msb: u16, lsb: u16) -> u32 {
    (msb * 0x10000 + lsb) as u32
}

/// Combines two 16-bit big-endian words into one 32-bit value.
///
/// Total over all word pairs; the result is `(msb << 16) | lsb`.
pub fn combine_words(msb: u16, lsb: u16) -> (r: u32)
    ensures
        r == spec_combine(msb, lsb),
        r == ((msb as u32) << 16) | (lsb as u32),
{
    let m: u32 = msb as u32;
    let l: u32 = lsb as u32;
    let r = (m << 16) | l;
    assert(r == msb * 0x10000 + lsb) by (bit_vector)
        requires
            m == msb as u32 && l == lsb as u32 && r == (m << 16) | l,
    ;
    r
}

/// The big-endian 16-bit word stored at byte offset `pos`.
pub open spec fn word_at(bs: Seq<u8>, pos: int) -> u16
    recommends
        0 <= pos,
        pos + 2 <= bs.len(),
{
    (bs[pos] * 256 + bs[pos + 1]) as u16
}

/// The `n` consecutive big-endian 16-bit words starting at byte offset `pos`.
pub open spec fn words_at(bs: Seq<u8>, pos: int, n: int) -> Seq<u16>
    recommends
        0 <= pos,
        pos + 2 * n <= bs.len(),
{
    Seq::new(n as nat, |i: int| word_at(bs, pos + 2 * i))
}

/// The number of 16-bit words needed to hold `chars` 8-bit characters:
/// `ceil(chars / 2)`.
pub open spec fn word_count(chars: int) -> int {
    (chars + 1) / 2
}

/// The big-endian byte expansion of a word sequence: each word contributes
/// its high byte, then its low byte.
pub open spec fn words_to_bytes(ws: Seq<u16>) -> Seq<u8> {
    Seq::new(
        2 * ws.len(),
        |i: int| if i % 2 == 0 { (ws[i / 2] / 256) as u8 } else { (ws[i / 2] % 256) as u8 },
    )
}

/// The first `count` bytes of the big-endian byte expansion of a packed word
/// sequence; a trailing padding byte beyond `count` is dropped.
pub open spec fn packed_string_bytes(ws: Seq<u16>, count: int) -> Seq<u8> {
    words_to_bytes(ws).take(count)
}

/// True when every byte is 7-bit ASCII.
pub open spec fn is_ascii_bytes(bs: Seq<u8>) -> bool {
    forall|i: int| 0 <= i < bs.len() ==> bs[i] < 128
}

/// The bytes read one character each, as text.
pub open spec fn ascii_chars_of(bs: Seq<u8>) -> Seq<char> {
    bs.map_values(|b: u8| b as char)
}

/// What the lossy UTF-8 decoding of a byte sequence yields; a function of
/// the bytes alone.
pub uninterp spec fn lossy_decode(bs: Seq<u8>) -> Seq<char>;

/// Relies on `String::from_utf8_lossy`: the result depends on the bytes
/// alone, and valid UTF-8 input is decoded exactly.
#[verifier::external_body]
fn utf8_lossy(bytes: &[u8]) -> (r: String)
    ensures
        r@ == lossy_decode(bytes@),
        valid_utf8(bytes@) ==> r@ == decode_utf8(bytes@),
{
    String::from_utf8_lossy(bytes).to_string()
}

/// ASCII bytes are valid UTF-8 and decode to themselves, one character per
/// byte.
pub proof fn lemma_ascii_bytes_decode(bs: Seq<u8>)
    requires
        is_ascii_bytes(bs),
    ensures
        valid_utf8(bs),
        decode_utf8(bs) == ascii_chars_of(bs),
{
    let cs = ascii_chars_of(bs);
    assert forall|i: int| 0 <= i < cs.len() implies '\0' <= #[trigger] cs[i] <= '\u{7f}' by {
        assert(cs[i] == bs[i] as char);
    }
    assert(is_ascii_chars(cs));
    is_ascii_chars_encode_utf8(cs);
    assert(vstd::utf8::encode_utf8(cs) =~= bs);
    encode_utf8_valid_utf8(cs);
    encode_utf8_decode_utf8(cs);
}

/// Decodes the first `length` characters of a packed word sequence as
/// best-effort text: invalid UTF-8 is replaced lossily, never an error, and
/// an odd `length` drops the final word's padding byte.
pub fn vec16_to_string(input: &[u16], length: usize) -> (r: String)
    requires
        length <= 2 * input@.len(),
    ensures
        r@ == lossy_decode(packed_string_bytes(input@, length as int)),
        valid_utf8(packed_string_bytes(input@, length as int)) ==> r@ == decode_utf8(
            packed_string_bytes(input@, length as int),
        ),
        is_ascii_bytes(packed_string_bytes(input@, length as int)) ==> r@ == ascii_chars_of(
            packed_string_bytes(input@, length as int),
        ),
{
    let n = input.len();
    let mut bytes: Vec<u8> = Vec::new();
    let mut i: usize = 0;
    while i < n
        invariant
            n == input@.len(),
            i <= n,
            bytes@ == words_to_bytes(input@.take(i as int)),
        decreases n - i,
    {
        let w = input[i];
        bytes.push((w / 256) as u8);
        bytes.push((w % 256) as u8);
        proof {
            assert(bytes@ =~= words_to_bytes(input@.take(i + 1)));
        }
        i += 1;
    }
    proof {
        assert(input@.take(n as int) =~= input@);
    }
    bytes.truncate(length);
    proof {
        assert(bytes@ == packed_string_bytes(input@, length as int));
        if is_ascii_bytes(bytes@) {
            lemma_ascii_bytes_decode(bytes@);
        }
    }
    utf8_lossy(bytes.as_slice())
}

/// The text held by the first `count` characters of a packed word sequence,
/// decoded lossily.
pub open spec fn packed_text(ws: Seq<u16>, count: int) -> Seq<char> {
    lossy_decode(packed_string_bytes(ws, count))
}

/// The packed word sequence that holds the given text, two characters per
/// word; an odd character count leaves a padding NUL in the final word's
/// low byte.
pub open spec fn pack_ascii(text: Seq<char>) -> Seq<u16> {
    Seq::new(
        word_count(text.len() as int) as nat,
        |i: int|
            (
            (text[2 * i] as u8) as u16 * 256 + if 2 * i + 1 < text.len() {
                (text[2 * i + 1] as u8) as u16
            } else {
                0
            }) as u16,
    )
}

/// Packing ASCII text into words and decoding the packed form with the
/// original character count yields the text again, for even and odd
/// character counts alike.
pub proof fn lemma_packed_string_round_trip(text: Seq<char>)
    requires
        is_ascii_chars(text),
    ensures
        is_ascii_bytes(packed_string_bytes(pack_ascii(text), text.len() as int)),
        ascii_chars_of(packed_string_bytes(pack_ascii(text), text.len() as int)) == text,
{
    let ws = pack_ascii(text);
    let bs = packed_string_bytes(ws, text.len() as int);
    assert forall|j: int| 0 <= j < bs.len() implies #[trigger] bs[j] == text[j] as u8 by {
        let w = ws[j / 2];
        if j % 2 == 0 {
            assert(bs[j] == (w / 256) as u8);
        } else {
            assert(bs[j] == (w % 256) as u8);
        }
    }
    assert forall|j: int| 0 <= j < bs.len() implies #[trigger] bs[j] < 128 by {
        assert('\0' <= text[j] <= '\u{7f}');
    }
    assert(ascii_chars_of(bs) =~= text);
}

} // verus!

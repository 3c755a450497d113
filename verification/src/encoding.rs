//! Decoding of text files whose encoding is not known in advance.

use vstd::prelude::*;
use vstd::utf8::{decode_utf8, valid_utf8};

verus! {

/// `char::from_u32` gives the character with that code, when the code is a Unicode scalar.
pub assume_specification[ char::from_u32 ](i: u32) -> (r: Option<char>)
    ensures
        r is Some <==> (i <= 0xD7FF || (0xE000 <= i && i <= 0x10FFFF)),
        r matches Some(c) ==> c as u32 == i,
;

/// A byte-order mark recognized in front of text.
#[derive(PartialEq, Eq, Structural, Clone, Copy, Debug)]
pub enum BomEncoding {
    Utf8,
    Utf16Le,
    Utf16Be,
}

/// The encoding that a leading byte-order mark announces, with the mark's length:
/// `EF BB BF` for UTF-8, `FF FE` for UTF-16LE, `FE FF` for UTF-16BE.
pub open spec fn bom_of(b: Seq<u8>) -> Option<(BomEncoding, nat)> {
    if b.len() >= 3 && b[0] == 0xEF && b[1] == 0xBB && b[2] == 0xBF {
        Some((BomEncoding::Utf8, 3))
    } else if b.len() >= 2 && b[0] == 0xFF && b[1] == 0xFE {
        Some((BomEncoding::Utf16Le, 2))
    } else if b.len() >= 2 && b[0] == 0xFE && b[1] == 0xFF {
        Some((BomEncoding::Utf16Be, 2))
    } else {
        None
    }
}

/// The byte-order mark at the start of `b` (what `encoding_rs::Encoding::for_bom` reports).
pub fn bom_of_bytes(b: &[u8]) -> (r: Option<(BomEncoding, usize)>)
    ensures
        match r {
            Some((e, n)) => bom_of(b@) == Some((e, n as nat)),
            None => bom_of(b@) is None,
        },
{
    if b.len() >= 3 && b[0] == 0xEF && b[1] == 0xBB && b[2] == 0xBF {
        Some((BomEncoding::Utf8, 3))
    } else if b.len() >= 2 && b[0] == 0xFF && b[1] == 0xFE {
        Some((BomEncoding::Utf16Le, 2))
    } else if b.len() >= 2 && b[0] == 0xFE && b[1] == 0xFF {
        Some((BomEncoding::Utf16Be, 2))
    } else {
        None
    }
}

/// The text that `encoding_rs` decodes from `bytes` in the given encoding, with no
/// byte-order-mark handling and malformed sequences replaced by U+FFFD.
pub uninterp spec fn spec_decode_without_bom(enc: BomEncoding, bytes: Seq<u8>) -> Seq<char>;

/// The UTF-16 code units of `b`, two bytes each, in the given byte order (a last odd byte
/// left out).
pub open spec fn utf16_units(b: Seq<u8>, little_endian: bool) -> Seq<u16> {
    Seq::new(
        b.len() / 2,
        |k: int|
            if little_endian {
                (b[2 * k] + b[2 * k + 1] * 256) as u16
            } else {
                (b[2 * k] * 256 + b[2 * k + 1]) as u16
            },
    )
}

/// What decoding `bytes` in `enc` without byte-order-mark handling gives: valid UTF-8 is
/// its text; UTF-16 of an even number of bytes is its code units, each unpaired surrogate
/// becoming U+FFFD; for the rest (malformed UTF-8, an odd last byte) the result is only named
/// ([`spec_decode_without_bom`]).
pub open spec fn decoded_without_bom(enc: BomEncoding, bytes: Seq<u8>) -> Seq<char> {
    match enc {
        BomEncoding::Utf8 => if valid_utf8(bytes) {
            decode_utf8(bytes)
        } else {
            spec_decode_without_bom(enc, bytes)
        },
        BomEncoding::Utf16Le => if bytes.len() % 2 == 0 {
            utf16_lossy(utf16_units(bytes, true))
        } else {
            spec_decode_without_bom(enc, bytes)
        },
        BomEncoding::Utf16Be => if bytes.len() % 2 == 0 {
            utf16_lossy(utf16_units(bytes, false))
        } else {
            spec_decode_without_bom(enc, bytes)
        },
    }
}

/// Calls `encoding_rs::Encoding::decode_without_bom_handling` on the encoding named by `enc`.
/// Claimed: the result is a function of `enc` and `bytes` alone; valid UTF-8 decodes to its
/// text; and the UTF-16 decoder (encoding_rs's utf_16.rs) reads two bytes per code unit in the
/// given order, writes a surrogate pair as its character and each other unpaired surrogate
/// as U+FFFD, so that on an even number of bytes it gives [`utf16_lossy`] of the units.
#[verifier::external_body]
fn decode_without_bom(enc: BomEncoding, bytes: &[u8]) -> (r: String)
    ensures
        r@ == spec_decode_without_bom(enc, bytes@),
        enc == BomEncoding::Utf8 && valid_utf8(bytes@) ==> r@ == decode_utf8(bytes@),
        enc == BomEncoding::Utf16Le && bytes@.len() % 2 == 0 ==> r@ == utf16_lossy(
            utf16_units(bytes@, true),
        ),
        enc == BomEncoding::Utf16Be && bytes@.len() % 2 == 0 ==> r@ == utf16_lossy(
            utf16_units(bytes@, false),
        ),
{
    let e = match enc {
        BomEncoding::Utf8 => encoding_rs::UTF_8,
        BomEncoding::Utf16Le => encoding_rs::UTF_16LE,
        BomEncoding::Utf16Be => encoding_rs::UTF_16BE,
    };
    e.decode_without_bom_handling(bytes).0.into_owned()
}

/// Calls `std::str::from_utf8`: the bytes as text when they are valid UTF-8.
#[verifier::external_body]
pub(crate) fn utf8_text(bytes: &[u8]) -> (r: Option<&str>)
    ensures
        r is Some <==> valid_utf8(bytes@),
        r matches Some(s) ==> s@ == decode_utf8(bytes@),
{
    std::str::from_utf8(bytes).ok()
}

/// The name of the legacy encoding that a `chardetng::EncodingDetector` guesses after being fed
/// all of `bytes` (no top-level domain, UTF-8 allowed).
pub uninterp spec fn spec_guessed_encoding(bytes: Seq<u8>) -> Seq<char>;

/// The text that `encoding_rs::Encoding::decode` gives for `bytes` in the encoding called
/// `name` (a byte-order mark overrides it; malformed sequences become U+FFFD).
pub uninterp spec fn spec_decode_as(name: Seq<char>, bytes: Seq<u8>) -> Seq<char>;

/// The text obtained by letting `chardetng` guess the legacy encoding of `bytes` and
/// decoding them with it.
pub open spec fn spec_detect_and_decode(bytes: Seq<u8>) -> Seq<char> {
    spec_decode_as(spec_guessed_encoding(bytes), bytes)
}

/// `encoding_rs::Encoding`, a character encoding.
#[verifier::external_type_specification]
#[verifier::external_body]
pub struct ExEncoding(encoding_rs::Encoding);

/// An encoding, with its name.
pub struct NamedEncoding {
    enc: &'static encoding_rs::Encoding,
    name: Ghost<Seq<char>>,
}

impl NamedEncoding {
    /// The encoding's name.
    pub closed spec fn name(&self) -> Seq<char> {
        self.name@
    }
}

/// Feeds all of `bytes` to a new `chardetng::EncodingDetector` and takes its guess (no
/// top-level domain, UTF-8 allowed).
/// Claimed: the guess is a function of `bytes`.
#[verifier::external_body]
fn guess_encoding(bytes: &[u8]) -> (r: NamedEncoding)
    ensures
        r.name() == spec_guessed_encoding(bytes@),
{
    let mut detector = chardetng::EncodingDetector::new();
    detector.feed(bytes, true);
    let enc = detector.guess(None, true);
    NamedEncoding { enc, name: Ghost(enc.name()@) }
}

/// `encoding_rs::Encoding::decode`.
/// Claimed: the text is a function of the encoding's name and `bytes`.
#[verifier::external_body]
fn decode_as(enc: &NamedEncoding, bytes: &[u8]) -> (r: String)
    ensures
        r@ == spec_decode_as(enc.name(), bytes@),
{
    enc.enc.decode(bytes).0.into_owned()
}

/// Decodes `bytes` in the legacy encoding that they most likely are in.
fn detect_and_decode(bytes: &[u8]) -> (r: String)
    ensures
        r@ == spec_detect_and_decode(bytes@),
{
    let enc = guess_encoding(bytes);
    decode_as(&enc, bytes)
}

// ---------------------------------------------------------------------------
// UTF-16 with lossy surrogate handling (`String::from_utf16_lossy`).

pub open spec fn is_high_surrogate(u: u16) -> bool {
    0xD800 <= u && u <= 0xDBFF
}

pub open spec fn is_low_surrogate(u: u16) -> bool {
    0xDC00 <= u && u <= 0xDFFF
}

/// The scalar that a surrogate pair encodes.
pub open spec fn surrogate_pair_value(hi: u16, lo: u16) -> int {
    0x10000 + (hi - 0xD800) * 1024 + (lo - 0xDC00)
}

/// UTF-16 decoding of `u` from position `i`: a high surrogate followed by a low one makes
/// one character, any other surrogate becomes U+FFFD, every other unit is its own character.
pub open spec fn utf16_lossy_from(u: Seq<u16>, i: int) -> Seq<char>
    decreases u.len() - i,
{
    if i < 0 || i >= u.len() {
        seq![]
    } else if is_high_surrogate(u[i]) && i + 1 < u.len() && is_low_surrogate(u[i + 1]) {
        seq![(surrogate_pair_value(u[i], u[i + 1]) as u32) as char] + utf16_lossy_from(u, i + 2)
    } else if is_high_surrogate(u[i]) || is_low_surrogate(u[i]) {
        seq!['\u{FFFD}'] + utf16_lossy_from(u, i + 1)
    } else {
        seq![(u[i] as u32) as char] + utf16_lossy_from(u, i + 1)
    }
}

pub open spec fn utf16_lossy(u: Seq<u16>) -> Seq<char> {
    utf16_lossy_from(u, 0)
}

/// Decodes UTF-16 code units, replacing unpaired surrogates by U+FFFD.
pub fn utf16_lossy_chars(u: &Vec<u16>) -> (r: Vec<char>)
    ensures
        r@ == utf16_lossy(u@),
{
    let mut out: Vec<char> = Vec::new();
    let mut i: usize = 0;
    while i < u.len()
        invariant
            i <= u.len(),
            utf16_lossy(u@) == out@ + utf16_lossy_from(u@, i as int),
        decreases u.len() - i,
    {
        let a = u[i];
        if 0xD800 <= a && a <= 0xDBFF && i + 1 < u.len() && 0xDC00 <= u[i + 1] && u[i + 1]
            <= 0xDFFF {
            let b = u[i + 1];
            let v: u32 = 0x10000 + ((a - 0xD800) as u32) * 1024 + ((b - 0xDC00) as u32);
            match char::from_u32(v) {
                Some(c) => {
                    proof {
                        assert(v == surrogate_pair_value(a, b));
                        vstd::utf8::char_u32_cast(c, v);
                    }
                    out.push(c);
                },
                None => {
                    assert(false);
                },
            }
            i = i + 2;
        } else if 0xD800 <= a && a <= 0xDFFF {
            out.push('\u{FFFD}');
            i = i + 1;
        } else {
            match char::from_u32(a as u32) {
                Some(c) => {
                    proof {
                        vstd::utf8::char_u32_cast(c, a as u32);
                    }
                    out.push(c);
                },
                None => {
                    assert(false);
                },
            }
            i = i + 1;
        }
    }
    out
}

/// The low 16 bits of each whole 4-byte unit of a UTF-32 text `b`, in the given byte order:
/// the first two bytes of a little-endian unit, the last two of a big-endian one. Bytes after
/// the last whole unit are left out.
pub open spec fn u32_units(b: Seq<u8>, little_endian: bool) -> Seq<u16> {
    Seq::new(
        b.len() / 4,
        |k: int|
            if little_endian {
                (b[4 * k] + b[4 * k + 1] * 256) as u16
            } else {
                (b[4 * k + 2] * 256 + b[4 * k + 3]) as u16
            },
    )
}

/// Decodes a UTF-32 text by the low 16 bits of each unit, read as a UTF-16 text.
pub fn decode_u32(bytes: &[u8], little_endian: bool) -> (r: String)
    ensures
        r@ == utf16_lossy(u32_units(bytes@, little_endian)),
{
    let len = bytes.len();
    let n = len / 4;
    let mut units: Vec<u16> = Vec::new();
    let mut k: usize = 0;
    while k < n
        invariant
            n == bytes@.len() / 4,
            len == bytes@.len(),
            k <= n,
            units@ == u32_units(bytes@, little_endian).take(k as int),
        decreases n - k,
    {
        assert(4 * k + 3 < bytes@.len()) by (nonlinear_arith)
            requires
                k < n,
                n == bytes@.len() / 4,
        ;
        let unit: u16 = if little_endian {
            (bytes[4 * k] as u16) + (bytes[4 * k + 1] as u16) * 256
        } else {
            (bytes[4 * k + 2] as u16) * 256 + (bytes[4 * k + 3] as u16)
        };
        units.push(unit);
        k = k + 1;
        assert(units@ == u32_units(bytes@, little_endian).take(k as int));
    }
    assert(units@ == u32_units(bytes@, little_endian));
    let cs = utf16_lossy_chars(&units);
    crate::text::string_of(&cs)
}

// ---------------------------------------------------------------------------
// The text of a file in an unknown encoding.

pub open spec fn starts_utf32le_bom(b: Seq<u8>) -> bool {
    b.len() >= 4 && b[0] == 0xFF && b[1] == 0xFE && b[2] == 0 && b[3] == 0
}

pub open spec fn starts_utf32be_bom(b: Seq<u8>) -> bool {
    b.len() >= 4 && b[0] == 0 && b[1] == 0 && b[2] == 0xFE && b[3] == 0xFF
}

/// The text of a file: a UTF-32 byte-order mark is honoured first; then a UTF-8 or UTF-16
/// mark; then valid UTF-8 is taken as is; anything else is decoded in the legacy encoding
/// that detection guesses.
pub open spec fn decode_text(b: Seq<u8>) -> Seq<char> {
    if starts_utf32le_bom(b) {
        utf16_lossy(u32_units(b.skip(4), true))
    } else if starts_utf32be_bom(b) {
        utf16_lossy(u32_units(b.skip(4), false))
    } else {
        match bom_of(b) {
            Some((enc, n)) => decoded_without_bom(enc, b.skip(n as int)),
            None => if valid_utf8(b) {
                decode_utf8(b)
            } else {
                spec_detect_and_decode(b)
            },
        }
    }
}

/// Reads text in any of the encodings that [`decode_text`] recognizes. Undecodable
/// bytes become U+FFFD.
pub fn read_text(bytes: &[u8]) -> (r: String)
    ensures
        r@ == decode_text(bytes@),
{
    if bytes.len() >= 4 && bytes[0] == 0xFF && bytes[1] == 0xFE && bytes[2] == 0 && bytes[3]
        == 0 {
        let rest = &bytes[4..bytes.len()];
        assert(rest@ == bytes@.skip(4));
        return decode_u32(rest, true);
    }
    if bytes.len() >= 4 && bytes[0] == 0 && bytes[1] == 0 && bytes[2] == 0xFE && bytes[3]
        == 0xFF {
        let rest = &bytes[4..bytes.len()];
        assert(rest@ == bytes@.skip(4));
        return decode_u32(rest, false);
    }
    match bom_of_bytes(bytes) {
        Some((enc, n)) => {
            let rest = &bytes[n..bytes.len()];
            assert(rest@ == bytes@.skip(n as int));
            decode_without_bom(enc, rest)
        },
        None => match utf8_text(bytes) {
            Some(s) => s.to_string(),
            None => detect_and_decode(bytes),
        },
    }
}


/// The text of `bytes` read as UTF-8, with each malformed sequence replaced by U+FFFD, as
/// `String::from_utf8_lossy` gives it.
pub uninterp spec fn spec_utf8_lossy(bytes: Seq<u8>) -> Seq<char>;

/// Calls `String::from_utf8_lossy`.
/// Claimed: the result is a function of `bytes` alone, and for valid UTF-8 it is the
/// decoded text.
#[verifier::external_body]
pub(crate) fn utf8_lossy(bytes: &[u8]) -> (r: String)
    ensures
        r@ == spec_utf8_lossy(bytes@),
        valid_utf8(bytes@) ==> r@ == decode_utf8(bytes@),
{
    String::from_utf8_lossy(bytes).into_owned()
}

} // verus!

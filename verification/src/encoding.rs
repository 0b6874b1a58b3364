//! Text encodings: the ones that can be chosen, how a choice is read from a hint, how an
//! encoding is guessed from a sample of bytes, and decoding of a whole buffer.

use vstd::prelude::*;
use vstd::utf8::*;

verus! {

/// An encoding that input can be decoded with.
#[derive(Clone, Copy, Debug, PartialEq, Eq, Structural)]
pub enum TextEncoding {
    Utf8,
    Gbk,
}

/// What a caller asks for: a fixed encoding, or a guess from the input itself.
#[derive(Clone, Copy, Debug, PartialEq, Eq, Structural)]
pub enum EncodingHint {
    Utf8,
    Gbk,
    Auto,
}

/// A hint that names no encoding known here.
#[derive(Debug, PartialEq, Eq)]
pub struct UnsupportedEncoding {
    /// The hint as it was given.
    pub hint: String,
}

/// Text decoded from a whole buffer.
#[derive(Debug, PartialEq, Eq)]
pub struct Decoded {
    pub text: String,
    /// Whether malformed bytes were met and replaced.
    pub had_errors: bool,
}

/// The bytes begin with the UTF-8 byte order mark.
pub open spec fn starts_with_bom(bytes: Seq<u8>) -> bool {
    bytes.len() >= 3 && bytes[0] == 0xEF && bytes[1] == 0xBB && bytes[2] == 0xBF
}

/// The bytes are well-formed UTF-8 and begin with no byte order mark.
pub open spec fn plain_utf8(bytes: Seq<u8>) -> bool {
    valid_utf8(bytes) && !starts_with_bom(bytes)
}

/// The encoding guessed for a sample: UTF-8 where the sample begins with the UTF-8 byte
/// order mark or is valid UTF-8 as a whole, GBK for every other sample.
pub open spec fn detected_encoding(bytes: Seq<u8>) -> TextEncoding {
    if starts_with_bom(bytes) || valid_utf8(bytes) {
        TextEncoding::Utf8
    } else {
        TextEncoding::Gbk
    }
}

/// The choice that a hint stands for, once the hint is in lower case.
pub open spec fn hint_of_lowercase(lower: Seq<char>) -> Option<EncodingHint> {
    if lower == "utf8"@ || lower == "utf-8"@ {
        Some(EncodingHint::Utf8)
    } else if lower == "gbk"@ {
        Some(EncodingHint::Gbk)
    } else if lower == "auto"@ {
        Some(EncodingHint::Auto)
    } else {
        None
    }
}

/// The lower-case form of a text, as `str::to_lowercase` of the standard library gives it.
pub uninterp spec fn lowercase(text: Seq<char>) -> Seq<char>;

/// The text and the error flag that `encoding_rs::Encoding::decode` gives for a whole
/// buffer: byte order mark taken into account, malformed sequences replaced.
pub uninterp spec fn whole_decoding(encoding: TextEncoding, bytes: Seq<u8>) -> (Seq<char>, bool);

/// Calls `str::to_lowercase`. Its result depends on the text alone; the contract only
/// gives it the name `lowercase`.
#[verifier::external_body]
fn to_lowercase(text: &str) -> (lower: String)
    ensures
        lower@ == lowercase(text@),
{
    text.to_lowercase()
}

/// Calls `encoding_rs::Encoding::decode` on the encoding's static instance and hands back
/// the text, owned, with the error flag. The result depends on the encoding and the bytes
/// alone, and the contract gives it the name `whole_decoding`. One case it states in
/// full: under UTF-8, bytes that are well-formed UTF-8 and begin with no byte order mark
/// are handed back as they are, as text, and without an error. The length bound keeps the
/// size of the output buffer, at most three times the input and a few bytes, inside `usize`.
#[verifier::external_body]
fn decode_whole(encoding: TextEncoding, bytes: &[u8]) -> (out: (String, bool))
    requires
        4 * bytes.len() <= usize::MAX,
    ensures
        (out.0@, out.1) == whole_decoding(encoding, bytes@),
        encoding == TextEncoding::Utf8 && plain_utf8(bytes@) ==> out.0@ == decode_utf8(bytes@)
            && !out.1,
{
    let (text, _, had_errors) = match encoding {
        TextEncoding::Utf8 => encoding_rs::UTF_8.decode(bytes),
        TextEncoding::Gbk => encoding_rs::GBK.decode(bytes),
    };
    (text.into_owned(), had_errors)
}

/// Tells whether two texts are the same, character for character.
pub fn same_text(a: &str, b: &str) -> (same: bool)
    ensures
        same == (a@ == b@),
{
    let x = a.as_bytes();
    let y = b.as_bytes();
    proof {
        encode_utf8_decode_utf8(a@);
        encode_utf8_decode_utf8(b@);
    }
    if x.len() != y.len() {
        return false;
    }
    let mut i: usize = 0;
    while i < x.len()
        invariant
            i <= x.len(),
            x.len() == y.len(),
            x@ == encode_utf8(a@),
            y@ == encode_utf8(b@),
            decode_utf8(encode_utf8(a@)) == a@,
            decode_utf8(encode_utf8(b@)) == b@,
            forall|j: int| 0 <= j < i ==> x@[j] == y@[j],
        decreases x.len() - i,
    {
        if x[i] != y[i] {
            return false;
        }
        i += 1;
    }
    assert(x@ =~= y@);
    true
}

/// Length of the well-formed UTF-8 character that `bytes` holds at position `from`, and
/// 0 where it holds none there: a byte that begins no character, a character cut short,
/// a form longer than the character needs, a surrogate, a value beyond Unicode.
fn character_length(bytes: &[u8], from: usize) -> (len: usize)
    requires
        from < bytes.len(),
    ensures
        len > 0 <==> valid_first_scalar(bytes@.skip(from as int)),
        len > 0 ==> len == length_of_first_scalar(bytes@.skip(from as int)),
        from + len <= bytes.len(),
{
    let room = bytes.len() - from;
    let b0 = bytes[from];
    if b0 <= 0x7f {
        assert((b0 & 0x7F) as u32 <= 0x7F) by (bit_vector);
        1
    } else if 0xc0 <= b0 && b0 <= 0xdf {
        if room < 2 {
            return 0;
        }
        let b1 = bytes[from + 1];
        if !(0x80 <= b1 && b1 <= 0xbf) {
            return 0;
        }
        let point = (((b0 & 0x1F) as u32) << 6) | ((b1 & 0x3f) as u32);
        assert(point <= 0x7FF) by (bit_vector)
            requires
                point == (((b0 & 0x1F) as u32) << 6) | ((b1 & 0x3f) as u32),
        ;
        if point >= 0x80 {
            2
        } else {
            0
        }
    } else if 0xe0 <= b0 && b0 <= 0xef {
        if room < 3 {
            return 0;
        }
        let b1 = bytes[from + 1];
        let b2 = bytes[from + 2];
        if !(0x80 <= b1 && b1 <= 0xbf && 0x80 <= b2 && b2 <= 0xbf) {
            return 0;
        }
        let point = (((b0 & 0x0F) as u32) << 12) | (((b1 & 0x3f) as u32) << 6) | ((b2
            & 0x3f) as u32);
        if point >= 0x800 && !(0xD800 <= point && point <= 0xDFFF) {
            3
        } else {
            0
        }
    } else if 0xf0 <= b0 && b0 <= 0xf7 {
        if room < 4 {
            return 0;
        }
        let b1 = bytes[from + 1];
        let b2 = bytes[from + 2];
        let b3 = bytes[from + 3];
        if !(0x80 <= b1 && b1 <= 0xbf && 0x80 <= b2 && b2 <= 0xbf && 0x80 <= b3 && b3 <= 0xbf) {
            return 0;
        }
        let point = (((b0 & 0x07) as u32) << 18) | (((b1 & 0x3f) as u32) << 12) | (((b2
            & 0x3f) as u32) << 6) | ((b3 & 0x3f) as u32);
        if 0x10000 <= point && point <= 0x10FFFF {
            4
        } else {
            0
        }
    } else {
        0
    }
}

/// Tells whether bytes are well-formed UTF-8.
pub fn is_utf8(bytes: &[u8]) -> (ok: bool)
    ensures
        ok == valid_utf8(bytes@),
{
    let mut pos: usize = 0;
    assert(bytes@.skip(0) =~= bytes@);
    while pos < bytes.len()
        invariant
            pos <= bytes.len(),
            valid_utf8(bytes@) == valid_utf8(bytes@.skip(pos as int)),
        decreases bytes.len() - pos,
    {
        let len = character_length(bytes, pos);
        if len == 0 {
            return false;
        }
        assert(pop_first_scalar(bytes@.skip(pos as int)) =~= bytes@.skip(pos + len));
        pos += len;
    }
    true
}

/// Guesses the encoding of a sample of bytes.
pub fn detect_encoding(bytes: &[u8]) -> (encoding: TextEncoding)
    ensures
        encoding == detected_encoding(bytes@),
{
    if bytes.len() >= 3 && bytes[0] == 0xEF && bytes[1] == 0xBB && bytes[2] == 0xBF {
        return TextEncoding::Utf8;
    }
    if is_utf8(bytes) {
        return TextEncoding::Utf8;
    }
    TextEncoding::Gbk
}

impl EncodingHint {
    /// The encoding that the hint comes to, given a sample of the input.
    pub open spec fn resolved(self, sample: Seq<u8>) -> TextEncoding {
        match self {
            EncodingHint::Utf8 => TextEncoding::Utf8,
            EncodingHint::Gbk => TextEncoding::Gbk,
            EncodingHint::Auto => detected_encoding(sample),
        }
    }

    /// Whether the hint needs a sample of the input to come to an encoding.
    pub fn needs_sample(self) -> (needed: bool)
        ensures
            needed == (self == EncodingHint::Auto),
    {
        match self {
            EncodingHint::Auto => true,
            _ => false,
        }
    }

    /// Settles the hint: a fixed encoding is taken as it is, `Auto` is guessed from
    /// `sample`, the beginning of the input.
    pub fn resolve(self, sample: &[u8]) -> (encoding: TextEncoding)
        ensures
            encoding == self.resolved(sample@),
    {
        match self {
            EncodingHint::Utf8 => TextEncoding::Utf8,
            EncodingHint::Gbk => TextEncoding::Gbk,
            EncodingHint::Auto => detect_encoding(sample),
        }
    }
}

impl UnsupportedEncoding {
    /// The message to show for this error.
    pub fn message(&self) -> (text: String)
        ensures
            text@ == "不支持的编码: "@ + self.hint@,
    {
        String::from_str("不支持的编码: ").concat(self.hint.as_str())
    }
}

/// Reads a hint that is in lower case already.
pub fn hint_from_lowercase(lower: &str) -> (hint: Option<EncodingHint>)
    ensures
        hint == hint_of_lowercase(lower@),
{
    if same_text(lower, "utf8") || same_text(lower, "utf-8") {
        Some(EncodingHint::Utf8)
    } else if same_text(lower, "gbk") {
        Some(EncodingHint::Gbk)
    } else if same_text(lower, "auto") {
        Some(EncodingHint::Auto)
    } else {
        None
    }
}

/// Reads an encoding hint, whatever its case: `utf8`, `utf-8`, `gbk` or `auto`. Any other
/// hint is refused, and handed back in the error.
pub fn parse_encoding_hint(hint: &str) -> (parsed: Result<EncodingHint, UnsupportedEncoding>)
    ensures
        match hint_of_lowercase(lowercase(hint@)) {
            Some(choice) => parsed == Ok::<EncodingHint, UnsupportedEncoding>(choice),
            None => parsed is Err && parsed->Err_0.hint@ == hint@,
        },
{
    let lower = to_lowercase(hint);
    match hint_from_lowercase(lower.as_str()) {
        Some(choice) => Ok(choice),
        None => Err(UnsupportedEncoding { hint: String::from_str(hint) }),
    }
}

/// Decodes a whole buffer with a given encoding. Bytes that are well-formed UTF-8 and
/// begin with no byte order mark come out under UTF-8 as the text they are, without an
/// error.
pub fn decode_as(bytes: &[u8], encoding: TextEncoding) -> (decoded: Decoded)
    requires
        4 * bytes.len() <= usize::MAX,
    ensures
        (decoded.text@, decoded.had_errors) == whole_decoding(encoding, bytes@),
        encoding == TextEncoding::Utf8 && plain_utf8(bytes@) ==> decoded.text@ == decode_utf8(
            bytes@,
        ) && !decoded.had_errors,
{
    let (text, had_errors) = decode_whole(encoding, bytes);
    Decoded { text, had_errors }
}

/// Decodes a whole buffer with the encoding that the hint asks for; for `auto` the
/// encoding is guessed from the buffer itself. A hint that names no known encoding is
/// refused before anything is decoded.
pub fn decode_bytes(bytes: &[u8], encoding_hint: &str) -> (decoded: Result<
    Decoded,
    UnsupportedEncoding,
>)
    requires
        4 * bytes.len() <= usize::MAX,
    ensures
        match hint_of_lowercase(lowercase(encoding_hint@)) {
            Some(choice) => {
                &&& decoded is Ok
                &&& (decoded->Ok_0.text@, decoded->Ok_0.had_errors) == whole_decoding(
                    choice.resolved(bytes@),
                    bytes@,
                )
                &&& choice.resolved(bytes@) == TextEncoding::Utf8 && plain_utf8(bytes@)
                    ==> decoded->Ok_0.text@ == decode_utf8(bytes@) && !decoded->Ok_0.had_errors
            },
            None => decoded is Err && decoded->Err_0.hint@ == encoding_hint@,
        },
{
    match parse_encoding_hint(encoding_hint) {
        Ok(choice) => Ok(decode_as(bytes, choice.resolve(bytes))),
        Err(refused) => Err(refused),
    }
}

} // verus!

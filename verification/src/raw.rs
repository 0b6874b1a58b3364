//! Counting on raw bytes, for a delimiter that is a single ASCII byte in UTF-8 input.
//!
//! In UTF-8 every byte of a character outside ASCII has its high bit set, so a byte with
//! an ASCII value is always a character of its own, and nothing needs to be decoded.

use crate::scan::{
    ends_on_delimiter, lemma_one_char_ends, lemma_one_char_step, occurrences,
};
use crate::terminal::{fit, running_segment_count, segment_total};
use vstd::arithmetic::overflow::CheckedUsize;
use vstd::prelude::*;
use vstd::utf8::*;

verus! {

/// Number of positions of `bytes` that hold `needle`.
pub open spec fn byte_occurrences(bytes: Seq<u8>, needle: u8) -> nat
    decreases bytes.len(),
{
    if bytes.len() == 0 {
        0
    } else {
        byte_occurrences(bytes.drop_last(), needle) + if bytes.last() == needle {
            1nat
        } else {
            0nat
        }
    }
}

/// Number of segments that the byte `needle` divides `bytes` into.
pub open spec fn byte_segments(bytes: Seq<u8>, needle: u8) -> nat {
    segment_total(
        byte_occurrences(bytes, needle),
        bytes.len() > 0 && bytes.last() == needle,
        bytes.len() > 0,
    )
}

/// The occurrences in two stretches of bytes add up.
pub proof fn lemma_byte_occurrences_add(a: Seq<u8>, b: Seq<u8>, needle: u8)
    ensures
        byte_occurrences(a + b, needle) == byte_occurrences(a, needle) + byte_occurrences(
            b,
            needle,
        ),
    decreases b.len(),
{
    if b.len() > 0 {
        assert((a + b).drop_last() =~= a + b.drop_last());
        lemma_byte_occurrences_add(a, b.drop_last(), needle);
    }
}

/// Bytes that do not hold `needle` anywhere have no occurrence of it.
pub proof fn lemma_byte_absent(bytes: Seq<u8>, needle: u8)
    requires
        forall|i: int| 0 <= i < bytes.len() ==> bytes[i] != needle,
    ensures
        byte_occurrences(bytes, needle) == 0,
    decreases bytes.len(),
{
    if bytes.len() > 0 {
        lemma_byte_absent(bytes.drop_last(), needle);
    }
}

/// In the UTF-8 form of a scalar outside ASCII every byte has its high bit set.
proof fn lemma_high_bytes(scalar: u32)
    by (bit_vector)
    ensures
        leading_byte_width_2(scalar) >= 0x80,
        leading_byte_width_3(scalar) >= 0x80,
        leading_byte_width_4(scalar) >= 0x80,
        last_continuation_byte(scalar) >= 0x80,
        second_last_continuation_byte(scalar) >= 0x80,
        third_last_continuation_byte(scalar) >= 0x80,
{
}

/// The UTF-8 form of an ASCII scalar is the scalar as one byte.
proof fn lemma_low_byte(scalar: u32)
    by (bit_vector)
    requires
        scalar <= 0x7F,
    ensures
        leading_byte_width_1(scalar) == scalar as u8,
        leading_byte_width_1(scalar) <= 0x7F,
{
}

/// An ASCII byte is in the UTF-8 form of a character only as the whole form of the
/// character with that value.
proof fn lemma_char_bytes(c: char, needle: u8)
    requires
        needle <= 0x7F,
    ensures
        encode_scalar(c as u32).len() > 0,
        byte_occurrences(encode_scalar(c as u32), needle) == if c as u32 == needle as u32 {
            1nat
        } else {
            0nat
        },
        encode_scalar(c as u32).last() == needle <==> c as u32 == needle as u32,
{
    let scalar = c as u32;
    let bytes = encode_scalar(scalar);
    lemma_high_bytes(scalar);
    if has_width_1_encoding(scalar) {
        lemma_low_byte(scalar);
        assert(byte_occurrences(bytes.drop_last(), needle) == 0);
    } else {
        lemma_byte_absent(bytes, needle);
    }
}

/// A character is the ASCII character `c` exactly where its value is that of `c`, which
/// is also the value of `c` as a byte.
proof fn lemma_same_char(x: char, c: char)
    requires
        c as u32 <= 0x7F,
    ensures
        x as u32 == (c as u8) as u32 <==> x == c,
{
    char_u32_cast(x, x as u32);
    char_u32_cast(c, c as u32);
}

/// The UTF-8 form of a text that is not empty ends with the form of its last character.
proof fn lemma_last_bytes(text: Seq<char>)
    requires
        text.len() > 0,
    ensures
        encode_utf8(text).len() > 0,
        encode_utf8(text).last() == encode_scalar(text.last() as u32).last(),
    decreases text.len(),
{
    lemma_char_bytes(text[0], 0);
    let rest = text.drop_first();
    if rest.len() == 0 {
        assert(encode_utf8(rest) =~= Seq::<u8>::empty());
    } else {
        lemma_last_bytes(rest);
    }
}

/// Counting an ASCII byte in the UTF-8 form of a text is counting the character with
/// that value in the text: no byte of a longer character can be taken for it.
pub proof fn lemma_raw_occurrences(text: Seq<char>, c: char)
    requires
        c as u32 <= 0x7F,
    ensures
        byte_occurrences(encode_utf8(text), c as u8) == occurrences(text, seq![c]),
    decreases text.len(),
{
    if text.len() > 0 {
        let rest = text.drop_first();
        lemma_same_char(text[0], c);
        lemma_char_bytes(text[0], c as u8);
        lemma_byte_occurrences_add(encode_scalar(text[0] as u32), encode_utf8(rest), c as u8);
        lemma_raw_occurrences(rest, c);
        lemma_one_char_step(text, c);
    }
}

/// A text and its UTF-8 form have the same number of segments under a delimiter of one
/// ASCII character, the form counted on its bytes and the text on its characters.
pub proof fn lemma_raw_segments(text: Seq<char>, c: char)
    requires
        c as u32 <= 0x7F,
    ensures
        byte_segments(encode_utf8(text), c as u8) == segment_total(
            occurrences(text, seq![c]),
            ends_on_delimiter(text, seq![c]),
            text.len() > 0,
        ),
        encode_utf8(text).len() > 0 <==> text.len() > 0,
{
    lemma_raw_occurrences(text, c);
    lemma_one_char_ends(text, c);
    if text.len() > 0 {
        lemma_same_char(text.last(), c);
        lemma_last_bytes(text);
        lemma_char_bytes(text.last(), c as u8);
    }
}

/// How many times `needle` occurs in `haystack`, counted by `memchr::memchr_iter`: the
/// iterator yields every position whose byte equals `needle`, and its `count` is their
/// number.
#[verifier::external_body]
fn count_byte(needle: u8, haystack: &[u8]) -> (n: usize)
    ensures
        n == byte_occurrences(haystack@, needle),
{
    memchr::memchr_iter(needle, haystack).count()
}

/// Counts the segments of a stream of bytes that a single byte delimits, chunk by chunk,
/// without decoding.
pub struct ByteCounter {
    needle: u8,
    found: CheckedUsize,
    last_byte: Option<u8>,
    input: Ghost<Seq<u8>>,
}

impl ByteCounter {
    /// The delimiter byte.
    pub closed spec fn needle(&self) -> u8 {
        self.needle
    }

    /// All the bytes fed so far.
    pub closed spec fn input(&self) -> Seq<u8> {
        self.input@
    }

    /// The running count is the number of delimiter bytes fed, and the last byte fed is
    /// remembered.
    pub closed spec fn wf(&self) -> bool {
        &&& self.found@ == byte_occurrences(self.input@, self.needle)
        &&& self.last_byte == if self.input@.len() > 0 {
            Some(self.input@.last())
        } else {
            None
        }
    }

    /// A counter that has seen no input.
    pub fn new(needle: u8) -> (counter: ByteCounter)
        ensures
            counter.wf(),
            counter.needle() == needle,
            counter.input() == Seq::<u8>::empty(),
    {
        ByteCounter {
            needle,
            found: CheckedUsize::new(0),
            last_byte: None,
            input: Ghost(Seq::empty()),
        }
    }

    /// Takes in the next chunk of the stream. An empty chunk changes nothing.
    pub fn feed(&mut self, chunk: &[u8])
        requires
            old(self).wf(),
        ensures
            final(self).wf(),
            final(self).needle() == old(self).needle(),
            final(self).input() == old(self).input() + chunk@,
    {
        if chunk.len() == 0 {
            return ;
        }
        proof {
            lemma_byte_occurrences_add(self.input@, chunk@, self.needle);
        }
        self.found = self.found.add_value(count_byte(self.needle, chunk));
        self.last_byte = Some(chunk[chunk.len() - 1]);
        self.input = Ghost(self.input@ + chunk@);
    }

    /// The number of segments of the input fed so far, `None` if it is too large for a
    /// `usize`.
    pub fn finish(&self) -> (total: Option<usize>)
        requires
            self.wf(),
        ensures
            total == fit(byte_segments(self.input(), self.needle())),
    {
        match self.last_byte {
            None => running_segment_count(&self.found, false, false),
            Some(last) => running_segment_count(&self.found, last == self.needle, true),
        }
    }
}

} // verus!

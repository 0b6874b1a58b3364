//! Incremental decoding: bytes arrive in chunks that are split at arbitrary points, and
//! the text comes out as if the whole stream had been decoded at once. The end of the
//! stream is told to the decoder, which then gives out what it held back.

use crate::encoding::TextEncoding;
use vstd::prelude::*;

verus! {

/// The streaming decoder of `encoding_rs`. Nothing inside it is looked at here.
#[verifier::external_type_specification]
#[verifier::external_body]
pub struct ExDecoder(encoding_rs::Decoder);

/// The text that a streaming decoder for `encoding` has given out by the time it has
/// taken in `bytes`, in however many chunks: byte order mark taken into account,
/// malformed sequences replaced, and bytes at the end that may still become part of a
/// character held back.
pub uninterp spec fn streamed_text(encoding: TextEncoding, bytes: Seq<u8>) -> Seq<char>;

/// The text that a streaming decoder for `encoding` gives out when the stream is ended
/// after `bytes`: the placeholder for a character that the end cuts short, and nothing
/// where the stream ends on a whole character.
pub uninterp spec fn held_back_text(encoding: TextEncoding, bytes: Seq<u8>) -> Seq<char>;

/// The text of the whole stream `bytes`: what is given out while the bytes are taken in,
/// and then what the end of the stream brings.
pub open spec fn stream_text(encoding: TextEncoding, bytes: Seq<u8>) -> Seq<char> {
    streamed_text(encoding, bytes) + held_back_text(encoding, bytes)
}

/// The encoding that a decoder was made for.
pub uninterp spec fn decoder_encoding(decoder: encoding_rs::Decoder) -> TextEncoding;

/// All the bytes that a decoder has taken in since it was made, in order. A decoder is
/// followed from `new_decoder` through every call of `decode_piece` to `end_stream`, which
/// takes it away; there is no other way to come by one, or to change one.
pub uninterp spec fn decoder_input(decoder: encoding_rs::Decoder) -> Seq<u8>;

/// Most bytes that are handed to the outside decoder in one call.
pub const PIECE_LIMIT: usize = 65536;

/// Calls `encoding_rs::Encoding::new_decoder` on the encoding's static instance. The
/// decoder is for that encoding, has taken in nothing and has given out nothing.
#[verifier::external_body]
fn new_decoder(encoding: TextEncoding) -> (decoder: encoding_rs::Decoder)
    ensures
        decoder_encoding(decoder) == encoding,
        decoder_input(decoder) == Seq::<u8>::empty(),
        streamed_text(encoding, decoder_input(decoder)) == Seq::<char>::empty(),
{
    match encoding {
        TextEncoding::Utf8 => encoding_rs::UTF_8.new_decoder(),
        TextEncoding::Gbk => encoding_rs::GBK.new_decoder(),
    }
}

/// Calls `encoding_rs::Decoder::decode_to_string`, with `last` false, on a fresh string
/// whose capacity is what `Decoder::max_utf8_buffer_length` asks for this much input.
/// With that capacity the decoder never reports its output as full, so it takes in all
/// of `src`. What it gives out is the next part of the text of the stream: that text
/// depends on the encoding and on the bytes taken in so far, not on where the chunks
/// were cut. `src` is not empty, so that the capacity is never under the four bytes that
/// the decoder needs, and it is short enough for the capacity to be computed. The stream
/// is not ended here, so the decoder stays fit for the next call.
#[verifier::external_body]
fn decode_piece(decoder: &mut encoding_rs::Decoder, src: &[u8]) -> (text: String)
    requires
        0 < src.len() <= PIECE_LIMIT,
    ensures
        decoder_encoding(*final(decoder)) == decoder_encoding(*old(decoder)),
        decoder_input(*final(decoder)) == decoder_input(*old(decoder)) + src@,
        streamed_text(decoder_encoding(*old(decoder)), decoder_input(*old(decoder))) + text@
            == streamed_text(decoder_encoding(*old(decoder)), decoder_input(*final(decoder))),
{
    let mut text = String::with_capacity(decoder.max_utf8_buffer_length(src.len()).unwrap());
    let _ = decoder.decode_to_string(src, &mut text, false);
    text
}

/// Calls `encoding_rs::Decoder::decode_to_string` with no input and `last` true, on a
/// fresh string whose capacity is what `Decoder::max_utf8_buffer_length` asks for no
/// input. That ends the stream: the decoder gives out what it still owes, which depends
/// on the encoding and on the bytes taken in, not on where the chunks were cut. An ended
/// decoder must not be used again, so this function takes the decoder and drops it.
#[verifier::external_body]
fn end_stream(decoder: encoding_rs::Decoder) -> (text: String)
    ensures
        text@ == held_back_text(decoder_encoding(decoder), decoder_input(decoder)),
{
    let mut decoder = decoder;
    let mut text = String::with_capacity(decoder.max_utf8_buffer_length(0).unwrap());
    let _ = decoder.decode_to_string(b"", &mut text, true);
    text
}

/// A decoder for one stream of bytes. It keeps what is left of a character that a chunk
/// cut through and puts it before the next chunk.
pub struct StreamDecoder {
    inner: encoding_rs::Decoder,
}

impl StreamDecoder {
    /// The encoding that is decoded.
    pub closed spec fn encoding(&self) -> TextEncoding {
        decoder_encoding(self.inner)
    }

    /// All the bytes decoded so far.
    pub closed spec fn input(&self) -> Seq<u8> {
        decoder_input(self.inner)
    }

    /// All the text given out so far.
    pub open spec fn text(&self) -> Seq<char> {
        streamed_text(self.encoding(), self.input())
    }

    /// The text of the stream, if it ends here.
    pub open spec fn whole_text(&self) -> Seq<char> {
        stream_text(self.encoding(), self.input())
    }

    /// A decoder at the start of a stream.
    pub fn new(encoding: TextEncoding) -> (decoder: StreamDecoder)
        ensures
            decoder.encoding() == encoding,
            decoder.input() == Seq::<u8>::empty(),
            decoder.text() == Seq::<char>::empty(),
    {
        StreamDecoder { inner: new_decoder(encoding) }
    }

    /// Decodes the next chunk of the stream and returns the text that it adds. The text
    /// of the stream does not depend on how the stream is cut into chunks. An empty chunk
    /// adds nothing; the end of the stream is told by `finish`.
    pub fn decode(&mut self, chunk: &[u8]) -> (added: String)
        ensures
            final(self).encoding() == old(self).encoding(),
            final(self).input() == old(self).input() + chunk@,
            final(self).text() == old(self).text() + added@,
    {
        let mut added = String::new();
        let mut pos: usize = 0;
        while pos < chunk.len()
            invariant
                pos <= chunk.len(),
                self.encoding() == old(self).encoding(),
                self.input() == old(self).input() + chunk@.subrange(0, pos as int),
                self.text() == old(self).text() + added@,
            decreases chunk.len() - pos,
        {
            let end = if chunk.len() - pos > PIECE_LIMIT {
                pos + PIECE_LIMIT
            } else {
                chunk.len()
            };
            let piece = decode_piece(&mut self.inner, &chunk[pos..end]);
            added.append(piece.as_str());
            pos = end;
        }
        added
    }

    /// Ends the stream and returns the text that the end brings: with what `decode` has
    /// returned before, it is the text of the whole stream. The decoder is used up.
    pub fn finish(self) -> (tail: String)
        ensures
            tail@ == held_back_text(self.encoding(), self.input()),
            self.text() + tail@ == self.whole_text(),
    {
        end_stream(self.inner)
    }
}

/// Chunk boundaries do not show in the text: two decoders for one encoding that have
/// taken in the same bytes have given out the same text, and come to the same whole text,
/// however the bytes were cut.
pub proof fn law_chunks_do_not_show(one: StreamDecoder, other: StreamDecoder)
    requires
        one.encoding() == other.encoding(),
        one.input() == other.input(),
    ensures
        one.text() == other.text(),
        one.whole_text() == other.whole_text(),
{
}

} // verus!

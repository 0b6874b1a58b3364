//! The streaming segment counter: counts the segments of a byte stream that is read chunk
//! by chunk, under one delimiter and one encoding.

use crate::decoder::{stream_text, StreamDecoder};
use crate::encoding::TextEncoding;
use crate::raw::{
    byte_occurrences, byte_segments, lemma_byte_absent, lemma_raw_segments, ByteCounter,
};
use crate::scan::{
    ends_on_delimiter, lemma_delimiter_at_end, lemma_delimiter_inside, lemma_no_occurrence,
    occurrences, occurs_at,
};
use crate::scanner::DelimiterScanner;
use crate::terminal::{fit, segment_total};
use vstd::prelude::*;
use vstd::utf8::*;

verus! {

/// Size of the buffer that a stream is read into.
pub const BUFFER_SIZE: usize = 65536;

/// Size of the sample from which an encoding is guessed.
pub const SAMPLE_SIZE: usize = 8192;

/// A byte stream as a counter has seen it: the encoding and the delimiter it is counted
/// under, and all the bytes read. How the bytes were cut into reads is no part of it.
pub struct Stream {
    pub encoding: TextEncoding,
    pub delimiter: Seq<char>,
    pub input: Seq<u8>,
}

impl Stream {
    /// A stream of which nothing has been read.
    pub open spec fn start(encoding: TextEncoding, delimiter: Seq<char>) -> Stream {
        Stream { encoding, delimiter, input: Seq::empty() }
    }

    /// The stream after one more read.
    pub open spec fn after(self, chunk: Seq<u8>) -> Stream {
        Stream { input: self.input + chunk, ..self }
    }

    /// The stream after a series of reads.
    pub open spec fn after_all(self, chunks: Seq<Seq<u8>>) -> Stream
        decreases chunks.len(),
    {
        if chunks.len() == 0 {
            self
        } else {
            self.after_all(chunks.drop_last()).after(chunks.last())
        }
    }

    /// The text of the stream: all the bytes read, decoded as a whole stream that ends
    /// where they end.
    pub open spec fn text(self) -> Seq<char> {
        stream_text(self.encoding, self.input)
    }

    /// The delimiter as a byte, where the stream can be counted on raw bytes: the
    /// delimiter is a single ASCII character and the encoding is UTF-8.
    pub open spec fn raw_needle(self) -> Option<u8> {
        if self.encoding == TextEncoding::Utf8 && self.delimiter.len() == 1 && is_ascii_chars(
            self.delimiter,
        ) {
            Some(self.delimiter[0] as u8)
        } else {
            None
        }
    }

    /// Number of segments, counted on the text of the stream.
    pub open spec fn decoded_segments(self) -> nat {
        segment_total(
            occurrences(self.text(), self.delimiter),
            ends_on_delimiter(self.text(), self.delimiter),
            self.input.len() > 0,
        )
    }

    /// Number of segments of the stream.
    pub open spec fn segments(self) -> nat {
        match self.raw_needle() {
            Some(needle) => byte_segments(self.input, needle),
            None => self.decoded_segments(),
        }
    }

    /// The delimiter occurs in the stream: as a byte of the input where the stream is
    /// counted on raw bytes, in the text everywhere else.
    pub open spec fn has_delimiter(self) -> bool {
        match self.raw_needle() {
            Some(needle) => exists|i: int| 0 <= i < self.input.len() && self.input[i] == needle,
            None => exists|at: int| occurs_at(self.text(), self.delimiter, at),
        }
    }
}

/// Tells which byte to count, where a stream can be counted on raw bytes.
pub fn raw_delimiter(delimiter: &str, encoding: TextEncoding) -> (needle: Option<u8>)
    ensures
        needle == Stream::start(encoding, delimiter@).raw_needle(),
{
    proof {
        if is_ascii_chars(delimiter@) {
            is_ascii_chars_encode_utf8(delimiter@);
        }
    }
    if delimiter.len() == 1 && delimiter.is_ascii() {
        match encoding {
            TextEncoding::Utf8 => Some(delimiter.as_bytes()[0]),
            TextEncoding::Gbk => None,
        }
    } else {
        None
    }
}

enum Path {
    Raw(ByteCounter),
    Decoded(StreamDecoder, DelimiterScanner),
}

/// Counts the segments of a byte stream that is fed chunk by chunk. It holds one chunk's
/// text at a time, and between chunks no more than the delimiter is long.
pub struct SegmentCounter {
    path: Path,
    has_content: bool,
    stream: Ghost<Stream>,
}

impl SegmentCounter {
    /// The stream fed so far.
    pub closed spec fn stream(&self) -> Stream {
        self.stream@
    }

    /// The state on either path is that of the stream fed so far. On the decoded path
    /// the scanner has seen the text that the decoder has given out; what the decoder
    /// holds back comes with the end of the stream.
    pub closed spec fn wf(&self) -> bool {
        &&& self.has_content == (self.stream@.input.len() > 0)
        &&& match self.path {
            Path::Raw(counter) => {
                &&& counter.wf()
                &&& self.stream@.raw_needle() == Some(counter.needle())
                &&& counter.input() == self.stream@.input
            },
            Path::Decoded(decoder, scanner) => {
                &&& scanner.wf()
                &&& self.stream@.raw_needle() is None
                &&& decoder.encoding() == self.stream@.encoding
                &&& decoder.input() == self.stream@.input
                &&& scanner.delimiter() == self.stream@.delimiter
                &&& scanner.text() == decoder.text()
            },
        }
    }

    /// A counter at the start of a stream. It counts on raw bytes where the delimiter and
    /// the encoding allow it, and on decoded text everywhere else.
    pub fn new(delimiter: &str, encoding: TextEncoding) -> (counter: SegmentCounter)
        ensures
            counter.wf(),
            counter.stream() == Stream::start(encoding, delimiter@),
    {
        let path = match raw_delimiter(delimiter, encoding) {
            Some(needle) => Path::Raw(ByteCounter::new(needle)),
            None => Path::Decoded(StreamDecoder::new(encoding), DelimiterScanner::new(delimiter)),
        };
        SegmentCounter {
            path,
            has_content: false,
            stream: Ghost(Stream::start(encoding, delimiter@)),
        }
    }

    /// Takes in the next chunk of the stream. A read of nothing, which is how a source
    /// tells that it is exhausted, adds nothing; the end of the stream is told by
    /// `finish`.
    pub fn feed(&mut self, chunk: &[u8])
        requires
            old(self).wf(),
        ensures
            final(self).wf(),
            final(self).stream() == old(self).stream().after(chunk@),
    {
        let ghost now = self.stream@.after(chunk@);
        if chunk.len() == 0 {
            assert(now.input =~= self.stream@.input);
            return ;
        }
        match &mut self.path {
            Path::Raw(counter) => {
                counter.feed(chunk);
            },
            Path::Decoded(decoder, scanner) => {
                let added = decoder.decode(chunk);
                scanner.push(added.as_str());
            },
        }
        self.has_content = true;
        self.stream = Ghost(now);
    }

    /// Ends the stream and gives the number of its segments, `None` if it is too large
    /// for a `usize`. On the decoded path the decoder is told of the end, and what it
    /// still gives out is scanned before the count is made: a character that the end
    /// cuts short counts as text behind the last delimiter. The counter is used up.
    pub fn finish(self) -> (total: Option<usize>)
        requires
            self.wf(),
        ensures
            total == fit(self.stream().segments()),
    {
        match self.path {
            Path::Raw(counter) => counter.finish(),
            Path::Decoded(decoder, scanner) => {
                let mut scanner = scanner;
                let tail = decoder.finish();
                scanner.push(tail.as_str());
                scanner.segments(self.has_content)
            },
        }
    }
}

/// The chunks of a series as sequences of bytes.
pub open spec fn chunk_views(chunks: Seq<Vec<u8>>) -> Seq<Seq<u8>> {
    chunks.map_values(|chunk: Vec<u8>| chunk@)
}

/// Counts the segments of a stream that is held in memory as the series of its chunks.
/// The result is `None` if the number of segments is too large for a `usize`.
pub fn count_segments(chunks: &[Vec<u8>], delimiter: &str, encoding: TextEncoding) -> (total:
    Option<usize>)
    ensures
        total == fit(
            Stream::start(encoding, delimiter@).after_all(chunk_views(chunks@)).segments(),
        ),
{
    let ghost start = Stream::start(encoding, delimiter@);
    let ghost views = chunk_views(chunks@);
    let mut counter = SegmentCounter::new(delimiter, encoding);
    let mut i: usize = 0;
    while i < chunks.len()
        invariant
            i <= chunks.len(),
            views == chunk_views(chunks@),
            counter.wf(),
            counter.stream() == start.after_all(views.take(i as int)),
        decreases chunks.len() - i,
    {
        counter.feed(chunks[i].as_slice());
        assert(views.take(i + 1).drop_last() =~= views.take(i as int));
        i += 1;
    }
    assert(views.take(i as int) =~= views);
    counter.finish()
}

/// Empty input has no segment, under every delimiter and every encoding.
pub proof fn law_empty_input(stream: Stream)
    requires
        stream.input.len() == 0,
    ensures
        stream.segments() == 0,
{
}

/// Input that holds bytes, and in which the delimiter does not occur, is one segment.
pub proof fn law_no_delimiter(stream: Stream)
    requires
        stream.input.len() > 0,
        !stream.has_delimiter(),
    ensures
        stream.segments() == 1,
{
    match stream.raw_needle() {
        Some(needle) => {
            lemma_byte_absent(stream.input, needle);
        },
        None => {
            lemma_no_occurrence(stream.text(), stream.delimiter, 0);
        },
    }
}

/// An empty delimiter occurs nowhere: under it input that holds bytes is one segment,
/// and empty input none.
pub proof fn law_empty_delimiter(stream: Stream)
    requires
        stream.delimiter.len() == 0,
    ensures
        stream.segments() == if stream.input.len() > 0 {
            1nat
        } else {
            0nat
        },
{
    assert(occurrences(stream.text(), stream.delimiter) == 0);
}

/// A series of reads adds up to its bytes: the stream after it holds what it held
/// before and then the bytes of all the reads, in order.
pub proof fn lemma_after_all(stream: Stream, chunks: Seq<Seq<u8>>)
    ensures
        stream.after_all(chunks) == (Stream { input: stream.input + chunks.flatten(), ..stream }),
    decreases chunks.len(),
{
    if chunks.len() > 0 {
        lemma_after_all(stream, chunks.drop_last());
        assert(chunks =~= chunks.drop_last().push(chunks.last()));
        chunks.drop_last().lemma_flatten_push(chunks.last());
        assert(stream.input + chunks.drop_last().flatten() + chunks.last() =~= stream.input
            + chunks.flatten());
    } else {
        assert(stream.input + chunks.flatten() =~= stream.input);
    }
}

/// The number of segments does not depend on how the input is cut into reads: two series
/// of reads that bring the same bytes, under one delimiter and one encoding, give the
/// same number of segments.
pub proof fn law_chunking(
    encoding: TextEncoding,
    delimiter: Seq<char>,
    one: Seq<Seq<u8>>,
    other: Seq<Seq<u8>>,
)
    requires
        one.flatten() == other.flatten(),
    ensures
        Stream::start(encoding, delimiter).after_all(one).segments() == Stream::start(
            encoding,
            delimiter,
        ).after_all(other).segments(),
{
    let start = Stream::start(encoding, delimiter);
    lemma_after_all(start, one);
    lemma_after_all(start, other);
}

/// Counting on raw bytes gives what counting on the text gives, for every stream whose
/// input is the UTF-8 form of its text. In that form every byte of a character outside
/// ASCII has its high bit set, so a byte with the value of the delimiter is the
/// delimiter.
pub proof fn law_raw_count_is_text_count(stream: Stream)
    requires
        stream.raw_needle() is Some,
        stream.input == encode_utf8(stream.text()),
    ensures
        stream.segments() == stream.decoded_segments(),
{
    let c = stream.delimiter[0];
    assert(stream.delimiter =~= seq![c]);
    lemma_raw_segments(stream.text(), c);
}

/// Input that is the letter `a` and then the delimiter is one segment. This holds of
/// every delimiter but those that consist of the letter `a` alone.
pub proof fn law_trailing_delimiter(stream: Stream)
    requires
        stream.delimiter.len() == 0 || exists|i: int|
            0 <= i < stream.delimiter.len() && stream.delimiter[i] != 'a',
        match stream.raw_needle() {
            Some(needle) => stream.input == seq![0x61u8, needle],
            None => stream.input.len() > 0 && stream.text() == seq!['a'] + stream.delimiter,
        },
    ensures
        stream.segments() == 1,
{
    match stream.raw_needle() {
        Some(needle) => {
            let input = stream.input;
            assert(byte_occurrences(input.drop_last().drop_last(), needle) == 0);
            assert(byte_occurrences(input.drop_last(), needle) == 0);
        },
        None => {
            if stream.delimiter.len() > 0 {
                lemma_delimiter_at_end('a', stream.delimiter);
            }
        },
    }
}

/// Input that is the letter `a`, the delimiter and the letter `b` is two segments. This
/// holds of every delimiter that is not empty and is not the letter `a` alone.
pub proof fn law_delimiter_inside(stream: Stream)
    requires
        stream.delimiter.len() > 0,
        stream.delimiter != seq!['a'],
        match stream.raw_needle() {
            Some(needle) => stream.input == seq![0x61u8, needle, 0x62u8],
            None => stream.input.len() > 0 && stream.text() == seq!['a'] + stream.delimiter
                + seq!['b'],
        },
    ensures
        stream.segments() == 2,
{
    match stream.raw_needle() {
        Some(needle) => {
            let input = stream.input;
            assert(needle != 0x61u8) by {
                if stream.delimiter[0] == 'a' {
                    assert(stream.delimiter =~= seq!['a']);
                }
            }
            assert(input.drop_last() =~= seq![0x61u8, needle]);
            assert(input.drop_last().drop_last() =~= seq![0x61u8]);
            assert(byte_occurrences(input.drop_last().drop_last().drop_last(), needle) == 0);
            assert(byte_occurrences(input.drop_last().drop_last(), needle) == 0);
            assert(byte_occurrences(input.drop_last(), needle) == 1);
        },
        None => {
            lemma_delimiter_inside('a', stream.delimiter, 'b');
        },
    }
}

} // verus!

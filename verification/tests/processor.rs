use rwc::encoding::{parse_encoding_hint, TextEncoding};
use rwc::processor::{count_segments, raw_delimiter, SegmentCounter, BUFFER_SIZE, SAMPLE_SIZE};
use rwc::scanner::DelimiterScanner;

/// Counts the segments of `input`, read `size` bytes at a time.
fn count_by(input: &[u8], size: usize, delimiter: &str, encoding: TextEncoding) -> Option<usize> {
    let mut counter = SegmentCounter::new(delimiter, encoding);
    for chunk in input.chunks(size) {
        counter.feed(chunk);
    }
    counter.finish()
}

/// Counts the segments of `input` as one read, under the encoding that `hint` names.
fn count_whole(input: &[u8], delimiter: &str, hint: &str) -> Option<usize> {
    let encoding = parse_encoding_hint(hint).unwrap().resolve(input);
    count_segments(&[input.to_vec()], delimiter, encoding)
}

#[test]
fn test_count_newlines() {
    let mut file: Vec<u8> = Vec::new();
    file.extend_from_slice(b"line1\n");
    file.extend_from_slice(b"line2\n");
    file.extend_from_slice(b"line3\n");

    let count = count_whole(&file, "\n", "utf8");
    assert_eq!(count, Some(3));
}

#[test]
fn processor_test_panic_repro() {
    // "😊" is four bytes, the delimiter two: one less than the delimiter's length from
    // the end lies inside the character.
    let file = "😊".as_bytes().to_vec();

    let result = count_whole(&file, "12", "utf8");

    assert!(result.is_some());
    assert_eq!(result, Some(1));
}

#[test]
fn processor_repro_test_test_panic_repro() {
    let delimiter = "AB";
    let input = "😊".as_bytes();
    assert_eq!(count_whole(input, delimiter, "utf8"), Some(1));
    for size in [1, 2, 3, 4] {
        assert_eq!(count_by(input, size, delimiter, TextEncoding::Utf8), Some(1));
    }
}

#[test]
fn three_lines_with_trailing_newline() {
    assert_eq!(count_whole(b"line1\nline2\nline3\n", "\n", "utf8"), Some(3));
    assert_eq!(count_whole(b"line1\nline2\nline3\n", "\n", "gbk"), Some(3));
    assert_eq!(count_whole(b"line1\nline2\nline3\n", "\n", "auto"), Some(3));
}

#[test]
fn three_parts_between_two_delimiters() {
    assert_eq!(count_whole(b"part1|+|part2|+|part3", "|+|", "utf8"), Some(3));
    assert_eq!(count_whole(b"part1|+|part2|+|part3", "|+|", "gbk"), Some(3));
}

#[test]
fn empty_input_has_no_segments() {
    for delimiter in ["\n", "|+|", "", "AA", "你", "你好"] {
        for encoding in [TextEncoding::Utf8, TextEncoding::Gbk] {
            assert_eq!(count_segments(&[], delimiter, encoding), Some(0));
            assert_eq!(count_segments(&[Vec::new()], delimiter, encoding), Some(0));
            assert_eq!(count_segments(&[Vec::new(), Vec::new()], delimiter, encoding), Some(0));
            assert_eq!(SegmentCounter::new(delimiter, encoding).finish(), Some(0));
        }
    }
}

#[test]
fn input_without_the_delimiter_is_one_segment() {
    assert_eq!(count_whole(b"no newlines here", "\n", "utf8"), Some(1));
    assert_eq!(count_whole(b"no newlines here", "\n", "gbk"), Some(1));
    assert_eq!(count_whole(b"no newlines here", "|+|", "utf8"), Some(1));
    assert_eq!(count_whole("没有分隔符".as_bytes(), "。", "utf8"), Some(1));
    assert_eq!(count_whole(b"x", "xx", "utf8"), Some(1));
}

#[test]
fn occurrences_do_not_overlap() {
    assert_eq!(count_whole(b"AAAA", "AA", "utf8"), Some(2));
    // One occurrence at the start, and one letter left over behind it.
    assert_eq!(count_whole(b"AAA", "AA", "utf8"), Some(2));
    // Two occurrences, and one letter left over.
    assert_eq!(count_whole(b"AAAAA", "AA", "utf8"), Some(3));
    // The scan takes "aba" at 0 and resumes at 3: "ba" is no occurrence.
    assert_eq!(count_whole(b"ababa", "aba", "utf8"), Some(2));
    assert_eq!(count_whole(b"abaaba", "aba", "utf8"), Some(2));
}

#[test]
fn an_empty_delimiter_occurs_nowhere() {
    assert_eq!(count_whole(b"abc", "", "utf8"), Some(1));
    assert_eq!(count_whole(b"abc", "", "gbk"), Some(1));
    assert_eq!(count_whole(b"", "", "utf8"), Some(0));
    for size in [1, 2, 3] {
        assert_eq!(count_by(b"abc", size, "", TextEncoding::Utf8), Some(1));
    }
}

#[test]
fn a_trailing_delimiter_closes_the_last_segment() {
    for delimiter in ["\n", "|", "|+|", "ab", "ba", "aab", "你", "你好", "😊", "\r\n", "b"] {
        let closed = format!("a{}", delimiter);
        let open = format!("a{}b", delimiter);
        for size in [1, 2, 3, 64] {
            assert_eq!(
                count_by(closed.as_bytes(), size, delimiter, TextEncoding::Utf8),
                Some(1)
            );
            assert_eq!(count_by(open.as_bytes(), size, delimiter, TextEncoding::Utf8), Some(2));
        }
    }
    // The rule still holds of "aa", "aaa" between "a" and "b".
    assert_eq!(count_whole(b"aaab", "aa", "utf8"), Some(2));
    assert_eq!(count_whole(b"aaaab", "aaa", "utf8"), Some(2));
}

#[test]
fn a_delimiter_of_the_letter_a_alone_is_found_in_the_leading_a() {
    // "a" then the delimiter "a": two occurrences, no text behind them.
    assert_eq!(count_whole(b"aa", "a", "utf8"), Some(2));
    assert_eq!(count_whole(b"aa", "a", "gbk"), Some(2));
    // "a" then "aa": the scan takes the first two letters, the third stays over.
    assert_eq!(count_whole(b"aaa", "aa", "utf8"), Some(2));
    // "a", "a", "b": two occurrences and a segment behind them.
    assert_eq!(count_whole(b"aab", "a", "utf8"), Some(3));
    // With the empty delimiter "a" and "b" are one segment.
    assert_eq!(count_whole(b"ab", "", "utf8"), Some(1));
}

#[test]
fn a_character_of_four_bytes_is_never_cut() {
    let input = "😊".as_bytes();
    for delimiter in ["AB", "12", "||", "你好", "\r\n"] {
        for size in [1, 2, 3, 4, BUFFER_SIZE] {
            assert_eq!(count_by(input, size, delimiter, TextEncoding::Utf8), Some(1));
        }
    }
    let more = "😊😊|+|😊你|+|".as_bytes();
    for size in [1, 2, 3, 4, 5, 6, 7, BUFFER_SIZE] {
        assert_eq!(count_by(more, size, "|+|", TextEncoding::Utf8), Some(2));
    }
}

#[test]
fn chunk_size_does_not_change_the_count() {
    let inputs: [&[u8]; 8] = [
        b"line1\nline2\nline3\n",
        b"part1|+|part2|+|part3",
        b"|+||+||+|",
        b"|+|+|+|+|",
        b"AAAAAAA",
        "你好，世界。你好，世界。".as_bytes(),
        "a😊b😊c😊".as_bytes(),
        b"\r\n\r\n\r",
    ];
    let delimiters = ["\n", "|+|", "+|+", "AA", "AAA", "。", "，世", "😊", "\r\n", "", "|"];
    for input in inputs {
        for delimiter in delimiters {
            for encoding in [TextEncoding::Utf8, TextEncoding::Gbk] {
                let whole = count_by(input, BUFFER_SIZE, delimiter, encoding);
                assert!(whole.is_some());
                for size in [1, 2, 3, 4, 5, 7, 11] {
                    assert_eq!(count_by(input, size, delimiter, encoding), whole);
                }
            }
        }
    }
}

#[test]
fn reads_of_one_byte_and_of_a_whole_buffer_agree() {
    let mut input: Vec<u8> = Vec::new();
    for i in 0..5000 {
        input.extend_from_slice(format!("record {} 你好|+|", i).as_bytes());
    }
    input.extend_from_slice(b"tail");
    assert_eq!(count_by(&input, BUFFER_SIZE, "|+|", TextEncoding::Utf8), Some(5001));
    assert_eq!(count_by(&input, 1, "|+|", TextEncoding::Utf8), Some(5001));
    assert_eq!(count_by(&input, 4096, "|+|", TextEncoding::Utf8), Some(5001));
    assert_eq!(count_by(&input, BUFFER_SIZE, "|", TextEncoding::Utf8), Some(10001));
    assert_eq!(count_by(&input, 1, "|", TextEncoding::Utf8), Some(10001));
}

#[test]
fn a_delimiter_across_reads_is_counted_once() {
    let chunks = [b"ab|".to_vec(), b"+".to_vec(), b"|cd|+".to_vec(), b"|".to_vec()];
    assert_eq!(count_segments(&chunks, "|+|", TextEncoding::Utf8), Some(2));
    let chunks = [b"ab|".to_vec(), b"+".to_vec(), b"|cd|+".to_vec(), b"|e".to_vec()];
    assert_eq!(count_segments(&chunks, "|+|", TextEncoding::Utf8), Some(3));
}

#[test]
fn empty_chunks_add_nothing() {
    let chunks = [Vec::new(), b"a\n".to_vec(), Vec::new(), b"b\n".to_vec(), Vec::new()];
    assert_eq!(count_segments(&chunks, "\n", TextEncoding::Utf8), Some(2));
    assert_eq!(count_segments(&chunks, "\n", TextEncoding::Gbk), Some(2));
    let chunks = [b"a|+|".to_vec(), Vec::new()];
    assert_eq!(count_segments(&chunks, "|+|", TextEncoding::Utf8), Some(1));

    let mut counter = SegmentCounter::new("|+|", TextEncoding::Utf8);
    counter.feed(b"a|+|");
    counter.feed(b"");
    counter.feed(b"");
    assert_eq!(counter.finish(), Some(1));
}

#[test]
fn every_beginning_of_a_stream_has_its_count() {
    let input = b"a|+|b";
    let expected = [0, 1, 1, 1, 1, 2];
    for len in 0..=input.len() {
        for size in [1, 2, 5] {
            assert_eq!(
                count_by(&input[..len], size, "|+|", TextEncoding::Utf8),
                Some(expected[len])
            );
        }
    }
}

#[test]
fn a_character_cut_short_by_the_end_is_text_behind_the_delimiter() {
    // The input ends with the first byte of a character that never gets complete. The
    // end of the stream turns it into the placeholder, which stands behind the delimiter.
    let whole = [b"a|+|\xE4".to_vec()];
    assert_eq!(count_segments(&whole, "|+|", TextEncoding::Utf8), Some(2));
    let cut = [b"a|+|".to_vec(), b"\xE4".to_vec()];
    assert_eq!(count_segments(&cut, "|+|", TextEncoding::Utf8), Some(2));
    for size in [1, 2, 3, 4, 5] {
        assert_eq!(count_by(b"a|+|\xE4", size, "|+|", TextEncoding::Utf8), Some(2));
        assert_eq!(count_by(b"a||\xE4", size, "||", TextEncoding::Utf8), Some(2));
        assert_eq!(count_by(b"a||\xE4\xBD", size, "||", TextEncoding::Utf8), Some(2));
        assert_eq!(count_by(b"a||\xC4", size, "||", TextEncoding::Gbk), Some(2));
        // The placeholder can be the delimiter, or its end.
        assert_eq!(count_by(b"a\xE4", size, "\u{FFFD}", TextEncoding::Utf8), Some(1));
        assert_eq!(count_by(b"a|\xE4", size, "|\u{FFFD}", TextEncoding::Utf8), Some(1));
    }
    // On raw bytes the last byte decides, however the input is cut.
    for size in [1, 2, 3] {
        assert_eq!(count_by(b"a|\xE4", size, "|", TextEncoding::Utf8), Some(2));
    }
}

#[test]
fn a_stream_is_counted_as_its_whole_decoding_is() {
    // A mark that is never completed, a character cut short, nothing but malformed bytes.
    let inputs: [&[u8]; 8] = [
        b"\xEF",
        b"\xEF\xBB",
        b"\xFF",
        b"a\n\xF0\x9F\x98",
        b"\xE4",
        b"\n\xC3",
        b"\x81",
        b"a\n\x81\x30\x81",
    ];
    for input in inputs {
        for encoding in [TextEncoding::Utf8, TextEncoding::Gbk] {
            let hint = if encoding == TextEncoding::Utf8 { "utf8" } else { "gbk" };
            let text = rwc::encoding::decode_bytes(input, hint).unwrap().text;
            for delimiter in ["\r\n", "\u{FFFD}", "\n\u{FFFD}", "a\n"] {
                let mut scanner = DelimiterScanner::new(delimiter);
                scanner.push(&text);
                let expected = scanner.segments(true);
                for size in [1, 2, 3, 8] {
                    assert_eq!(count_by(input, size, delimiter, encoding), expected);
                }
            }
        }
    }
}

#[test]
fn input_of_a_byte_order_mark_alone_is_one_segment() {
    assert_eq!(count_whole(b"\xEF\xBB\xBF", "|+|", "utf8"), Some(1));
    assert_eq!(count_whole(b"\xEF\xBB\xBF", "\n", "utf8"), Some(1));
}

#[test]
fn raw_bytes_are_counted_for_one_ascii_character_in_utf8() {
    assert_eq!(raw_delimiter("\n", TextEncoding::Utf8), Some(b'\n'));
    assert_eq!(raw_delimiter(",", TextEncoding::Utf8), Some(44));
    assert_eq!(raw_delimiter("\u{7f}", TextEncoding::Utf8), Some(0x7f));
    assert_eq!(raw_delimiter("\0", TextEncoding::Utf8), Some(0));
    assert_eq!(raw_delimiter(",", TextEncoding::Gbk), None);
    assert_eq!(raw_delimiter("", TextEncoding::Utf8), None);
    assert_eq!(raw_delimiter(",,", TextEncoding::Utf8), None);
    assert_eq!(raw_delimiter("\u{80}", TextEncoding::Utf8), None);
    assert_eq!(raw_delimiter("é", TextEncoding::Utf8), None);
    assert_eq!(raw_delimiter("你", TextEncoding::Utf8), None);
}

#[test]
fn in_gbk_a_second_byte_is_no_delimiter() {
    // 0x81 0x7C is one character in GBK; its second byte is the ASCII bar.
    assert_eq!(count_whole(b"\x81\x7CA", "|", "gbk"), Some(1));
    assert_eq!(count_whole(b"\x81\x7C|A", "|", "gbk"), Some(2));
    for size in [1, 2, 3] {
        assert_eq!(count_by(b"\x81\x7C|A", size, "|", TextEncoding::Gbk), Some(2));
    }
}

#[test]
fn gbk_text_is_counted_by_characters() {
    // "你好。世界。" in GBK, delimiter "。".
    let input = b"\xC4\xE3\xBA\xC3\xA1\xA3\xCA\xC0\xBD\xE7\xA1\xA3";
    assert_eq!(count_whole(input, "。", "gbk"), Some(2));
    assert_eq!(count_whole(input, "。", "auto"), Some(2));
    for size in [1, 2, 3, 5] {
        assert_eq!(count_by(input, size, "。", TextEncoding::Gbk), Some(2));
    }
    // Read as UTF-8 the bytes are malformed, and the delimiter is not among them.
    assert_eq!(count_whole(input, "。", "utf8"), Some(1));
}

#[test]
fn malformed_bytes_do_not_stop_the_count() {
    let input = b"a\xFF\nb\xC0\n\xE4\xBD\nc";
    assert_eq!(count_whole(input, "\n", "utf8"), Some(4));
    for size in [1, 2, 3] {
        assert_eq!(count_by(input, size, "\r\n", TextEncoding::Utf8), Some(1));
        assert_eq!(count_by(input, size, "\u{FFFD}\n", TextEncoding::Utf8), Some(4));
    }
}

#[test]
fn raw_bytes_and_decoded_text_give_the_same_count() {
    let texts = [
        "",
        "a",
        "\n",
        "a\nb",
        "a\nb\n",
        "\n\n\n",
        "你好\n世界\n",
        "你好\n世界",
        "😊,é,ß,\u{7f},\u{80},\u{7ff},\u{800},\u{ffff},\u{10000},\u{10ffff}",
        "a,b,,c,",
    ];
    for text in texts {
        for delimiter in ["\n", ",", "a", "\u{7f}"] {
            // Counted on raw bytes.
            assert!(raw_delimiter(delimiter, TextEncoding::Utf8).is_some());
            let raw = count_segments(&[text.as_bytes().to_vec()], delimiter, TextEncoding::Utf8);
            // Counted on characters.
            let mut scanner = DelimiterScanner::new(delimiter);
            scanner.push(text);
            assert_eq!(raw, scanner.segments(!text.is_empty()));
        }
    }
}

#[test]
fn the_buffer_holds_the_sample() {
    assert_eq!(BUFFER_SIZE, 64 * 1024);
    assert_eq!(SAMPLE_SIZE, 8192);
    assert!(SAMPLE_SIZE <= BUFFER_SIZE);
}

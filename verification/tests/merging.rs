use transcribeasy::merge::merge_segments;
use transcribeasy::segment::{collect_segments, Chunk, RawSegment};
use transcribeasy::text::{push_joined, trim};

fn seg(start: i64, end: i64, text: &str) -> RawSegment {
    RawSegment { start, end, text: text.to_string() }
}

fn shape(chunks: &Vec<Chunk>) -> Vec<(i64, i64, String)> {
    chunks.iter().map(|c| (c.start, c.end, c.text.clone())).collect()
}

fn piece(start: i64, end: i64, text: &str) -> (i64, i64, String) {
    (start, end, text.to_string())
}

#[test]
fn merges_up_to_the_duration_limit() {
    let segments = vec![seg(0, 150, "Hello"), seg(150, 300, "world"), seg(300, 700, "this is long")];
    let chunks = merge_segments(&segments, 300, 0);
    assert_eq!(shape(&chunks), vec![piece(0, 300, "Hello world"), piece(300, 700, "this is long")]);
}

#[test]
fn duration_one_over_the_limit_is_refused() {
    let segments = vec![seg(0, 150, "Hello"), seg(150, 301, "world")];
    let chunks = merge_segments(&segments, 300, 0);
    assert_eq!(shape(&chunks), vec![piece(0, 150, "Hello"), piece(150, 301, "world")]);
}

#[test]
fn empty_input_gives_no_chunks() {
    assert!(merge_segments(&Vec::new(), 0, 0).is_empty());
    assert!(merge_segments(&Vec::new(), 300, 10).is_empty());
}

#[test]
fn without_limits_everything_is_one_chunk() {
    let segments = vec![seg(5, 10, "a"), seg(40, 90, "b c"), seg(100_000, 200_000, "d")];
    let chunks = merge_segments(&segments, 0, 0);
    assert_eq!(shape(&chunks), vec![piece(5, 200_000, "a b c d")]);
}

#[test]
fn a_single_segment_is_passed_on_unchanged() {
    let chunks = merge_segments(&vec![seg(7, 9, "only")], 1, 1);
    assert_eq!(shape(&chunks), vec![piece(7, 9, "only")]);
}

#[test]
fn character_limit_counts_the_joined_text() {
    let segments = vec![seg(0, 1, "abc"), seg(1, 2, "def"), seg(2, 3, "g"), seg(3, 4, "hij")];
    // "abc def" has 7 characters, "abc def g" has 9.
    let chunks = merge_segments(&segments, 0, 8);
    assert_eq!(shape(&chunks), vec![piece(0, 2, "abc def"), piece(2, 4, "g hij")]);
    let chunks = merge_segments(&segments, 0, 7);
    assert_eq!(shape(&chunks), vec![piece(0, 2, "abc def"), piece(2, 4, "g hij")]);
    let chunks = merge_segments(&segments, 0, 6);
    assert_eq!(shape(&chunks), vec![piece(0, 1, "abc"), piece(1, 3, "def g"), piece(3, 4, "hij")]);
}

#[test]
fn a_segment_over_the_character_limit_stays_whole() {
    let segments = vec![seg(0, 1, "ab"), seg(1, 2, "much too long"), seg(2, 3, "cd"), seg(3, 4, "e")];
    let chunks = merge_segments(&segments, 0, 4);
    assert_eq!(
        shape(&chunks),
        vec![piece(0, 1, "ab"), piece(1, 2, "much too long"), piece(2, 4, "cd e")]
    );
    for chunk in &chunks {
        assert!(chunk.text.chars().count() <= 4 || chunk.text == "much too long");
    }
}

#[test]
fn a_segment_over_the_duration_limit_stays_whole() {
    let segments = vec![seg(0, 1000, "long"), seg(1000, 1010, "a"), seg(1010, 1020, "b")];
    let chunks = merge_segments(&segments, 100, 0);
    assert_eq!(shape(&chunks), vec![piece(0, 1000, "long"), piece(1000, 1020, "a b")]);
}

#[test]
fn characters_are_counted_not_bytes() {
    let segments = vec![seg(0, 1, "äöü"), seg(1, 2, "éè")];
    let chunks = merge_segments(&segments, 0, 6);
    assert_eq!(shape(&chunks), vec![piece(0, 2, "äöü éè")]);
    let chunks = merge_segments(&segments, 0, 5);
    assert_eq!(shape(&chunks), vec![piece(0, 1, "äöü"), piece(1, 2, "éè")]);
}

#[test]
fn duration_is_the_span_from_the_chunk_start() {
    // Each segment lasts 10, but the gaps count: 0..10, 200..210 spans 210.
    let segments = vec![seg(0, 10, "a"), seg(200, 210, "b"), seg(220, 230, "c")];
    let chunks = merge_segments(&segments, 100, 0);
    assert_eq!(shape(&chunks), vec![piece(0, 10, "a"), piece(200, 230, "b c")]);
    let chunks = merge_segments(&segments, 210, 0);
    assert_eq!(shape(&chunks), vec![piece(0, 210, "a b"), piece(220, 230, "c")]);
}

#[test]
fn both_limits_must_hold() {
    let segments = vec![seg(0, 100, "one"), seg(100, 200, "two"), seg(200, 300, "three")];
    let chunks = merge_segments(&segments, 200, 7);
    assert_eq!(shape(&chunks), vec![piece(0, 200, "one two"), piece(200, 300, "three")]);
    let chunks = merge_segments(&segments, 200, 6);
    assert_eq!(
        shape(&chunks),
        vec![piece(0, 100, "one"), piece(100, 200, "two"), piece(200, 300, "three")]
    );
    let chunks = merge_segments(&segments, 199, 7);
    assert_eq!(
        shape(&chunks),
        vec![piece(0, 100, "one"), piece(100, 200, "two"), piece(200, 300, "three")]
    );
}

#[test]
fn the_end_follows_the_last_segment_taken_in() {
    let segments = vec![seg(0, 500, "a"), seg(10, 20, "b")];
    let chunks = merge_segments(&segments, 0, 0);
    assert_eq!(shape(&chunks), vec![piece(0, 20, "a b")]);
}

#[test]
fn extreme_times_do_not_overflow() {
    let segments = vec![seg(i64::MIN, 0, "a"), seg(0, i64::MAX, "b")];
    let chunks = merge_segments(&segments, u64::MAX - 1, 0);
    assert_eq!(shape(&chunks), vec![piece(i64::MIN, 0, "a"), piece(0, i64::MAX, "b")]);
    let chunks = merge_segments(&segments, u64::MAX, 0);
    assert_eq!(shape(&chunks), vec![piece(i64::MIN, i64::MAX, "a b")]);
    let chunks = merge_segments(&segments, 0, 0);
    assert_eq!(shape(&chunks), vec![piece(i64::MIN, i64::MAX, "a b")]);
}

#[test]
fn chunk_texts_hold_every_segment_text_in_order() {
    let words = ["alpha", "beta gamma", "delta", "epsilon", "zeta eta", "theta", "iota"];
    let segments: Vec<RawSegment> =
        words.iter().enumerate().map(|(i, w)| seg(i as i64 * 100, i as i64 * 100 + 90, w)).collect();
    for max_chars in [0u32, 1, 8, 12, 20, 100] {
        for max_duration in [0u64, 50, 190, 400] {
            let chunks = merge_segments(&segments, max_duration, max_chars);
            let texts: Vec<&str> = chunks.iter().map(|c| c.text.as_str()).collect();
            assert_eq!(texts.join(" "), words.join(" "));
        }
    }
}

#[test]
fn chunk_starts_increase() {
    let segments: Vec<RawSegment> =
        (0..20).map(|i| seg(i * 130, i * 130 + 120, "word")).collect();
    for max_duration in [0u64, 100, 250, 500, 1000] {
        let chunks = merge_segments(&segments, max_duration, 0);
        for pair in chunks.windows(2) {
            assert!(pair[0].start < pair[1].start);
            assert!(pair[0].end <= pair[1].start);
        }
        assert_eq!(chunks[0].start, 0);
        assert_eq!(chunks[chunks.len() - 1].end, 19 * 130 + 120);
    }
}

#[test]
fn merging_twice_gives_the_same_chunks() {
    let segments = vec![seg(0, 150, "Hello"), seg(150, 300, "world"), seg(300, 700, "this is long")];
    let first = merge_segments(&segments, 300, 12);
    let second = merge_segments(&segments, 300, 12);
    assert_eq!(shape(&first), shape(&second));
}

#[test]
fn an_empty_text_is_joined_without_a_space() {
    let segments = vec![seg(0, 1, ""), seg(1, 2, "a"), seg(2, 3, ""), seg(3, 4, "b")];
    let chunks = merge_segments(&segments, 0, 0);
    assert_eq!(shape(&chunks), vec![piece(0, 4, "a  b")]);
}

#[test]
fn joining_puts_one_space_between() {
    let mut text = String::new();
    push_joined(&mut text, "a");
    assert_eq!(text, "a");
    push_joined(&mut text, "b c");
    assert_eq!(text, "a b c");
    push_joined(&mut text, "");
    assert_eq!(text, "a b c ");
}

#[test]
fn trim_removes_white_space_at_both_ends() {
    assert_eq!(trim("  \t hi there \n"), "hi there");
    assert_eq!(trim("hi"), "hi");
    assert_eq!(trim(" x"), "x");
    assert_eq!(trim("x "), "x");
    assert_eq!(trim("a  b"), "a  b");
}

#[test]
fn trim_of_nothing_but_white_space_is_empty() {
    assert_eq!(trim(""), "");
    assert_eq!(trim(" "), "");
    assert_eq!(trim(" \u{3000}\r\n\t "), "");
}

#[test]
fn trim_agrees_with_the_standard_library() {
    let samples = [
        "",
        " ",
        "a",
        " a",
        "a ",
        "  a b  ",
        "\u{a0}non-breaking\u{a0}",
        "\u{85}next line\u{2028}",
        "\u{200b}zero width stays\u{200b}",
        "\u{3000}全角\u{3000}",
        "\u{feff}mark",
        "\t\n\u{b}\u{c}\r text \u{1680}\u{2000}\u{200a}\u{202f}\u{205f}",
        "é ",
        " 😀 ",
    ];
    for sample in samples {
        assert_eq!(trim(sample), sample.trim(), "for {:?}", sample);
    }
}

#[test]
fn segments_are_made_with_trimmed_text() {
    let segment = RawSegment::new(3, 9, "  spoken words \n").unwrap();
    assert_eq!((segment.start, segment.end, segment.text.as_str()), (3, 9, "spoken words"));
    assert!(RawSegment::new(3, 9, " \t ").is_none());
    assert!(RawSegment::new(3, 9, "").is_none());
}

#[test]
fn collecting_trims_and_drops_blank_fragments() {
    let fragments = vec![
        piece(0, 10, " Hello"),
        piece(10, 20, "   "),
        piece(20, 30, "world "),
        piece(30, 40, ""),
        piece(40, 50, "\n!\n"),
    ];
    let segments = collect_segments(&fragments);
    let seen: Vec<(i64, i64, String)> =
        segments.iter().map(|s| (s.start, s.end, s.text.clone())).collect();
    assert_eq!(seen, vec![piece(0, 10, "Hello"), piece(20, 30, "world"), piece(40, 50, "!")]);
}

#[test]
fn collecting_nothing_gives_nothing() {
    assert!(collect_segments(&Vec::new()).is_empty());
    assert!(collect_segments(&vec![piece(0, 1, " "), piece(1, 2, "\t")]).is_empty());
}

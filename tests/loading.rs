use figurust::Cell::{Blank, Hardblank, Ink};
use figurust::{
    CharacterParseError, FIGfont, FontLoadError, HeaderField, HeaderParseError, NumberError,
    RawHeader,
};

fn header(line: &str) -> Result<RawHeader, HeaderParseError> {
    line.parse::<RawHeader>()
}

fn font_lines(header: &str, height: usize, count: usize) -> String {
    let mut s = format!("{header}\n");
    for _ in 0..count {
        for y in 0..height {
            s.push_str(if y + 1 == height && height != 1 { "xy@@\n" } else { "xy@\n" });
        }
    }
    s
}

#[test]
fn header_fields_round_trip() {
    let h = header("flf2a$ 6 5 16 -1 3 1 24463 7").unwrap();
    assert_eq!(h.signature, "flf2a");
    assert_eq!(h.hardblank, '$');
    assert_eq!((h.height, h.baseline, h.max_length, h.old_layout, h.comment_lines), (6, 5, 16, -1, 3));
    assert_eq!((h.direction, h.full_layout, h.codetag_count), (Some(1), Some(24463), Some(7)));
    let h = header("flf2x# +8 0 65535 127 0 0").unwrap();
    assert_eq!(h.signature, "flf2x");
    assert_eq!(h.hardblank, '#');
    assert_eq!((h.height, h.max_length, h.old_layout), (8, 65535, 127));
    assert_eq!((h.direction, h.full_layout, h.codetag_count), (Some(0), None, None));
    let h = header("flf2a$ 1 1 1 1 1 1 1 1 extra").unwrap();
    assert_eq!(h.codetag_count, Some(1));
}

#[test]
fn header_errors() {
    assert!(matches!(header("flf2a$ 5 4 13"), Err(HeaderParseError::WrongNumberOfSegments(4))));
    assert!(matches!(header(""), Err(HeaderParseError::WrongNumberOfSegments(1))));
    match header("xyz$ 5 4 13 15 10") {
        Err(HeaderParseError::InvalidSignature(s)) => assert_eq!(s, "xyz"),
        other => panic!("unexpected {other:?}"),
    }
    match header("flf2 5 4 13 15 10") {
        Err(HeaderParseError::InvalidSignature(s)) => assert_eq!(s, "flf"),
        other => panic!("unexpected {other:?}"),
    }
    assert!(matches!(header(" 5 4 13 15 10"), Err(HeaderParseError::MissingHardblank)));
    assert!(matches!(
        header("flf2a$ 5 x 13 15 10"),
        Err(HeaderParseError::InvalidSegment(2, HeaderField::Baseline, NumberError::InvalidDigit))
    ));
    assert!(matches!(
        header("flf2a$ 70000 4 13 15 10"),
        Err(HeaderParseError::InvalidSegment(1, HeaderField::Height, NumberError::PosOverflow))
    ));
    assert!(matches!(
        header("flf2a$ 5 4 13 -129 10"),
        Err(HeaderParseError::InvalidSegment(4, HeaderField::OldLayout, NumberError::NegOverflow))
    ));
    assert!(matches!(
        header("flf2a$ 5 4 -3 15 10"),
        Err(HeaderParseError::InvalidSegment(3, HeaderField::MaxLength, NumberError::InvalidDigit))
    ));
    assert!(matches!(
        header("flf2a$ 5 4 13 15 10 "),
        Err(HeaderParseError::InvalidSegment(6, HeaderField::Direction, NumberError::Empty))
    ));
    assert!(matches!(
        header("flf2a$ 5 4 13 15 10 0 2x"),
        Err(HeaderParseError::InvalidSegment(7, HeaderField::FullLayout, NumberError::InvalidDigit))
    ));
    assert!(matches!(
        header("flf2a$ 5 4 13 15 10 0 0 -"),
        Err(HeaderParseError::InvalidSegment(8, HeaderField::CodetagCount, NumberError::InvalidDigit))
    ));
}

#[test]
fn absent_segment_is_reported() {
    let segments: Vec<Vec<char>> = vec!["flf2a$".chars().collect(), "5".chars().collect()];
    assert!(matches!(
        RawHeader::extract_required_segment(&segments, 2, HeaderField::Baseline),
        Err(HeaderParseError::MissingSegment(2, HeaderField::Baseline))
    ));
    assert!(matches!(RawHeader::extract_required_segment(&segments, 1, HeaderField::Height), Ok(5)));
    assert!(matches!(RawHeader::extract_optional_segment(&segments, 6, HeaderField::Direction), Ok(None)));
}

#[test]
fn load_errors() {
    assert!(matches!("".parse::<FIGfont>(), Err(FontLoadError::EmptyString)));
    assert!(matches!(
        "flf2a$ 2 1".parse::<FIGfont>(),
        Err(FontLoadError::HeaderError(HeaderParseError::WrongNumberOfSegments(3)))
    ));
    let truncated = font_lines("flf2a$ 2 1 4 0 0", 2, 94);
    assert!(matches!(
        truncated.parse::<FIGfont>(),
        Err(FontLoadError::CharacterError(CharacterParseError::MissingRows(126)))
    ));
    let no_comments = font_lines("flf2a$ 2 1 4 0 3", 2, 95);
    assert!(matches!(
        no_comments.parse::<FIGfont>(),
        Err(FontLoadError::CharacterError(CharacterParseError::MissingRows(125)))
    ));
    let short = font_lines("flf2a$ 2 1 4 0 0", 2, 95).replacen("xy@@\n", "@\n", 1);
    assert!(matches!(
        short.parse::<FIGfont>(),
        Err(FontLoadError::CharacterError(CharacterParseError::RowTooShort(32, 1)))
    ));
}

#[test]
fn rows_lose_end_markers_and_are_padded() {
    let mut text = String::from("flf2a$ 2 1 4 0 1\ncomment\r\n");
    text.push_str(" $@\nab c@@\n");
    for _ in 1..95 {
        text.push_str("x@\nx@@\n");
    }
    let f = FIGfont::load(&text).unwrap();
    assert_eq!(f.comments, "comment");
    let space = &f.characters[0];
    assert_eq!(space.code, 32);
    assert_eq!(space.width, 4);
    assert_eq!(space.char_lines[0], vec![Blank, Hardblank, Blank, Blank]);
    assert_eq!(space.char_lines[1], vec![Ink('a'), Ink('b'), Blank, Ink('c')]);
    assert_eq!(f.characters[94].code, 126);
    assert_eq!(f.characters[94].width, 1);
}

#[test]
fn single_row_fonts_strip_one_marker() {
    let mut text = String::from("flf2a$ 1 1 4 0 0\n");
    for _ in 0..95 {
        text.push_str("ab@\n");
    }
    let f = FIGfont::load(&text).unwrap();
    assert_eq!(f.characters[5].width, 2);
    assert_eq!(f.convert("!!").unwrap(), "abab\n");
}

#[test]
fn numbers_fail_at_the_first_bad_digit() {
    assert!(matches!(
        header("flf2a$ 99999x 4 13 15 10"),
        Err(HeaderParseError::InvalidSegment(1, HeaderField::Height, NumberError::PosOverflow))
    ));
    assert!(matches!(
        header("flf2a$ 9x999 4 13 15 10"),
        Err(HeaderParseError::InvalidSegment(1, HeaderField::Height, NumberError::InvalidDigit))
    ));
    assert!(matches!(
        header("flf2a$ 5 4 13 -200x 10"),
        Err(HeaderParseError::InvalidSegment(4, HeaderField::OldLayout, NumberError::NegOverflow))
    ));
    assert!(matches!(
        header("flf2a$ 5 4 13 +"),
        Err(HeaderParseError::WrongNumberOfSegments(5))
    ));
    assert_eq!(HeaderField::CommentLines.name(), "comment_lines");
}

#[test]
fn carriage_returns_end_lines_only_before_a_line_feed() {
    let mut text = String::from("flf2a$ 1 1 4 0 0\r\n");
    for _ in 0..94 {
        text.push_str("ab@\r\n");
    }
    text.push_str("cd@\r");
    let f = text.parse::<FIGfont>().unwrap();
    assert_eq!(f.characters[0].width, 2);
    assert_eq!(f.characters[94].width, 3);
    assert_eq!(f.convert("~").unwrap(), "cd@\n");
}

use figurust::{FIGfont, RawHeader};

/// Glyph rows of the characters that the sample sentence uses, as they stand
/// in the small font (hardblanks written as `$`).
fn known_glyph(c: char) -> Option<[&'static str; 5]> {
    let g = match c {
        ' ' => [" $", " $", " $", " $", " $"],
        'H' => ["  _  _ ", " | || |", " | __ |", " |_||_|", "       "],
        'e' => ["      ", "  ___ ", " / -_)", " \\___|", "      "],
        'l' => ["  _ ", " | |", " | |", " |_|", "    "],
        'o' => ["      ", "  ___ ", " / _ \\", " \\___/", "      "],
        ',' => ["    ", "    ", "  _ ", " ( )", " |/ "],
        'w' => ["         ", " __ __ __", " \\ V  V /", "  \\_/\\_/ ", "         "],
        'r' => ["      ", "  _ _ ", " | '_|", " |_|  ", "      "],
        'd' => ["     _ ", "  __| |", " / _` |", " \\__,_|", "       "],
        '!' => ["  _ ", " | |", " |_|", " (_)", "    "],
        _ => return None,
    };
    Some(g)
}

/// A five-row font in the layout of the small font: its header, ten comment
/// lines and the 95 glyphs; characters the sample does not use get a plain
/// box.
fn small_font_text() -> String {
    let mut s = String::from("flf2a$ 5 4 13 15 10 0 22415 96\n");
    for i in 0..10 {
        s.push_str(&format!("comment line {i}\n"));
    }
    for code in 32u32..=126 {
        let c = char::from_u32(code).unwrap();
        let rows = known_glyph(c).unwrap_or([" ___ ", "|   |", "| ? |", "|___|", "     "]);
        for (y, row) in rows.iter().enumerate() {
            s.push_str(row);
            s.push_str(if y == 4 { "@@\n" } else { "@\n" });
        }
    }
    s
}

#[test]
fn test_parse_header() {
    let small_font = small_font_text();
    let header_line = small_font
        .lines()
        .next()
        .expect("small.flf has no first line");

    let header = header_line
        .parse::<RawHeader>()
        .expect("failed to parse header");

    assert_eq!(header.signature, "flf2a");
    assert_eq!(header.hardblank, '$');

    assert_eq!(header.height, 5);
    assert_eq!(header.baseline, 4);
    assert_eq!(header.max_length, 13);
    assert_eq!(header.old_layout, 15);
    assert_eq!(header.comment_lines, 10);

    assert_eq!(header.direction, Some(0));
    assert_eq!(header.full_layout, Some(22415));
    assert_eq!(header.codetag_count, Some(96));
}

#[test]
fn test_parse_characters() {
    let small_font = small_font_text();
    let _ = small_font.parse::<FIGfont>().expect("failed to parse font");
}

#[test]
fn test_convert_text() {
    let small_font = small_font_text();
    let font = small_font.parse::<FIGfont>().expect("failed to parse font");

    let text = "Hello, world!";
    let converted = font.convert(text).expect("failed to convert text");

    let expected = r#"
  _  _         _   _                                    _      _   _ 
 | || |  ___  | | | |  ___        __ __ __  ___   _ _  | |  __| | | |
 | __ | / -_) | | | | / _ \  _    \ V  V / / _ \ | '_| | | / _` | |_|
 |_||_| \___| |_| |_| \___/ ( )    \_/\_/  \___/ |_|   |_| \__,_| (_)
                            |/                                       
"#;

    assert_eq!(converted, expected[1..]);
}

#[test]
fn small_font_comments_and_glyphs() {
    let font = small_font_text().parse::<FIGfont>().unwrap();
    assert_eq!(font.header.height, 5);
    assert_eq!(font.header.baseline, 4);
    assert_eq!(font.header.comment_lines, 10);
    assert!(font.comments.starts_with("comment line 0\ncomment line 1\n"));
    assert!(font.comments.ends_with("comment line 9"));
    assert_eq!(font.characters.len(), 95);
    for (i, g) in font.characters.iter().enumerate() {
        assert_eq!(g.code, 32 + i as u32);
        assert_eq!(g.char_lines.len(), 5);
        for row in &g.char_lines {
            assert_eq!(row.len(), g.width);
        }
    }
    assert_eq!(font.characters[('H' as usize) - 32].width, 7);
    assert_eq!(font.characters[0].width, 2);
}

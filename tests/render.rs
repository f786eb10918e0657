use figurust::{
    Cell, Direction, FIGfont, FontConvertError, Justify, Mode, Outcome, RenderConfig, SmushRules,
    Spacing, merge_column,
};

/// A font of the given height: the listed characters get the listed rows,
/// every other character a filler row of `#` (the hardblank is `$`).
fn font_text(header: &str, height: usize, glyphs: &[(char, &[&str])]) -> String {
    let mut s = format!("{header}\n");
    for code in 32u32..=126 {
        let c = char::from_u32(code).unwrap();
        let rows: Vec<String> = match glyphs.iter().find(|(g, _)| *g == c) {
            Some((_, rows)) => rows.iter().map(|r| r.to_string()).collect(),
            None => (0..height).map(|_| "##".to_string()).collect(),
        };
        for (y, row) in rows.iter().enumerate() {
            s.push_str(row);
            s.push_str(if y + 1 == height && height != 1 { "@@\n" } else { "@\n" });
        }
    }
    s
}

fn font(height: usize, glyphs: &[(char, &[&str])]) -> FIGfont {
    let header = format!("flf2a$ {height} {height} 10 0 0");
    font_text(&header, height, glyphs).parse::<FIGfont>().unwrap()
}

fn config(spacing: Spacing, width: usize, justify: Justify) -> RenderConfig {
    RenderConfig {
        width,
        justify,
        mode: Mode::Normal,
        direction: Direction::LeftToRight,
        spacing,
        rules: None,
    }
}

fn all_rules() -> SmushRules {
    SmushRules { equal: true, underscore: true, hierarchy: true, pair: true, big_x: true, hardblank: true }
}

fn no_rules() -> SmushRules {
    SmushRules {
        equal: false,
        underscore: false,
        hierarchy: false,
        pair: false,
        big_x: false,
        hardblank: false,
    }
}

#[test]
fn five_row_font_with_six_header_fields() {
    let text = font_text("flf2a$ 5 4 13 15 10", 5, &[]);
    let mut with_comments = String::new();
    for (i, line) in text.lines().enumerate() {
        with_comments.push_str(line);
        with_comments.push('\n');
        if i == 0 {
            for k in 0..10 {
                with_comments.push_str(&format!("note {k}\n"));
            }
        }
    }
    let f = with_comments.parse::<FIGfont>().unwrap();
    assert_eq!(f.header.height, 5);
    assert_eq!(f.header.baseline, 4);
    assert_eq!(f.header.comment_lines, 10);
    assert_eq!(f.header.direction, None);
    assert_eq!(f.header.full_layout, None);
    assert_eq!(f.characters.len(), 95);
}

#[test]
fn full_width_hi_is_three_plus_three() {
    let f = font(2, &[('H', &["|-|", "| |"]), ('i', &[" o ", " | "])]);
    assert_eq!(f.convert("Hi").unwrap(), "|-| o \n| | | \n");
    let out = f.render("Hi", &config(Spacing::FullWidth, 6, Justify::Left)).unwrap();
    let lines: Vec<&str> = out.lines().collect();
    assert_eq!(lines, vec!["|-| o ", "| | | "]);
    assert!(lines.iter().all(|l| l.chars().count() == 6));
}

#[test]
fn hardblanks_merge_into_one_space() {
    let f = font(1, &[('a', &["a$"]), ('b', &["$b"])]);
    let mut cfg = config(Spacing::Smushing, 0, Justify::Left);
    cfg.rules = Some(all_rules());
    let merged = f.render("ab", &cfg).unwrap();
    assert_eq!(merged, "a b\n");
    assert!(!merged.contains('$'));
    let full = f.render("ab", &config(Spacing::FullWidth, 0, Justify::Left)).unwrap();
    assert_eq!(full, "a  b\n");
    assert!(!full.contains('$'));
    cfg.rules = Some(no_rules());
    assert_eq!(f.render("ab", &cfg).unwrap(), "a  b\n");
}

#[test]
fn control_character_is_missing() {
    let f = font(1, &[]);
    let cfg = config(Spacing::FullWidth, 80, Justify::Left);
    assert_eq!(f.render("ab\tc", &cfg), Err(FontConvertError::MissingCharacter('\t')));
    assert_eq!(f.render("x\ny\u{7}z", &cfg), Err(FontConvertError::MissingCharacter('\u{7}')));
    assert_eq!(f.convert("\u{1b}"), Err(FontConvertError::MissingCharacter('\u{1b}')));
    assert_eq!(f.convert("ok\u{e9}"), Err(FontConvertError::MissingCharacter('\u{e9}')));
}

#[test]
fn rule_table_in_priority_order() {
    let r = all_rules();
    let ink = Cell::Ink;
    assert_eq!(merge_column(ink('x'), ink('x'), &r, false), Outcome::Merged(ink('x')));
    assert_eq!(merge_column(ink('_'), ink('/'), &r, false), Outcome::Merged(ink('/')));
    assert_eq!(merge_column(ink('['), ink('_'), &r, false), Outcome::Merged(ink('[')));
    assert_eq!(merge_column(ink('|'), ink('{'), &r, false), Outcome::Merged(ink('{')));
    assert_eq!(merge_column(ink('<'), ink('/'), &r, false), Outcome::Merged(ink('<')));
    assert_eq!(merge_column(ink('('), ink(')'), &r, false), Outcome::Merged(ink('|')));
    assert_eq!(merge_column(ink(']'), ink('['), &r, false), Outcome::Merged(ink('|')));
    assert_eq!(merge_column(ink('/'), ink('\\'), &r, false), Outcome::Merged(ink('|')));
    assert_eq!(merge_column(ink('\\'), ink('/'), &r, false), Outcome::Merged(ink('X')));
    assert_eq!(merge_column(Cell::Hardblank, Cell::Hardblank, &r, false), Outcome::Merged(Cell::Hardblank));
    assert_eq!(merge_column(Cell::Hardblank, ink('a'), &r, false), Outcome::CannotMerge);
    assert_eq!(merge_column(Cell::Blank, ink('a'), &r, false), Outcome::Merged(ink('a')));
    assert_eq!(merge_column(Cell::Hardblank, Cell::Blank, &r, false), Outcome::Merged(Cell::Hardblank));
    assert_eq!(merge_column(Cell::Blank, Cell::Blank, &r, false), Outcome::CannotMerge);
    assert_eq!(merge_column(ink('a'), ink('b'), &r, false), Outcome::CannotMerge);
}

#[test]
fn disabled_rules_and_forced_smushing() {
    let r = no_rules();
    let ink = Cell::Ink;
    assert_eq!(merge_column(ink('x'), ink('x'), &r, false), Outcome::CannotMerge);
    assert_eq!(merge_column(ink('x'), ink('x'), &r, true), Outcome::Merged(ink('x')));
    assert_eq!(merge_column(ink('/'), ink('\\'), &r, true), Outcome::Merged(ink('|')));
    assert_eq!(merge_column(ink('_'), ink('|'), &r, true), Outcome::CannotMerge);
    assert_eq!(merge_column(Cell::Hardblank, Cell::Hardblank, &r, true), Outcome::CannotMerge);
    assert_eq!(merge_column(ink('a'), Cell::Blank, &r, false), Outcome::Merged(ink('a')));
}

#[test]
fn layout_mask_bits() {
    let r = SmushRules::from_mask(0b101010);
    assert!(!r.equal && r.underscore && !r.hierarchy && r.pair && !r.big_x && r.hardblank);
    let r = SmushRules::from_mask(22415);
    assert!(r.equal && r.underscore && r.hierarchy && r.pair && !r.big_x && !r.hardblank);
}

#[test]
fn smushing_merges_adjoining_columns() {
    let f = font(2, &[('a', &["a ", "a/"]), ('b', &[" b", "\\b"])]);
    let mut cfg = config(Spacing::Smushing, 0, Justify::Left);
    cfg.rules = Some(all_rules());
    assert_eq!(f.render("ab", &cfg).unwrap(), "a  b\na|b\n");
    let full = f.render("ab", &config(Spacing::FullWidth, 0, Justify::Left)).unwrap();
    assert_eq!(full, "a  b\na/\\b\n");
    cfg.spacing = Spacing::ForceSmushing;
    cfg.rules = Some(no_rules());
    assert_eq!(f.render("ab", &cfg).unwrap(), "a  b\na|b\n");
    cfg.spacing = Spacing::Smushing;
    assert_eq!(f.render("ab", &cfg).unwrap(), "a  b\na/\\b\n");
}

#[test]
fn smushing_never_widens_a_line() {
    let f = font(2, &[('a', &["a ", " a"]), ('b', &["b", "b"])]);
    let mut cfg = config(Spacing::Smushing, 0, Justify::Left);
    cfg.rules = Some(all_rules());
    let smushed = f.render("abab", &cfg).unwrap();
    let full = f.render("abab", &config(Spacing::FullWidth, 0, Justify::Left)).unwrap();
    let s: Vec<usize> = smushed.lines().map(|l| l.chars().count()).collect();
    let w: Vec<usize> = full.lines().map(|l| l.chars().count()).collect();
    assert_eq!(w, vec![6, 6]);
    assert_eq!(s, vec![4, 5]);
    assert_eq!(smushed, "abab\n abab\n");
}

#[test]
fn kerning_closes_the_common_gap() {
    let f = font(2, &[('a', &["a  ", "aa "]), ('b', &["  b", " bb"])]);
    let cfg = config(Spacing::Kerning, 0, Justify::Left);
    assert_eq!(f.render("ab", &cfg).unwrap(), "a  b\naabb\n");
    let g = font(1, &[('a', &["a$ "]), ('b', &[" b"])]);
    assert_eq!(g.render("ab", &cfg).unwrap(), "a b\n");
}

#[test]
fn words_wrap_at_the_width() {
    let f = font(1, &[('a', &["aa"]), ('b', &["bb"]), (' ', &["$"])]);
    let cfg = config(Spacing::FullWidth, 5, Justify::Left);
    assert_eq!(f.render("a b a", &cfg).unwrap(), "aa bb\naa   \n");
    let narrow = config(Spacing::FullWidth, 1, Justify::Left);
    assert_eq!(f.render("ab a", &narrow).unwrap(), "aabb\naa\n");
}

#[test]
fn justification_pads_to_the_width() {
    let f = font(1, &[('a', &["aa"])]);
    assert_eq!(f.render("a", &config(Spacing::FullWidth, 5, Justify::Right)).unwrap(), "   aa\n");
    assert_eq!(f.render("a", &config(Spacing::FullWidth, 5, Justify::Center)).unwrap(), " aa  \n");
    assert_eq!(f.render("a", &config(Spacing::FullWidth, 5, Justify::Left)).unwrap(), "aa   \n");
    assert_eq!(f.render("a", &config(Spacing::FullWidth, 5, Justify::Auto)).unwrap(), " aa  \n");
    let g = font(1, &[('a', &["aa"]), (' ', &["$"])]);
    assert_eq!(g.render("a a", &config(Spacing::FullWidth, 3, Justify::Auto)).unwrap(), "aa \naa \n");
    let mut rtl = config(Spacing::FullWidth, 5, Justify::Auto);
    rtl.direction = Direction::RightToLeft;
    assert_eq!(f.render("a", &rtl).unwrap(), "   aa\n");
}

#[test]
fn right_to_left_reverses_the_glyphs() {
    let f = font(1, &[('a', &["A"]), ('b', &["B"]), ('c', &["C"])]);
    let mut cfg = config(Spacing::FullWidth, 0, Justify::Left);
    cfg.direction = Direction::RightToLeft;
    assert_eq!(f.render("abc", &cfg).unwrap(), "CBA\n");
    cfg.direction = Direction::Auto;
    assert_eq!(f.render("abc", &cfg).unwrap(), "ABC\n");
    let rtl_font = font_text("flf2a$ 1 1 10 0 0 1", 1, &[('a', &["A"]), ('b', &["B"])])
        .parse::<FIGfont>()
        .unwrap();
    assert_eq!(rtl_font.render("ab", &cfg).unwrap(), "BA\n");
}

#[test]
fn paragraph_mode_joins_lines() {
    let f = font(1, &[('a', &["a"]), ('b', &["b"]), (' ', &["_"])]);
    let mut cfg = config(Spacing::FullWidth, 0, Justify::Left);
    assert_eq!(f.render("a\nb\n\nb", &cfg).unwrap(), "a\nb\n\nb\n");
    cfg.mode = Mode::Paragraph;
    assert_eq!(f.render("a\nb\n\nb", &cfg).unwrap(), "a\nb\n\nb\n");
    cfg.width = 3;
    assert_eq!(f.render("a\nb\n\nb", &cfg).unwrap(), "a_b\n   \nb  \n");
    cfg.width = 80;
    assert_eq!(f.render("a\r\nb", &cfg).unwrap().lines().next().unwrap().trim_end(), "a_b");
}

#[test]
fn empty_text_renders_nothing() {
    let f = font(2, &[]);
    let cfg = config(Spacing::Smushing, 80, Justify::Left);
    assert_eq!(f.render("", &cfg).unwrap(), "");
    assert_eq!(f.convert("").unwrap(), "");
    assert_eq!(f.convert("\n").unwrap(), "\n\n");
}

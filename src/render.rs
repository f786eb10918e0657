use vstd::prelude::*;

use crate::chars::{Cell, rows_view};
use crate::font::FIGfont;
use crate::header::RawHeader;
use crate::layout::{SmushRules, glyphs_high, ids_view, layout_line, line_rows, sum_row_len};
use crate::settings::{Direction, Justify, Mode, Spacing};
use crate::text::{chars_to_string, lines_view, split_chars, split_lines, split_on, str_to_chars, text_lines};

verus! {

/// Why text cannot be rendered.
#[derive(Debug, Clone, Copy, PartialEq, Eq, Structural)]
pub enum FontConvertError {
    /// The font has no glyph for this character.
    MissingCharacter(char),
    /// A line's glyphs together are wider than a row can be.
    LineTooWide,
}

/// Everything rendering needs besides the text and the font.
#[derive(Debug, Clone, Copy, PartialEq, Eq, Structural)]
pub struct RenderConfig {
    pub width: usize,
    pub justify: Justify,
    pub mode: Mode,
    pub direction: Direction,
    pub spacing: Spacing,
    /// Smushing rules that replace the font's own.
    pub rules: Option<SmushRules>,
}

/// The font has a glyph for `c`: the codes 32 to 126.
pub open spec fn has_glyph(c: char) -> bool {
    ' ' <= c <= '~'
}

/// The first character of `s` without a glyph.
pub open spec fn first_missing_in(s: Seq<char>) -> Option<char>
    decreases s.len(),
{
    if s.len() == 0 {
        None
    } else {
        match first_missing_in(s.drop_last()) {
            Some(c) => Some(c),
            None => if !has_glyph(s.last()) {
                Some(s.last())
            } else {
                None
            },
        }
    }
}

/// The first character without a glyph, line by line.
pub open spec fn first_missing(lines: Seq<Seq<char>>) -> Option<char>
    decreases lines.len(),
{
    if lines.len() == 0 {
        None
    } else {
        match first_missing(lines.drop_last()) {
            Some(c) => Some(c),
            None => first_missing_in(lines.last()),
        }
    }
}

proof fn lemma_first_missing_in_extends(s: Seq<char>, j: int, k: int)
    requires
        0 <= j <= k <= s.len(),
        first_missing_in(s.take(j)) is Some,
    ensures
        first_missing_in(s.take(k)) == first_missing_in(s.take(j)),
    decreases k - j,
{
    if j < k {
        lemma_first_missing_in_extends(s, j, k - 1);
        assert(s.take(k).drop_last() == s.take(k - 1));
    }
}

proof fn lemma_first_missing_in_absent(s: Seq<char>)
    requires
        first_missing_in(s) is None,
    ensures
        forall|i: int| 0 <= i < s.len() ==> has_glyph(#[trigger] s[i]),
    decreases s.len(),
{
    if s.len() > 0 {
        lemma_first_missing_in_absent(s.drop_last());
        assert forall|i: int| 0 <= i < s.len() implies has_glyph(#[trigger] s[i]) by {
            if i < s.len() - 1 {
                assert(s.drop_last()[i] == s[i]);
            }
        }
    }
}

proof fn lemma_first_missing_in_found(s: Seq<char>)
    requires
        first_missing_in(s) matches Some(c),
    ensures
        first_missing_in(s) matches Some(c) && !has_glyph(c) && s.contains(c),
    decreases s.len(),
{
    if s.len() > 0 {
        if first_missing_in(s.drop_last()) is Some {
            lemma_first_missing_in_found(s.drop_last());
            let c = first_missing_in(s).unwrap();
            let i = choose|i: int| 0 <= i < s.drop_last().len() && s.drop_last()[i] == c;
            assert(s[i] == c);
        } else {
            assert(s[s.len() - 1] == s.last());
        }
    }
}

proof fn lemma_first_missing_extends(lines: Seq<Seq<char>>, j: int, k: int)
    requires
        0 <= j <= k <= lines.len(),
        first_missing(lines.take(j)) is Some,
    ensures
        first_missing(lines.take(k)) == first_missing(lines.take(j)),
    decreases k - j,
{
    if j < k {
        lemma_first_missing_extends(lines, j, k - 1);
        assert(lines.take(k).drop_last() == lines.take(k - 1));
    }
}

/// Finds the first character without a glyph, as `first_missing` says.
pub fn find_missing(lines: &Vec<Vec<char>>) -> (r: Option<char>)
    ensures
        r == first_missing(lines_view(lines@)),
{
    let ghost ls = lines_view(lines@);
    let mut i: usize = 0;
    while i < lines.len()
        invariant
            i <= lines@.len(),
            ls == lines_view(lines@),
            first_missing(ls.take(i as int)) is None,
        decreases lines@.len() - i,
    {
        let line = &lines[i];
        assert(line@ == ls[i as int]);
        assert(ls.take(i + 1).drop_last() == ls.take(i as int));
        assert(ls.take(i + 1).last() == line@);
        let mut j: usize = 0;
        while j < line.len()
            invariant
                i < lines@.len(),
                ls == lines_view(lines@),
                line@ == ls[i as int],
                first_missing(ls.take(i as int)) is None,
                ls.take(i + 1).drop_last() == ls.take(i as int),
                ls.take(i + 1).last() == line@,
                j <= line@.len(),
                first_missing_in(line@.take(j as int)) is None,
            decreases line@.len() - j,
        {
            let c = line[j];
            assert(line@.take(j + 1).drop_last() == line@.take(j as int));
            if !(' ' <= c && c <= '~') {
                proof {
                    lemma_first_missing_in_extends(line@, j + 1, line@.len() as int);
                    assert(line@.take(line@.len() as int) == line@);
                    assert(first_missing(ls.take(i + 1)) == Some(c));
                    lemma_first_missing_extends(ls, i + 1, ls.len() as int);
                    assert(ls.take(ls.len() as int) == ls);
                }
                return Some(c);
            }
            j = j + 1;
        }
        assert(line@.take(line@.len() as int) == line@);
        i = i + 1;
    }
    assert(ls.take(ls.len() as int) == ls);
    None
}

/// A line that holds nothing but spaces.
pub open spec fn is_blank(l: Seq<char>) -> bool {
    forall|i: int| 0 <= i < l.len() ==> l[i] == ' '
}

/// The paragraphs found in the first `k` lines, and the paragraph still
/// open after them.
pub open spec fn paragraph_state(lines: Seq<Seq<char>>, k: int) -> (Seq<Seq<char>>, Option<Seq<char>>)
    decreases k,
{
    if k <= 0 {
        (Seq::empty(), None)
    } else {
        let (units, cur) = paragraph_state(lines, k - 1);
        let l = lines[k - 1];
        if is_blank(l) {
            let closed = match cur {
                Some(p) => units.push(p),
                None => units,
            };
            (closed.push(Seq::<char>::empty()), None)
        } else {
            match cur {
                Some(p) => (units, Some(p + seq![' '] + l)),
                None => (units, Some(l)),
            }
        }
    }
}

/// Runs of non-blank lines joined with single spaces, one unit each; every
/// blank line is an empty unit of its own.
pub open spec fn paragraphs(lines: Seq<Seq<char>>) -> Seq<Seq<char>> {
    let (units, cur) = paragraph_state(lines, lines.len() as int);
    match cur {
        Some(p) => units.push(p),
        None => units,
    }
}

/// The units that are laid out one after the other.
pub open spec fn text_units(lines: Seq<Seq<char>>, mode: Mode) -> Seq<Seq<char>> {
    match mode {
        Mode::Normal => lines,
        Mode::Paragraph => paragraphs(lines),
    }
}

/// Appends the characters of `s`.
pub fn append_chars(out: &mut Vec<char>, s: &Vec<char>)
    ensures
        final(out)@ == old(out)@ + s@,
{
    let ghost start = out@;
    let mut i: usize = 0;
    while i < s.len()
        invariant
            i <= s@.len(),
            out@ == start + s@.take(i as int),
        decreases s@.len() - i,
    {
        out.push(s[i]);
        assert(s@.take(i + 1) == s@.take(i as int).push(s@[i as int]));
        i = i + 1;
    }
    assert(s@.take(s@.len() as int) == s@);
}

/// Joins runs of non-blank lines into paragraphs, as `paragraphs` says.
pub fn join_paragraphs(lines: &Vec<Vec<char>>) -> (r: Vec<Vec<char>>)
    ensures
        lines_view(r@) == paragraphs(lines_view(lines@)),
{
    let ghost ls = lines_view(lines@);
    let mut units: Vec<Vec<char>> = Vec::new();
    let mut cur: Vec<char> = Vec::new();
    let mut open = false;
    let mut i: usize = 0;
    while i < lines.len()
        invariant
            i <= lines@.len(),
            ls == lines_view(lines@),
            paragraph_state(ls, i as int) == (lines_view(units@), if open {
                Some(cur@)
            } else {
                None::<Seq<char>>
            }),
            !open ==> cur@.len() == 0,
        decreases lines@.len() - i,
    {
        let line = &lines[i];
        assert(line@ == ls[i as int]);
        let mut blank = true;
        let mut j: usize = 0;
        while j < line.len()
            invariant
                j <= line@.len(),
                blank == forall|q: int| 0 <= q < j ==> line@[q] == ' ',
            decreases line@.len() - j,
        {
            if line[j] != ' ' {
                blank = false;
            }
            j = j + 1;
        }
        assert(blank == is_blank(line@));
        let ghost old_units = lines_view(units@);
        let ghost old_cur = cur@;
        let ghost was_open = open;
        if blank {
            if open {
                let done = cur;
                units.push(done);
                cur = Vec::new();
                assert(lines_view(units@) =~= old_units.push(done@));
            }
            let ghost mid = lines_view(units@);
            units.push(Vec::new());
            assert(lines_view(units@) =~= mid.push(Seq::<char>::empty()));
            open = false;
        } else {
            if open {
                cur.push(' ');
            }
            append_chars(&mut cur, line);
            proof {
                if was_open {
                    assert(cur@ == old_cur + seq![' '] + line@);
                } else {
                    assert(cur@ =~= line@);
                }
            }
            open = true;
        }
        i = i + 1;
    }
    if open {
        let ghost old_units = lines_view(units@);
        let done = cur;
        units.push(done);
        assert(lines_view(units@) =~= old_units.push(done@));
    }
    units
}

/// Every character of `s` has a glyph.
pub open spec fn all_glyphs(s: Seq<char>) -> bool {
    forall|i: int| 0 <= i < s.len() ==> has_glyph(#[trigger] s[i])
}

/// The rules that a layout mask switches on.
pub open spec fn rules_of_mask(m: u32) -> SmushRules {
    SmushRules {
        equal: m & 1 != 0,
        underscore: m & 2 != 0,
        hierarchy: m & 4 != 0,
        pair: m & 8 != 0,
        big_x: m & 16 != 0,
        hardblank: m & 32 != 0,
    }
}

/// The font's own layout mask: its full layout where the header gives one,
/// else its old layout where that is positive, else none.
pub open spec fn layout_mask(h: RawHeader) -> u32 {
    match h.full_layout {
        Some(f) => f as u32,
        None => if h.old_layout > 0 {
            h.old_layout as u32
        } else {
            0
        },
    }
}

/// The rules in force: those of the configuration, else the font's.
pub open spec fn effective_rules(font: FIGfont, cfg: RenderConfig) -> SmushRules {
    match cfg.rules {
        Some(r) => r,
        None => rules_of_mask(layout_mask(font.header)),
    }
}

/// Glyphs are laid out right to left when asked, or when the direction is
/// left to the font and the font declares right to left.
pub open spec fn right_to_left(font: FIGfont, cfg: RenderConfig) -> bool {
    cfg.direction == Direction::RightToLeft || (cfg.direction == Direction::Auto
        && font.header.direction == Some(1u16))
}

/// The index of each character's glyph, in the order of layout.
pub open spec fn glyph_ids(s: Seq<char>, rtl: bool) -> Seq<usize> {
    let ids = s.map_values(|c: char| (c as u32 - 32) as usize);
    if rtl {
        ids.reverse()
    } else {
        ids
    }
}

/// Every row of a line fits in memory.
pub open spec fn rows_fit(gs: Seq<Seq<Seq<Cell>>>, height: nat) -> bool {
    forall|y: int| 0 <= y < height ==> sum_row_len(gs, y, gs.len() as int) <= usize::MAX
}

/// The rows that `s` lays out to, or `None` where they would not fit.
pub open spec fn block_layout(font: FIGfont, cfg: RenderConfig, s: Seq<char>) -> Option<
    Seq<Seq<Cell>>,
> {
    let gs = ids_view(font.characters@, glyph_ids(s, right_to_left(font, cfg)));
    let h = font.header.height as nat;
    if rows_fit(gs, h) {
        Some(line_rows(gs, h, cfg.spacing, effective_rules(font, cfg), gs.len() as int))
    } else {
        None
    }
}

/// The length of the longest of the first `k` rows.
pub open spec fn rows_width(rows: Seq<Seq<Cell>>, k: int) -> nat
    decreases k,
{
    if k <= 0 {
        0
    } else {
        let m = rows_width(rows, k - 1);
        if rows[k - 1].len() > m {
            rows[k - 1].len()
        } else {
            m
        }
    }
}

/// Greedy packing of the first `k` words: the blocks already closed and the
/// block still open. A word joins the open block when the block with it is
/// no wider than the configured width; a word that does not fit opens a
/// new block, however wide it is alone.
pub open spec fn wrap_state(font: FIGfont, cfg: RenderConfig, words: Seq<Seq<char>>, k: int) -> Option<
    (Seq<Seq<char>>, Seq<char>),
>
    decreases k,
{
    if k <= 0 {
        Some((Seq::empty(), Seq::empty()))
    } else if k == 1 {
        Some((Seq::empty(), words[0]))
    } else {
        match wrap_state(font, cfg, words, k - 1) {
            None => None,
            Some((blocks, cur)) => {
                let w = words[k - 1];
                let cand = cur + seq![' '] + w;
                match block_layout(font, cfg, cand) {
                    None => None,
                    Some(rows) => if rows_width(rows, rows.len() as int) <= cfg.width {
                        Some((blocks, cand))
                    } else {
                        Some((blocks.push(cur), w))
                    },
                }
            },
        }
    }
}

/// The blocks a unit is wrapped into, words being separated by single
/// spaces.
pub open spec fn wrap_blocks(font: FIGfont, cfg: RenderConfig, unit: Seq<char>) -> Option<
    Seq<Seq<char>>,
> {
    let words = split_on(unit, ' ');
    match wrap_state(font, cfg, words, words.len() as int) {
        None => None,
        Some((blocks, cur)) => Some(blocks.push(cur)),
    }
}

/// How the blocks of a unit are aligned. `Auto` left-aligns a unit that
/// wrapped into several blocks; a unit of a single block is centred when
/// glyphs run left to right and right-aligned when they run right to left.
pub open spec fn resolved_justify(font: FIGfont, cfg: RenderConfig, n_blocks: int) -> Justify {
    match cfg.justify {
        Justify::Auto => if n_blocks != 1 {
            Justify::Left
        } else if right_to_left(font, cfg) {
            Justify::Right
        } else {
            Justify::Center
        },
        j => j,
    }
}

pub open spec fn spaces(n: int) -> Seq<char> {
    Seq::new(n as nat, |i: int| ' ')
}

/// What a cell shows: its ink, or a space for a blank or a hardblank.
pub open spec fn cell_char(c: Cell) -> char {
    match c {
        Cell::Ink(x) => x,
        _ => ' ',
    }
}

pub open spec fn cells_text(cells: Seq<Cell>) -> Seq<char> {
    cells.map_values(|c: Cell| cell_char(c))
}

/// A row padded with spaces to `width` as `j` says; a row that is not
/// shorter stays as it is.
pub open spec fn pad_row(t: Seq<char>, width: int, j: Justify) -> Seq<char> {
    if t.len() >= width {
        t
    } else {
        let free = width - t.len();
        match j {
            Justify::Right => spaces(free) + t,
            Justify::Center => spaces(free / 2) + t + spaces(free - free / 2),
            _ => t + spaces(free),
        }
    }
}

/// The first `k` rows as text, each padded and ended by a line feed.
pub open spec fn rows_text(rows: Seq<Seq<Cell>>, width: int, j: Justify, k: int) -> Seq<char>
    decreases k,
{
    if k <= 0 {
        Seq::empty()
    } else {
        rows_text(rows, width, j, k - 1) + pad_row(cells_text(rows[k - 1]), width, j) + seq!['\n']
    }
}

/// The text of the first `k` blocks.
pub open spec fn blocks_text(
    font: FIGfont,
    cfg: RenderConfig,
    blocks: Seq<Seq<char>>,
    j: Justify,
    k: int,
) -> Option<Seq<char>>
    decreases k,
{
    if k <= 0 {
        Some(Seq::empty())
    } else {
        match blocks_text(font, cfg, blocks, j, k - 1) {
            None => None,
            Some(t) => match block_layout(font, cfg, blocks[k - 1]) {
                None => None,
                Some(rows) => Some(t + rows_text(rows, cfg.width as int, j, rows.len() as int)),
            },
        }
    }
}

/// The text of one unit.
pub open spec fn unit_text(font: FIGfont, cfg: RenderConfig, unit: Seq<char>) -> Option<Seq<char>> {
    match wrap_blocks(font, cfg, unit) {
        None => None,
        Some(blocks) => blocks_text(
            font,
            cfg,
            blocks,
            resolved_justify(font, cfg, blocks.len() as int),
            blocks.len() as int,
        ),
    }
}

/// The text of the first `k` units.
pub open spec fn units_text(font: FIGfont, cfg: RenderConfig, units: Seq<Seq<char>>, k: int) -> Option<
    Seq<char>,
>
    decreases k,
{
    if k <= 0 {
        Some(Seq::empty())
    } else {
        match units_text(font, cfg, units, k - 1) {
            None => None,
            Some(t) => match unit_text(font, cfg, units[k - 1]) {
                None => None,
                Some(u) => Some(t + u),
            },
        }
    }
}

/// What rendering `text` gives: the first character without a glyph fails
/// the whole call; otherwise the units, each wrapped into blocks, each block
/// `height` rows, each row padded and ended by a line feed.
pub open spec fn render_spec(font: FIGfont, text: Seq<char>, cfg: RenderConfig) -> Result<
    Seq<char>,
    FontConvertError,
> {
    let lines = text_lines(text);
    match first_missing(lines) {
        Some(c) => Err(FontConvertError::MissingCharacter(c)),
        None => {
            let units = text_units(lines, cfg.mode);
            match units_text(font, cfg, units, units.len() as int) {
                None => Err(FontConvertError::LineTooWide),
                Some(t) => Ok(t),
            }
        },
    }
}

/// The widths of the glyphs `ids[..k]` together.
pub open spec fn sum_widths(font: FIGfont, ids: Seq<usize>, k: int) -> int
    decreases k,
{
    if k <= 0 {
        0
    } else {
        sum_widths(font, ids, k - 1) + font.characters@[ids[k - 1] as int].width
    }
}

proof fn lemma_sum_row_len_is_widths(font: FIGfont, ids: Seq<usize>, y: int, k: int)
    requires
        font.wf(),
        forall|i: int| 0 <= i < ids.len() ==> (#[trigger] ids[i]) < 95,
        0 <= y < font.header.height,
        0 <= k <= ids.len(),
    ensures
        sum_row_len(ids_view(font.characters@, ids), y, k) == sum_widths(font, ids, k),
    decreases k,
{
    if k > 0 {
        lemma_sum_row_len_is_widths(font, ids, y, k - 1);
        let g = font.characters@[ids[k - 1] as int];
        assert(ids_view(font.characters@, ids)[k - 1] == rows_view(g.char_lines@));
        assert(g.char_lines@[y]@.len() == g.width);
    }
}

proof fn lemma_ids_high(font: FIGfont, ids: Seq<usize>)
    requires
        font.wf(),
        forall|i: int| 0 <= i < ids.len() ==> (#[trigger] ids[i]) < 95,
    ensures
        glyphs_high(ids_view(font.characters@, ids), font.header.height as nat),
{
    assert forall|i: int| 0 <= i < ids.len() implies (#[trigger] ids_view(
        font.characters@,
        ids,
    )[i]).len() == font.header.height by {
        let g = font.characters@[ids[i] as int];
        assert(g.char_lines@.len() == font.header.height);
    }
}

impl FIGfont {
    /// The rules in force, as `effective_rules` says.
    pub fn rules_for(&self, cfg: &RenderConfig) -> (r: SmushRules)
        ensures
            r == effective_rules(*self, *cfg),
    {
        match cfg.rules {
            Some(r) => r,
            None => {
                let mask: u32 = match self.header.full_layout {
                    Some(f) => f as u32,
                    None => if self.header.old_layout > 0 {
                        self.header.old_layout as u32
                    } else {
                        0
                    },
                };
                SmushRules::from_mask(mask)
            },
        }
    }

    /// Whether glyphs run right to left, as `right_to_left` says.
    pub fn is_right_to_left(&self, cfg: &RenderConfig) -> (r: bool)
        ensures
            r == right_to_left(*self, *cfg),
    {
        match cfg.direction {
            Direction::RightToLeft => true,
            Direction::LeftToRight => false,
            Direction::Auto => match self.header.direction {
                Some(d) => d == 1,
                None => false,
            },
        }
    }

    /// Lays out `s` as one block, as `block_layout` says.
    pub fn block_layout_exec(&self, cfg: &RenderConfig, s: &Vec<char>) -> (r: Option<Vec<Vec<Cell>>>)
        requires
            self.wf(),
            all_glyphs(s@),
        ensures
            match block_layout(*self, *cfg, s@) {
                None => r is None,
                Some(rows) => r matches Some(v) && rows_view(v@) == rows,
            },
    {
        let rtl = self.is_right_to_left(cfg);
        let rules = self.rules_for(cfg);
        let n = s.len();
        let mut ids: Vec<usize> = Vec::new();
        let mut i: usize = 0;
        while i < n
            invariant
                n == s@.len(),
                all_glyphs(s@),
                i <= n,
                ids@.len() == i,
                forall|k: int|
                    0 <= k < i ==> ids@[k] == if rtl {
                        (s@[n - 1 - k] as u32 - 32) as usize
                    } else {
                        (s@[k] as u32 - 32) as usize
                    },
            decreases n - i,
        {
            let c = if rtl {
                s[n - 1 - i]
            } else {
                s[i]
            };
            assert(has_glyph(c));
            ids.push((c as u32 - 32) as usize);
            i = i + 1;
        }
        let ghost want = glyph_ids(s@, rtl);
        assert(ids@ =~= want);
        assert forall|k: int| 0 <= k < ids@.len() implies (#[trigger] ids@[k]) < 95 by {
            if rtl {
                assert(has_glyph(s@[n - 1 - k]));
            } else {
                assert(has_glyph(s@[k]));
            }
        }
        let ghost gs = ids_view(self.characters@, ids@);
        proof {
            lemma_ids_high(*self, ids@);
        }
        let height = self.header.height as usize;
        let mut total: usize = 0;
        let mut fits = true;
        let mut k: usize = 0;
        while k < n
            invariant
                self.wf(),
                ids@.len() == n,
                forall|q: int| 0 <= q < ids@.len() ==> (#[trigger] ids@[q]) < 95,
                k <= n,
                fits ==> total == sum_widths(*self, ids@, k as int),
                !fits ==> sum_widths(*self, ids@, k as int) > usize::MAX,
            decreases n - k,
        {
            let w = self.characters[ids[k]].width;
            proof {
                lemma_sum_widths_nonneg(*self, ids@, k as int);
            }
            if fits {
                if total > usize::MAX - w {
                    fits = false;
                } else {
                    total = total + w;
                }
            }
            k = k + 1;
        }
        if !fits && height > 0 {
            proof {
                lemma_sum_row_len_is_widths(*self, ids@, 0, n as int);
            }
            return None;
        }
        proof {
            assert forall|y: int| 0 <= y < height implies sum_row_len(gs, y, ids@.len() as int)
                <= usize::MAX by {
                lemma_sum_row_len_is_widths(*self, ids@, y, n as int);
            }
        }
        let rows = layout_line(&self.characters, &ids, height, cfg.spacing, &rules);
        Some(rows)
    }
}

proof fn lemma_sum_widths_nonneg(font: FIGfont, ids: Seq<usize>, k: int)
    ensures
        sum_widths(font, ids, k) >= 0,
        k >= 0 ==> sum_widths(font, ids, k + 1) >= sum_widths(font, ids, k),
    decreases k,
{
    if k > 0 {
        lemma_sum_widths_nonneg(font, ids, k - 1);
    }
}

/// The length of the longest row, as `rows_width` says.
pub fn rows_width_exec(rows: &Vec<Vec<Cell>>) -> (r: usize)
    ensures
        r == rows_width(rows_view(rows@), rows@.len() as int),
{
    let ghost rv = rows_view(rows@);
    let mut m: usize = 0;
    let mut k: usize = 0;
    while k < rows.len()
        invariant
            k <= rows@.len(),
            rv == rows_view(rows@),
            m == rows_width(rv, k as int),
        decreases rows@.len() - k,
    {
        assert(rv[k as int] == rows@[k as int]@);
        if rows[k].len() > m {
            m = rows[k].len();
        }
        k = k + 1;
    }
    m
}

proof fn lemma_lines_have_glyphs(lines: Seq<Seq<char>>)
    requires
        first_missing(lines) is None,
    ensures
        forall|i: int| 0 <= i < lines.len() ==> all_glyphs(#[trigger] lines[i]),
    decreases lines.len(),
{
    if lines.len() > 0 {
        lemma_lines_have_glyphs(lines.drop_last());
        lemma_first_missing_in_absent(lines.last());
        assert forall|i: int| 0 <= i < lines.len() implies all_glyphs(#[trigger] lines[i]) by {
            if i < lines.len() - 1 {
                assert(lines.drop_last()[i] == lines[i]);
            }
        }
    }
}

proof fn lemma_paragraphs_have_glyphs(lines: Seq<Seq<char>>, k: int)
    requires
        0 <= k <= lines.len(),
        forall|i: int| 0 <= i < lines.len() ==> all_glyphs(#[trigger] lines[i]),
    ensures
        forall|i: int|
            0 <= i < paragraph_state(lines, k).0.len() ==> all_glyphs(
                #[trigger] paragraph_state(lines, k).0[i],
            ),
        paragraph_state(lines, k).1 matches Some(p) ==> all_glyphs(p),
    decreases k,
{
    if k > 0 {
        lemma_paragraphs_have_glyphs(lines, k - 1);
        let (units, cur) = paragraph_state(lines, k - 1);
        let l = lines[k - 1];
        assert(all_glyphs(l));
        if let Some(p) = cur {
            assert(all_glyphs(p + seq![' '] + l));
        }
    }
}

proof fn lemma_units_have_glyphs(lines: Seq<Seq<char>>, mode: Mode)
    requires
        first_missing(lines) is None,
    ensures
        forall|i: int|
            0 <= i < text_units(lines, mode).len() ==> all_glyphs(
                #[trigger] text_units(lines, mode)[i],
            ),
{
    lemma_lines_have_glyphs(lines);
    lemma_paragraphs_have_glyphs(lines, lines.len() as int);
}

proof fn lemma_split_has_glyphs(s: Seq<char>, sep: char)
    requires
        all_glyphs(s),
        has_glyph(sep),
    ensures
        forall|i: int| 0 <= i < split_on(s, sep).len() ==> all_glyphs(#[trigger] split_on(s, sep)[i]),
    decreases s.len(),
{
    if s.len() > 0 {
        assert(all_glyphs(s.drop_last()));
        lemma_split_has_glyphs(s.drop_last(), sep);
        crate::text::lemma_split_on_nonempty(s.drop_last(), sep);
    }
}

proof fn lemma_wrap_none_stays(font: FIGfont, cfg: RenderConfig, words: Seq<Seq<char>>, j: int, k: int)
    requires
        1 <= j <= k,
        wrap_state(font, cfg, words, j) is None,
    ensures
        wrap_state(font, cfg, words, k) is None,
    decreases k - j,
{
    if j < k {
        lemma_wrap_none_stays(font, cfg, words, j, k - 1);
    }
}

/// Wraps a unit into blocks, as `wrap_blocks` says.
pub fn wrap_unit(font: &FIGfont, cfg: &RenderConfig, unit: &Vec<char>) -> (r: Option<Vec<Vec<char>>>)
    requires
        font.wf(),
        all_glyphs(unit@),
    ensures
        match wrap_blocks(*font, *cfg, unit@) {
            None => r is None,
            Some(bs) => r matches Some(v) && lines_view(v@) == bs,
        },
        r matches Some(v) ==> forall|i: int| 0 <= i < v@.len() ==> all_glyphs((#[trigger] v@[i])@),
{
    let words = split_chars(unit, ' ');
    let ghost ws = split_on(unit@, ' ');
    proof {
        crate::text::lemma_split_on_nonempty(unit@, ' ');
        lemma_split_has_glyphs(unit@, ' ');
    }
    assert(forall|i: int| 0 <= i < ws.len() ==> #[trigger] ws[i] == words@[i]@);
    let n = words.len();
    let mut blocks: Vec<Vec<char>> = Vec::new();
    let mut cur = words[0].clone();
    assert(cur@ == ws[0]);
    let mut k: usize = 1;
    while k < n
        invariant
            font.wf(),
            n == words@.len(),
            ws == split_on(unit@, ' '),
            n == ws.len(),
            forall|i: int| 0 <= i < ws.len() ==> #[trigger] ws[i] == words@[i]@,
            forall|i: int| 0 <= i < ws.len() ==> all_glyphs(#[trigger] ws[i]),
            1 <= k <= n,
            wrap_state(*font, *cfg, ws, k as int) == Some((lines_view(blocks@), cur@)),
            all_glyphs(cur@),
            forall|i: int| 0 <= i < blocks@.len() ==> all_glyphs((#[trigger] blocks@[i])@),
        decreases n - k,
    {
        let w = &words[k];
        assert(w@ == ws[k as int]);
        let mut cand = cur.clone();
        assert(cand@ == cur@);
        cand.push(' ');
        append_chars(&mut cand, w);
        assert(cand@ == cur@ + seq![' '] + ws[k as int]);
        assert(all_glyphs(cand@));
        match font.block_layout_exec(cfg, &cand) {
            None => {
                proof {
                    lemma_wrap_none_stays(*font, *cfg, ws, k + 1, n as int);
                }
                return None;
            },
            Some(rows) => {
                let width = rows_width_exec(&rows);
                if width <= cfg.width {
                    cur = cand;
                } else {
                    let ghost old_blocks = lines_view(blocks@);
                    let done = cur;
                    blocks.push(done);
                    assert(lines_view(blocks@) =~= old_blocks.push(done@));
                    cur = w.clone();
                    assert(cur@ == w@);
                }
            },
        }
        k = k + 1;
    }
    let ghost old_blocks = lines_view(blocks@);
    let done = cur;
    blocks.push(done);
    assert(lines_view(blocks@) =~= old_blocks.push(done@));
    Some(blocks)
}

/// Appends the rows as text, as `rows_text` says.
pub fn append_rows_text(out: &mut Vec<char>, rows: &Vec<Vec<Cell>>, width: usize, j: Justify)
    ensures
        final(out)@ == old(out)@ + rows_text(rows_view(rows@), width as int, j, rows@.len() as int),
{
    let ghost rv = rows_view(rows@);
    let ghost start = out@;
    let mut k: usize = 0;
    while k < rows.len()
        invariant
            k <= rows@.len(),
            rv == rows_view(rows@),
            out@ == start + rows_text(rv, width as int, j, k as int),
        decreases rows@.len() - k,
    {
        let row = &rows[k];
        assert(row@ == rv[k as int]);
        let ghost before = out@;
        let mut text: Vec<char> = Vec::new();
        let mut i: usize = 0;
        while i < row.len()
            invariant
                i <= row@.len(),
                text@ == cells_text(row@.take(i as int)),
            decreases row@.len() - i,
        {
            let c = match row[i] {
                Cell::Ink(x) => x,
                _ => ' ',
            };
            text.push(c);
            proof {
                assert(row@.take(i + 1) == row@.take(i as int).push(row@[i as int]));
                assert(cells_text(row@.take(i + 1)) =~= cells_text(row@.take(i as int)).push(c));
            }
            i = i + 1;
        }
        assert(row@.take(row@.len() as int) == row@);
        append_padded(out, &text, width, j);
        out.push('\n');
        proof {
            assert(out@ =~= start + rows_text(rv, width as int, j, k + 1));
        }
        k = k + 1;
    }
}

/// Appends `text` padded as `pad_row` says.
fn append_padded(out: &mut Vec<char>, text: &Vec<char>, width: usize, j: Justify)
    ensures
        final(out)@ == old(out)@ + pad_row(text@, width as int, j),
{
    let ghost before = out@;
    let ghost t = text@;
    let len = text.len();
    if len < width {
        let free = width - len;
        let (left, right): (usize, usize) = match j {
            Justify::Right => (free, 0),
            Justify::Center => (free / 2, free - free / 2),
            _ => (0, free),
        };
        push_spaces(out, left);
        append_chars(out, text);
        push_spaces(out, right);
        proof {
            let padded = pad_row(t, width as int, j);
            match j {
                Justify::Right => {
                    assert(spaces(0) =~= Seq::<char>::empty());
                    assert(padded == spaces(free as int) + t);
                },
                Justify::Center => {
                    assert(padded == spaces((free / 2) as int) + t + spaces(
                        (free - free / 2) as int,
                    ));
                },
                _ => {
                    assert(spaces(0) =~= Seq::<char>::empty());
                    assert(padded =~= spaces(0) + t + spaces(free as int));
                },
            }
            assert(out@ =~= before + padded);
        }
    } else {
        append_chars(out, text);
    }
}

fn push_spaces(out: &mut Vec<char>, n: usize)
    ensures
        final(out)@ == old(out)@ + spaces(n as int),
{
    let ghost start = out@;
    let mut i: usize = 0;
    while i < n
        invariant
            i <= n,
            out@ == start + spaces(i as int),
        decreases n - i,
    {
        out.push(' ');
        assert(spaces(i + 1) =~= spaces(i as int).push(' '));
        i = i + 1;
    }
}

proof fn lemma_blocks_none_stays(
    font: FIGfont,
    cfg: RenderConfig,
    blocks: Seq<Seq<char>>,
    j: Justify,
    a: int,
    b: int,
)
    requires
        0 <= a <= b,
        blocks_text(font, cfg, blocks, j, a) is None,
    ensures
        blocks_text(font, cfg, blocks, j, b) is None,
    decreases b - a,
{
    if a < b {
        lemma_blocks_none_stays(font, cfg, blocks, j, a, b - 1);
    }
}

proof fn lemma_units_none_stays(font: FIGfont, cfg: RenderConfig, units: Seq<Seq<char>>, a: int, b: int)
    requires
        0 <= a <= b,
        units_text(font, cfg, units, a) is None,
    ensures
        units_text(font, cfg, units, b) is None,
    decreases b - a,
{
    if a < b {
        lemma_units_none_stays(font, cfg, units, a, b - 1);
    }
}

/// Appends the text of the blocks, as `blocks_text` says; `false` where a
/// block is too wide, and then `out` holds a part of the text.
fn append_blocks_text(
    font: &FIGfont,
    cfg: &RenderConfig,
    blocks: &Vec<Vec<char>>,
    j: Justify,
    out: &mut Vec<char>,
) -> (ok: bool)
    requires
        font.wf(),
        forall|i: int| 0 <= i < blocks@.len() ==> all_glyphs((#[trigger] blocks@[i])@),
    ensures
        match blocks_text(*font, *cfg, lines_view(blocks@), j, blocks@.len() as int) {
            None => !ok,
            Some(t) => ok && final(out)@ == old(out)@ + t,
        },
{
    let ghost bs = lines_view(blocks@);
    let ghost start = out@;
    let mut k: usize = 0;
    while k < blocks.len()
        invariant
            font.wf(),
            bs == lines_view(blocks@),
            forall|i: int| 0 <= i < blocks@.len() ==> all_glyphs((#[trigger] blocks@[i])@),
            k <= blocks@.len(),
            blocks_text(*font, *cfg, bs, j, k as int) matches Some(t) && out@ == start + t,
        decreases blocks@.len() - k,
    {
        assert(bs[k as int] == blocks@[k as int]@);
        match font.block_layout_exec(cfg, &blocks[k]) {
            None => {
                proof {
                    lemma_blocks_none_stays(*font, *cfg, bs, j, k + 1, blocks@.len() as int);
                }
                return false;
            },
            Some(rows) => {
                let ghost before = out@;
                append_rows_text(out, &rows, cfg.width, j);
                proof {
                    let t = blocks_text(*font, *cfg, bs, j, k as int).unwrap();
                    assert(out@ =~= start + (t + rows_text(
                        rows_view(rows@),
                        cfg.width as int,
                        j,
                        rows@.len() as int,
                    )));
                }
            },
        }
        k = k + 1;
    }
    true
}

impl FIGfont {
    /// Renders `text`: every line (or, in paragraph mode, every paragraph) is
    /// wrapped at word boundaries into blocks no wider than `cfg.width`
    /// where that can be, each block is laid out under `cfg.spacing`,
    /// aligned and written out one row per line.
    pub fn render(&self, text: &str, cfg: &RenderConfig) -> (r: Result<String, FontConvertError>)
        requires
            self.wf(),
        ensures
            match render_spec(*self, text@, *cfg) {
                Ok(t) => r matches Ok(s) && s@ == t,
                Err(e) => r == Err::<String, FontConvertError>(e),
            },
    {
        let chars = str_to_chars(text);
        let lines = split_lines(&chars);
        let ghost ls = lines_view(lines@);
        if let Some(c) = find_missing(&lines) {
            return Err(FontConvertError::MissingCharacter(c));
        }
        let units = match cfg.mode {
            Mode::Normal => lines,
            Mode::Paragraph => join_paragraphs(&lines),
        };
        let ghost us = lines_view(units@);
        assert(us == text_units(ls, cfg.mode));
        proof {
            lemma_units_have_glyphs(ls, cfg.mode);
        }
        let mut out: Vec<char> = Vec::new();
        let mut k: usize = 0;
        while k < units.len()
            invariant
                self.wf(),
                ls == text_lines(text@),
                first_missing(ls) is None,
                us == text_units(ls, cfg.mode),
                us == lines_view(units@),
                forall|i: int| 0 <= i < us.len() ==> all_glyphs(#[trigger] us[i]),
                k <= units@.len(),
                units_text(*self, *cfg, us, k as int) matches Some(t) && out@ == t,
            decreases units@.len() - k,
        {
            assert(us[k as int] == units@[k as int]@);
            let ghost before = out@;
            let ok = match wrap_unit(self, cfg, &units[k]) {
                None => false,
                Some(blocks) => {
                    let j = match cfg.justify {
                        Justify::Auto => if blocks.len() != 1 {
                            Justify::Left
                        } else if self.is_right_to_left(cfg) {
                            Justify::Right
                        } else {
                            Justify::Center
                        },
                        other => other,
                    };
                    assert(j == resolved_justify(*self, *cfg, blocks@.len() as int));
                    append_blocks_text(self, cfg, &blocks, j, &mut out)
                },
            };
            proof {
                let ut = unit_text(*self, *cfg, us[k as int]);
                if ok {
                    assert(ut matches Some(u) && out@ == before + u);
                } else {
                    assert(ut is None);
                }
            }
            if !ok {
                proof {
                    lemma_units_none_stays(*self, *cfg, us, k + 1, us.len() as int);
                }
                return Err(FontConvertError::LineTooWide);
            }
            k = k + 1;
        }
        Ok(chars_to_string(&out))
    }
}

/// The settings under which `convert` lays out text: full width, left to
/// right, no padding.
pub open spec fn plain_config() -> RenderConfig {
    RenderConfig {
        width: 0,
        justify: Justify::Left,
        mode: Mode::Normal,
        direction: Direction::LeftToRight,
        spacing: Spacing::FullWidth,
        rules: None,
    }
}

/// What `convert` gives: every line laid out at full width as one block.
pub open spec fn convert_spec(font: FIGfont, text: Seq<char>) -> Result<Seq<char>, FontConvertError> {
    let lines = text_lines(text);
    match first_missing(lines) {
        Some(c) => Err(FontConvertError::MissingCharacter(c)),
        None => match blocks_text(font, plain_config(), lines, Justify::Left, lines.len() as int) {
            None => Err(FontConvertError::LineTooWide),
            Some(t) => Ok(t),
        },
    }
}

impl FIGfont {
    /// Renders every line of `text` at full width, glyph beside glyph,
    /// without wrapping or padding.
    pub fn convert(&self, text: &str) -> (r: Result<String, FontConvertError>)
        requires
            self.wf(),
        ensures
            match convert_spec(*self, text@) {
                Ok(t) => r matches Ok(s) && s@ == t,
                Err(e) => r == Err::<String, FontConvertError>(e),
            },
    {
        let chars = str_to_chars(text);
        let lines = split_lines(&chars);
        let ghost ls = lines_view(lines@);
        if let Some(c) = find_missing(&lines) {
            return Err(FontConvertError::MissingCharacter(c));
        }
        proof {
            lemma_lines_have_glyphs(ls);
        }
        assert(forall|i: int| 0 <= i < lines@.len() ==> #[trigger] ls[i] == lines@[i]@);
        assert forall|i: int| 0 <= i < lines@.len() implies all_glyphs((#[trigger] lines@[i])@) by {
            assert(all_glyphs(ls[i]));
        }
        let cfg = RenderConfig {
            width: 0,
            justify: Justify::Left,
            mode: Mode::Normal,
            direction: Direction::LeftToRight,
            spacing: Spacing::FullWidth,
            rules: None,
        };
        let mut out: Vec<char> = Vec::new();
        if append_blocks_text(self, &cfg, &lines, Justify::Left, &mut out) {
            Ok(chars_to_string(&out))
        } else {
            Err(FontConvertError::LineTooWide)
        }
    }
}

} // verus!

verus! {

proof fn lemma_first_missing_in_some(s: Seq<char>, j: int)
    requires
        0 <= j < s.len(),
        !has_glyph(s[j]),
    ensures
        first_missing_in(s) is Some,
    decreases s.len(),
{
    if j < s.len() - 1 {
        assert(s.drop_last()[j] == s[j]);
        lemma_first_missing_in_some(s.drop_last(), j);
    }
}

proof fn lemma_first_missing_some(lines: Seq<Seq<char>>, i: int, j: int)
    requires
        0 <= i < lines.len(),
        0 <= j < lines[i].len(),
        !has_glyph(lines[i][j]),
    ensures
        first_missing(lines) matches Some(c) && !has_glyph(c) && exists|i2: int, j2: int|
            0 <= i2 < lines.len() && 0 <= j2 < lines[i2].len() && #[trigger] lines[i2][j2] == c,
    decreases lines.len(),
{
    if i < lines.len() - 1 {
        assert(lines.drop_last()[i] == lines[i]);
        lemma_first_missing_some(lines.drop_last(), i, j);
        let c = first_missing(lines.drop_last()).unwrap();
        let (i2, j2) = choose|i2: int, j2: int|
            0 <= i2 < lines.drop_last().len() && 0 <= j2 < lines.drop_last()[i2].len()
                && #[trigger] lines.drop_last()[i2][j2] == c;
        assert(lines[i2][j2] == c);
    } else if first_missing(lines.drop_last()) is Some {
        lemma_first_missing_any(lines.drop_last());
        let c = first_missing(lines.drop_last()).unwrap();
        let (i2, j2) = choose|i2: int, j2: int|
            0 <= i2 < lines.drop_last().len() && 0 <= j2 < lines.drop_last()[i2].len()
                && #[trigger] lines.drop_last()[i2][j2] == c;
        assert(lines[i2][j2] == c);
    } else {
        lemma_first_missing_in_some(lines.last(), j);
        lemma_first_missing_in_found(lines.last());
        let c = first_missing_in(lines.last()).unwrap();
        let j2 = choose|j2: int| 0 <= j2 < lines.last().len() && lines.last()[j2] == c;
        assert(lines[lines.len() - 1][j2] == c);
    }
}

proof fn lemma_first_missing_any(lines: Seq<Seq<char>>)
    requires
        first_missing(lines) is Some,
    ensures
        first_missing(lines) matches Some(c) && !has_glyph(c) && exists|i2: int, j2: int|
            0 <= i2 < lines.len() && 0 <= j2 < lines[i2].len() && #[trigger] lines[i2][j2] == c,
    decreases lines.len(),
{
    if first_missing(lines.drop_last()) is Some {
        lemma_first_missing_any(lines.drop_last());
        let c = first_missing(lines.drop_last()).unwrap();
        let (i2, j2) = choose|i2: int, j2: int|
            0 <= i2 < lines.drop_last().len() && 0 <= j2 < lines.drop_last()[i2].len()
                && #[trigger] lines.drop_last()[i2][j2] == c;
        assert(lines[i2][j2] == c);
    } else {
        lemma_first_missing_in_found(lines.last());
        let c = first_missing_in(lines.last()).unwrap();
        let j2 = choose|j2: int| 0 <= j2 < lines.last().len() && lines.last()[j2] == c;
        assert(lines[lines.len() - 1][j2] == c);
    }
}

/// Rendering a text in which some line holds a character without a glyph
/// fails, whatever the configuration: the error names a character of the
/// text that has no glyph (the first one), so where that is the only such
/// character it is the one named, and no text is produced.
pub proof fn lemma_missing_character_fails(
    font: FIGfont,
    text: Seq<char>,
    cfg: RenderConfig,
    i: int,
    j: int,
)
    requires
        0 <= i < text_lines(text).len(),
        0 <= j < text_lines(text)[i].len(),
        !has_glyph(text_lines(text)[i][j]),
    ensures
        render_spec(font, text, cfg) matches Err(FontConvertError::MissingCharacter(c)) && !has_glyph(
            c,
        ) && exists|i2: int, j2: int|
            0 <= i2 < text_lines(text).len() && 0 <= j2 < text_lines(text)[i2].len()
                && #[trigger] text_lines(text)[i2][j2] == c,
        (forall|i2: int, j2: int|
            0 <= i2 < text_lines(text).len() && 0 <= j2 < text_lines(text)[i2].len() && !has_glyph(
                #[trigger] text_lines(text)[i2][j2],
            ) ==> text_lines(text)[i2][j2] == text_lines(text)[i][j]) ==> render_spec(
            font,
            text,
            cfg,
        ) == Err::<Seq<char>, FontConvertError>(
            FontConvertError::MissingCharacter(text_lines(text)[i][j]),
        ),
{
    lemma_first_missing_some(text_lines(text), i, j);
}

} // verus!

verus! {

pub open spec fn cells_free(s: Seq<Cell>, hb: char) -> bool {
    forall|x: int| 0 <= x < s.len() ==> s[x] != Cell::Ink(hb)
}

pub open spec fn text_free(t: Seq<char>, hb: char) -> bool {
    forall|i: int| 0 <= i < t.len() ==> t[i] != hb
}

proof fn lemma_text_free_concat(a: Seq<char>, b: Seq<char>, hb: char)
    requires
        text_free(a, hb),
        text_free(b, hb),
    ensures
        text_free(a + b, hb),
{
    assert forall|i: int| 0 <= i < (a + b).len() implies (a + b)[i] != hb by {
        if i >= a.len() {
            assert((a + b)[i] == b[i - a.len()]);
        }
    }
}

proof fn lemma_cells_free_concat(a: Seq<Cell>, b: Seq<Cell>, hb: char)
    requires
        cells_free(a, hb),
        cells_free(b, hb),
    ensures
        cells_free(a + b, hb),
{
    assert forall|i: int| 0 <= i < (a + b).len() implies (a + b)[i] != Cell::Ink(hb) by {
        if i >= a.len() {
            assert((a + b)[i] == b[i - a.len()]);
        }
    }
}

proof fn lemma_join_row_free(
    out: Seq<Cell>,
    row: Seq<Cell>,
    spacing: Spacing,
    rules: SmushRules,
    k: nat,
    hb: char,
)
    requires
        cells_free(out, hb),
        cells_free(row, hb),
        hb != '|',
        hb != 'X',
    ensures
        cells_free(crate::layout::join_row_spec(out, row, spacing, rules, k), hb),
{
    match spacing {
        Spacing::FullWidth => {
            lemma_cells_free_concat(out, row, hb);
        },
        Spacing::Kerning => {
            if out.len() > 0 {
                let a = out.take(out.len() - crate::layout::trailing_blanks(out));
                let b = crate::layout::blanks((crate::layout::gap(out, row) - k) as nat);
                let c = row.skip(crate::layout::leading_blanks(row) as int);
                crate::layout::lemma_blank_counts(out);
                crate::layout::lemma_blank_counts(row);
                assert forall|x: int| 0 <= x < a.len() implies a[x] != Cell::Ink(hb) by {
                    assert(a[x] == out[x]);
                }
                assert forall|x: int| 0 <= x < c.len() implies c[x] != Cell::Ink(hb) by {
                    assert(c[x] == row[x + crate::layout::leading_blanks(row)]);
                }
                lemma_cells_free_concat(a, b, hb);
                lemma_cells_free_concat(a + b, c, hb);
            } else {
                lemma_cells_free_concat(out, row, hb);
            }
        },
        _ => {
            let force = spacing == Spacing::ForceSmushing;
            if crate::layout::row_merges(out, row, rules, force) {
                let m = crate::layout::merge_spec(out.last(), row[0], rules, force)->Merged_0;
                assert(m != Cell::Ink(hb));
                let a = out.drop_last().push(m);
                lemma_cells_free_concat(a, row.drop_first(), hb);
            } else {
                lemma_cells_free_concat(out, row, hb);
            }
        },
    }
}

proof fn lemma_line_rows_free(
    gs: Seq<Seq<Seq<Cell>>>,
    height: nat,
    spacing: Spacing,
    rules: SmushRules,
    k: int,
    hb: char,
)
    requires
        0 <= k <= gs.len(),
        glyphs_high(gs, height),
        forall|i: int, y: int| 0 <= i < gs.len() && 0 <= y < height ==> cells_free(#[trigger] gs[i][y], hb),
        hb != '|',
        hb != 'X',
    ensures
        forall|y: int| 0 <= y < height ==> cells_free(#[trigger] line_rows(gs, height, spacing, rules, k)[y], hb),
    decreases k,
{
    if k > 0 {
        lemma_line_rows_free(gs, height, spacing, rules, k - 1, hb);
        let outs = line_rows(gs, height, spacing, rules, k - 1);
        crate::layout::lemma_line_rows_len(gs, height, spacing, rules, k - 1);
        let kk = crate::layout::min_gap(outs, gs[k - 1], outs.len() as int);
        assert forall|y: int| 0 <= y < height implies cells_free(
            #[trigger] line_rows(gs, height, spacing, rules, k)[y],
            hb,
        ) by {
            lemma_join_row_free(outs[y], gs[k - 1][y], spacing, rules, kk, hb);
            assert(line_rows(gs, height, spacing, rules, k)[y] == crate::layout::join_row_spec(
                outs[y],
                gs[k - 1][y],
                spacing,
                rules,
                kk,
            ));
        }
    } else {
        assert forall|y: int| 0 <= y < height implies cells_free(
            #[trigger] line_rows(gs, height, spacing, rules, k)[y],
            hb,
        ) by {}
    }
}

proof fn lemma_block_layout_free(font: FIGfont, cfg: RenderConfig, s: Seq<char>)
    requires
        font.wf(),
        font.ink_free(),
        all_glyphs(s),
        font.header.hardblank != '|',
        font.header.hardblank != 'X',
    ensures
        block_layout(font, cfg, s) matches Some(rows) ==> forall|y: int|
            0 <= y < rows.len() ==> cells_free(#[trigger] rows[y], font.header.hardblank),
{
    let rtl = right_to_left(font, cfg);
    let ids = glyph_ids(s, rtl);
    assert forall|k: int| 0 <= k < ids.len() implies (#[trigger] ids[k]) < 95 by {
        if rtl {
            assert(has_glyph(s[s.len() - 1 - k]));
        } else {
            assert(has_glyph(s[k]));
        }
    }
    let gs = ids_view(font.characters@, ids);
    let h = font.header.height as nat;
    lemma_ids_high(font, ids);
    assert forall|i: int, y: int| 0 <= i < gs.len() && 0 <= y < h implies cells_free(
        #[trigger] gs[i][y],
        font.header.hardblank,
    ) by {
        let g = font.characters@[ids[i] as int];
        assert(gs[i][y] == g.char_lines@[y]@);
        assert forall|x: int| 0 <= x < gs[i][y].len() implies gs[i][y][x] != Cell::Ink(
            font.header.hardblank,
        ) by {
            assert(font.characters@[ids[i] as int].char_lines@[y]@[x] == gs[i][y][x]);
        }
    }
    crate::layout::lemma_line_rows_len(gs, h, cfg.spacing, effective_rules(font, cfg), gs.len() as int);
    lemma_line_rows_free(gs, h, cfg.spacing, effective_rules(font, cfg), gs.len() as int, font.header.hardblank);
}

proof fn lemma_rows_text_free(rows: Seq<Seq<Cell>>, width: int, j: Justify, k: int, hb: char)
    requires
        0 <= k <= rows.len(),
        forall|y: int| 0 <= y < rows.len() ==> cells_free(#[trigger] rows[y], hb),
        hb != ' ',
        hb != '\n',
    ensures
        text_free(rows_text(rows, width, j, k), hb),
    decreases k,
{
    if k > 0 {
        lemma_rows_text_free(rows, width, j, k - 1, hb);
        let row = rows[k - 1];
        let t = cells_text(row);
        assert forall|x: int| 0 <= x < t.len() implies t[x] != hb by {
            assert(row[x] != Cell::Ink(hb));
        }
        let p = pad_row(t, width, j);
        if t.len() < width {
            let free = width - t.len();
            lemma_text_free_concat(spaces(free), t, hb);
            lemma_text_free_concat(t, spaces(free), hb);
            lemma_text_free_concat(spaces(free / 2), t, hb);
            lemma_text_free_concat(spaces(free / 2) + t, spaces(free - free / 2), hb);
        }
        lemma_text_free_concat(rows_text(rows, width, j, k - 1), p, hb);
        lemma_text_free_concat(rows_text(rows, width, j, k - 1) + p, seq!['\n'], hb);
    }
}

proof fn lemma_blocks_text_free(
    font: FIGfont,
    cfg: RenderConfig,
    blocks: Seq<Seq<char>>,
    j: Justify,
    k: int,
)
    requires
        font.wf(),
        font.ink_free(),
        0 <= k <= blocks.len(),
        forall|i: int| 0 <= i < blocks.len() ==> all_glyphs(#[trigger] blocks[i]),
        font.header.hardblank != '|',
        font.header.hardblank != 'X',
        font.header.hardblank != ' ',
        font.header.hardblank != '\n',
    ensures
        blocks_text(font, cfg, blocks, j, k) matches Some(t) ==> text_free(t, font.header.hardblank),
    decreases k,
{
    if k > 0 {
        lemma_blocks_text_free(font, cfg, blocks, j, k - 1);
        lemma_block_layout_free(font, cfg, blocks[k - 1]);
        if let Some(t) = blocks_text(font, cfg, blocks, j, k - 1) {
            if let Some(rows) = block_layout(font, cfg, blocks[k - 1]) {
                lemma_rows_text_free(rows, cfg.width as int, j, rows.len() as int, font.header.hardblank);
                lemma_text_free_concat(t, rows_text(rows, cfg.width as int, j, rows.len() as int), font.header.hardblank);
            }
        }
    }
}

proof fn lemma_wrap_has_glyphs(font: FIGfont, cfg: RenderConfig, words: Seq<Seq<char>>, k: int)
    requires
        0 <= k <= words.len(),
        forall|i: int| 0 <= i < words.len() ==> all_glyphs(#[trigger] words[i]),
    ensures
        wrap_state(font, cfg, words, k) matches Some((bs, cur)) ==> all_glyphs(cur) && forall|i: int|
            0 <= i < bs.len() ==> all_glyphs(#[trigger] bs[i]),
    decreases k,
{
    if k > 1 {
        lemma_wrap_has_glyphs(font, cfg, words, k - 1);
        if let Some((bs, cur)) = wrap_state(font, cfg, words, k - 1) {
            let w = words[k - 1];
            assert(all_glyphs(cur + seq![' '] + w));
        }
    }
}

proof fn lemma_units_text_free(font: FIGfont, cfg: RenderConfig, units: Seq<Seq<char>>, k: int)
    requires
        font.wf(),
        font.ink_free(),
        0 <= k <= units.len(),
        forall|i: int| 0 <= i < units.len() ==> all_glyphs(#[trigger] units[i]),
        font.header.hardblank != '|',
        font.header.hardblank != 'X',
        font.header.hardblank != ' ',
        font.header.hardblank != '\n',
    ensures
        units_text(font, cfg, units, k) matches Some(t) ==> text_free(t, font.header.hardblank),
    decreases k,
{
    if k > 0 {
        lemma_units_text_free(font, cfg, units, k - 1);
        let u = units[k - 1];
        let words = split_on(u, ' ');
        lemma_split_has_glyphs(u, ' ');
        lemma_wrap_has_glyphs(font, cfg, words, words.len() as int);
        if let Some(bs) = wrap_blocks(font, cfg, u) {
            let jj = resolved_justify(font, cfg, bs.len() as int);
            assert(forall|i: int| 0 <= i < bs.len() ==> all_glyphs(#[trigger] bs[i]));
            lemma_blocks_text_free(font, cfg, bs, jj, bs.len() as int);
        }
        if let Some(t) = units_text(font, cfg, units, k - 1) {
            if let Some(ut) = unit_text(font, cfg, u) {
                lemma_text_free_concat(t, ut, font.header.hardblank);
            }
        }
    }
}

/// Hardblank cells show as spaces: the text of a successful render never
/// holds the font's hardblank character. (Smushing may create `|` and `X`,
/// so this holds for every hardblank character but those two.)
pub proof fn lemma_hardblank_never_shown(font: FIGfont, text: Seq<char>, cfg: RenderConfig)
    requires
        font.wf(),
        font.ink_free(),
        font.header.hardblank != ' ',
        font.header.hardblank != '\n',
        font.header.hardblank != '|',
        font.header.hardblank != 'X',
    ensures
        render_spec(font, text, cfg) matches Ok(t) ==> !t.contains(font.header.hardblank),
{
    let lines = text_lines(text);
    if first_missing(lines) is None {
        lemma_units_have_glyphs(lines, cfg.mode);
        let units = text_units(lines, cfg.mode);
        lemma_units_text_free(font, cfg, units, units.len() as int);
    }
}

} // verus!

verus! {

proof fn lemma_glyph_ids_in_range(s: Seq<char>, rtl: bool)
    requires
        all_glyphs(s),
    ensures
        glyph_ids(s, rtl).len() == s.len(),
        forall|k: int| 0 <= k < glyph_ids(s, rtl).len() ==> (#[trigger] glyph_ids(s, rtl)[k]) < 95,
{
    let ids = glyph_ids(s, rtl);
    assert forall|k: int| 0 <= k < ids.len() implies (#[trigger] ids[k]) < 95 by {
        if rtl {
            assert(has_glyph(s[s.len() - 1 - k]));
        } else {
            assert(has_glyph(s[k]));
        }
    }
}

/// Laid out at full width, every row of a line of text is exactly as wide as
/// the glyphs of its characters together: no column is merged.
pub proof fn lemma_full_width_line(font: FIGfont, cfg: RenderConfig, s: Seq<char>)
    requires
        font.wf(),
        all_glyphs(s),
        cfg.spacing == Spacing::FullWidth,
    ensures
        block_layout(font, cfg, s) matches Some(rows) ==> forall|y: int|
            0 <= y < rows.len() ==> (#[trigger] rows[y]).len() == sum_widths(
                font,
                glyph_ids(s, right_to_left(font, cfg)),
                s.len() as int,
            ),
{
    let ids = glyph_ids(s, right_to_left(font, cfg));
    lemma_glyph_ids_in_range(s, right_to_left(font, cfg));
    lemma_ids_high(font, ids);
    let gs = ids_view(font.characters@, ids);
    let h = font.header.height as nat;
    crate::layout::lemma_line_rows_len(gs, h, cfg.spacing, effective_rules(font, cfg), gs.len() as int);
    assert forall|y: int| 0 <= y < h implies (#[trigger] line_rows(
        gs,
        h,
        cfg.spacing,
        effective_rules(font, cfg),
        gs.len() as int,
    )[y]).len() == sum_widths(font, ids, s.len() as int) by {
        crate::layout::lemma_full_width_row_len(gs, h, effective_rules(font, cfg), y);
        lemma_sum_row_len_is_widths(font, ids, y, ids.len() as int);
    }
}

/// Under smushing every row of a line of text is the width of its glyphs
/// together less the number of column pairs that merged in that row, and so
/// never wider than at full width.
pub proof fn lemma_smushing_line(font: FIGfont, cfg: RenderConfig, s: Seq<char>)
    requires
        font.wf(),
        all_glyphs(s),
        cfg.spacing == Spacing::Smushing || cfg.spacing == Spacing::ForceSmushing,
    ensures
        block_layout(font, cfg, s) matches Some(rows) ==> forall|y: int|
            0 <= y < rows.len() ==> (#[trigger] rows[y]).len() + crate::layout::merged_count(
                ids_view(font.characters@, glyph_ids(s, right_to_left(font, cfg))),
                font.header.height as nat,
                effective_rules(font, cfg),
                cfg.spacing == Spacing::ForceSmushing,
                y,
                s.len() as int,
            ) == sum_widths(font, glyph_ids(s, right_to_left(font, cfg)), s.len() as int)
                && rows[y].len() <= sum_widths(
                font,
                glyph_ids(s, right_to_left(font, cfg)),
                s.len() as int,
            ),
{
    let ids = glyph_ids(s, right_to_left(font, cfg));
    lemma_glyph_ids_in_range(s, right_to_left(font, cfg));
    lemma_ids_high(font, ids);
    let gs = ids_view(font.characters@, ids);
    let h = font.header.height as nat;
    let rules = effective_rules(font, cfg);
    let force = cfg.spacing == Spacing::ForceSmushing;
    crate::layout::lemma_line_rows_len(gs, h, cfg.spacing, rules, gs.len() as int);
    assert forall|y: int| 0 <= y < h implies (#[trigger] line_rows(
        gs,
        h,
        cfg.spacing,
        rules,
        gs.len() as int,
    )[y]).len() + crate::layout::merged_count(gs, h, rules, force, y, s.len() as int) == sum_widths(
        font,
        ids,
        s.len() as int,
    ) && line_rows(gs, h, cfg.spacing, rules, gs.len() as int)[y].len() <= sum_widths(
        font,
        ids,
        s.len() as int,
    ) by {
        crate::layout::lemma_smushing_row_len(gs, h, rules, force, y);
        crate::layout::lemma_full_width_row_len(gs, h, rules, y);
        lemma_sum_row_len_is_widths(font, ids, y, ids.len() as int);
    }
}

} // verus!

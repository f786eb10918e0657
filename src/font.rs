use vstd::prelude::*;

use crate::chars::{Cell, CharacterParseError, FIGcharacter, character_matches, rows_long_enough};
use crate::header::{HeaderParseError, RawHeader, header_error_matches, header_matches, header_valid};
use crate::text::{chars_to_string, lines_view, split_lines, str_to_chars, text_lines};

verus! {

/// The first character code every font defines.
pub const FIRST_CODE: u32 = 32;

/// How many characters every font defines: the codes 32 to 126.
pub const REQUIRED_CHARS: usize = 95;

/// A font: its header, its comment block and one glyph for each of the codes
/// 32 to 126, glyph `i` standing for code `32 + i`.
#[derive(Debug)]
pub struct FIGfont {
    pub header: RawHeader,
    pub comments: String,
    pub characters: Vec<FIGcharacter>,
}

#[derive(Debug)]
pub enum FontLoadError {
    EmptyString,
    MissingHeader,
    HeaderError(HeaderParseError),
    CharacterError(CharacterParseError),
}

/// The first line of the glyph of code `32 + i`.
pub open spec fn glyph_start(comment_lines: int, height: int, i: int) -> int {
    1 + comment_lines + i * height
}

/// The lines that hold the glyph of code `32 + i`.
pub open spec fn glyph_lines(lines: Seq<Seq<char>>, comment_lines: int, height: int, i: int) -> Seq<
    Seq<char>,
> {
    let s = glyph_start(comment_lines, height, i);
    lines.subrange(s, s + height)
}

/// The glyph of code `32 + i` is all there and every row of it is long
/// enough.
pub open spec fn glyph_ok(lines: Seq<Seq<char>>, comment_lines: int, height: int, i: int) -> bool {
    &&& glyph_start(comment_lines, height, i) + height <= lines.len()
    &&& rows_long_enough(glyph_lines(lines, comment_lines, height, i), height, height)
}

/// The error the glyph of code `32 + i` gives when it is not `glyph_ok`.
pub open spec fn glyph_error_matches(
    e: CharacterParseError,
    lines: Seq<Seq<char>>,
    comment_lines: int,
    height: int,
    i: int,
) -> bool {
    let code = (32 + i) as u32;
    if glyph_start(comment_lines, height, i) + height > lines.len() {
        e == CharacterParseError::MissingRows(code)
    } else {
        let gl = glyph_lines(lines, comment_lines, height, i);
        exists|x: int|
            0 <= x < height && rows_long_enough(gl, height, x) && #[trigger] gl[x].len()
                < crate::chars::terminator_len(height, x, height) && e
                == CharacterParseError::RowTooShort(code, x as usize)
    }
}

/// The lines `[from, to)` joined with line feeds.
pub open spec fn join_lines(lines: Seq<Seq<char>>, from: int, to: int) -> Seq<char>
    decreases to - from,
{
    if to <= from {
        Seq::<char>::empty()
    } else if to == from + 1 {
        lines[from]
    } else {
        join_lines(lines, from, to - 1) + seq!['\n'] + lines[to - 1]
    }
}

impl FIGfont {
    /// A font as loading builds it: 95 glyphs, glyph `i` of code `32 + i`,
    /// each exactly `height` rows of `width` cells.
    pub open spec fn wf(&self) -> bool {
        &&& self.characters@.len() == REQUIRED_CHARS
        &&& forall|i: int|
            0 <= i < REQUIRED_CHARS ==> {
                let g = #[trigger] self.characters@[i];
                &&& g.code == 32 + i
                &&& g.char_lines@.len() == self.header.height
                &&& forall|y: int|
                    0 <= y < self.header.height ==> (#[trigger] g.char_lines@[y])@.len()
                        == g.width
            }
    }

    /// No glyph cell is ink of the hardblank character: that character
    /// always reads as `Cell::Hardblank`.
    pub open spec fn ink_free(&self) -> bool {
        forall|i: int, y: int, x: int|
            0 <= i < self.characters@.len() && 0 <= y < self.characters@[i].char_lines@.len() && 0
                <= x < self.characters@[i].char_lines@[y]@.len() ==> #[trigger] self.characters@[i].char_lines@[y]@[x]
                != Cell::Ink(self.header.hardblank)
    }

    /// Everything that loading the font text `text` gives, when it succeeds.
    pub open spec fn loaded_from(&self, text: Seq<char>) -> bool {
        let lines = text_lines(text);
        let cl = self.header.comment_lines as int;
        let h = self.header.height as int;
        &&& header_matches(self.header, lines[0])
        &&& self.comments@ == join_lines(lines, 1, 1 + cl)
        &&& self.characters@.len() == REQUIRED_CHARS
        &&& forall|i: int|
            0 <= i < REQUIRED_CHARS ==> character_matches(
                #[trigger] self.characters@[i],
                glyph_lines(lines, cl, h, i),
                (32 + i) as u32,
                h,
                self.header.hardblank,
            )
    }
}

/// The header is valid and every glyph is there and long enough.
pub open spec fn font_text_valid(text: Seq<char>) -> bool {
    let lines = text_lines(text);
    &&& text.len() > 0
    &&& lines.len() > 0
    &&& header_valid(lines[0])
    &&& forall|i: int|
        0 <= i < REQUIRED_CHARS ==> #[trigger] glyph_ok(
            lines,
            crate::header::segment_value(crate::header::header_segments(lines[0]), 5)->Ok_0,
            crate::header::segment_value(crate::header::header_segments(lines[0]), 1)->Ok_0,
            i,
        )
}

/// The error that loading `text` gives: the first check that fails decides,
/// the glyphs in the order of their codes.
pub open spec fn load_error_matches(e: FontLoadError, text: Seq<char>) -> bool {
    let lines = text_lines(text);
    if text.len() == 0 {
        e is EmptyString
    } else if lines.len() == 0 {
        e is MissingHeader
    } else if !header_valid(lines[0]) {
        e matches FontLoadError::HeaderError(he) && header_error_matches(he, lines[0])
    } else {
        let cl = crate::header::segment_value(crate::header::header_segments(lines[0]), 5)->Ok_0;
        let h = crate::header::segment_value(crate::header::header_segments(lines[0]), 1)->Ok_0;
        exists|i: int|
            0 <= i < REQUIRED_CHARS && (forall|j: int|
                0 <= j < i ==> #[trigger] glyph_ok(lines, cl, h, j)) && !glyph_ok(lines, cl, h, i)
                && (e matches FontLoadError::CharacterError(ce) && glyph_error_matches(
                ce,
                lines,
                cl,
                h,
                i,
            ))
    }
}

/// Joins the lines `[from, to)` with line feeds.
fn join_lines_exec(lines: &Vec<Vec<char>>, from: usize, to: usize) -> (r: Vec<char>)
    requires
        from <= to <= lines@.len(),
    ensures
        r@ == join_lines(lines_view(lines@), from as int, to as int),
{
    let ghost ls = lines_view(lines@);
    let mut r: Vec<char> = Vec::new();
    let mut k: usize = from;
    while k < to
        invariant
            from <= k <= to <= lines@.len(),
            ls == lines_view(lines@),
            r@ == join_lines(ls, from as int, k as int),
        decreases to - k,
    {
        let ghost before = r@;
        if k > from {
            r.push('\n');
        }
        let line = &lines[k];
        assert(line@ == ls[k as int]);
        let mut j: usize = 0;
        let ghost mid = r@;
        while j < line.len()
            invariant
                j <= line@.len(),
                r@ == mid + line@.take(j as int),
            decreases line@.len() - j,
        {
            r.push(line[j]);
            proof {
                assert(line@.take(j + 1) == line@.take(j as int).push(line@[j as int]));
            }
            j = j + 1;
        }
        proof {
            assert(line@.take(line@.len() as int) == line@);
            if k > from {
                assert(mid == before + seq!['\n']);
            } else {
                assert(before == Seq::<char>::empty());
                assert(r@ == line@);
            }
        }
        k = k + 1;
    }
    r
}

impl FIGfont {
    /// Reads the glyphs of codes 32 to 126, in that order, from the lines
    /// after the header and the comment block.
    fn read_required_characters(lines: &Vec<Vec<char>>, header: &RawHeader) -> (r: Result<
        Vec<FIGcharacter>,
        FontLoadError,
    >)
        ensures
            ({
                let ls = lines_view(lines@);
                let cl = header.comment_lines as int;
                let h = header.height as int;
                &&& r is Ok <==> forall|i: int| 0 <= i < REQUIRED_CHARS ==> #[trigger] glyph_ok(ls, cl, h, i)
                &&& r matches Ok(v) ==> v@.len() == REQUIRED_CHARS && forall|i: int|
                    0 <= i < REQUIRED_CHARS ==> character_matches(
                        #[trigger] v@[i],
                        glyph_lines(ls, cl, h, i),
                        (32 + i) as u32,
                        h,
                        header.hardblank,
                    )
                &&& r matches Err(e) ==> exists|i: int|
                    0 <= i < REQUIRED_CHARS && (forall|j: int|
                        0 <= j < i ==> #[trigger] glyph_ok(ls, cl, h, j)) && !glyph_ok(ls, cl, h, i)
                        && (e matches FontLoadError::CharacterError(ce) && glyph_error_matches(
                        ce,
                        ls,
                        cl,
                        h,
                        i,
                    ))
            }),
    {
        let ghost ls = lines_view(lines@);
        let ghost cl = header.comment_lines as int;
        let ghost h = header.height as int;
        let offset = header.comment_lines as usize + 1;
        let char_height = header.height as usize;
        let mut v: Vec<FIGcharacter> = Vec::new();
        let mut i: usize = 0;
        while i < REQUIRED_CHARS
            invariant
                ls == lines_view(lines@),
                cl == header.comment_lines as int,
                h == header.height as int,
                offset == cl + 1,
                char_height == h,
                i <= REQUIRED_CHARS,
                v@.len() == i,
                forall|j: int| 0 <= j < i ==> #[trigger] glyph_ok(ls, cl, h, j),
                forall|j: int|
                    0 <= j < i ==> character_matches(
                        #[trigger] v@[j],
                        glyph_lines(ls, cl, h, j),
                        (32 + j) as u32,
                        h,
                        header.hardblank,
                    ),
            decreases REQUIRED_CHARS - i,
        {
            let code = FIRST_CODE + i as u32;
            assert(i * char_height <= 94 * 65535) by (nonlinear_arith)
                requires
                    i < 95,
                    char_height <= 65535,
            ;
            let start = offset + i * char_height;
            assert(start == glyph_start(cl, h, i as int));
            if start + char_height > lines.len() {
                assert(!glyph_ok(ls, cl, h, i as int));
                return Err(FontLoadError::CharacterError(CharacterParseError::MissingRows(code)));
            }
            let part = vstd::slice::slice_subrange(lines.as_slice(), start, start + char_height);
            assert(lines_view(part@) =~= glyph_lines(ls, cl, h, i as int));
            match FIGcharacter::from_lines(part, code, header) {
                Ok(g) => {
                    v.push(g);
                },
                Err(e) => {
                    proof {
                        let gl = glyph_lines(ls, cl, h, i as int);
                        let x = choose|x: int|
                            0 <= x < part@.len() && rows_long_enough(lines_view(part@), h, x)
                                && part@[x]@.len() < crate::chars::terminator_len(
                                h,
                                x,
                                part@.len() as int,
                            ) && e == CharacterParseError::RowTooShort(code, x as usize);
                        assert(gl[x] == part@[x]@);
                        assert(rows_long_enough(gl, h, x));
                        assert(!glyph_ok(ls, cl, h, i as int));
                        assert(glyph_error_matches(e, ls, cl, h, i as int));
                    }
                    return Err(FontLoadError::CharacterError(e));
                },
            }
            i = i + 1;
        }
        Ok(v)
    }

    /// Loads a font from its text.
    pub fn load(text: &str) -> (r: Result<FIGfont, FontLoadError>)
        ensures
            r is Ok <==> font_text_valid(text@),
            r matches Ok(f) ==> f.loaded_from(text@) && f.wf() && f.ink_free()
                && f.header.hardblank != ' ' && f.header.hardblank != '\n',
            r matches Err(e) ==> load_error_matches(e, text@),
    {
        let chars = str_to_chars(text);
        if chars.len() == 0 {
            return Err(FontLoadError::EmptyString);
        }
        let lines = split_lines(&chars);
        let ghost ls = lines_view(lines@);
        if lines.len() == 0 {
            return Err(FontLoadError::MissingHeader);
        }
        assert(ls[0] == lines@[0]@);
        let header = match RawHeader::from_chars(&lines[0]) {
            Ok(h) => h,
            Err(e) => return Err(FontLoadError::HeaderError(e)),
        };
        let characters = match Self::read_required_characters(&lines, &header) {
            Ok(v) => v,
            Err(e) => return Err(e),
        };
        proof {
            assert(glyph_ok(ls, header.comment_lines as int, header.height as int, 0));
        }
        let end = header.comment_lines as usize + 1;
        let comment_chars = join_lines_exec(&lines, 1, end);
        let comments = chars_to_string(&comment_chars);
        let font = FIGfont { header, comments, characters };
        proof {
            assert forall|i: int| 0 <= i < REQUIRED_CHARS implies {
                let g = #[trigger] font.characters@[i];
                &&& g.code == 32 + i
                &&& g.char_lines@.len() == font.header.height
                &&& forall|y: int|
                    0 <= y < font.header.height ==> (#[trigger] g.char_lines@[y])@.len()
                        == g.width
            } by {
                let g = font.characters@[i];
                assert(glyph_ok(ls, font.header.comment_lines as int, font.header.height as int, i));
                assert(character_matches(
                    g,
                    glyph_lines(ls, font.header.comment_lines as int, font.header.height as int, i),
                    (32 + i) as u32,
                    font.header.height as int,
                    font.header.hardblank,
                ));
            }
        }
        proof {
            assert forall|i: int, y: int, x: int|
                0 <= i < font.characters@.len() && 0 <= y < font.characters@[i].char_lines@.len()
                    && 0 <= x < font.characters@[i].char_lines@[y]@.len() implies #[trigger] font.characters@[i].char_lines@[y]@[x]
                != Cell::Ink(font.header.hardblank) by {
                assert(glyph_ok(ls, font.header.comment_lines as int, font.header.height as int, i));
            }
            let parts = crate::text::split_on(chars@, '\n');
            crate::text::lemma_split_on_chars(chars@, '\n');
            crate::text::lemma_split_on_nonempty(chars@, '\n');
            let line0 = ls[0];
            assert(line0 == crate::text::strip_cr(parts[0]) || line0 == parts[0]);
            let segs = crate::header::header_segments(line0);
            crate::text::lemma_split_on_chars(line0, ' ');
            let hb = font.header.hardblank;
            assert(hb == segs[0][segs[0].len() - 1]);
            let k = choose|k: int| 0 <= k < line0.len() && line0[k] == hb;
            assert(parts[0][k] == line0[k]);
        }
        Ok(font)
    }
}

impl std::str::FromStr for FIGfont {
    type Err = FontLoadError;

    fn from_str(s: &str) -> (r: Result<FIGfont, FontLoadError>)
        ensures
            r is Ok <==> font_text_valid(s@),
            r matches Ok(f) ==> f.loaded_from(s@) && f.wf() && f.ink_free() && f.header.hardblank
                != ' ' && f.header.hardblank != '\n',
            r matches Err(e) ==> load_error_matches(e, s@),
    {
        FIGfont::load(s)
    }
}

} // verus!

use vstd::prelude::*;

use crate::header::RawHeader;

verus! {

/// One cell of a glyph row.
#[derive(Debug, Clone, Copy, PartialEq, Eq, Structural)]
pub enum Cell {
    /// A space in the font data.
    Blank,
    /// The font's hardblank character: shown as a space, but it takes part
    /// in smushing as a cell of its own.
    Hardblank,
    /// Any other character.
    Ink(char),
}

/// One character of a font: exactly as many rows as the font is high, all of
/// them `width` cells long.
#[derive(Debug, Clone)]
pub struct FIGcharacter {
    pub code: u32,
    pub char_lines: Vec<Vec<Cell>>,
    pub width: usize,
}

#[derive(Debug, Clone, Copy, PartialEq, Eq, Structural)]
pub enum CharacterParseError {
    /// The row at the given index of the character with the given code is
    /// shorter than its end markers.
    RowTooShort(u32, usize),
    /// The font ends before all rows of the character with the given code.
    MissingRows(u32),
}

/// How a character of the font data reads as a cell.
pub open spec fn cell_of(c: char, hardblank: char) -> Cell {
    if c == ' ' {
        Cell::Blank
    } else if c == hardblank {
        Cell::Hardblank
    } else {
        Cell::Ink(c)
    }
}

/// How many end markers row `x` of `n` rows carries: one, but two on the
/// last row of a character more than one row high.
pub open spec fn terminator_len(height: int, x: int, n: int) -> int {
    if x == n - 1 && height != 1 {
        2
    } else {
        1
    }
}

/// Every row is at least as long as its end markers.
pub open spec fn rows_long_enough(lines: Seq<Seq<char>>, height: int, k: int) -> bool {
    forall|x: int|
        0 <= x < k ==> #[trigger] lines[x].len() >= terminator_len(height, x, lines.len() as int)
}

/// The length of row `x` without its end markers.
pub open spec fn stripped_len(lines: Seq<Seq<char>>, height: int, x: int) -> int {
    lines[x].len() - terminator_len(height, x, lines.len() as int)
}

/// The longest of the first `k` rows without their end markers.
pub open spec fn max_stripped(lines: Seq<Seq<char>>, height: int, k: int) -> int
    decreases k,
{
    if k <= 0 {
        0
    } else {
        let m = max_stripped(lines, height, k - 1);
        let l = stripped_len(lines, height, k - 1);
        if l > m {
            l
        } else {
            m
        }
    }
}

/// A row of the font data as cells: its first `len` characters, then blanks
/// up to `width`.
pub open spec fn glyph_row(line: Seq<char>, len: int, width: int, hardblank: char) -> Seq<Cell> {
    Seq::new(
        width as nat,
        |j: int|
            if j < len {
                cell_of(line[j], hardblank)
            } else {
                Cell::Blank
            },
    )
}

/// The rows of a character as cells.
pub open spec fn rows_view(rows: Seq<Vec<Cell>>) -> Seq<Seq<Cell>> {
    rows.map_values(|r: Vec<Cell>| r@)
}

/// What `from_lines` builds from `lines` when every row is long enough.
pub open spec fn character_matches(
    g: FIGcharacter,
    lines: Seq<Seq<char>>,
    code: u32,
    height: int,
    hardblank: char,
) -> bool {
    let n = lines.len();
    &&& g.code == code
    &&& g.width == max_stripped(lines, height, n as int)
    &&& g.char_lines@.len() == n
    &&& forall|x: int|
        0 <= x < n ==> (#[trigger] g.char_lines@[x])@ == glyph_row(
            lines[x],
            stripped_len(lines, height, x),
            g.width as int,
            hardblank,
        )
}

proof fn lemma_max_stripped_bounds(lines: Seq<Seq<char>>, height: int, k: int)
    requires
        0 <= k <= lines.len(),
        rows_long_enough(lines, height, k),
    ensures
        0 <= max_stripped(lines, height, k),
        forall|x: int| 0 <= x < k ==> stripped_len(lines, height, x) <= max_stripped(lines, height, k),
        k > 0 ==> exists|x: int| 0 <= x < k && stripped_len(lines, height, x) == max_stripped(lines, height, k),
    decreases k,
{
    if k > 0 {
        lemma_max_stripped_bounds(lines, height, k - 1);
        if k - 1 > 0 {
            let x0 = choose|x: int| 0 <= x < k - 1 && stripped_len(lines, height, x) == max_stripped(lines, height, k - 1);
            assert(0 <= x0 < k);
        }
        assert(lines[k - 1].len() >= terminator_len(height, k - 1, lines.len() as int));
    }
}

/// Reads one character of the font data as a cell.
pub fn cell_from_char(c: char, hardblank: char) -> (r: Cell)
    ensures
        r == cell_of(c, hardblank),
{
    if c == ' ' {
        Cell::Blank
    } else if c == hardblank {
        Cell::Hardblank
    } else {
        Cell::Ink(c)
    }
}

impl FIGcharacter {
    /// Reads one character from its rows in the font data: each row loses its
    /// end markers, the hardblank character becomes `Cell::Hardblank`, and
    /// rows shorter than the longest are filled up with blanks.
    pub fn from_lines(lines: &[Vec<char>], code: u32, header: &RawHeader) -> (r: Result<
        FIGcharacter,
        CharacterParseError,
    >)
        ensures
            r is Ok <==> rows_long_enough(
                crate::text::lines_view(lines@),
                header.height as int,
                lines@.len() as int,
            ),
            r matches Err(e) ==> exists|x: int|
                0 <= x < lines@.len() && rows_long_enough(
                    crate::text::lines_view(lines@),
                    header.height as int,
                    x,
                ) && lines@[x]@.len() < terminator_len(header.height as int, x, lines@.len() as int)
                    && e == CharacterParseError::RowTooShort(code, x as usize),
            r matches Ok(g) ==> character_matches(
                g,
                crate::text::lines_view(lines@),
                code,
                header.height as int,
                header.hardblank,
            ),
    {
        let ghost ls = crate::text::lines_view(lines@);
        let ghost height = header.height as int;
        let n = lines.len();
        assert(forall|x: int| 0 <= x < n ==> #[trigger] ls[x] == lines@[x]@);
        let mut width: usize = 0;
        let mut x: usize = 0;
        while x < n
            invariant
                n == lines@.len(),
                ls == crate::text::lines_view(lines@),
                height == header.height as int,
                x <= n,
                rows_long_enough(ls, height, x as int),
                width == max_stripped(ls, height, x as int),
                forall|y: int| 0 <= y < n ==> #[trigger] ls[y] == lines@[y]@,
            decreases n - x,
        {
            let t: usize = if x == n - 1 && header.height != 1 {
                2
            } else {
                1
            };
            let len = lines[x].len();
            if len < t {
                assert(ls[x as int].len() < terminator_len(height, x as int, n as int));
                assert(!rows_long_enough(ls, height, n as int));
                return Err(CharacterParseError::RowTooShort(code, x));
            }
            let line_width = len - t;
            if line_width > width {
                width = line_width;
            }
            x = x + 1;
        }
        proof {
            lemma_max_stripped_bounds(ls, height, n as int);
        }
        let mut char_lines: Vec<Vec<Cell>> = Vec::new();
        let mut x: usize = 0;
        while x < n
            invariant
                n == lines@.len(),
                ls == crate::text::lines_view(lines@),
                height == header.height as int,
                x <= n,
                rows_long_enough(ls, height, n as int),
                width == max_stripped(ls, height, n as int),
                forall|y: int| 0 <= y < n ==> stripped_len(ls, height, y) <= width,
                forall|y: int| 0 <= y < n ==> #[trigger] ls[y] == lines@[y]@,
                char_lines@.len() == x,
                forall|y: int|
                    0 <= y < x ==> (#[trigger] char_lines@[y])@ == glyph_row(
                        ls[y],
                        stripped_len(ls, height, y),
                        width as int,
                        header.hardblank,
                    ),
            decreases n - x,
        {
            let t: usize = if x == n - 1 && header.height != 1 {
                2
            } else {
                1
            };
            let line = &lines[x];
            assert(line@.len() >= t);
            let len = line.len() - t;
            let mut row: Vec<Cell> = Vec::new();
            let mut j: usize = 0;
            while j < width
                invariant
                    j <= width,
                    len <= width,
                    len <= line@.len(),
                    row@.len() == j,
                    forall|i: int|
                        0 <= i < j ==> row@[i] == (if i < len {
                            cell_of(line@[i], header.hardblank)
                        } else {
                            Cell::Blank
                        }),
                decreases width - j,
            {
                let next = if j < len {
                    cell_from_char(line[j], header.hardblank)
                } else {
                    Cell::Blank
                };
                row.push(next);
                j = j + 1;
            }
            proof {
                assert(row@ =~= glyph_row(
                    ls[x as int],
                    stripped_len(ls, height, x as int),
                    width as int,
                    header.hardblank,
                ));
            }
            char_lines.push(row);
            x = x + 1;
        }
        Ok(FIGcharacter { code, char_lines, width })
    }
}

} // verus!

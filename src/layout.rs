use vstd::prelude::*;

use crate::chars::{Cell, FIGcharacter, rows_view};
use crate::settings::Spacing;

verus! {

/// Which of the optional smushing rules are switched on.
#[derive(Debug, Clone, Copy, PartialEq, Eq, Structural)]
pub struct SmushRules {
    pub equal: bool,
    pub underscore: bool,
    pub hierarchy: bool,
    pub pair: bool,
    pub big_x: bool,
    pub hardblank: bool,
}

/// What the rule table decides for two adjoining cells.
#[derive(Debug, Clone, Copy, PartialEq, Eq, Structural)]
pub enum Outcome {
    Merged(Cell),
    CannotMerge,
}

impl SmushRules {
    /// The rules that the low six bits of a layout mask switch on: equal
    /// characters, underscore, hierarchy, opposite pair, big X, hardblank.
    pub fn from_mask(mask: u32) -> (r: SmushRules)
        ensures
            r.equal == (mask & 1 != 0),
            r.underscore == (mask & 2 != 0),
            r.hierarchy == (mask & 4 != 0),
            r.pair == (mask & 8 != 0),
            r.big_x == (mask & 16 != 0),
            r.hardblank == (mask & 32 != 0),
    {
        SmushRules {
            equal: mask & 1 != 0,
            underscore: mask & 2 != 0,
            hierarchy: mask & 4 != 0,
            pair: mask & 8 != 0,
            big_x: mask & 16 != 0,
            hardblank: mask & 32 != 0,
        }
    }
}

/// The place of a character in the chain `|`, `/\`, `[]`, `{}`, `()`, `<>`
/// (from 1), or 0 for a character outside it.
pub open spec fn class_of(c: char) -> int {
    if c == '|' {
        1
    } else if c == '/' || c == '\\' {
        2
    } else if c == '[' || c == ']' {
        3
    } else if c == '{' || c == '}' {
        4
    } else if c == '(' || c == ')' {
        5
    } else if c == '<' || c == '>' {
        6
    } else {
        0
    }
}

/// Two brackets of one kind facing each other, either way round.
pub open spec fn is_opposite_pair(a: char, b: char) -> bool {
    (a == '[' && b == ']') || (a == ']' && b == '[') || (a == '{' && b == '}') || (a == '}'
        && b == '{') || (a == '(' && b == ')') || (a == ')' && b == '(')
}

/// The rule table, in its order of priority: equal, underscore, hierarchy,
/// opposite pair, big X, hardblank, and last the blank that takes whatever
/// stands beside it. With `force` the equal, hierarchy, pair and big X rules
/// hold whether or not `rules` switches them on.
pub open spec fn merge_spec(l: Cell, r: Cell, rules: SmushRules, force: bool) -> Outcome {
    match (l, r) {
        (Cell::Ink(a), Cell::Ink(b)) => {
            if (rules.equal || force) && a == b {
                Outcome::Merged(l)
            } else if rules.underscore && a == '_' && class_of(b) > 0 {
                Outcome::Merged(r)
            } else if rules.underscore && b == '_' && class_of(a) > 0 {
                Outcome::Merged(l)
            } else if (rules.hierarchy || force) && class_of(a) > 0 && class_of(b) > 0 && class_of(
                a,
            ) != class_of(b) {
                if class_of(a) > class_of(b) {
                    Outcome::Merged(l)
                } else {
                    Outcome::Merged(r)
                }
            } else if (rules.pair || force) && is_opposite_pair(a, b) {
                Outcome::Merged(Cell::Ink('|'))
            } else if (rules.big_x || force) && a == '/' && b == '\\' {
                Outcome::Merged(Cell::Ink('|'))
            } else if (rules.big_x || force) && a == '\\' && b == '/' {
                Outcome::Merged(Cell::Ink('X'))
            } else {
                Outcome::CannotMerge
            }
        },
        (Cell::Hardblank, Cell::Hardblank) => {
            if rules.hardblank {
                Outcome::Merged(Cell::Hardblank)
            } else {
                Outcome::CannotMerge
            }
        },
        (Cell::Blank, Cell::Blank) => Outcome::CannotMerge,
        (Cell::Blank, _) => Outcome::Merged(r),
        (_, Cell::Blank) => Outcome::Merged(l),
        _ => Outcome::CannotMerge,
    }
}

fn class_of_exec(c: char) -> (r: u8)
    ensures
        r == class_of(c),
{
    if c == '|' {
        1
    } else if c == '/' || c == '\\' {
        2
    } else if c == '[' || c == ']' {
        3
    } else if c == '{' || c == '}' {
        4
    } else if c == '(' || c == ')' {
        5
    } else if c == '<' || c == '>' {
        6
    } else {
        0
    }
}

/// Decides how two adjoining cells merge, as the rule table says.
pub fn merge_column(l: Cell, r: Cell, rules: &SmushRules, force: bool) -> (o: Outcome)
    ensures
        o == merge_spec(l, r, *rules, force),
{
    match (l, r) {
        (Cell::Ink(a), Cell::Ink(b)) => {
            let ca = class_of_exec(a);
            let cb = class_of_exec(b);
            if (rules.equal || force) && a == b {
                Outcome::Merged(l)
            } else if rules.underscore && a == '_' && cb > 0 {
                Outcome::Merged(r)
            } else if rules.underscore && b == '_' && ca > 0 {
                Outcome::Merged(l)
            } else if (rules.hierarchy || force) && ca > 0 && cb > 0 && ca != cb {
                if ca > cb {
                    Outcome::Merged(l)
                } else {
                    Outcome::Merged(r)
                }
            } else if (rules.pair || force) && ((a == '[' && b == ']') || (a == ']' && b == '[')
                || (a == '{' && b == '}') || (a == '}' && b == '{') || (a == '(' && b == ')') || (
            a == ')' && b == '(')) {
                Outcome::Merged(Cell::Ink('|'))
            } else if (rules.big_x || force) && a == '/' && b == '\\' {
                Outcome::Merged(Cell::Ink('|'))
            } else if (rules.big_x || force) && a == '\\' && b == '/' {
                Outcome::Merged(Cell::Ink('X'))
            } else {
                Outcome::CannotMerge
            }
        },
        (Cell::Hardblank, Cell::Hardblank) => {
            if rules.hardblank {
                Outcome::Merged(Cell::Hardblank)
            } else {
                Outcome::CannotMerge
            }
        },
        (Cell::Blank, Cell::Blank) => Outcome::CannotMerge,
        (Cell::Blank, _) => Outcome::Merged(r),
        (_, Cell::Blank) => Outcome::Merged(l),
        _ => Outcome::CannotMerge,
    }
}

/// Whether the last cell of `out` and the first of `row` merge.
pub open spec fn row_merges(out: Seq<Cell>, row: Seq<Cell>, rules: SmushRules, force: bool) -> bool {
    out.len() > 0 && row.len() > 0 && merge_spec(out.last(), row[0], rules, force) is Merged
}

/// A row appended under smushing: the two adjoining cells become one where
/// the rule table merges them; otherwise the row is appended whole.
pub open spec fn smush_row(out: Seq<Cell>, row: Seq<Cell>, rules: SmushRules, force: bool) -> Seq<
    Cell,
> {
    if row_merges(out, row, rules, force) {
        out.drop_last().push(merge_spec(out.last(), row[0], rules, force)->Merged_0)
            + row.drop_first()
    } else {
        out + row
    }
}

/// How many blank cells end `s`.
pub open spec fn trailing_blanks(s: Seq<Cell>) -> nat
    decreases s.len(),
{
    if s.len() > 0 && s.last() == Cell::Blank {
        1 + trailing_blanks(s.drop_last())
    } else {
        0
    }
}

/// How many blank cells start `s`.
pub open spec fn leading_blanks(s: Seq<Cell>) -> nat
    decreases s.len(),
{
    if s.len() > 0 && s[0] == Cell::Blank {
        1 + leading_blanks(s.drop_first())
    } else {
        0
    }
}

/// The blank gap between a row already laid out and the next glyph's row;
/// nothing is taken away from an empty row.
pub open spec fn gap(out: Seq<Cell>, row: Seq<Cell>) -> nat {
    if out.len() == 0 {
        0
    } else {
        trailing_blanks(out) + leading_blanks(row)
    }
}

pub open spec fn blanks(n: nat) -> Seq<Cell> {
    Seq::new(n, |i: int| Cell::Blank)
}

/// A row appended under kerning: `k` of the blank cells between the two are
/// taken away.
pub open spec fn kern_row(out: Seq<Cell>, row: Seq<Cell>, k: nat) -> Seq<Cell> {
    if out.len() == 0 {
        out + row
    } else {
        out.take(out.len() - trailing_blanks(out)) + blanks(
            (gap(out, row) - k) as nat,
        ) + row.skip(leading_blanks(row) as int)
    }
}

/// How far a glyph moves to the left under kerning: the smallest gap over
/// the first `n` rows.
pub open spec fn min_gap(outs: Seq<Seq<Cell>>, g: Seq<Seq<Cell>>, n: int) -> nat
    decreases n,
{
    if n <= 0 {
        0
    } else if n == 1 {
        gap(outs[0], g[0])
    } else {
        let m = min_gap(outs, g, n - 1);
        let x = gap(outs[n - 1], g[n - 1]);
        if x < m {
            x
        } else {
            m
        }
    }
}

/// One row of a glyph appended to a row of output under a spacing mode.
pub open spec fn join_row_spec(
    out: Seq<Cell>,
    row: Seq<Cell>,
    spacing: Spacing,
    rules: SmushRules,
    k: nat,
) -> Seq<Cell> {
    match spacing {
        Spacing::FullWidth => out + row,
        Spacing::Kerning => kern_row(out, row, k),
        Spacing::Smushing => smush_row(out, row, rules, false),
        Spacing::ForceSmushing => smush_row(out, row, rules, true),
    }
}

/// A glyph appended to every row of the output.
pub open spec fn add_glyph(
    outs: Seq<Seq<Cell>>,
    g: Seq<Seq<Cell>>,
    spacing: Spacing,
    rules: SmushRules,
) -> Seq<Seq<Cell>> {
    let k = min_gap(outs, g, outs.len() as int);
    Seq::new(outs.len(), |y: int| join_row_spec(outs[y], g[y], spacing, rules, k))
}

/// The rows of a line made of the first `k` glyphs of `gs`, `height` rows
/// high.
pub open spec fn line_rows(
    gs: Seq<Seq<Seq<Cell>>>,
    height: nat,
    spacing: Spacing,
    rules: SmushRules,
    k: int,
) -> Seq<Seq<Cell>>
    decreases k,
{
    if k <= 0 {
        Seq::new(height, |y: int| Seq::<Cell>::empty())
    } else {
        add_glyph(line_rows(gs, height, spacing, rules, k - 1), gs[k - 1], spacing, rules)
    }
}

/// The glyphs of a line as rows of cells.
pub open spec fn glyphs_view(gs: Seq<FIGcharacter>) -> Seq<Seq<Seq<Cell>>> {
    gs.map_values(|g: FIGcharacter| rows_view(g.char_lines@))
}

/// The total length of row `y` over the first `k` glyphs.
pub open spec fn sum_row_len(gs: Seq<Seq<Seq<Cell>>>, y: int, k: int) -> int
    decreases k,
{
    if k <= 0 {
        0
    } else {
        sum_row_len(gs, y, k - 1) + gs[k - 1][y].len()
    }
}

/// How many adjoining cell pairs of row `y` merged over the first `k` glyphs.
pub open spec fn merged_count(
    gs: Seq<Seq<Seq<Cell>>>,
    height: nat,
    rules: SmushRules,
    force: bool,
    y: int,
    k: int,
) -> int
    decreases k,
{
    if k <= 0 {
        0
    } else {
        let spacing = if force {
            Spacing::ForceSmushing
        } else {
            Spacing::Smushing
        };
        let prev = line_rows(gs, height, spacing, rules, k - 1);
        merged_count(gs, height, rules, force, y, k - 1) + if row_merges(
            prev[y],
            gs[k - 1][y],
            rules,
            force,
        ) {
            1int
        } else {
            0int
        }
    }
}

/// Every glyph has `height` rows.
pub open spec fn glyphs_high(gs: Seq<Seq<Seq<Cell>>>, height: nat) -> bool {
    forall|i: int| 0 <= i < gs.len() ==> (#[trigger] gs[i]).len() == height
}

/// Every line has `height` rows.
pub proof fn lemma_line_rows_len(
    gs: Seq<Seq<Seq<Cell>>>,
    height: nat,
    spacing: Spacing,
    rules: SmushRules,
    k: int,
)
    ensures
        line_rows(gs, height, spacing, rules, k).len() == height,
    decreases k,
{
    if k > 0 {
        lemma_line_rows_len(gs, height, spacing, rules, k - 1);
    }
}

/// Laid out at full width, each row of a line is exactly as long as the rows
/// of its glyphs together: no column is merged.
pub proof fn lemma_full_width_row_len(gs: Seq<Seq<Seq<Cell>>>, height: nat, rules: SmushRules, y: int)
    requires
        glyphs_high(gs, height),
        0 <= y < height,
    ensures
        line_rows(gs, height, Spacing::FullWidth, rules, gs.len() as int)[y].len() == sum_row_len(
            gs,
            y,
            gs.len() as int,
        ),
{
    lemma_full_width_prefix(gs, height, rules, y, gs.len() as int);
}

proof fn lemma_full_width_prefix(
    gs: Seq<Seq<Seq<Cell>>>,
    height: nat,
    rules: SmushRules,
    y: int,
    k: int,
)
    requires
        glyphs_high(gs, height),
        0 <= y < height,
        0 <= k <= gs.len(),
    ensures
        line_rows(gs, height, Spacing::FullWidth, rules, k)[y].len() == sum_row_len(gs, y, k),
    decreases k,
{
    if k > 0 {
        lemma_full_width_prefix(gs, height, rules, y, k - 1);
        lemma_line_rows_len(gs, height, Spacing::FullWidth, rules, k - 1);
    }
}

/// Under smushing each row of a line is shorter than at full width by exactly
/// the number of cell pairs that merged in it, so it is never longer.
pub proof fn lemma_smushing_row_len(
    gs: Seq<Seq<Seq<Cell>>>,
    height: nat,
    rules: SmushRules,
    force: bool,
    y: int,
)
    requires
        glyphs_high(gs, height),
        0 <= y < height,
    ensures
        ({
            let spacing = if force {
                Spacing::ForceSmushing
            } else {
                Spacing::Smushing
            };
            &&& line_rows(gs, height, spacing, rules, gs.len() as int)[y].len() + merged_count(
                gs,
                height,
                rules,
                force,
                y,
                gs.len() as int,
            ) == sum_row_len(gs, y, gs.len() as int)
            &&& line_rows(gs, height, spacing, rules, gs.len() as int)[y].len() <= line_rows(
                gs,
                height,
                Spacing::FullWidth,
                rules,
                gs.len() as int,
            )[y].len()
        }),
{
    lemma_smushing_prefix(gs, height, rules, force, y, gs.len() as int);
    lemma_full_width_row_len(gs, height, rules, y);
}

proof fn lemma_smushing_prefix(
    gs: Seq<Seq<Seq<Cell>>>,
    height: nat,
    rules: SmushRules,
    force: bool,
    y: int,
    k: int,
)
    requires
        glyphs_high(gs, height),
        0 <= y < height,
        0 <= k <= gs.len(),
    ensures
        ({
            let spacing = if force {
                Spacing::ForceSmushing
            } else {
                Spacing::Smushing
            };
            &&& line_rows(gs, height, spacing, rules, k)[y].len() + merged_count(
                gs,
                height,
                rules,
                force,
                y,
                k,
            ) == sum_row_len(gs, y, k)
            &&& merged_count(gs, height, rules, force, y, k) >= 0
        }),
    decreases k,
{
    let spacing = if force {
        Spacing::ForceSmushing
    } else {
        Spacing::Smushing
    };
    if k > 0 {
        lemma_smushing_prefix(gs, height, rules, force, y, k - 1);
        lemma_line_rows_len(gs, height, spacing, rules, k - 1);
    }
}

/// How many blank cells end `s`.
pub fn count_trailing_blanks(s: &Vec<Cell>) -> (r: usize)
    ensures
        r == trailing_blanks(s@),
        r <= s@.len(),
{
    let n = s.len();
    let mut c: usize = 0;
    assert(s@.take(n as int) == s@);
    while c < n && s[n - 1 - c] == Cell::Blank
        invariant
            n == s@.len(),
            c <= n,
            trailing_blanks(s@) == c + trailing_blanks(s@.take(n - c)),
        decreases n - c,
    {
        proof {
            let t = s@.take(n - c);
            assert(t.drop_last() == s@.take(n - c - 1));
            assert(t.last() == s@[n - 1 - c]);
        }
        c = c + 1;
    }
    proof {
        if c == n {
            assert(s@.take(0).len() == 0);
        } else {
            assert(s@.take(n - c).last() == s@[n - 1 - c]);
        }
    }
    c
}

/// How many blank cells start `s`.
pub fn count_leading_blanks(s: &Vec<Cell>) -> (r: usize)
    ensures
        r == leading_blanks(s@),
        r <= s@.len(),
{
    let n = s.len();
    let mut c: usize = 0;
    assert(s@.skip(0) == s@);
    while c < n && s[c] == Cell::Blank
        invariant
            n == s@.len(),
            c <= n,
            leading_blanks(s@) == c + leading_blanks(s@.skip(c as int)),
        decreases n - c,
    {
        proof {
            let t = s@.skip(c as int);
            assert(t.drop_first() == s@.skip(c + 1));
            assert(t[0] == s@[c as int]);
        }
        c = c + 1;
    }
    proof {
        if c == n {
            assert(s@.skip(c as int).len() == 0);
        } else {
            assert(s@.skip(c as int)[0] == s@[c as int]);
        }
    }
    c
}

/// Appends the cells of `row` from index `from` on.
fn append_from(out: &mut Vec<Cell>, row: &Vec<Cell>, from: usize)
    requires
        from <= row@.len(),
    ensures
        final(out)@ == old(out)@ + row@.skip(from as int),
{
    let ghost start = out@;
    let mut i: usize = from;
    while i < row.len()
        invariant
            from <= i <= row@.len(),
            out@ == start + row@.subrange(from as int, i as int),
        decreases row@.len() - i,
    {
        out.push(row[i]);
        proof {
            assert(row@.subrange(from as int, i + 1) == row@.subrange(from as int, i as int).push(
                row@[i as int],
            ));
        }
        i = i + 1;
    }
    proof {
        assert(row@.subrange(from as int, row@.len() as int) == row@.skip(from as int));
    }
}

impl FIGcharacter {
    /// Appends row `idx` of this glyph to a row of output under `spacing`;
    /// `kern` is how many blank cells kerning takes away.
    pub fn join_line(
        &self,
        output: &mut Vec<Cell>,
        idx: usize,
        spacing: Spacing,
        rules: &SmushRules,
        kern: usize,
    )
        requires
            idx < self.char_lines@.len(),
            old(output)@.len() + self.char_lines@[idx as int]@.len() <= usize::MAX,
            spacing == Spacing::Kerning ==> kern <= gap(old(output)@, self.char_lines@[idx as int]@),
        ensures
            final(output)@ == join_row_spec(
                old(output)@,
                self.char_lines@[idx as int]@,
                spacing,
                *rules,
                kern as nat,
            ),
    {
        let row = &self.char_lines[idx];
        match spacing {
            Spacing::FullWidth => {
                append_from(output, row, 0);
                assert(row@.skip(0) == row@);
            },
            Spacing::Kerning => {
                if output.len() == 0 {
                    append_from(output, row, 0);
                    assert(row@.skip(0) == row@);
                } else {
                    let ghost start = output@;
                    let t = count_trailing_blanks(output);
                    let l = count_leading_blanks(row);
                    let keep = output.len() - t;
                    output.truncate(keep);
                    assert(output@ == start.take(keep as int));
                    let fill = t + l - kern;
                    let mut i: usize = 0;
                    while i < fill
                        invariant
                            i <= fill,
                            output@ == start.take(keep as int) + blanks(i as nat),
                        decreases fill - i,
                    {
                        output.push(Cell::Blank);
                        proof {
                            assert(blanks((i + 1) as nat) == blanks(i as nat).push(Cell::Blank));
                        }
                        i = i + 1;
                    }
                    append_from(output, row, l);
                }
            },
            Spacing::Smushing | Spacing::ForceSmushing => {
                let force = match spacing {
                    Spacing::ForceSmushing => true,
                    _ => false,
                };
                let n = output.len();
                if n > 0 && row.len() > 0 {
                    let ghost start = output@;
                    match merge_column(output[n - 1], row[0], rules, force) {
                        Outcome::Merged(c) => {
                            output.pop();
                            output.push(c);
                            assert(output@ == start.drop_last().push(c));
                            append_from(output, row, 1);
                            assert(row@.skip(1) == row@.drop_first());
                        },
                        Outcome::CannotMerge => {
                            append_from(output, row, 0);
                            assert(row@.skip(0) == row@);
                        },
                    }
                } else {
                    append_from(output, row, 0);
                    assert(row@.skip(0) == row@);
                }
            },
        }
    }
}

proof fn lemma_min_gap_le(outs: Seq<Seq<Cell>>, g: Seq<Seq<Cell>>, n: int, y: int)
    requires
        0 <= y < n,
    ensures
        min_gap(outs, g, n) <= gap(outs[y], g[y]),
    decreases n,
{
    if n > 1 && y < n - 1 {
        lemma_min_gap_le(outs, g, n - 1, y);
    }
}

/// Every row of a line is at most as long as the rows of its glyphs
/// together, under any spacing.
proof fn lemma_line_rows_bounded(
    gs: Seq<Seq<Seq<Cell>>>,
    height: nat,
    spacing: Spacing,
    rules: SmushRules,
    y: int,
    k: int,
)
    requires
        glyphs_high(gs, height),
        0 <= y < height,
        0 <= k <= gs.len(),
    ensures
        line_rows(gs, height, spacing, rules, k)[y].len() <= sum_row_len(gs, y, k),
    decreases k,
{
    lemma_line_rows_len(gs, height, spacing, rules, k);
    if k > 0 {
        lemma_line_rows_bounded(gs, height, spacing, rules, y, k - 1);
        lemma_line_rows_len(gs, height, spacing, rules, k - 1);
        let outs = line_rows(gs, height, spacing, rules, k - 1);
        let g = gs[k - 1];
        lemma_min_gap_le(outs, g, outs.len() as int, y);
        lemma_blank_counts(outs[y]);
        lemma_blank_counts(g[y]);
    }
}

/// There are no more blank cells at either end than cells.
pub proof fn lemma_blank_counts(s: Seq<Cell>)
    ensures
        trailing_blanks(s) <= s.len(),
        leading_blanks(s) <= s.len(),
    decreases s.len(),
{
    if s.len() > 0 {
        lemma_blank_counts(s.drop_last());
        lemma_blank_counts(s.drop_first());
    }
}

/// The smallest gap over all rows, as `min_gap` says.
pub fn kern_amount(outs: &Vec<Vec<Cell>>, g: &FIGcharacter) -> (r: usize)
    requires
        g.char_lines@.len() == outs@.len(),
        forall|y: int|
            0 <= y < outs@.len() ==> outs@[y]@.len() + g.char_lines@[y]@.len() <= usize::MAX,
    ensures
        r == min_gap(rows_view(outs@), rows_view(g.char_lines@), outs@.len() as int),
{
    let ghost os = rows_view(outs@);
    let ghost gv = rows_view(g.char_lines@);
    let n = outs.len();
    let mut m: usize = 0;
    let mut y: usize = 0;
    while y < n
        invariant
            n == outs@.len(),
            g.char_lines@.len() == n,
            os == rows_view(outs@),
            gv == rows_view(g.char_lines@),
            forall|j: int| 0 <= j < n ==> outs@[j]@.len() + g.char_lines@[j]@.len() <= usize::MAX,
            y <= n,
            m == min_gap(os, gv, y as int),
        decreases n - y,
    {
        assert(os[y as int] == outs@[y as int]@);
        assert(gv[y as int] == g.char_lines@[y as int]@);
        let x: usize = if outs[y].len() == 0 {
            0
        } else {
            let t = count_trailing_blanks(&outs[y]);
            let l = count_leading_blanks(&g.char_lines[y]);
            t + l
        };
        if y == 0 || x < m {
            m = x;
        }
        y = y + 1;
    }
    m
}

/// Appends a glyph to every row of the output, as `add_glyph` says.
pub fn add_glyph_exec(outs: &Vec<Vec<Cell>>, g: &FIGcharacter, spacing: Spacing, rules: &SmushRules) -> (r:
    Vec<Vec<Cell>>)
    requires
        g.char_lines@.len() == outs@.len(),
        forall|y: int|
            0 <= y < outs@.len() ==> outs@[y]@.len() + g.char_lines@[y]@.len() <= usize::MAX,
    ensures
        rows_view(r@) == add_glyph(rows_view(outs@), rows_view(g.char_lines@), spacing, *rules),
{
    let ghost os = rows_view(outs@);
    let ghost gv = rows_view(g.char_lines@);
    let k = kern_amount(outs, g);
    let n = outs.len();
    let mut r: Vec<Vec<Cell>> = Vec::new();
    let mut y: usize = 0;
    while y < n
        invariant
            n == outs@.len(),
            g.char_lines@.len() == n,
            os == rows_view(outs@),
            gv == rows_view(g.char_lines@),
            forall|j: int| 0 <= j < n ==> outs@[j]@.len() + g.char_lines@[j]@.len() <= usize::MAX,
            k == min_gap(os, gv, n as int),
            y <= n,
            r@.len() == y,
            forall|j: int|
                0 <= j < y ==> (#[trigger] r@[j])@ == join_row_spec(os[j], gv[j], spacing, *rules, k as nat),
        decreases n - y,
    {
        assert(os[y as int] == outs@[y as int]@);
        assert(gv[y as int] == g.char_lines@[y as int]@);
        proof {
            lemma_min_gap_le(os, gv, n as int, y as int);
        }
        let mut row = outs[y].clone();
        assert(row@ == outs@[y as int]@);
        g.join_line(&mut row, y, spacing, rules, k);
        r.push(row);
        y = y + 1;
    }
    proof {
        assert(rows_view(r@) =~= add_glyph(os, gv, spacing, *rules));
    }
    r
}

/// The rows of the glyphs of a line, as `glyphs_view` and `line_rows` say.
pub open spec fn ids_view(chars: Seq<FIGcharacter>, ids: Seq<usize>) -> Seq<Seq<Seq<Cell>>> {
    ids.map_values(|i: usize| rows_view(chars[i as int].char_lines@))
}

/// Lays out a line of glyphs, given as indices into `chars`, `height` rows
/// high.
pub fn layout_line(
    chars: &Vec<FIGcharacter>,
    ids: &Vec<usize>,
    height: usize,
    spacing: Spacing,
    rules: &SmushRules,
) -> (r: Vec<Vec<Cell>>)
    requires
        forall|i: int| 0 <= i < ids@.len() ==> (#[trigger] ids@[i]) < chars@.len(),
        glyphs_high(ids_view(chars@, ids@), height as nat),
        forall|y: int|
            0 <= y < height ==> sum_row_len(ids_view(chars@, ids@), y, ids@.len() as int)
                <= usize::MAX,
    ensures
        rows_view(r@) == line_rows(
            ids_view(chars@, ids@),
            height as nat,
            spacing,
            *rules,
            ids@.len() as int,
        ),
{
    let ghost gs = ids_view(chars@, ids@);
    let mut outs: Vec<Vec<Cell>> = Vec::new();
    let mut y: usize = 0;
    while y < height
        invariant
            y <= height,
            outs@.len() == y,
            forall|j: int| 0 <= j < y ==> (#[trigger] outs@[j])@ == Seq::<Cell>::empty(),
        decreases height - y,
    {
        outs.push(Vec::new());
        y = y + 1;
    }
    assert(rows_view(outs@) =~= line_rows(gs, height as nat, spacing, *rules, 0));
    let mut k: usize = 0;
    while k < ids.len()
        invariant
            gs == ids_view(chars@, ids@),
            forall|i: int| 0 <= i < ids@.len() ==> (#[trigger] ids@[i]) < chars@.len(),
            glyphs_high(gs, height as nat),
            forall|y: int| 0 <= y < height ==> sum_row_len(gs, y, ids@.len() as int) <= usize::MAX,
            k <= ids@.len(),
            rows_view(outs@) == line_rows(gs, height as nat, spacing, *rules, k as int),
        decreases ids@.len() - k,
    {
        let g = &chars[ids[k]];
        proof {
            lemma_line_rows_len(gs, height as nat, spacing, *rules, k as int);
            assert(gs[k as int] == rows_view(g.char_lines@));
            assert(outs@.len() == rows_view(outs@).len());
            assert forall|y: int| 0 <= y < outs@.len() implies outs@[y]@.len() + g.char_lines@[y]@.len()
                <= usize::MAX by {
                lemma_line_rows_bounded(gs, height as nat, spacing, *rules, y, k as int);
                lemma_sum_row_len_mono(gs, y, k as int + 1, ids@.len() as int);
                assert(rows_view(outs@)[y] == outs@[y]@);
                assert(gs[k as int][y] == g.char_lines@[y]@);
            }
        }
        outs = add_glyph_exec(&outs, g, spacing, rules);
        k = k + 1;
    }
    outs
}

proof fn lemma_sum_row_len_mono(gs: Seq<Seq<Seq<Cell>>>, y: int, a: int, b: int)
    requires
        0 <= a <= b,
    ensures
        sum_row_len(gs, y, a) <= sum_row_len(gs, y, b),
    decreases b - a,
{
    if a < b {
        lemma_sum_row_len_mono(gs, y, a, b - 1);
    }
}

} // verus!

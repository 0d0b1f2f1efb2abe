//! Cells to glyphs, and glyph rows to text.
use vstd::prelude::*;

use crate::braille::{dot_sum, lemma_dot_sum_bits, to_braille, valid_dots, BRAILLE_BASE};
use crate::error::CoreError;
use crate::sampler::{CellGrid, UNSET};

verus! {

/// The bit offset of the dot held by slot `j` (`ix·4 + iy`) of a cell: the
/// left column's dots are 0, 1, 2, 6 from top to bottom, the right column's
/// 3, 4, 5, 7.
pub open spec fn dot_offset(j: nat) -> u8 {
    if j == 3 {
        6
    } else if 4 <= j <= 6 {
        (j - 1) as u8
    } else {
        j as u8
    }
}

/// The slot that holds the dot of bit offset `d`.
pub open spec fn dot_slot(d: u8) -> nat {
    if d == 6 {
        3
    } else if 3 <= d <= 5 {
        (d + 1) as nat
    } else {
        d as nat
    }
}

/// A dot is raised when its slot is set and at least 128.
pub open spec fn slot_active(v: u16) -> bool {
    v != UNSET && v >= 128
}

/// The offsets of the raised dots among the first `n` slots of the cell whose
/// slots start at `base`, in slot order.
pub open spec fn cell_dots_upto(slots: Seq<u16>, base: int, n: nat) -> Seq<u8>
    decreases n,
{
    if n == 0 {
        seq![]
    } else {
        let prev = cell_dots_upto(slots, base, (n - 1) as nat);
        if slot_active(slots[base + n - 1]) {
            prev.push(dot_offset((n - 1) as nat))
        } else {
            prev
        }
    }
}

pub open spec fn cell_dot_list(slots: Seq<u16>, base: int) -> Seq<u8> {
    cell_dots_upto(slots, base, 8)
}

/// The glyph of the cell whose slots start at `base`.
pub open spec fn cell_glyph(slots: Seq<u16>, base: int) -> char {
    ((BRAILLE_BASE + dot_sum(cell_dot_list(slots, base))) as u32) as char
}

/// The glyphs of a `rows × cols` grid, row by row.
pub open spec fn grid_glyphs(slots: Seq<u16>, rows: nat, cols: nat) -> Seq<Seq<char>> {
    Seq::new(rows, |r: int| Seq::new(cols, |c: int| cell_glyph(slots, (r * cols + c) * 8)))
}

/// Lines joined by a single `'\n'`, with none after the last.
pub open spec fn join_lines(lines: Seq<Seq<char>>) -> Seq<char>
    decreases lines.len(),
{
    if lines.len() == 0 {
        seq![]
    } else if lines.len() == 1 {
        lines[0]
    } else {
        join_lines(lines.drop_last()) + seq!['\n'] + lines.last()
    }
}

/// The braille text of a cell grid.
pub open spec fn grid_text(slots: Seq<u16>, rows: nat, cols: nat) -> Seq<char> {
    join_lines(grid_glyphs(slots, rows, cols))
}

proof fn lemma_no_active_dots(slots: Seq<u16>, base: int, n: nat)
    requires
        n <= 8,
        forall|j: int| 0 <= j < n ==> !slot_active(#[trigger] slots[base + j]),
    ensures
        cell_dots_upto(slots, base, n) == Seq::<u8>::empty(),
    decreases n,
{
    if n > 0 {
        assert(!slot_active(slots[base + (n - 1)]));
        lemma_no_active_dots(slots, base, (n - 1) as nat);
    }
}

/// A cell none of whose dots is raised (all of its slots unset or below 128)
/// is the blank pattern U+2800.
pub proof fn lemma_blank_cell(slots: Seq<u16>, base: int)
    requires
        forall|j: int| 0 <= j < 8 ==> !slot_active(#[trigger] slots[base + j]),
    ensures
        cell_glyph(slots, base) == (BRAILLE_BASE as u32) as char,
{
    lemma_no_active_dots(slots, base, 8);
    assert(dot_sum(Seq::<u8>::empty()) == 0);
}

fn slot_offset(j: usize) -> (d: u8)
    requires
        j < 8,
    ensures
        d == dot_offset(j as nat),
{
    if j == 3 {
        6
    } else if 4 <= j && j <= 6 {
        (j - 1) as u8
    } else {
        j as u8
    }
}

/// The offsets of the raised dots of the cell whose slots start at `base`,
/// in slot order. They are distinct and at most 7.
pub fn cell_dots(slots: &Vec<u16>, base: usize) -> (dots: Vec<u8>)
    requires
        base + 8 <= slots@.len(),
    ensures
        dots@ == cell_dot_list(slots@, base as int),
        valid_dots(dots@),
{
    let len = slots.len();
    let mut dots: Vec<u8> = Vec::new();
    let mut j: usize = 0;
    while j < 8
        invariant
            j <= 8,
            len == slots@.len(),
            base + 8 <= slots@.len(),
            dots@ == cell_dots_upto(slots@, base as int, j as nat),
            dots@.no_duplicates(),
            forall|i: int|
                0 <= i < dots@.len() ==> #[trigger] dots@[i] <= 7 && dot_slot(dots@[i]) < j,
        decreases 8 - j,
    {
        let v = slots[base + j];
        if v != UNSET && v >= 128 {
            let d = slot_offset(j);
            proof {
                assert forall|i: int| 0 <= i < dots@.len() implies #[trigger] dots@[i] != d by {
                    assert(dot_slot(d) == j);
                }
            }
            dots.push(d);
        }
        j = j + 1;
    }
    dots
}

/// The glyph of the cell whose slots start at `base`.
pub fn cell_to_braille(slots: &Vec<u16>, base: usize) -> (r: Result<char, CoreError>)
    requires
        base + 8 <= slots@.len(),
    ensures
        r == Ok::<char, CoreError>(cell_glyph(slots@, base as int)),
{
    let dots = cell_dots(slots, base);
    proof {
        lemma_dot_sum_bits(dots@);
    }
    let r = to_braille(dots.as_slice());
    proof {
        if let Ok(c) = r {
            vstd::utf8::char_u32_cast(c, c as u32);
        }
    }
    r
}

/// The glyphs of every cell of a grid, row by row.
pub fn braille_cells(grid: &CellGrid) -> (r: Result<Vec<Vec<char>>, CoreError>)
    requires
        grid.wf(),
    ensures
        r is Ok,
        r is Ok ==> r->Ok_0@.len() == grid.rows && forall|i: int|
            0 <= i < grid.rows ==> (#[trigger] r->Ok_0@[i])@ == grid_glyphs(
                grid.slots@,
                grid.rows as nat,
                grid.cols as nat,
            )[i],
{
    let total = grid.slots.len();
    let mut lines: Vec<Vec<char>> = Vec::new();
    let mut row: usize = 0;
    while row < grid.rows
        invariant
            grid.wf(),
            total == grid.slots@.len(),
            row <= grid.rows,
            lines@.len() == row,
            forall|i: int|
                0 <= i < row ==> (#[trigger] lines@[i])@ == grid_glyphs(
                    grid.slots@,
                    grid.rows as nat,
                    grid.cols as nat,
                )[i],
        decreases grid.rows - row,
    {
        let mut line: Vec<char> = Vec::new();
        let mut col: usize = 0;
        while col < grid.cols
            invariant
                grid.wf(),
                total == grid.slots@.len(),
                row < grid.rows,
                col <= grid.cols,
                line@.len() == col,
                forall|c: int|
                    0 <= c < col ==> #[trigger] line@[c] == cell_glyph(
                        grid.slots@,
                        (row * grid.cols + c) * 8,
                    ),
            decreases grid.cols - col,
        {
            proof {
                assert((row * grid.cols + col) * 8 + 8 <= grid.rows * grid.cols * 8)
                    by (nonlinear_arith)
                    requires
                        row < grid.rows,
                        col < grid.cols,
                ;
            }
            let glyph = cell_to_braille(&grid.slots, (row * grid.cols + col) * 8)?;
            line.push(glyph);
            col = col + 1;
        }
        proof {
            assert(line@ =~= grid_glyphs(grid.slots@, grid.rows as nat, grid.cols as nat)[row as int]);
        }
        lines.push(line);
        row = row + 1;
    }
    Ok(lines)
}

/// Relies on `String::push`: it appends one char.
#[verifier::external_body]
pub(crate) fn push_char(s: &mut String, c: char)
    ensures
        final(s)@ == old(s)@.push(c),
{
    s.push(c)
}

/// Joins lines of glyphs with `'\n'`: no trailing newline, no separator
/// between the glyphs of a line.
pub fn braille_pixels_to_string(braille_pixels: Vec<Vec<char>>) -> (r: String)
    ensures
        r@ == join_lines(Seq::new(braille_pixels@.len(), |i: int| braille_pixels@[i]@)),
{
    let ghost lines = Seq::new(braille_pixels@.len(), |i: int| braille_pixels@[i]@);
    let mut text = String::new();
    let mut i: usize = 0;
    while i < braille_pixels.len()
        invariant
            i <= braille_pixels@.len(),
            lines == Seq::new(braille_pixels@.len(), |i: int| braille_pixels@[i]@),
            text@ == join_lines(lines.subrange(0, i as int)),
        decreases braille_pixels@.len() - i,
    {
        let ghost start = text@;
        if i > 0 {
            push_char(&mut text, '\n');
        }
        let line = &braille_pixels[i];
        let mut j: usize = 0;
        while j < line.len()
            invariant
                j <= line@.len(),
                i > 0 ==> text@ == start + seq!['\n'] + line@.subrange(0, j as int),
                i == 0 ==> text@ == line@.subrange(0, j as int),
            decreases line@.len() - j,
        {
            push_char(&mut text, line[j]);
            proof {
                assert(line@.subrange(0, j as int + 1) =~= line@.subrange(0, j as int).push(line@[j as int]));
            }
            j = j + 1;
        }
        proof {
            assert(line@.subrange(0, j as int) =~= line@);
            let next = lines.subrange(0, i as int + 1);
            assert(next.drop_last() =~= lines.subrange(0, i as int));
            assert(next.last() == line@);
            if i == 0 {
                assert(next.len() == 1);
            }
        }
        i = i + 1;
    }
    proof {
        assert(lines.subrange(0, i as int) =~= lines);
    }
    text
}

/// The braille text of a cell grid: one line per cell row.
pub fn grid_to_text(grid: &CellGrid) -> (r: Result<String, CoreError>)
    requires
        grid.wf(),
    ensures
        r is Ok,
        r is Ok ==> r->Ok_0@ == grid_text(grid.slots@, grid.rows as nat, grid.cols as nat),
{
    let cells = braille_cells(grid)?;
    let ghost glyphs = grid_glyphs(grid.slots@, grid.rows as nat, grid.cols as nat);
    let text = braille_pixels_to_string(cells);
    proof {
        assert(Seq::new(cells@.len(), |i: int| cells@[i]@) =~= glyphs);
    }
    Ok(text)
}

} // verus!

//! Row-major character grids and their plain-text form.
use vstd::prelude::*;
use crate::text::push_char;
use vstd::arithmetic::div_mod::lemma_fundamental_div_mod_converse;

verus! {

/// Concatenation of the texts of cells `from .. to`.
pub open spec fn cells_text(cell: spec_fn(int) -> Seq<char>, from: int, to: int) -> Seq<char>
    decreases to - from,
{
    if to <= from {
        Seq::empty()
    } else {
        cells_text(cell, from, to - 1) + cell(to - 1)
    }
}

/// The first `rows` rows of a `width`-wide row-major grid, each row the
/// concatenation of its cell texts, rows separated by `sep`.
pub open spec fn rows_text(cell: spec_fn(int) -> Seq<char>, width: int, rows: int, sep: Seq<char>) -> Seq<char>
    decreases rows,
{
    if rows <= 0 {
        Seq::empty()
    } else if rows == 1 {
        cells_text(cell, 0, width)
    } else {
        rows_text(cell, width, rows - 1, sep) + sep + cells_text(cell, (rows - 1) * width, rows * width)
    }
}

/// Each cell of a character grid is written as its own character.
pub open spec fn char_cells(chars: Seq<char>) -> spec_fn(int) -> Seq<char> {
    |i: int| seq![chars[i]]
}

/// The plain text of a character grid: one line per row, separated by `'\n'`.
pub open spec fn grid_text(width: nat, height: nat, chars: Seq<char>) -> Seq<char> {
    rows_text(char_cells(chars), width as int, height as int, seq!['\n'])
}

/// Where cell `(x, y)` of a row-major grid of the given width is stored.
pub open spec fn cell_offset(width: nat, x: nat, y: nat) -> nat {
    y * width + x
}

/// Row `y < height` of a `width`-wide grid ends inside the grid.
pub proof fn lemma_row_in_grid(width: nat, height: nat, y: nat)
    requires
        y < height,
    ensures
        y * width + width <= width * height,
        (y + 1) * width == y * width + width,
{
    assert(y * width + width <= width * height) by (nonlinear_arith)
        requires
            y < height,
    ;
    assert((y + 1) * width == y * width + width) by (nonlinear_arith);
}

/// The text of cells `from .. to` of a character grid is that slice of the grid.
proof fn lemma_char_cells_text(chars: Seq<char>, from: int, to: int)
    requires
        0 <= from <= to <= chars.len(),
    ensures
        cells_text(char_cells(chars), from, to) == chars.subrange(from, to),
    decreases to - from,
{
    if to > from {
        lemma_char_cells_text(chars, from, to - 1);
        assert(chars.subrange(from, to) =~= chars.subrange(from, to - 1) + seq![chars[to - 1]]);
    } else {
        assert(chars.subrange(from, to) =~= Seq::<char>::empty());
    }
}

/// The plain text of a `width`×`height` grid (`height > 0`) is `height` lines
/// of `width` characters separated by line breaks: character `k` of the text
/// is a line break where `k % (width + 1) == width`, and otherwise the cell in
/// column `k % (width + 1)` of row `k / (width + 1)`.
pub proof fn lemma_grid_text_layout(width: nat, height: nat, chars: Seq<char>)
    requires
        chars.len() >= width * height,
        height > 0,
    ensures
        grid_text(width, height, chars).len() == height * (width + 1) - 1,
        forall|k: int|
            0 <= k < grid_text(width, height, chars).len() ==> #[trigger] grid_text(width, height, chars)[k]
                == if k % (width + 1) as int == width {
                '\n'
            } else {
                chars[(k / (width + 1) as int) * width + k % (width + 1) as int]
            },
    decreases height,
{
    let d: int = width as int + 1;
    let full = grid_text(width, height, chars);
    assert(width * height <= chars.len());
    if height == 1 {
        assert(width * height == width) by (nonlinear_arith)
            requires
                height == 1,
        ;
        lemma_char_cells_text(chars, 0, width as int);
        assert(full == chars.subrange(0, width as int));
        assert forall|k: int| 0 <= k < full.len() implies #[trigger] full[k] == if k % d == width {
            '\n'
        } else {
            chars[(k / d) * width + k % d]
        } by {
            assert(k == 0 * d + k);
            lemma_fundamental_div_mod_converse(k, d, 0, k);
        }
    } else {
        let h = (height - 1) as nat;
        assert(width * h <= width * height) by (nonlinear_arith)
            requires
                h < height,
        ;
        lemma_grid_text_layout(width, h, chars);
        let prev = grid_text(width, h, chars);
        assert(h * width == width * h && height * width == width * height) by (nonlinear_arith);
        assert(width * height == width * h + width) by (nonlinear_arith)
            requires
                h + 1 == height,
        ;
        lemma_char_cells_text(chars, (h * width) as int, (height * width) as int);
        let last = chars.subrange((h * width) as int, (height * width) as int);
        assert(full == prev + seq!['\n'] + last);
        assert(h * d + width == height * d - 1) by (nonlinear_arith)
            requires
                h + 1 == height,
                d == width + 1,
        ;
        assert(prev.len() == h * d - 1);
        assert forall|k: int| 0 <= k < full.len() implies #[trigger] full[k] == if k % d == width {
            '\n'
        } else {
            chars[(k / d) * width + k % d]
        } by {
            if k < prev.len() {
                assert(full[k] == prev[k]);
            } else if k == prev.len() {
                assert(k == (h - 1) * d + width) by (nonlinear_arith)
                    requires
                        k == h * d - 1,
                        d == width + 1,
                ;
                lemma_fundamental_div_mod_converse(k, d, h - 1, width as int);
            } else {
                let j = k - prev.len() - 1;
                assert(full[k] == last[j]);
                assert(k == h * d + j) by (nonlinear_arith)
                    requires
                        j == k - (h * d - 1) - 1,
                ;
                lemma_fundamental_div_mod_converse(k, d, h as int, j);
            }
        }
    }
}

/// The linear index of cell `(x, y)`, or `None` when it lies outside the grid.
pub fn cell_index(width: usize, height: usize, x: usize, y: usize) -> (r: Option<usize>)
    requires
        width * height <= usize::MAX,
    ensures
        r == (if x < width && y < height {
            Some(cell_offset(width as nat, x as nat, y as nat) as usize)
        } else {
            None
        }),
{
    if x >= width || y >= height {
        return None;
    }
    proof {
        lemma_row_in_grid(width as nat, height as nat, y as nat);
    }
    Some(y * width + x)
}

/// Appends the text of cells `start .. start + width` to `out`.
fn push_row(out: &mut String, chars: &[char], start: usize, width: usize)
    requires
        start + width <= chars@.len(),
    ensures
        final(out)@ == old(out)@ + cells_text(char_cells(chars@), start as int, start + width),
{
    let ghost base = old(out)@;
    let n = chars.len();
    let mut x: usize = 0;
    while x < width
        invariant
            x <= width,
            n == chars@.len(),
            start + width <= chars@.len(),
            out@ == base + cells_text(char_cells(chars@), start as int, start + x),
        decreases width - x,
    {
        push_char(out, chars[start + x]);
        x = x + 1;
        assert(out@ == base + cells_text(char_cells(chars@), start as int, start + x));
    }
}

/// Convert a `width`×`height` character grid (row-major) to a string of ASCII
/// art, rows separated by newlines.
pub fn framebuffer_to_string(width: usize, height: usize, chars: &[char]) -> (r: String)
    requires
        chars@.len() >= width * height,
    ensures
        r@ == grid_text(width as nat, height as nat, chars@),
{
    let mut out = String::new();
    let n = chars.len();
    let mut y: usize = 0;
    while y < height
        invariant
            y <= height,
            n == chars@.len(),
            chars@.len() >= width * height,
            out@ == grid_text(width as nat, y as nat, chars@),
        decreases height - y,
    {
        proof {
            lemma_row_in_grid(width as nat, height as nat, y as nat);
        }
        let start = y * width;
        if y > 0 {
            push_char(&mut out, '\n');
        }
        let ghost before = out@;
        push_row(&mut out, chars, start, width);
        proof {
            let cells = char_cells(chars@);
            assert(out@ == before + cells_text(cells, y * width, y * width + width));
            if y == 0 {
                assert(before =~= Seq::<char>::empty());
                assert(y * width == 0) by (nonlinear_arith)
                    requires
                        y == 0,
                ;
                assert(out@ =~= cells_text(cells, 0, width as int));
                assert(out@ == rows_text(cells, width as int, 1, seq!['\n']));
            } else {
                assert(rows_text(cells, width as int, y + 1, seq!['\n'])
                    == rows_text(cells, width as int, y as int, seq!['\n']) + seq!['\n']
                        + cells_text(cells, y * width, (y + 1) * width));
            }
        }
        y = y + 1;
    }
    out
}

} // verus!

//! The ANSI text written to the terminal for one frame.
use vstd::prelude::*;
use crate::render::grid::{cells_text, char_cells, grid_text, rows_text, lemma_row_in_grid};
use crate::text::{decimal, push_char, push_decimal, push_str};

verus! {

/// ANSI escape that homes the cursor.
pub open spec fn home_code() -> Seq<char> {
    "\x1b[H"@
}

/// ANSI escape that restores the default foreground color.
pub open spec fn default_fg_code() -> Seq<char> {
    "\x1b[39m"@
}

/// The three color components, decimal, separated by `;`, then `m`.
pub open spec fn rgb_params(c: [u8; 3]) -> Seq<char> {
    decimal(c[0] as nat) + ";"@ + decimal(c[1] as nat) + ";"@ + decimal(c[2] as nat) + "m"@
}

/// ANSI 24-bit foreground color escape.
pub open spec fn fg_code(c: [u8; 3]) -> Seq<char> {
    "\x1b[38;2;"@ + rgb_params(c)
}

/// ANSI 24-bit background color escape.
pub open spec fn bg_code(c: [u8; 3]) -> Seq<char> {
    "\x1b[48;2;"@ + rgb_params(c)
}

/// Whether two colors have equal components.
pub open spec fn same_rgb(a: [u8; 3], b: [u8; 3]) -> bool {
    a[0] == b[0] && a[1] == b[1] && a[2] == b[2]
}

/// Text of cell `i` in color mode. A foreground escape is written only when a
/// visible cell starts a run (first cell, or the previous cell was blank) or
/// changes color; a blank cell that ends a run first restores the default
/// foreground.
pub open spec fn colored_cells(chars: Seq<char>, rgb: Seq<[u8; 3]>) -> spec_fn(int) -> Seq<char> {
    |i: int|
        if chars[i] == ' ' {
            (if i > 0 && chars[i - 1] != ' ' { default_fg_code() } else { Seq::empty() }).push(' ')
        } else {
            (if i == 0 || chars[i - 1] == ' ' || !same_rgb(rgb[i - 1], rgb[i]) {
                fg_code(rgb[i])
            } else {
                Seq::empty()
            }).push(chars[i])
        }
}

/// The 24-bit foreground escape for `c`, spelled out: `ESC [ 38 ; 2 ; r ; g ; b m`.
pub open spec fn foreground_escape(c: [u8; 3]) -> Seq<char> {
    "\x1b[38;2;"@ + decimal(c[0] as nat) + ";"@ + decimal(c[1] as nat) + ";"@ + decimal(c[2] as nat) + "m"@
}

/// In color mode every lit cell shows its own color: cell `i` (not blank)
/// belongs to a run of lit cells that starts, at cell `j`, with a foreground
/// escape for `rgb[i]`; every cell of the run from `j` up to `i` has that
/// same color, and no cell after `j` up to `i` writes any escape. So the last
/// foreground escape written before cell `i`'s character carries `rgb[i]`.
pub proof fn lemma_lit_cell_shows_its_color(chars: Seq<char>, rgb: Seq<[u8; 3]>, i: int) -> (j: int)
    requires
        0 <= i < chars.len(),
        i < rgb.len(),
        chars[i] != ' ',
    ensures
        0 <= j <= i,
        colored_cells(chars, rgb)(j) == foreground_escape(rgb[i]) + seq![chars[j]],
        forall|k: int|
            #![trigger chars[k]]
            j < k <= i ==> {
                &&& chars[k] != ' '
                &&& rgb[k][0] == rgb[i][0] && rgb[k][1] == rgb[i][1] && rgb[k][2] == rgb[i][2]
                &&& colored_cells(chars, rgb)(k) == seq![chars[k]]
            },
    decreases i,
{
    if i == 0 || chars[i - 1] == ' ' || !same_rgb(rgb[i - 1], rgb[i]) {
        assert(colored_cells(chars, rgb)(i) =~= foreground_escape(rgb[i]) + seq![chars[i]]);
        i
    } else {
        let j = lemma_lit_cell_shows_its_color(chars, rgb, i - 1);
        assert(foreground_escape(rgb[i - 1]) == foreground_escape(rgb[i]));
        assert(colored_cells(chars, rgb)(i) =~= seq![chars[i]]);
        j
    }
}

/// Whether a colored frame of `count` cells ends inside a run and must
/// restore the default foreground.
pub open spec fn ends_in_run(chars: Seq<char>, count: nat) -> bool {
    count > 0 && chars[count - 1] != ' '
}

/// The grid part of a frame: rows separated by `"\r\n"`.
pub open spec fn frame_body(width: nat, height: nat, chars: Seq<char>, rgb: Seq<[u8; 3]>, color: bool) -> Seq<char> {
    if color {
        rows_text(colored_cells(chars, rgb), width as int, height as int, "\r\n"@)
            + (if ends_in_run(chars, width * height) { default_fg_code() } else { Seq::empty() })
    } else {
        rows_text(char_cells(chars), width as int, height as int, "\r\n"@)
    }
}

/// `s` with each line break `'\n'` written as `"\r\n"`.
pub open spec fn crlf(s: Seq<char>) -> Seq<char>
    decreases s.len(),
{
    if s.len() == 0 {
        Seq::empty()
    } else {
        crlf(s.drop_last()) + if s.last() == '\n' {
            seq!['\r', '\n']
        } else {
            seq![s.last()]
        }
    }
}

proof fn lemma_crlf_concat(a: Seq<char>, b: Seq<char>)
    ensures
        crlf(a + b) == crlf(a) + crlf(b),
    decreases b.len(),
{
    if b.len() == 0 {
        assert(a + b =~= a);
        assert(crlf(a) + crlf(b) =~= crlf(a));
    } else {
        lemma_crlf_concat(a, b.drop_last());
        assert((a + b).drop_last() =~= a + b.drop_last());
        assert((a + b).last() == b.last());
        let tail = if b.last() == '\n' { seq!['\r', '\n'] } else { seq![b.last()] };
        assert(crlf(a) + crlf(b) =~= crlf(a) + crlf(b.drop_last()) + tail);
    }
}

proof fn lemma_crlf_cells(chars: Seq<char>, from: int, to: int)
    requires
        0 <= from <= to <= chars.len(),
        forall|i: int| from <= i < to ==> chars[i] != '\n',
    ensures
        crlf(cells_text(char_cells(chars), from, to)) == cells_text(char_cells(chars), from, to),
    decreases to - from,
{
    if to > from {
        lemma_crlf_cells(chars, from, to - 1);
        lemma_crlf_concat(cells_text(char_cells(chars), from, to - 1), seq![chars[to - 1]]);
        assert(crlf(seq![chars[to - 1]]) =~= seq![chars[to - 1]]) by {
            assert(seq![chars[to - 1]].drop_last() =~= Seq::<char>::empty());
            assert(chars[to - 1] != '\n');
            reveal_with_fuel(crlf, 2);
        }
    }
}

/// The plain (uncolored) frame body is the plain text of the grid with each
/// line break written as `"\r\n"`, provided no cell is itself a line break.
pub proof fn lemma_plain_frame_is_crlf_grid_text(width: nat, height: nat, chars: Seq<char>, rgb: Seq<[u8; 3]>)
    requires
        chars.len() >= width * height,
        forall|i: int| 0 <= i < width * height ==> chars[i] != '\n',
    ensures
        frame_body(width, height, chars, rgb, false) == crlf(grid_text(width, height, chars)),
    decreases height,
{
    let cells = char_cells(chars);
    if height == 0 {
        assert(crlf(Seq::<char>::empty()) =~= Seq::<char>::empty());
    } else {
        let h = (height - 1) as nat;
        assert(h * width + width == width * height && width * h <= width * height) by (nonlinear_arith)
            requires
                h + 1 == height,
        ;
        assert(h * width == width * h && height * width == width * height) by (nonlinear_arith);
        lemma_crlf_cells(chars, (h * width) as int, (height * width) as int);
        if h == 0 {
            assert(height * width == width);
        } else {
            lemma_plain_frame_is_crlf_grid_text(width, h, chars, rgb);
            let prev = grid_text(width, h, chars);
            let last = cells_text(cells, (h * width) as int, (height * width) as int);
            assert(grid_text(width, height, chars) == prev + seq!['\n'] + last);
            lemma_crlf_concat(prev + seq!['\n'], last);
            lemma_crlf_concat(prev, seq!['\n']);
            assert(crlf(seq!['\n']) =~= seq!['\r', '\n']) by {
                assert(seq!['\n'].drop_last() =~= Seq::<char>::empty());
                reveal_with_fuel(crlf, 2);
            }
            reveal_strlit("\r\n");
            assert("\r\n"@ =~= seq!['\r', '\n']);
        }
    }
}

/// Column (1-based) at which an overlay of `len` bytes is right-aligned.
pub open spec fn overlay_column(terminal_width: nat, len: nat) -> nat {
    (if terminal_width > len { (terminal_width - len) as nat } else { 0 }) + 1
}

/// Overlay text placed in the top-right corner after resetting attributes.
pub open spec fn overlay_code(text: Seq<char>, column: nat) -> Seq<char> {
    "\x1b[0m\x1b[1;"@ + decimal(column) + "H"@ + text
}

/// The complete text written for one frame.
pub open spec fn frame_text(
    width: nat,
    height: nat,
    chars: Seq<char>,
    rgb: Seq<[u8; 3]>,
    color: bool,
    bg: Option<[u8; 3]>,
    overlay: Option<(Seq<char>, nat)>,
    terminal_width: nat,
) -> Seq<char> {
    home_code()
        + (match bg { Some(c) => bg_code(c), None => Seq::empty() })
        + frame_body(width, height, chars, rgb, color)
        + (match overlay {
            Some((text, len)) => overlay_code(text, overlay_column(terminal_width, len)),
            None => Seq::empty(),
        })
}

fn push_rgb_params(out: &mut String, c: [u8; 3])
    ensures
        final(out)@ == old(out)@ + rgb_params(c),
{
    push_decimal(out, c[0] as u64);
    push_str(out, ";");
    push_decimal(out, c[1] as u64);
    push_str(out, ";");
    push_decimal(out, c[2] as u64);
    push_str(out, "m");
    assert(out@ =~= old(out)@ + rgb_params(c));
}

/// Appends the color-mode text of cells `start .. start + width`.
fn push_colored_row(
    out: &mut String,
    chars: &[char],
    rgb: &[[u8; 3]],
    start: usize,
    width: usize,
    has_fg: &mut bool,
    prev: &mut [u8; 3],
)
    requires
        start + width <= chars@.len(),
        start + width <= rgb@.len(),
        *old(has_fg) == (start > 0 && chars@[start - 1] != ' '),
        *old(has_fg) ==> same_rgb(*old(prev), rgb@[start - 1]),
    ensures
        final(out)@ == old(out)@ + cells_text(colored_cells(chars@, rgb@), start as int, start + width),
        *final(has_fg) == (start + width > 0 && chars@[start + width - 1] != ' '),
        *final(has_fg) ==> same_rgb(*final(prev), rgb@[start + width - 1]),
{
    let ghost base = old(out)@;
    let ghost cells = colored_cells(chars@, rgb@);
    let n = chars.len();
    let mut x: usize = 0;
    while x < width
        invariant
            x <= width,
            n == chars@.len(),
            start + width <= chars@.len(),
            start + width <= rgb@.len(),
            cells == colored_cells(chars@, rgb@),
            *has_fg == (start + x > 0 && chars@[start + x - 1] != ' '),
            *has_fg ==> same_rgb(*prev, rgb@[start + x - 1]),
            out@ == base + cells_text(cells, start as int, start + x),
        decreases width - x,
    {
        let i = start + x;
        let ch = chars[i];
        let ghost before = out@;
        if ch == ' ' {
            if *has_fg {
                push_str(out, "\x1b[39m");
                *has_fg = false;
            }
            push_char(out, ' ');
        } else {
            let c = rgb[i];
            if !*has_fg || c[0] != prev[0] || c[1] != prev[1] || c[2] != prev[2] {
                push_str(out, "\x1b[38;2;");
                push_rgb_params(out, c);
                *prev = c;
                *has_fg = true;
            }
            push_char(out, ch);
        }
        assert(out@ =~= before + cells(i as int));
        x = x + 1;
    }
}

/// The text written to the terminal for one frame of a `width`×`height`
/// character grid: cursor home, optional background color, the rows separated
/// by `"\r\n"` (in color mode with 24-bit foreground escapes from `rgb`), and
/// an optional overlay right-aligned on the first line of a terminal
/// `terminal_width` columns wide.
#[verifier::rlimit(40)]
pub fn compose_frame(
    width: usize,
    height: usize,
    chars: &[char],
    rgb: &[[u8; 3]],
    color: bool,
    bg: Option<[u8; 3]>,
    overlay: Option<&str>,
    terminal_width: u16,
) -> (r: String)
    requires
        chars@.len() >= width * height,
        color ==> rgb@.len() >= width * height,
    ensures
        r@ == frame_text(
            width as nat,
            height as nat,
            chars@,
            rgb@,
            color,
            bg,
            match overlay {
                Some(t) => Some((t@, t.len() as nat)),
                None => None,
            },
            terminal_width as nat,
        ),
{
    let mut out = String::new();
    push_str(&mut out, "\x1b[H");
    if let Some(c) = bg {
        push_str(&mut out, "\x1b[48;2;");
        push_rgb_params(&mut out, c);
    }
    let ghost head = out@;
    let n = chars.len();
    let mut has_fg = false;
    let mut prev: [u8; 3] = [0, 0, 0];
    let ghost cells = if color { colored_cells(chars@, rgb@) } else { char_cells(chars@) };
    let mut y: usize = 0;
    while y < height
        invariant
            y <= height,
            n == chars@.len(),
            chars@.len() >= width * height,
            color ==> rgb@.len() >= width * height,
            cells == (if color { colored_cells(chars@, rgb@) } else { char_cells(chars@) }),
            color ==> has_fg == (y * width > 0 && chars@[y * width - 1] != ' '),
            color && has_fg ==> same_rgb(prev, rgb@[y * width - 1]),
            out@ == head + rows_text(cells, width as int, y as int, "\r\n"@),
        decreases height - y,
    {
        proof {
            lemma_row_in_grid(width as nat, height as nat, y as nat);
        }
        let start = y * width;
        if y > 0 {
            push_str(&mut out, "\r\n");
        }
        let ghost before = out@;
        if color {
            push_colored_row(&mut out, chars, rgb, start, width, &mut has_fg, &mut prev);
        } else {
            let mut x: usize = 0;
            while x < width
                invariant
                    x <= width,
                    n == chars@.len(),
                    start + width <= chars@.len(),
                    out@ == before + cells_text(char_cells(chars@), start as int, start + x),
                decreases width - x,
            {
                push_char(&mut out, chars[start + x]);
                x = x + 1;
            }
        }
        proof {
            assert(out@ == before + cells_text(cells, y * width, y * width + width));
            if y == 0 {
                assert(y * width == 0) by (nonlinear_arith)
                    requires
                        y == 0,
                ;
                assert(rows_text(cells, width as int, 0, "\r\n"@) =~= Seq::<char>::empty());
                assert(out@ =~= head + rows_text(cells, width as int, 1, "\r\n"@));
            } else {
                assert(rows_text(cells, width as int, y + 1, "\r\n"@)
                    == rows_text(cells, width as int, y as int, "\r\n"@) + "\r\n"@
                        + cells_text(cells, y * width, (y + 1) * width));
                assert(out@ =~= head + rows_text(cells, width as int, y + 1, "\r\n"@));
            }
        }
        y = y + 1;
    }
    proof {
        assert(height * width == width * height) by (nonlinear_arith);
    }
    if color && has_fg {
        push_str(&mut out, "\x1b[39m");
    }
    let ghost before_overlay = out@;
    assert(color ==> has_fg == ends_in_run(chars@, width as nat * height as nat));
    assert(before_overlay =~= head + frame_body(width as nat, height as nat, chars@, rgb@, color));
    if let Some(text) = overlay {
        let len = text.len();
        let column: usize = if (terminal_width as usize) > len { terminal_width as usize - len } else { 0 };
        push_str(&mut out, "\x1b[0m\x1b[1;");
        push_decimal(&mut out, (column + 1) as u64);
        push_str(&mut out, "H");
        push_str(&mut out, text);
        assert(out@ =~= before_overlay + overlay_code(text@, overlay_column(terminal_width as nat, len as nat)));
    }
    assert(out@ =~= frame_text(
        width as nat,
        height as nat,
        chars@,
        rgb@,
        color,
        bg,
        match overlay {
            Some(t) => Some((t@, t.len() as nat)),
            None => None,
        },
        terminal_width as nat,
    ));
    out
}

} // verus!

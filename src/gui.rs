use vstd::prelude::*;

use crate::api::{set_char, set_console, CommandQueue, GlspCommand, CONSOLE_BG, CONSOLE_TEXT};
use crate::tile::{bg_color, halfway, rgb, white, Color};
use crate::utils::{sheet_index, ss_idx};

verus! {

/// The command that draws `glyph` at `(x, y)` on the background console.
pub open spec fn cell_at(x: int, y: int, glyph: nat, fg: Color, bg: Color) -> GlspCommand {
    GlspCommand::SetChar { x: x as i32, y: y as i32, glyph: glyph as u16, fg, bg, console: 0 }
}

/// The top and bottom edges of a box, over the first `n` columns after `x`.
pub open spec fn box_rows(x: int, y: int, y2: int, n: int, fg: Color, bg: Color) -> Seq<GlspCommand>
    decreases n,
{
    if n <= 0 {
        seq![]
    } else {
        box_rows(x, y, y2, n - 1, fg, bg) + seq![
            cell_at(x + n, y, sheet_index(56, 224), fg, bg),
            cell_at(x + n, y2, sheet_index(56, 240), fg, bg),
        ]
    }
}

/// The left and right edges of a box, over the first `n` rows after `y`.
pub open spec fn box_columns(x: int, x2: int, y: int, n: int, fg: Color, bg: Color) -> Seq<GlspCommand>
    decreases n,
{
    if n <= 0 {
        seq![]
    } else {
        box_columns(x, x2, y, n - 1, fg, bg) + seq![
            cell_at(x, y + n, sheet_index(48, 232), fg, bg),
            cell_at(x2, y + n, sheet_index(64, 232), fg, bg),
        ]
    }
}

/// The commands that draw the frame of the `w` by `h` box whose top-left
/// cell is `(x, y)`: its four corners, then the top and bottom edges from left
/// to right, then the left and right edges from top to bottom.
pub open spec fn box_commands(x: int, y: int, w: int, h: int, fg: Color, bg: Color) -> Seq<GlspCommand> {
    let x2 = x + w - 1;
    let y2 = y + h - 1;
    seq![
        cell_at(x, y, sheet_index(96, 224), fg, bg),
        cell_at(x, y2, sheet_index(96, 232), fg, bg),
        cell_at(x2, y, sheet_index(104, 224), fg, bg),
        cell_at(x2, y2, sheet_index(104, 232), fg, bg),
    ] + box_rows(x, y, y2, x2 - x - 1, fg, bg) + box_columns(x, x2, y, y2 - y - 1, fg, bg)
}

/// `c` when given, else `default`.
pub open spec fn or_color(c: Option<&Color>, default: Color) -> Color {
    if c is Some {
        *c.unwrap()
    } else {
        default
    }
}

/// Queues the frame of the `w` by `h` box whose top-left cell is `(x, y)`;
/// `fg` defaults to white and `bg` to the background color.
pub fn draw_box(
    queue: &mut CommandQueue,
    x: i32,
    y: i32,
    w: i32,
    h: i32,
    fg: Option<&Color>,
    bg: Option<&Color>,
)
    requires
        i32::MIN <= x + w - 1 <= i32::MAX,
        i32::MIN <= y + h - 1 <= i32::MAX,
    ensures
        final(queue).0@ == old(queue).0@ + box_commands(
            x as int,
            y as int,
            w as int,
            h as int,
            or_color(fg, rgb(255, 255, 255)),
            or_color(bg, rgb(38, 38, 38)),
        ),
{
    let top_left = ss_idx(96, 224);
    let top_right = ss_idx(104, 224);
    let bottom_left = ss_idx(96, 232);
    let bottom_right = ss_idx(104, 232);
    let top = ss_idx(56, 224);
    let bottom = ss_idx(56, 240);
    let left = ss_idx(48, 232);
    let right = ss_idx(64, 232);
    let x2 = (x as i64 + w as i64 - 1) as i32;
    let y2 = (y as i64 + h as i64 - 1) as i32;
    let fg = match fg {
        Some(fg) => *fg,
        None => white(),
    };
    let bg = match bg {
        Some(bg) => *bg,
        None => bg_color(),
    };
    let ghost start = queue.0@;
    set_char(queue, x, y, top_left, &fg, &bg, 0);
    set_char(queue, x, y2, bottom_left, &fg, &bg, 0);
    set_char(queue, x2, y, top_right, &fg, &bg, 0);
    set_char(queue, x2, y2, bottom_right, &fg, &bg, 0);
    let ghost corners = queue.0@;
    let mut i: i64 = x as i64 + 1;
    while i < x2 as i64
        invariant
            x + 1 <= i,
            i <= x2 || i == x + 1,
            x2 == x + w - 1,
            top == sheet_index(56, 224),
            bottom == sheet_index(56, 240),
            queue.0@ == corners + box_rows(x as int, y as int, y2 as int, i - x - 1, fg, bg),
        decreases x2 - i,
    {
        set_char(queue, i as i32, y, top, &fg, &bg, 0);
        set_char(queue, i as i32, y2, bottom, &fg, &bg, 0);
        proof {
            assert(box_rows(x as int, y as int, y2 as int, i - x, fg, bg) == box_rows(x as int, y as int, y2 as int, i - x - 1, fg, bg) + seq![
                cell_at(i as int, y as int, sheet_index(56, 224), fg, bg),
                cell_at(i as int, y2 as int, sheet_index(56, 240), fg, bg),
            ]);
            assert(queue.0@ =~= corners + box_rows(x as int, y as int, y2 as int, i - x, fg, bg));
        }
        i = i + 1;
    }
    let ghost rows = queue.0@;
    let mut j: i64 = y as i64 + 1;
    while j < y2 as i64
        invariant
            y + 1 <= j,
            j <= y2 || j == y + 1,
            y2 == y + h - 1,
            left == sheet_index(48, 232),
            right == sheet_index(64, 232),
            queue.0@ == rows + box_columns(x as int, x2 as int, y as int, j - y - 1, fg, bg),
        decreases y2 - j,
    {
        set_char(queue, x, j as i32, left, &fg, &bg, 0);
        set_char(queue, x2, j as i32, right, &fg, &bg, 0);
        proof {
            assert(box_columns(x as int, x2 as int, y as int, j - y, fg, bg) == box_columns(x as int, x2 as int, y as int, j - y - 1, fg, bg) + seq![
                cell_at(x as int, j as int, sheet_index(48, 232), fg, bg),
                cell_at(x2 as int, j as int, sheet_index(64, 232), fg, bg),
            ]);
            assert(queue.0@ =~= rows + box_columns(x as int, x2 as int, y as int, j - y, fg, bg));
        }
        j = j + 1;
    }
    proof {
        let fx = (x2 as int) - (x as int) - 1;
        let fy = (y2 as int) - (y as int) - 1;
        if i - x - 1 != fx {
            assert(fx <= 0);
            assert(box_rows(x as int, y as int, y2 as int, fx, fg, bg) =~= seq![]);
            assert(box_rows(x as int, y as int, y2 as int, i - x - 1, fg, bg) =~= seq![]);
        }
        if j - y - 1 != fy {
            assert(fy <= 0);
            assert(box_columns(x as int, x2 as int, y as int, fy, fg, bg) =~= seq![]);
            assert(box_columns(x as int, x2 as int, y as int, j - y - 1, fg, bg) =~= seq![]);
        }
        assert(queue.0@ =~= start + box_commands(x as int, y as int, w as int, h as int, fg, bg));
    }
}

/// Queues a switch to the text console, then `output` at `(x, y)`; `fg`
/// defaults to white and `bg` to the background color.
pub fn print(queue: &mut CommandQueue, x: i32, y: i32, output: String, fg: Option<&Color>, bg: Option<&Color>)
    ensures
        final(queue).0@ == old(queue).0@ + seq![
            GlspCommand::SetConsole { id: CONSOLE_TEXT },
            GlspCommand::Print {
                x,
                y,
                output,
                fg: or_color(fg, rgb(255, 255, 255)),
                bg: or_color(bg, rgb(38, 38, 38)),
            },
        ],
{
    let fg = match fg {
        Some(fg) => *fg,
        None => white(),
    };
    let bg = match bg {
        Some(bg) => *bg,
        None => bg_color(),
    };
    let command = GlspCommand::Print { x, y, output, fg, bg };
    let ghost start = queue.0@;
    set_console(queue, CONSOLE_TEXT);
    queue.push(command);
    assert(queue.0@ =~= start + seq![GlspCommand::SetConsole { id: CONSOLE_TEXT }, command]);
}

/// Number of filled cells of a bar `w` cells wide at `completed` out of
/// `max`: `w * completed / max`, rounded toward zero.
pub open spec fn filled_cells(w: int, completed: int, max: int) -> int {
    let p = w * completed;
    if p >= 0 {
        p / max
    } else {
        -((-p) / max)
    }
}

/// A run of `n` cells of `glyph` on the background console, from `(x, y)`
/// rightwards; none when `n` is not positive.
pub open spec fn run_of(x: int, y: int, n: int, glyph: nat, fg: Color, bg: Color) -> Seq<GlspCommand> {
    Seq::new(
        if n > 0 { n as nat } else { 0 },
        |k: int| GlspCommand::SetChar { x: (x + k) as i32, y: y as i32, glyph: glyph as u16, fg, bg, console: 0 },
    )
}

/// Queues `n` cells of `glyph` on the background console, from `(x, y)`
/// rightwards.
fn push_run(queue: &mut CommandQueue, x: i64, y: i32, n: i64, glyph: u16, fg: &Color, bg: &Color)
    requires
        n > 0 ==> i32::MIN <= x && x + n - 1 <= i32::MAX,
    ensures
        final(queue).0@ == old(queue).0@ + run_of(x as int, y as int, n as int, glyph as nat, *fg, *bg),
{
    let ghost start = queue.0@;
    let mut k: i64 = 0;
    while k < n
        invariant
            n > 0 ==> i32::MIN <= x && x + n - 1 <= i32::MAX,
            0 <= k,
            k <= n || k == 0,
            queue.0@ == start + run_of(x as int, y as int, k as int, glyph as nat, *fg, *bg),
        decreases n - k,
    {
        set_char(queue, (x + k) as i32, y, glyph, fg, bg, CONSOLE_BG);
        assert(queue.0@ =~= start + run_of(x as int, y as int, k + 1, glyph as nat, *fg, *bg));
        k = k + 1;
    }
    assert(run_of(x as int, y as int, k as int, glyph as nat, *fg, *bg) =~= run_of(x as int, y as int, n as int, glyph as nat, *fg, *bg));
}

/// Queues a horizontal bar `w` cells wide from `(x, y)`, whose first
/// `filled_cells(w, completed, max)` cells are filled and whose other cells
/// are drawn empty, in a color halfway between `fg` and the background.
pub fn progress_bar_h(
    queue: &mut CommandQueue,
    x: i32,
    y: i32,
    w: i32,
    completed: i32,
    max: i32,
    fg: &Color,
    bg: &Color,
)
    requires
        0 < max,
        i32::MIN <= x + w <= i32::MAX,
        i32::MIN <= x + filled_cells(w as int, completed as int, max as int) <= i32::MAX,
    ensures
        final(queue).0@ == old(queue).0@ + run_of(
            x as int,
            y as int,
            filled_cells(w as int, completed as int, max as int),
            sheet_index(16, 160),
            *fg,
            *bg,
        ) + run_of(
            x + filled_cells(w as int, completed as int, max as int),
            y as int,
            w - filled_cells(w as int, completed as int, max as int),
            sheet_index(0, 208),
            halfway(*fg, rgb(38, 38, 38)),
            *bg,
        ),
{
    proof {
        assert(-0x8000_0000 * 0x8000_0000 <= (w as int) * (completed as int) <= 0x8000_0000 * 0x8000_0000) by (nonlinear_arith)
            requires
                -0x8000_0000 <= w < 0x8000_0000,
                -0x8000_0000 <= completed < 0x8000_0000,
        ;
    }
    let product: i64 = w as i64 * completed as i64;
    let filled: i64 = if product >= 0 {
        product / max as i64
    } else {
        -((-product) / max as i64)
    };
    assert(filled == filled_cells(w as int, completed as int, max as int));
    let full = ss_idx(16, 160);
    let empty = ss_idx(0, 208);
    let faded = fg.midpoint(bg_color());
    push_run(queue, x as i64, y, filled, full, fg, bg);
    push_run(queue, x as i64 + filled, y, w as i64 - filled, empty, &faded, bg);
}

} // verus!

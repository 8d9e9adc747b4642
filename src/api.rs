use vstd::prelude::*;

use bracket_lib::prelude::to_cp437;

use crate::tile::{bg_color, Color};

verus! {

/// Console that holds the map's background layer.
pub const CONSOLE_BG: usize = 0;

/// Console that holds characters drawn over the map.
pub const CONSOLE_CHARS: usize = 1;

/// Console that holds text.
pub const CONSOLE_TEXT: usize = 2;

/// Width of the screen, in cells.
pub const WIDTH: i32 = 80;

/// Height of the screen, in cells.
pub const HEIGHT: i32 = 45;

/// The code page 437 index that stands for a character.
pub uninterp spec fn cp437_of(c: char) -> u16;

/// Relies on bracket-terminal's to_cp437: the code page 437 index of `c`, a
/// function of the character alone.
pub assume_specification[ to_cp437 ](c: char) -> (r: u16)
    ensures
        r == cp437_of(c),
;

/// One drawing intent, applied by the renderer at the end of a tick.
#[derive(Clone, Debug, PartialEq)]
pub enum GlspCommand {
    /// Clear every console.
    Cls,
    /// Draw `glyph` at `(x, y)` on `console`.
    SetChar { x: i32, y: i32, glyph: u16, fg: Color, bg: Color, console: usize },
    /// Paint the background of `(x, y)` on the active console.
    SetBgColor { x: i32, y: i32, bg: Color },
    /// Make console `id` the active one for the commands that follow.
    SetConsole { id: usize },
    /// Switch the scanline effect on or off.
    SetScanlines(bool),
    /// Set the screen-burn color of the scanline effect.
    SetBurnColor(Color),
    /// Write `output` at `(x, y)` on the active console.
    Print { x: i32, y: i32, output: String, fg: Color, bg: Color },
    /// Leave the game.
    Exit,
}

/// The drawing intents of one tick, in the order they were issued.
pub struct CommandQueue(pub Vec<GlspCommand>);

impl CommandQueue {
    /// An empty queue.
    pub fn new() -> (r: Self)
        ensures
            r.0@ == Seq::<GlspCommand>::empty(),
    {
        CommandQueue(Vec::new())
    }

    /// Appends `command` after every command already queued.
    pub fn push(&mut self, command: GlspCommand)
        ensures
            final(self).0@ == old(self).0@.push(command),
    {
        self.0.push(command);
    }

    /// Appends every command of `cmds`, in order, after those already queued.
    pub fn push_all(&mut self, cmds: Vec<GlspCommand>)
        ensures
            final(self).0@ == after_pushes(old(self).0@, cmds@),
            final(self).0@ == old(self).0@ + cmds@,
    {
        let ghost start = self.0@;
        let ghost all = cmds@;
        let n: usize = cmds.len();
        let mut rest = cmds;
        let mut k: usize = 0;
        while rest.len() > 0
            invariant
                all.len() == n,
                k + rest@.len() == n,
                rest@ == all.subrange(k as int, n as int),
                self.0@ == after_pushes(start, all.subrange(0, k as int)),
                self.0@ == start + all.subrange(0, k as int),
            decreases rest@.len(),
        {
            let c = rest.remove(0);
            proof {
                let next = all.subrange(0, k + 1);
                assert(next.drop_last() =~= all.subrange(0, k as int));
                assert(next.last() == c);
            }
            self.push(c);
            k = k + 1;
            proof {
                assert(rest@ =~= all.subrange(k as int, n as int));
                assert(self.0@ =~= start + all.subrange(0, k as int));
            }
        }
        proof {
            assert(all.subrange(0, n as int) =~= all);
        }
    }

    /// Every queued command, oldest first; the queue is left empty.
    pub fn drain(&mut self) -> (r: Vec<GlspCommand>)
        ensures
            r@ == old(self).0@,
            final(self).0@ == Seq::<GlspCommand>::empty(),
    {
        let mut out: Vec<GlspCommand> = Vec::new();
        std::mem::swap(&mut self.0, &mut out);
        out
    }
}

/// The queue after each command of `cmds` is pushed, in order, onto `queue`.
pub open spec fn after_pushes(queue: Seq<GlspCommand>, cmds: Seq<GlspCommand>) -> Seq<GlspCommand>
    decreases cmds.len(),
{
    if cmds.len() == 0 {
        queue
    } else {
        after_pushes(queue, cmds.drop_last()).push(cmds.last())
    }
}

/// Pushing commands onto an empty queue leaves exactly those commands queued,
/// in push order, which is what `drain` then returns; `drain` leaves the
/// queue empty, so a second one returns nothing.
pub proof fn lemma_drain_returns_pushed(cmds: Seq<GlspCommand>)
    ensures
        after_pushes(seq![], cmds) == cmds,
    decreases cmds.len(),
{
    if cmds.len() > 0 {
        lemma_drain_returns_pushed(cmds.drop_last());
        assert(cmds.drop_last().push(cmds.last()) =~= cmds);
    }
}

/// The key pressed during the current tick, by its lowercase name.
pub struct KeyPressed(pub Option<String>);

impl KeyPressed {
    /// No key pressed.
    pub fn new() -> (r: Self)
        ensures
            r.0 is None,
    {
        KeyPressed(None)
    }
}

/// A glyph as a script gives it: a sheet index, or a character.
#[derive(Clone, Copy, Debug, PartialEq, Eq, Structural)]
pub enum GlyphArg {
    Code(u16),
    Char(char),
}

/// Queues the clearing of every console.
pub fn cls(queue: &mut CommandQueue)
    ensures
        final(queue).0@ == old(queue).0@.push(GlspCommand::Cls),
{
    queue.push(GlspCommand::Cls);
}

/// Queues a switch to console `id` for the draw calls that follow.
pub fn set_console(queue: &mut CommandQueue, id: usize)
    ensures
        final(queue).0@ == old(queue).0@.push(GlspCommand::SetConsole { id }),
{
    queue.push(GlspCommand::SetConsole { id });
}

/// The sheet index and console that a glyph argument stands for: a sheet index
/// goes to the background console, a character to the character console,
/// unless `console` names another.
pub open spec fn glyph_target(glyph: GlyphArg, console: Option<usize>) -> (u16, usize) {
    match glyph {
        GlyphArg::Code(g) => (g, if console is Some { console.unwrap() } else { 0 }),
        GlyphArg::Char(c) => (cp437_of(c), if console is Some { console.unwrap() } else { 1 }),
    }
}

/// Queues a glyph at `(x, y)` as a script gives it; `bg` defaults to the
/// background color.
pub fn set_char_glsp(
    queue: &mut CommandQueue,
    x: i32,
    y: i32,
    glyph: GlyphArg,
    fg: &Color,
    bg: Option<&Color>,
    console: Option<usize>,
)
    ensures
        final(queue).0@ == old(queue).0@.push(
            GlspCommand::SetChar {
                x,
                y,
                glyph: glyph_target(glyph, console).0,
                fg: *fg,
                bg: if bg is Some { *bg.unwrap() } else { Color { r: 38, g: 38, b: 38 } },
                console: glyph_target(glyph, console).1,
            },
        ),
{
    let bg = match bg {
        Some(bg) => *bg,
        None => bg_color(),
    };
    let (glyph, console) = match (glyph, console) {
        (GlyphArg::Code(g), None) => (g, 0),
        (GlyphArg::Code(g), Some(c)) => (g, c),
        (GlyphArg::Char(g), None) => (to_cp437(g), 1),
        (GlyphArg::Char(g), Some(c)) => (to_cp437(g), c),
    };
    set_char(queue, x, y, glyph, fg, &bg, console);
}

/// Queues a background color for `(x, y)`.
pub fn set_bg_glsp(queue: &mut CommandQueue, x: i32, y: i32, bg: &Color)
    ensures
        final(queue).0@ == old(queue).0@.push(GlspCommand::SetBgColor { x, y, bg: *bg }),
{
    queue.push(GlspCommand::SetBgColor { x, y, bg: *bg });
}

/// Queues `glyph` at `(x, y)` on `console`.
pub fn set_char(queue: &mut CommandQueue, x: i32, y: i32, glyph: u16, fg: &Color, bg: &Color, console: usize)
    ensures
        final(queue).0@ == old(queue).0@.push(
            GlspCommand::SetChar { x, y, glyph, fg: *fg, bg: *bg, console },
        ),
{
    queue.push(GlspCommand::SetChar { x, y, glyph, fg: *fg, bg: *bg, console });
}

/// Queues switching the scanline effect on or off.
pub fn set_scanlines(queue: &mut CommandQueue, set: bool)
    ensures
        final(queue).0@ == old(queue).0@.push(GlspCommand::SetScanlines(set)),
{
    queue.push(GlspCommand::SetScanlines(set));
}

/// Queues a screen-burn color.
pub fn set_burn_color(queue: &mut CommandQueue, color: &Color)
    ensures
        final(queue).0@ == old(queue).0@.push(GlspCommand::SetBurnColor(*color)),
{
    queue.push(GlspCommand::SetBurnColor(*color));
}

/// Queues leaving the game.
pub fn exit(queue: &mut CommandQueue)
    ensures
        final(queue).0@ == old(queue).0@.push(GlspCommand::Exit),
{
    queue.push(GlspCommand::Exit);
}

} // verus!

use rogue_core::api::{
    cls, exit, set_bg_glsp, set_burn_color, set_char, set_char_glsp, set_console, set_scanlines,
    CommandQueue, GlspCommand, GlyphArg, KeyPressed, CONSOLE_TEXT,
};
use rogue_core::gamelog::GameLog;
use rogue_core::gui::{draw_box, print, progress_bar_h};
use rogue_core::tile::{Color, Tile, TileType};

fn grey() -> Color {
    Color::new(38, 38, 38)
}

#[test]
fn drain_returns_pushed_in_order_once() {
    let mut q = CommandQueue::new();
    let red = Color::new(255, 0, 0);
    cls(&mut q);
    set_console(&mut q, 2);
    set_char(&mut q, 1, 2, 65, &red, &red, 1);
    set_bg_glsp(&mut q, 3, 4, &red);
    set_scanlines(&mut q, true);
    set_burn_color(&mut q, &red);
    exit(&mut q);
    let drained = q.drain();
    assert_eq!(
        drained,
        vec![
            GlspCommand::Cls,
            GlspCommand::SetConsole { id: 2 },
            GlspCommand::SetChar { x: 1, y: 2, glyph: 65, fg: red, bg: red, console: 1 },
            GlspCommand::SetBgColor { x: 3, y: 4, bg: red },
            GlspCommand::SetScanlines(true),
            GlspCommand::SetBurnColor(red),
            GlspCommand::Exit,
        ]
    );
    assert!(q.drain().is_empty());
    exit(&mut q);
    assert_eq!(q.drain(), vec![GlspCommand::Exit]);
}

#[test]
fn glyph_arguments_pick_console_and_code() {
    let mut q = CommandQueue::new();
    let fg = Color::new(1, 2, 3);
    let bg = Color::new(4, 5, 6);
    set_char_glsp(&mut q, 0, 0, GlyphArg::Code(300), &fg, None, None);
    set_char_glsp(&mut q, 0, 0, GlyphArg::Code(300), &fg, Some(&bg), Some(2));
    set_char_glsp(&mut q, 0, 0, GlyphArg::Char('a'), &fg, None, None);
    set_char_glsp(&mut q, 0, 0, GlyphArg::Char('@'), &fg, Some(&bg), Some(0));
    set_char_glsp(&mut q, 0, 0, GlyphArg::Char('\u{263A}'), &fg, None, None);
    set_char_glsp(&mut q, 0, 0, GlyphArg::Char('\u{2665}'), &fg, None, Some(2));
    assert_eq!(
        q.drain(),
        vec![
            GlspCommand::SetChar { x: 0, y: 0, glyph: 300, fg, bg: grey(), console: 0 },
            GlspCommand::SetChar { x: 0, y: 0, glyph: 300, fg, bg, console: 2 },
            GlspCommand::SetChar { x: 0, y: 0, glyph: 97, fg, bg: grey(), console: 1 },
            GlspCommand::SetChar { x: 0, y: 0, glyph: 64, fg, bg, console: 0 },
            GlspCommand::SetChar { x: 0, y: 0, glyph: 1, fg, bg: grey(), console: 1 },
            GlspCommand::SetChar { x: 0, y: 0, glyph: 3, fg, bg: grey(), console: 2 },
        ]
    );
}

#[test]
fn print_switches_to_text_console() {
    let mut q = CommandQueue::new();
    print(&mut q, 3, 4, "hi".to_string(), None, None);
    assert_eq!(
        q.drain(),
        vec![
            GlspCommand::SetConsole { id: CONSOLE_TEXT },
            GlspCommand::Print { x: 3, y: 4, output: "hi".to_string(), fg: Color::new(255, 255, 255), bg: grey() },
        ]
    );
}

#[test]
fn draw_box_frame_order() {
    let mut q = CommandQueue::new();
    draw_box(&mut q, 0, 0, 3, 3, None, None);
    let cmds = q.drain();
    let cells: Vec<(i32, i32, u16)> = cmds
        .iter()
        .map(|c| match c {
            GlspCommand::SetChar { x, y, glyph, .. } => (*x, *y, *glyph),
            _ => panic!("unexpected command"),
        })
        .collect();
    assert_eq!(
        cells,
        vec![(0, 0, 460), (0, 2, 476), (2, 0, 461), (2, 2, 477), (1, 0, 455), (1, 2, 487), (0, 1, 470), (2, 1, 472)]
    );
}

#[test]
fn draw_box_of_one_cell() {
    let mut q = CommandQueue::new();
    draw_box(&mut q, 5, 5, 1, 1, None, None);
    assert_eq!(q.drain().len(), 4);
}

#[test]
fn progress_bar_fills_proportionally() {
    let mut q = CommandQueue::new();
    let fg = Color::new(200, 100, 0);
    let bg = Color::new(0, 0, 0);
    progress_bar_h(&mut q, 2, 1, 10, 3, 10, &fg, &bg);
    let cmds = q.drain();
    assert_eq!(cmds.len(), 10);
    let faded = Color::new(119, 69, 19);
    for (k, c) in cmds.iter().enumerate() {
        let expected = if k < 3 {
            GlspCommand::SetChar { x: 2 + k as i32, y: 1, glyph: 322, fg, bg, console: 0 }
        } else {
            GlspCommand::SetChar { x: 2 + k as i32, y: 1, glyph: 416, fg: faded, bg, console: 0 }
        };
        assert_eq!(*c, expected);
    }
}

#[test]
fn game_log_keeps_order() {
    let mut log = GameLog::new();
    log.add("one".to_string());
    log.add("two".to_string());
    log.add("one".to_string());
    assert_eq!(log.get_messages(), vec!["one".to_string(), "two".to_string(), "one".to_string()]);
}

#[test]
fn key_pressed_starts_empty() {
    assert_eq!(KeyPressed::new().0, None);
}

#[test]
fn tiles_have_their_kind_and_glyph_set() {
    let w = Tile::wall();
    assert_eq!(w.tile_type, TileType::Wall);
    assert!([441, 442, 443, 444, 445].contains(&w.glyph));
    assert_eq!(w.fg, Color::new(205, 133, 0));
    assert_eq!(w.bg, Color::new(39, 35, 29));
    assert_eq!(w.fg_fog, Color::new(69, 69, 69));
    assert_eq!(w.bg_fog, Color::new(35, 35, 35));
    let f = Tile::floor();
    assert_eq!(f.tile_type, TileType::Floor);
    assert!([405, 718, 719, 734, 735, 32, 768, 291].contains(&f.glyph));
    assert_eq!(f.fg_fog, Color::new(0, 0, 0));
    assert!(f.fg.r >= 153 && f.fg.r <= 183 && f.fg.r == f.fg.g && f.fg.g == f.fg.b);
    assert_eq!(f.console, 0);
}

#[test]
fn wall_with_takes_the_weighted_glyph() {
    assert_eq!(Tile::wall_with(0).glyph, 441);
    assert_eq!(Tile::wall_with(1).glyph, 442);
    assert_eq!(Tile::wall_with(2).glyph, 443);
    assert_eq!(Tile::wall_with(21).glyph, 443);
    assert_eq!(Tile::wall_with(22).glyph, 444);
    assert_eq!(Tile::wall_with(42).glyph, 445);
    assert_eq!(Tile::wall_with(42).tile_type, TileType::Wall);
}

#[test]
fn floor_with_takes_glyph_and_shade() {
    let t = Tile::floor_with(0, 128);
    assert_eq!(t.tile_type, TileType::Floor);
    assert_eq!(t.glyph, 405);
    assert_eq!(t.fg, Color::new(153, 153, 153));
    assert_eq!(t.bg, Color::new(98, 89, 72));
    assert_eq!(t.fg_fog, Color::new(0, 0, 0));
    assert_eq!(t.bg_fog, Color::new(44, 44, 44));
    assert_eq!(Tile::floor_with(5, 130).glyph, 32);
    assert_eq!(Tile::floor_with(204, 130).glyph, 32);
    assert_eq!(Tile::floor_with(205, 130).glyph, 768);
    assert_eq!(Tile::floor_with(206, 153).glyph, 291);
}

#[test]
fn progress_bar_with_negative_progress_is_all_empty() {
    let mut q = CommandQueue::new();
    let fg = Color::new(200, 100, 0);
    let bg = Color::new(0, 0, 0);
    progress_bar_h(&mut q, 5, 0, 10, -3, 10, &fg, &bg);
    let xs: Vec<i32> = q
        .drain()
        .iter()
        .map(|c| match c {
            GlspCommand::SetChar { x, glyph, .. } => {
                assert_eq!(*glyph, 416);
                *x
            }
            _ => panic!("unexpected command"),
        })
        .collect();
    assert_eq!(xs, (2..15).collect::<Vec<i32>>());
}

#[test]
fn push_all_then_drain() {
    let mut q = CommandQueue::new();
    q.push(GlspCommand::Cls);
    q.push_all(vec![GlspCommand::SetConsole { id: 1 }, GlspCommand::Exit]);
    assert_eq!(q.drain(), vec![GlspCommand::Cls, GlspCommand::SetConsole { id: 1 }, GlspCommand::Exit]);
    assert!(q.drain().is_empty());
}

#[test]
fn color_helpers() {
    let c = Color::new(200, 101, 0);
    assert_eq!(c.dimmed(), Color::new(100, 50, 0));
    assert_eq!(c.midpoint(Color::new(0, 1, 255)), Color::new(100, 51, 127));
    assert_eq!(Color::new(255, 255, 255).shaded(51), Color::new(51, 51, 51));
    assert_eq!(Color::new(205, 133, 0).greyscale(), Color::new(138, 138, 138));
}

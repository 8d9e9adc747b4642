use bracket_lib::prelude::{a_star_search, Algorithm2D, BaseMap, DistanceAlg, SmallVec};
use rogue_core::api::{CommandQueue, GlspCommand};
use rogue_core::geometry::Rect;
use rogue_core::map::{draw_map, GameMap, CARDINAL_COST, DIAGONAL_COST};
use rogue_core::tile::TileType;

struct Grid<'a>(&'a GameMap);

impl BaseMap for Grid<'_> {
    fn is_opaque(&self, idx: usize) -> bool {
        self.0.is_opaque(idx)
    }

    fn get_available_exits(&self, idx: usize) -> SmallVec<[(usize, f32); 10]> {
        self.0
            .get_available_exits(idx)
            .into_iter()
            .map(|(i, cost)| (i, cost as f32 / 100.0))
            .collect()
    }

    fn get_pathing_distance(&self, idx1: usize, idx2: usize) -> f32 {
        let a = self.0.idx_xy(idx1 as i32);
        let b = self.0.idx_xy(idx2 as i32);
        DistanceAlg::Pythagoras.distance2d(
            bracket_lib::prelude::Point::new(a.x, a.y),
            bracket_lib::prelude::Point::new(b.x, b.y),
        )
    }
}

impl Algorithm2D for Grid<'_> {
    fn dimensions(&self) -> bracket_lib::prelude::Point {
        bracket_lib::prelude::Point::new(self.0.width, self.0.height)
    }
}

fn open_floor(w: i32, h: i32) -> GameMap {
    let mut m = GameMap::new(w, h);
    m.apply_room(&Rect { x1: 0, y1: 0, x2: w, y2: h });
    m.populate_blocked_tiles();
    m
}

#[test]
fn new_map_is_all_wall() {
    let m = GameMap::new(6, 4);
    assert_eq!(m.get_width(), 6);
    assert_eq!(m.get_height(), 4);
    assert_eq!(m.tiles.len(), 24);
    assert!(m.tiles.iter().all(|t| t.tile_type == TileType::Wall));
    assert!(m.revealed_tiles.iter().all(|b| !b));
    assert!(m.visible_tiles.iter().all(|b| !b));
    assert!(m.blocked_tiles.iter().all(|b| !b));
    assert!(m.tile_content.iter().all(|c| c.is_empty()));
    assert!(m.get_rooms().is_empty());
}

#[test]
fn xy_idx_and_idx_xy_round_trip() {
    let m = GameMap::new(7, 5);
    for y in 0..5 {
        for x in 0..7 {
            let idx = m.xy_idx(x, y);
            assert_eq!(idx, (y * 7 + x) as usize);
            let p = m.idx_xy(idx as i32);
            assert_eq!((p.x, p.y), (x, y));
        }
    }
}

#[test]
fn apply_room_carves_half_open_rectangle() {
    let mut m = GameMap::new(10, 10);
    m.apply_room(&Rect { x1: 1, y1: 1, x2: 4, y2: 4 });
    for y in 0..10 {
        for x in 0..10 {
            let inside = (1..4).contains(&x) && (1..4).contains(&y);
            let t = m.tiles[m.xy_idx(x, y)].tile_type;
            assert_eq!(t == TileType::Floor, inside, "cell ({}, {})", x, y);
        }
    }
}

#[test]
fn horizontal_tunnel_either_order_and_skips_cell_zero() {
    let mut m = GameMap::new(5, 3);
    m.apply_horizontal_tunnel(3, 0, 0);
    let floors: Vec<usize> = (0..15).filter(|&i| m.tiles[i].tile_type == TileType::Floor).collect();
    assert_eq!(floors, vec![1, 2, 3]);
    m.apply_horizontal_tunnel(1, 2, 1);
    assert_eq!(m.tiles[6].tile_type, TileType::Floor);
    assert_eq!(m.tiles[7].tile_type, TileType::Floor);
    assert_eq!(m.tiles[8].tile_type, TileType::Wall);
}

#[test]
fn vertical_tunnel_skips_out_of_range_cells() {
    let mut m = GameMap::new(4, 3);
    m.apply_vertical_tunnel(5, -2, 2);
    let floors: Vec<usize> = (0..12).filter(|&i| m.tiles[i].tile_type == TileType::Floor).collect();
    assert_eq!(floors, vec![2, 6, 10]);
}

#[test]
fn rooms_are_kept_in_order() {
    let mut m = GameMap::new(10, 10);
    let a = Rect { x1: 1, y1: 1, x2: 3, y2: 3 };
    let b = Rect { x1: 5, y1: 5, x2: 8, y2: 9 };
    m.add_room(&a);
    m.add_room(&b);
    assert_eq!(m.get_room(1), b);
    assert_eq!(m.get_rooms(), vec![a, b]);
}

#[test]
fn populate_blocked_matches_terrain_then_block_tile() {
    let mut m = GameMap::new(6, 6);
    m.apply_room(&Rect { x1: 1, y1: 1, x2: 5, y2: 3 });
    m.populate_blocked_tiles();
    for i in 0..36 {
        assert_eq!(m.is_walkable(i), m.tiles[i].tile_type == TileType::Floor);
    }
    let idx = m.xy_idx(2, 2);
    assert!(m.is_walkable(idx));
    m.block_tile(idx);
    assert!(!m.is_walkable(idx));
    assert_eq!(m.tiles[idx].tile_type, TileType::Floor);
}

#[test]
fn exits_in_open_corner_and_middle() {
    let m = open_floor(3, 3);
    assert_eq!(
        m.get_available_exits(0),
        vec![(1, CARDINAL_COST), (3, CARDINAL_COST), (4, DIAGONAL_COST)]
    );
    assert_eq!(m.get_available_exits(4).len(), 8);
    assert_eq!(CARDINAL_COST, 100);
    assert_eq!(DIAGONAL_COST, 145);
}

#[test]
fn exits_skip_blocked_cells() {
    let mut m = open_floor(3, 3);
    m.block_tile(1);
    assert_eq!(m.get_available_exits(0), vec![(3, CARDINAL_COST), (4, DIAGONAL_COST)]);
    assert!(!m.is_exit_valid(1, 0));
    assert!(!m.is_exit_valid(3, 0));
    assert!(!m.is_exit_valid(-1, 0));
    assert!(m.is_exit_valid(2, 2));
}

#[test]
fn a_star_crosses_open_grid_diagonally() {
    let m = open_floor(5, 5);
    let path = a_star_search(m.xy_idx(0, 0), m.xy_idx(4, 4), &Grid(&m));
    assert!(path.success);
    assert_eq!(path.steps.len() - 1, 4);
    assert_eq!(path.steps, vec![0, 6, 12, 18, 24]);
}

#[test]
fn a_star_from_walled_in_cell_fails() {
    let mut m = GameMap::new(5, 5);
    m.apply_room(&Rect { x1: 2, y1: 2, x2: 3, y2: 3 });
    m.apply_room(&Rect { x1: 4, y1: 4, x2: 5, y2: 5 });
    m.populate_blocked_tiles();
    let path = a_star_search(m.xy_idx(2, 2), m.xy_idx(4, 4), &Grid(&m));
    assert!(!path.success);
    assert!(path.steps.is_empty());
}

#[test]
fn walls_are_opaque() {
    let mut m = GameMap::new(4, 4);
    m.apply_room(&Rect { x1: 1, y1: 1, x2: 2, y2: 2 });
    assert!(m.is_opaque(0));
    assert!(!m.is_opaque(5));
}

#[test]
fn visibility_flags() {
    let mut m = GameMap::new(3, 3);
    m.add_tile_to_visible(4);
    m.add_tile_to_revealed(4);
    assert!(m.is_visible(4));
    assert!(!m.is_visible(3));
    m.clear_visible_tiles();
    assert!(!m.is_visible(4));
    assert!(m.revealed_tiles[4]);
}

#[test]
fn indexed_entities_in_insertion_order() {
    let mut m = GameMap::new(3, 3);
    m.index_entity(2, 99);
    m.clear_content_index();
    m.index_entity(4, 7);
    m.index_entity(1, 8);
    m.index_entity(4, 5);
    assert_eq!(m.entities_at(4), vec![7, 5]);
    assert_eq!(m.entities_at(1), vec![8]);
    assert_eq!(m.entities_at(2), Vec::<i32>::new());
    assert_eq!(m.entities_at(0), Vec::<i32>::new());
}

#[test]
fn draw_map_draws_only_revealed_cells() {
    let mut m = GameMap::new(3, 2);
    m.add_tile_to_revealed(1);
    m.add_tile_to_revealed(5);
    m.add_tile_to_visible(5);
    let mut q = CommandQueue::new();
    draw_map(&m, &mut q);
    let t1 = m.tiles[1];
    let t5 = m.tiles[5];
    assert_eq!(
        q.drain(),
        vec![
            GlspCommand::SetChar { x: 1, y: 0, glyph: t1.glyph, fg: t1.fg_fog, bg: t1.bg_fog, console: 0 },
            GlspCommand::SetChar { x: 2, y: 1, glyph: t5.glyph, fg: t5.fg, bg: t5.bg, console: 0 },
        ]
    );
}

#[test]
fn reindex_lists_each_cell_in_order() {
    let mut m = GameMap::new(3, 3);
    m.index_entity(2, 99);
    m.reindex_entities(&vec![(4, 7), (1, 8), (4, 5)]);
    assert_eq!(m.entities_at(4), vec![7, 5]);
    assert_eq!(m.entities_at(1), vec![8]);
    assert_eq!(m.entities_at(2), Vec::<i32>::new());
}

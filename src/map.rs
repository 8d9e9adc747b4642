use vstd::prelude::*;
use vstd::arithmetic::div_mod::lemma_fundamental_div_mod_converse;
use vstd::math::{max, min};

use crate::api::{set_char, CommandQueue, GlspCommand};
use crate::ecs::Entity;
use crate::geometry::{Point, Rect};
use crate::tile::{Tile, TileType};

verus! {

/// Cost of a step to a side neighbour, in hundredths.
pub const CARDINAL_COST: u32 = 100;

/// Cost of a step to a diagonal neighbour, in hundredths.
pub const DIAGONAL_COST: u32 = 145;

/// Row-major index of cell `(x, y)` on a grid `w` cells wide.
pub open spec fn index_of(w: int, x: int, y: int) -> int {
    y * w + x
}

/// Cell `i` of a grid `w` cells wide lies inside `room`.
pub open spec fn in_room(room: Rect, w: int, i: int) -> bool {
    &&& room.x1 <= i % w < room.x2
    &&& room.y1 <= i / w < room.y2
}

/// `room` covers no cell, or only cells of a `w` by `h` grid.
pub open spec fn room_fits(room: Rect, w: int, h: int) -> bool {
    ||| room.x1 >= room.x2
    ||| room.y1 >= room.y2
    ||| (0 <= room.x1 && room.x2 <= w && 0 <= room.y1 && room.y2 <= h)
}

/// Cell `i` lies on the horizontal corridor from column `lo` to column `hi` of
/// row `y`.
pub open spec fn on_row_span(w: int, lo: int, hi: int, y: int, i: int) -> bool {
    lo <= i - y * w <= hi
}

/// Cell `i` lies on the vertical corridor from row `lo` to row `hi` of column
/// `x`.
pub open spec fn on_column_span(w: int, lo: int, hi: int, x: int, i: int) -> bool {
    exists|y: int| lo <= y <= hi && i == #[trigger] index_of(w, x, y)
}

/// A grid of tiles with per-cell visibility, blocking and occupancy, and the
/// rooms carved into it.
pub struct GameMap {
    pub tiles: Vec<Tile>,
    pub rooms: Vec<Rect>,
    pub width: i32,
    pub height: i32,
    pub revealed_tiles: Vec<bool>,
    pub visible_tiles: Vec<bool>,
    pub blocked_tiles: Vec<bool>,
    pub tile_content: Vec<Vec<Entity>>,
}

/// Cells `x` and `y` of a row and of a column inside a `w` by `h` grid have an
/// index inside it, and that index gives the cell back.
pub proof fn lemma_index_in_grid(w: int, h: int, x: int, y: int)
    requires
        0 <= x < w,
        0 <= y < h,
    ensures
        0 <= index_of(w, x, y) < w * h,
        index_of(w, x, y) % w == x,
        index_of(w, x, y) / w == y,
{
    assert(0 <= y * w) by (nonlinear_arith)
        requires
            0 <= y,
            0 <= w,
    ;
    assert(y * w + x < w * h) by (nonlinear_arith)
        requires
            0 <= x < w,
            0 <= y < h,
    ;
    lemma_fundamental_div_mod_converse(index_of(w, x, y), w, y, x);
}

/// An index inside a grid `w` cells wide is the index of its column and row.
pub proof fn lemma_cell_of_index(w: int, h: int, i: int)
    requires
        0 < w,
        0 <= h,
        0 <= i < w * h,
    ensures
        0 <= i % w < w,
        0 <= i / w < h,
        index_of(w, i % w, i / w) == i,
{
    vstd::arithmetic::div_mod::lemma_fundamental_div_mod(i, w);
    vstd::arithmetic::div_mod::lemma_mod_bound(i, w);
    vstd::arithmetic::div_mod::lemma_div_pos_is_pos(i, w);
    vstd::arithmetic::mul::lemma_mul_is_commutative(w, i / w);
    if i / w >= h {
        assert(w * (i / w) >= w * h) by (nonlinear_arith)
            requires
                i / w >= h,
                w > 0,
        ;
    }
}

impl GameMap {
    /// Number of cells.
    pub open spec fn size(&self) -> int {
        self.width * self.height
    }

    /// Every per-cell grid has one entry per cell, and indices fit an `i32`.
    pub open spec fn wf(&self) -> bool {
        &&& self.width >= 0
        &&& self.height >= 0
        &&& self.size() <= i32::MAX
        &&& self.tiles@.len() == self.size()
        &&& self.revealed_tiles@.len() == self.size()
        &&& self.visible_tiles@.len() == self.size()
        &&& self.blocked_tiles@.len() == self.size()
        &&& self.tile_content@.len() == self.size()
    }

    /// A `width` by `height` map of walls: nothing revealed, visible or blocked,
    /// no occupants and no rooms.
    pub fn new(width: i32, height: i32) -> (r: Self)
        requires
            width >= 0,
            height >= 0,
            width * height <= i32::MAX,
        ensures
            r.wf(),
            r.width == width,
            r.height == height,
            r.rooms@.len() == 0,
            forall|i: int| 0 <= i < r.size() ==> (#[trigger] r.tiles@[i]).tile_type == TileType::Wall,
            forall|i: int| 0 <= i < r.size() ==> !(#[trigger] r.revealed_tiles@[i]),
            forall|i: int| 0 <= i < r.size() ==> !(#[trigger] r.visible_tiles@[i]),
            forall|i: int| 0 <= i < r.size() ==> !(#[trigger] r.blocked_tiles@[i]),
            forall|i: int| 0 <= i < r.size() ==> (#[trigger] r.tile_content@[i])@.len() == 0,
    {
        let size = (width * height) as usize;
        let mut tiles: Vec<Tile> = Vec::new();
        let mut revealed_tiles: Vec<bool> = Vec::new();
        let mut visible_tiles: Vec<bool> = Vec::new();
        let mut blocked_tiles: Vec<bool> = Vec::new();
        let mut tile_content: Vec<Vec<Entity>> = Vec::new();
        let mut i: usize = 0;
        while i < size
            invariant
                i <= size,
                tiles@.len() == i,
                revealed_tiles@.len() == i,
                visible_tiles@.len() == i,
                blocked_tiles@.len() == i,
                tile_content@.len() == i,
                forall|k: int| 0 <= k < i ==> (#[trigger] tiles@[k]).tile_type == TileType::Wall,
                forall|k: int| 0 <= k < i ==> !(#[trigger] revealed_tiles@[k]),
                forall|k: int| 0 <= k < i ==> !(#[trigger] visible_tiles@[k]),
                forall|k: int| 0 <= k < i ==> !(#[trigger] blocked_tiles@[k]),
                forall|k: int| 0 <= k < i ==> (#[trigger] tile_content@[k])@.len() == 0,
            decreases size - i,
        {
            tiles.push(Tile::wall());
            revealed_tiles.push(false);
            visible_tiles.push(false);
            blocked_tiles.push(false);
            tile_content.push(Vec::new());
            i = i + 1;
        }
        GameMap {
            tiles,
            rooms: Vec::new(),
            width,
            height,
            revealed_tiles,
            visible_tiles,
            blocked_tiles,
            tile_content,
        }
    }

    /// Width of the map, in cells.
    pub fn get_width(&self) -> (r: i32)
        ensures
            r == self.width,
    {
        self.width
    }

    /// Height of the map, in cells.
    pub fn get_height(&self) -> (r: i32)
        ensures
            r == self.height,
    {
        self.height
    }

    /// The room registered `id`-th.
    pub fn get_room(&self, id: usize) -> (r: Rect)
        requires
            id < self.rooms@.len(),
        ensures
            r == self.rooms@[id as int],
    {
        self.rooms[id]
    }

    /// Every registered room, in the order they were added.
    pub fn get_rooms(&self) -> (r: Vec<Rect>)
        ensures
            r@ == self.rooms@,
    {
        let mut out: Vec<Rect> = Vec::new();
        let mut i: usize = 0;
        while i < self.rooms.len()
            invariant
                i <= self.rooms@.len(),
                out@ == self.rooms@.subrange(0, i as int),
            decreases self.rooms@.len() - i,
        {
            out.push(self.rooms[i]);
            proof {
                assert(out@ =~= self.rooms@.subrange(0, i + 1));
            }
            i = i + 1;
        }
        proof {
            assert(out@ =~= self.rooms@);
        }
        out
    }

    /// Registers `room` after every room registered before.
    pub fn add_room(&mut self, room: &Rect)
        ensures
            final(self).rooms@ == old(self).rooms@.push(*room),
            final(self).tiles == old(self).tiles,
            final(self).width == old(self).width,
            final(self).height == old(self).height,
            final(self).revealed_tiles == old(self).revealed_tiles,
            final(self).visible_tiles == old(self).visible_tiles,
            final(self).blocked_tiles == old(self).blocked_tiles,
            final(self).tile_content == old(self).tile_content,
    {
        self.rooms.push(*room);
    }

    /// Row-major index of cell `(x, y)`: `y * width + x`.
    pub fn xy_idx(&self, x: i32, y: i32) -> (r: usize)
        requires
            0 <= index_of(self.width as int, x as int, y as int) <= usize::MAX,
        ensures
            r == index_of(self.width as int, x as int, y as int),
    {
        proof {
            assert(-0x8000_0000 * 0x8000_0000 <= y * self.width <= 0x8000_0000 * 0x8000_0000) by (nonlinear_arith)
                requires
                    -0x8000_0000 <= y < 0x8000_0000,
                    -0x8000_0000 <= self.width < 0x8000_0000,
            ;
        }
        (y as i64 * self.width as i64 + x as i64) as usize
    }

    /// The cell of index `idx`: column `idx % width`, row `idx / width`.
    pub fn idx_xy(&self, idx: i32) -> (r: Point)
        requires
            self.width > 0,
            idx >= 0,
        ensures
            r.x == idx % self.width,
            r.y == idx / self.width,
    {
        Point { x: idx % self.width, y: idx / self.width }
    }
    /// `other` differs from this map at most in which tiles it holds.
    pub open spec fn same_but_tiles(&self, other: &GameMap) -> bool {
        &&& other.tiles@.len() == self.tiles@.len()
        &&& other.rooms == self.rooms
        &&& other.width == self.width
        &&& other.height == self.height
        &&& other.revealed_tiles == self.revealed_tiles
        &&& other.visible_tiles == self.visible_tiles
        &&& other.blocked_tiles == self.blocked_tiles
        &&& other.tile_content == self.tile_content
    }

    /// Turns cell `idx` into floor.
    fn carve(&mut self, idx: usize)
        requires
            idx < old(self).tiles@.len(),
        ensures
            old(self).same_but_tiles(final(self)),
            final(self).tiles@[idx as int].tile_type == TileType::Floor,
            forall|i: int| 0 <= i < old(self).tiles@.len() && i != idx ==> final(self).tiles@[i] == old(self).tiles@[i],
    {
        self.tiles.set(idx, Tile::floor());
    }

    /// Turns every cell of `room` into floor: the cells `(x, y)` with
    /// `x1 <= x < x2` and `y1 <= y < y2`. Every other cell keeps its tile.
    pub fn apply_room(&mut self, room: &Rect)
        requires
            old(self).wf(),
            room_fits(*room, old(self).width as int, old(self).height as int),
        ensures
            final(self).wf(),
            old(self).same_but_tiles(final(self)),
            forall|i: int| 0 <= i < old(self).size() && in_room(*room, old(self).width as int, i) ==> (#[trigger] final(self).tiles@[i]).tile_type == TileType::Floor,
            forall|i: int| 0 <= i < old(self).size() && !in_room(*room, old(self).width as int, i) ==> #[trigger] final(self).tiles@[i] == old(self).tiles@[i],
    {
        let ghost w = self.width as int;
        let ghost start = *self;
        if room.x1 >= room.x2 || room.y1 >= room.y2 {
            assert forall|i: int| 0 <= i < start.size() implies !in_room(*room, w, i) by {}
            return;
        }
        let mut y = room.y1;
        while y < room.y2
            invariant
                start.wf(),
                w == start.width,
                w > 0,
                room.x1 < room.x2,
                0 <= room.x1 && room.x2 <= w && 0 <= room.y1 && room.y2 <= start.height,
                room.y1 <= y <= room.y2,
                start.same_but_tiles(&*self),
                forall|i: int| 0 <= i < start.size() && in_room(*room, w, i) && i / w < y ==> (#[trigger] self.tiles@[i]).tile_type == TileType::Floor,
                forall|i: int| 0 <= i < start.size() && !(in_room(*room, w, i) && i / w < y) ==> #[trigger] self.tiles@[i] == start.tiles@[i],
            decreases room.y2 - y,
        {
            let mut x = room.x1;
            while x < room.x2
                invariant
                    start.wf(),
                    w == start.width,
                    w > 0,
                    0 <= room.x1 && room.x2 <= w && 0 <= room.y1 && room.y2 <= start.height,
                    room.y1 <= y < room.y2,
                    room.x1 <= x <= room.x2,
                    start.same_but_tiles(&*self),
                    forall|i: int| 0 <= i < start.size() && in_room(*room, w, i) && (i / w < y || (i / w == y && i % w < x)) ==> (#[trigger] self.tiles@[i]).tile_type == TileType::Floor,
                    forall|i: int| 0 <= i < start.size() && !(in_room(*room, w, i) && (i / w < y || (i / w == y && i % w < x))) ==> #[trigger] self.tiles@[i] == start.tiles@[i],
                decreases room.x2 - x,
            {
                proof {
                    lemma_index_in_grid(w, start.height as int, x as int, y as int);
                }
                let idx = self.xy_idx(x, y);
                self.carve(idx);
                proof {
                    assert forall|i: int| #![trigger self.tiles@[i]] 0 <= i < start.size() && i / w == y && i % w == x implies i == idx by {
                        lemma_cell_of_index(w, start.height as int, i);
                    }
                }
                x = x + 1;
            }
            y = y + 1;
        }
    }

    /// Turns into floor each cell `y * width + x` with `x` between `x1` and `x2`
    /// (in either order, both included) whose index lies strictly between 0 and
    /// the number of cells. Every other cell keeps its tile.
    pub fn apply_horizontal_tunnel(&mut self, x1: i32, x2: i32, y: i32)
        requires
            old(self).wf(),
        ensures
            final(self).wf(),
            old(self).same_but_tiles(final(self)),
            forall|i: int| 0 < i < old(self).size() && on_row_span(old(self).width as int, min(x1 as int, x2 as int), max(x1 as int, x2 as int), y as int, i) ==> (#[trigger] final(self).tiles@[i]).tile_type == TileType::Floor,
            forall|i: int| 0 <= i < old(self).size() && !(0 < i && on_row_span(old(self).width as int, min(x1 as int, x2 as int), max(x1 as int, x2 as int), y as int, i)) ==> #[trigger] final(self).tiles@[i] == old(self).tiles@[i],
    {
        let ghost start = *self;
        let ghost w = self.width as int;
        let lo: i64 = if x1 < x2 { x1 as i64 } else { x2 as i64 };
        let hi: i64 = if x1 < x2 { x2 as i64 } else { x1 as i64 };
        let size: i64 = self.width as i64 * self.height as i64;
        proof {
            assert(-0x8000_0000 * 0x8000_0000 <= y * w <= 0x8000_0000 * 0x8000_0000) by (nonlinear_arith)
                requires
                    -0x8000_0000 <= y < 0x8000_0000,
                    0 <= w < 0x8000_0000,
            ;
        }
        let row: i64 = y as i64 * self.width as i64;
        let mut x: i64 = lo;
        while x <= hi
            invariant
                start.wf(),
                w == start.width,
                size == start.size(),
                row == y * w,
                -0x8000_0000 * 0x8000_0000 <= row <= 0x8000_0000 * 0x8000_0000,
                lo == min(x1 as int, x2 as int),
                hi == max(x1 as int, x2 as int),
                lo <= x <= hi + 1,
                start.same_but_tiles(&*self),
                forall|i: int| 0 < i < size && on_row_span(w, lo as int, x - 1, y as int, i) ==> (#[trigger] self.tiles@[i]).tile_type == TileType::Floor,
                forall|i: int| 0 <= i < size && !(0 < i && on_row_span(w, lo as int, x - 1, y as int, i)) ==> #[trigger] self.tiles@[i] == start.tiles@[i],
            decreases hi + 1 - x,
        {
            let idx: i64 = row + x;
            if idx > 0 && idx < size {
                self.carve(idx as usize);
            }
            x = x + 1;
        }
    }

    /// Turns into floor each cell `y * width + x` with `y` between `y1` and `y2`
    /// (in either order, both included) whose index lies strictly between 0 and
    /// the number of cells. Every other cell keeps its tile.
    pub fn apply_vertical_tunnel(&mut self, y1: i32, y2: i32, x: i32)
        requires
            old(self).wf(),
        ensures
            final(self).wf(),
            old(self).same_but_tiles(final(self)),
            forall|i: int| 0 < i < old(self).size() && on_column_span(old(self).width as int, min(y1 as int, y2 as int), max(y1 as int, y2 as int), x as int, i) ==> (#[trigger] final(self).tiles@[i]).tile_type == TileType::Floor,
            forall|i: int| 0 <= i < old(self).size() && !(0 < i && on_column_span(old(self).width as int, min(y1 as int, y2 as int), max(y1 as int, y2 as int), x as int, i)) ==> #[trigger] final(self).tiles@[i] == old(self).tiles@[i],
    {
        let ghost start = *self;
        let ghost w = self.width as int;
        let lo: i64 = if y1 < y2 { y1 as i64 } else { y2 as i64 };
        let hi: i64 = if y1 < y2 { y2 as i64 } else { y1 as i64 };
        let size: i64 = self.width as i64 * self.height as i64;
        let mut y: i64 = lo;
        while y <= hi
            invariant
                start.wf(),
                w == start.width,
                size == start.size(),
                lo == min(y1 as int, y2 as int),
                hi == max(y1 as int, y2 as int),
                lo <= y <= hi + 1,
                start.same_but_tiles(&*self),
                forall|i: int| 0 < i < size && on_column_span(w, lo as int, y - 1, x as int, i) ==> (#[trigger] self.tiles@[i]).tile_type == TileType::Floor,
                forall|i: int| 0 <= i < size && !(0 < i && on_column_span(w, lo as int, y - 1, x as int, i)) ==> #[trigger] self.tiles@[i] == start.tiles@[i],
            decreases hi + 1 - y,
        {
            proof {
                assert(-0x8000_0000 * 0x8000_0000 <= y * w <= 0x8000_0000 * 0x8000_0000) by (nonlinear_arith)
                    requires
                        -0x8000_0000 <= y < 0x8000_0000,
                        0 <= w < 0x8000_0000,
                ;
            }
            let idx: i64 = y * self.width as i64 + x as i64;
            let ghost before = *self;
            if idx > 0 && idx < size {
                self.carve(idx as usize);
            }
            proof {
                assert forall|i: int| #![trigger self.tiles@[i]] 0 <= i < size implies
                    on_column_span(w, lo as int, y as int, x as int, i) == (on_column_span(w, lo as int, y - 1, x as int, i) || i == idx) by {
                    if on_column_span(w, lo as int, y as int, x as int, i) {
                        let yy = choose|yy: int| lo <= yy <= y && i == #[trigger] index_of(w, x as int, yy);
                        if yy < y {
                            assert(on_column_span(w, lo as int, y - 1, x as int, i));
                        }
                    }
                    if on_column_span(w, lo as int, y - 1, x as int, i) {
                        let yy = choose|yy: int| lo <= yy <= y - 1 && i == #[trigger] index_of(w, x as int, yy);
                        assert(on_column_span(w, lo as int, y as int, x as int, i));
                    }
                    if i == idx {
                        assert(i == index_of(w, x as int, y as int));
                    }
                }
            }
            y = y + 1;
        }
    }
    /// `other` has the same terrain, size and rooms as this map.
    pub open spec fn same_terrain(&self, other: &GameMap) -> bool {
        &&& other.tiles == self.tiles
        &&& other.rooms == self.rooms
        &&& other.width == self.width
        &&& other.height == self.height
    }

    /// Cell `idx` can be entered: it is not blocked by terrain or an occupant.
    pub fn is_walkable(&self, idx: usize) -> (r: bool)
        requires
            self.wf(),
            idx < self.size(),
        ensures
            r == !self.blocked_tiles@[idx as int],
    {
        !self.blocked_tiles[idx]
    }

    /// Exactly the walls are blocked.
    pub open spec fn blocked_by_terrain(&self) -> bool {
        &&& self.blocked_tiles@.len() == self.tiles@.len()
        &&& forall|i: int| 0 <= i < self.tiles@.len() ==> #[trigger] self.blocked_tiles@[i] == (self.tiles@[i].tile_type == TileType::Wall)
    }

    /// The occupants of every cell, as sequences.
    pub open spec fn contents(&self) -> Seq<Seq<Entity>> {
        self.tile_content@.map_values(|v: Vec<Entity>| v@)
    }

    /// Cell `(x, y)` lies on the map and is not blocked.
    pub open spec fn exit_valid(&self, x: int, y: int) -> bool {
        &&& 0 <= x < self.width
        &&& 0 <= y < self.height
        &&& !self.blocked_tiles@[index_of(self.width as int, x, y)]
    }

    /// Whether a path may step onto cell `(x, y)`: it lies on the map and is
    /// not blocked.
    pub fn is_exit_valid(&self, x: i32, y: i32) -> (r: bool)
        requires
            self.wf(),
        ensures
            r == self.exit_valid(x as int, y as int),
    {
        if x < 0 || x >= self.width || y < 0 || y >= self.height {
            return false;
        }
        proof {
            lemma_index_in_grid(self.width as int, self.height as int, x as int, y as int);
        }
        let idx = self.xy_idx(x, y);
        !self.blocked_tiles[idx]
    }

    /// The step onto `(x, y)` at `cost`, when a path may take it.
    pub open spec fn exit_step(&self, x: int, y: int, cost: u32) -> Seq<(usize, u32)> {
        if self.exit_valid(x, y) {
            seq![(index_of(self.width as int, x, y) as usize, cost)]
        } else {
            seq![]
        }
    }

    /// The steps a path may take from cell `idx`: west, east, north and south
    /// at the side cost, then north-west, north-east, south-west and
    /// south-east at the diagonal cost, each only where it is valid.
    pub open spec fn exits(&self, idx: int) -> Seq<(usize, u32)> {
        let w = self.width as int;
        let x = idx % w;
        let y = idx / w;
        self.exit_step(x - 1, y, CARDINAL_COST) + self.exit_step(x + 1, y, CARDINAL_COST)
            + self.exit_step(x, y - 1, CARDINAL_COST) + self.exit_step(x, y + 1, CARDINAL_COST)
            + self.exit_step(x - 1, y - 1, DIAGONAL_COST) + self.exit_step(x + 1, y - 1, DIAGONAL_COST)
            + self.exit_step(x - 1, y + 1, DIAGONAL_COST) + self.exit_step(x + 1, y + 1, DIAGONAL_COST)
    }

    /// Appends the step onto `(x, y)` at `cost` to `out`, when it is valid.
    fn push_exit(&self, out: &mut Vec<(usize, u32)>, x: i32, y: i32, cost: u32)
        requires
            self.wf(),
        ensures
            final(out)@ == old(out)@ + self.exit_step(x as int, y as int, cost),
    {
        if self.is_exit_valid(x, y) {
            proof {
                lemma_index_in_grid(self.width as int, self.height as int, x as int, y as int);
            }
            let idx = self.xy_idx(x, y);
            out.push((idx, cost));
            assert(out@ =~= old(out)@ + self.exit_step(x as int, y as int, cost));
        } else {
            assert(out@ =~= old(out)@ + self.exit_step(x as int, y as int, cost));
        }
    }

    /// The neighbours of cell `idx` that a path may step onto, each with the
    /// cost of the step in hundredths.
    pub fn get_available_exits(&self, idx: usize) -> (r: Vec<(usize, u32)>)
        requires
            self.wf(),
            idx < self.size(),
        ensures
            r@ == self.exits(idx as int),
    {
        proof {
            lemma_cell_of_index(self.width as int, self.height as int, idx as int);
        }
        let x = (idx as i32) % self.width;
        let y = (idx as i32) / self.width;
        let mut exits: Vec<(usize, u32)> = Vec::new();
        self.push_exit(&mut exits, x - 1, y, CARDINAL_COST);
        self.push_exit(&mut exits, x + 1, y, CARDINAL_COST);
        self.push_exit(&mut exits, x, y - 1, CARDINAL_COST);
        self.push_exit(&mut exits, x, y + 1, CARDINAL_COST);
        self.push_exit(&mut exits, x - 1, y - 1, DIAGONAL_COST);
        self.push_exit(&mut exits, x + 1, y - 1, DIAGONAL_COST);
        self.push_exit(&mut exits, x - 1, y + 1, DIAGONAL_COST);
        self.push_exit(&mut exits, x + 1, y + 1, DIAGONAL_COST);
        proof {
            assert(exits@ =~= self.exits(idx as int));
        }
        exits
    }

    /// Whether cell `idx` stops sight: walls do.
    pub fn is_opaque(&self, idx: usize) -> (r: bool)
        requires
            self.wf(),
            idx < self.size(),
        ensures
            r == (self.tiles@[idx as int].tile_type == TileType::Wall),
    {
        self.tiles[idx].tile_type == TileType::Wall
    }

    /// Marks cell `idx` as explored.
    pub fn add_tile_to_revealed(&mut self, idx: usize)
        requires
            old(self).wf(),
            idx < old(self).size(),
        ensures
            final(self).wf(),
            old(self).same_terrain(final(self)),
            final(self).revealed_tiles@ == old(self).revealed_tiles@.update(idx as int, true),
            final(self).visible_tiles == old(self).visible_tiles,
            final(self).blocked_tiles == old(self).blocked_tiles,
            final(self).tile_content == old(self).tile_content,
    {
        self.revealed_tiles.set(idx, true);
    }

    /// Marks cell `idx` as in sight.
    pub fn add_tile_to_visible(&mut self, idx: usize)
        requires
            old(self).wf(),
            idx < old(self).size(),
        ensures
            final(self).wf(),
            old(self).same_terrain(final(self)),
            final(self).visible_tiles@ == old(self).visible_tiles@.update(idx as int, true),
            final(self).revealed_tiles == old(self).revealed_tiles,
            final(self).blocked_tiles == old(self).blocked_tiles,
            final(self).tile_content == old(self).tile_content,
    {
        self.visible_tiles.set(idx, true);
    }

    /// Whether cell `idx` is in sight.
    pub fn is_visible(&self, idx: usize) -> (r: bool)
        requires
            self.wf(),
            idx < self.size(),
        ensures
            r == self.visible_tiles@[idx as int],
    {
        self.visible_tiles[idx]
    }

    /// Marks every cell as out of sight; explored cells stay explored.
    pub fn clear_visible_tiles(&mut self)
        requires
            old(self).wf(),
        ensures
            final(self).wf(),
            old(self).same_terrain(final(self)),
            final(self).visible_tiles@.len() == old(self).visible_tiles@.len(),
            forall|i: int| 0 <= i < old(self).size() ==> !(#[trigger] final(self).visible_tiles@[i]),
            final(self).revealed_tiles == old(self).revealed_tiles,
            final(self).blocked_tiles == old(self).blocked_tiles,
            final(self).tile_content == old(self).tile_content,
    {
        let mut i: usize = 0;
        while i < self.visible_tiles.len()
            invariant
                self.wf(),
                old(self).same_terrain(&*self),
                self.visible_tiles@.len() == old(self).visible_tiles@.len(),
                i <= self.visible_tiles@.len(),
                forall|k: int| 0 <= k < i ==> !(#[trigger] self.visible_tiles@[k]),
                self.revealed_tiles == old(self).revealed_tiles,
                self.blocked_tiles == old(self).blocked_tiles,
                self.tile_content == old(self).tile_content,
            decreases self.visible_tiles@.len() - i,
        {
            self.visible_tiles.set(i, false);
            i = i + 1;
        }
    }

    /// Recomputes blocking from terrain alone: a cell is blocked exactly when
    /// it is a wall.
    pub fn populate_blocked_tiles(&mut self)
        requires
            old(self).wf(),
        ensures
            final(self).wf(),
            old(self).same_terrain(final(self)),
            final(self).blocked_by_terrain(),
            final(self).revealed_tiles == old(self).revealed_tiles,
            final(self).visible_tiles == old(self).visible_tiles,
            final(self).tile_content == old(self).tile_content,
    {
        let mut i: usize = 0;
        while i < self.tiles.len()
            invariant
                self.wf(),
                old(self).same_terrain(&*self),
                self.blocked_tiles@.len() == old(self).blocked_tiles@.len(),
                i <= self.tiles@.len(),
                forall|k: int| 0 <= k < i ==> #[trigger] self.blocked_tiles@[k] == (self.tiles@[k].tile_type == TileType::Wall),
                self.revealed_tiles == old(self).revealed_tiles,
                self.visible_tiles == old(self).visible_tiles,
                self.tile_content == old(self).tile_content,
            decreases self.tiles@.len() - i,
        {
            let wall = self.tiles[i].tile_type == TileType::Wall;
            self.blocked_tiles.set(i, wall);
            i = i + 1;
        }
    }

    /// Marks cell `idx` as blocked, whatever its terrain.
    pub fn block_tile(&mut self, idx: usize)
        requires
            old(self).wf(),
            idx < old(self).size(),
        ensures
            final(self).wf(),
            old(self).same_terrain(final(self)),
            final(self).blocked_tiles@ == old(self).blocked_tiles@.update(idx as int, true),
            final(self).revealed_tiles == old(self).revealed_tiles,
            final(self).visible_tiles == old(self).visible_tiles,
            final(self).tile_content == old(self).tile_content,
    {
        self.blocked_tiles.set(idx, true);
    }

    /// Empties the occupant list of every cell.
    pub fn clear_content_index(&mut self)
        requires
            old(self).wf(),
        ensures
            final(self).wf(),
            old(self).same_terrain(final(self)),
            final(self).contents() == empty_content(old(self).size() as nat),
            final(self).revealed_tiles == old(self).revealed_tiles,
            final(self).visible_tiles == old(self).visible_tiles,
            final(self).blocked_tiles == old(self).blocked_tiles,
    {
        let mut i: usize = 0;
        while i < self.tile_content.len()
            invariant
                self.wf(),
                old(self).same_terrain(&*self),
                self.tile_content@.len() == old(self).tile_content@.len(),
                i <= self.tile_content@.len(),
                forall|k: int| 0 <= k < i ==> (#[trigger] self.tile_content@[k])@.len() == 0,
                self.revealed_tiles == old(self).revealed_tiles,
                self.visible_tiles == old(self).visible_tiles,
                self.blocked_tiles == old(self).blocked_tiles,
            decreases self.tile_content@.len() - i,
        {
            self.tile_content[i].clear();
            i = i + 1;
        }
        assert forall|k: int| 0 <= k < self.tile_content@.len() implies #[trigger] self.contents()[k] == Seq::<Entity>::empty() by {
            assert(self.contents()[k] =~= Seq::<Entity>::empty());
        }
        assert(self.contents() =~= empty_content(old(self).size() as nat));
    }

    /// Records `entity` as the latest occupant of cell `idx`.
    pub fn index_entity(&mut self, idx: usize, entity: Entity)
        requires
            old(self).wf(),
            idx < old(self).size(),
        ensures
            final(self).wf(),
            old(self).same_terrain(final(self)),
            final(self).contents() == old(self).contents().update(idx as int, old(self).contents()[idx as int].push(entity)),
            final(self).revealed_tiles == old(self).revealed_tiles,
            final(self).visible_tiles == old(self).visible_tiles,
            final(self).blocked_tiles == old(self).blocked_tiles,
    {
        self.tile_content[idx].push(entity);
        assert(self.contents() =~= old(self).contents().update(idx as int, old(self).contents()[idx as int].push(entity)));
    }

    /// Empties every occupant list, then records each pair `(idx, entity)` of
    /// `pairs` in order: the per-tick rebuild of the occupancy index. Each cell
    /// then lists exactly the entities recorded at it, in order.
    pub fn reindex_entities(&mut self, pairs: &Vec<(usize, Entity)>)
        requires
            old(self).wf(),
            forall|k: int| 0 <= k < pairs@.len() ==> (#[trigger] pairs@[k]).0 < old(self).size(),
        ensures
            final(self).wf(),
            old(self).same_terrain(final(self)),
            final(self).contents() == indexed(empty_content(old(self).size() as nat), pairs@),
            forall|i: int| 0 <= i < old(self).size() ==> #[trigger] final(self).contents()[i] == occupants_in(pairs@, i),
            final(self).revealed_tiles == old(self).revealed_tiles,
            final(self).visible_tiles == old(self).visible_tiles,
            final(self).blocked_tiles == old(self).blocked_tiles,
    {
        let ghost n = old(self).size() as nat;
        self.clear_content_index();
        let mut k: usize = 0;
        while k < pairs.len()
            invariant
                self.wf(),
                self.size() == n,
                old(self).same_terrain(&*self),
                k <= pairs@.len(),
                forall|j: int| 0 <= j < pairs@.len() ==> (#[trigger] pairs@[j]).0 < n,
                self.contents() == indexed(empty_content(n), pairs@.subrange(0, k as int)),
                self.revealed_tiles == old(self).revealed_tiles,
                self.visible_tiles == old(self).visible_tiles,
                self.blocked_tiles == old(self).blocked_tiles,
            decreases pairs@.len() - k,
        {
            let (idx, e) = pairs[k];
            assert(pairs@[k as int].0 < n);
            self.index_entity(idx, e);
            proof {
                let next = pairs@.subrange(0, k + 1);
                assert(next.drop_last() =~= pairs@.subrange(0, k as int));
                assert(next.last() == (idx, e));
            }
            k = k + 1;
        }
        proof {
            assert(pairs@.subrange(0, pairs@.len() as int) =~= pairs@);
            lemma_index_after_clear(n, pairs@);
        }
    }

    /// A copy of the occupants of cell `idx`, in the order they were recorded.
    pub fn entities_at(&self, idx: usize) -> (r: Vec<Entity>)
        requires
            self.wf(),
            idx < self.size(),
        ensures
            r@ == self.contents()[idx as int],
    {
        let cell = &self.tile_content[idx];
        let mut out: Vec<Entity> = Vec::new();
        let mut i: usize = 0;
        while i < cell.len()
            invariant
                i <= cell@.len(),
                out@ == cell@.subrange(0, i as int),
            decreases cell@.len() - i,
        {
            out.push(cell[i]);
            proof {
                assert(out@ =~= cell@.subrange(0, i + 1));
            }
            i = i + 1;
        }
        proof {
            assert(out@ =~= cell@);
        }
        out
    }
}

/// After blocking is recomputed from terrain, a cell is walkable exactly when
/// it is floor; once it is marked blocked it is not walkable, whatever its
/// terrain.
pub proof fn lemma_walkable_is_floor(populated: GameMap, marked: GameMap, idx: int)
    requires
        populated.wf(),
        populated.blocked_by_terrain(),
        0 <= idx < populated.size(),
        marked.blocked_tiles@ == populated.blocked_tiles@.update(idx, true),
    ensures
        forall|i: int| 0 <= i < populated.size() ==> (!#[trigger] populated.blocked_tiles@[i] <==> populated.tiles@[i].tile_type == TileType::Floor),
        marked.blocked_tiles@[idx],
{
}

/// `n` empty occupant lists.
pub open spec fn empty_content(n: nat) -> Seq<Seq<Entity>> {
    Seq::new(n, |_i: int| Seq::<Entity>::empty())
}

/// The occupants of each cell after recording each pair `(idx, entity)` of
/// `pairs`, in order, on top of `content`.
pub open spec fn indexed(content: Seq<Seq<Entity>>, pairs: Seq<(usize, Entity)>) -> Seq<Seq<Entity>>
    decreases pairs.len(),
{
    if pairs.len() == 0 {
        content
    } else {
        let before = indexed(content, pairs.drop_last());
        let (idx, e) = pairs.last();
        before.update(idx as int, before[idx as int].push(e))
    }
}

/// The entities of `pairs` recorded at cell `i`, in order.
pub open spec fn occupants_in(pairs: Seq<(usize, Entity)>, i: int) -> Seq<Entity>
    decreases pairs.len(),
{
    if pairs.len() == 0 {
        seq![]
    } else {
        occupants_in(pairs.drop_last(), i) + if pairs.last().0 == i {
            seq![pairs.last().1]
        } else {
            seq![]
        }
    }
}

/// After the occupant lists are emptied and pairs `(idx, entity)` recorded,
/// each cell lists exactly the entities recorded at it, in the order they were
/// recorded; other cells are empty.
pub proof fn lemma_index_after_clear(n: nat, pairs: Seq<(usize, Entity)>)
    requires
        forall|k: int| 0 <= k < pairs.len() ==> (#[trigger] pairs[k]).0 < n,
    ensures
        indexed(empty_content(n), pairs).len() == n,
        forall|i: int| 0 <= i < n ==> #[trigger] indexed(empty_content(n), pairs)[i] == occupants_in(pairs, i),
    decreases pairs.len(),
{
    let empty = empty_content(n);
    if pairs.len() > 0 {
        let init = pairs.drop_last();
        assert forall|k: int| 0 <= k < init.len() implies (#[trigger] init[k]).0 < n by {
            assert(init[k] == pairs[k]);
        }
        lemma_index_after_clear(n, init);
        assert(pairs.last() == pairs[pairs.len() - 1]);
        let before = indexed(empty, init);
        assert forall|i: int| 0 <= i < n implies #[trigger] indexed(empty, pairs)[i] == occupants_in(pairs, i) by {
            assert(before[i] == occupants_in(init, i));
            if pairs.last().0 as int == i {
                assert(occupants_in(pairs, i) =~= occupants_in(init, i).push(pairs.last().1));
            } else {
                assert(occupants_in(pairs, i) =~= occupants_in(init, i));
            }
        }
    }
}

/// The command that draws cell `i` of `map`: lit colors when it is in sight,
/// fog colors otherwise.
pub open spec fn tile_draw(map: GameMap, i: int) -> GlspCommand {
    let w = map.width as int;
    let t = map.tiles@[i];
    let lit = map.visible_tiles@[i];
    GlspCommand::SetChar {
        x: (i % w) as i32,
        y: (i / w) as i32,
        glyph: t.glyph,
        fg: if lit { t.fg } else { t.fg_fog },
        bg: if lit { t.bg } else { t.bg_fog },
        console: t.console,
    }
}

/// The commands that draw the explored cells among the first `n` of `map`, in
/// index order.
pub open spec fn map_draws(map: GameMap, n: int) -> Seq<GlspCommand>
    decreases n,
{
    if n <= 0 {
        seq![]
    } else {
        map_draws(map, n - 1) + if map.revealed_tiles@[n - 1] {
            seq![tile_draw(map, n - 1)]
        } else {
            seq![]
        }
    }
}

/// Queues the drawing of every explored cell of `map`, in index order; cells
/// never explored are not drawn.
pub fn draw_map(map: &GameMap, queue: &mut CommandQueue)
    requires
        map.wf(),
    ensures
        final(queue).0@ == old(queue).0@ + map_draws(*map, map.size()),
{
    let ghost w = map.width as int;
    let mut x: i32 = 0;
    let mut y: i32 = 0;
    let mut idx: usize = 0;
    while idx < map.tiles.len()
        invariant
            map.wf(),
            w == map.width,
            idx <= map.size(),
            idx < map.size() ==> x == idx as int % w && y == idx as int / w,
            queue.0@ == old(queue).0@ + map_draws(*map, idx as int),
        decreases map.size() - idx,
    {
        proof {
            lemma_cell_of_index(w, map.height as int, idx as int);
        }
        let tile = map.tiles[idx];
        let ghost before = queue.0@;
        if map.revealed_tiles[idx] {
            let fg = if map.visible_tiles[idx] { tile.fg } else { tile.fg_fog };
            let bg = if map.visible_tiles[idx] { tile.bg } else { tile.bg_fog };
            set_char(queue, x, y, tile.glyph, &fg, &bg, tile.console);
        }
        proof {
            assert(queue.0@ =~= old(queue).0@ + map_draws(*map, idx + 1));
        }
        let ghost (ox, oy) = (x as int, y as int);
        x = x + 1;
        if x > map.width - 1 {
            x = 0;
            y = y + 1;
        }
        proof {
            let n = idx + 1;
            if n < map.size() {
                if x == 0 {
                    assert(n == y * w + 0) by (nonlinear_arith)
                        requires
                            n == oy * w + ox + 1,
                            ox + 1 == w,
                            y == oy + 1,
                    ;
                    lemma_fundamental_div_mod_converse(n as int, w, y as int, 0);
                } else {
                    lemma_fundamental_div_mod_converse(n as int, w, y as int, x as int);
                }
            }
        }
        idx = idx + 1;
    }
}

} // verus!

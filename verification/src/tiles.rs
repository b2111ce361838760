//! Tiles, tilesets and tilemaps: the grid that a level is built on.

use crate::error::EngineError;
use crate::types::{Rect, Vec2i};
use std::rc::Rc;
use vstd::prelude::*;

verus! {

/// The side of a square tile, in world units.
pub const TILE_SZ: usize = 16;

/// What a grid cell is made of.
#[derive(PartialEq, Eq, Structural, Clone, Copy, Debug)]
pub struct Tile {
    /// Whether the tile blocks entities.
    pub solid: bool,
}

/// The rectangle of cell `n` of an image that is cut into square cells of
/// `side`, `columns` to a row, the cells counted row by row.
pub open spec fn sheet_cell(n: int, columns: int, side: int) -> (int, int) {
    ((n % columns) * side, (n / columns) * side)
}

/// The rectangle of cell `n` of an image that is cut into square cells of
/// `side`, `columns` to a row, or `None` where the image has no columns or
/// the cell lies beyond the `i32` coordinates.
pub fn sheet_rect(n: usize, columns: usize, side: u16) -> (r: Option<Rect>)
    ensures
        r == if columns > 0 && sheet_cell(n as int, columns as int, side as int).0 <= i32::MAX
            && sheet_cell(n as int, columns as int, side as int).1 <= i32::MAX {
            Some(
                Rect {
                    x: sheet_cell(n as int, columns as int, side as int).0 as i32,
                    y: sheet_cell(n as int, columns as int, side as int).1 as i32,
                    w: side,
                    h: side,
                },
            )
        } else {
            None
        },
{
    if columns == 0 {
        return None;
    }
    let column: u128 = (n % columns) as u128;
    let row: u128 = (n / columns) as u128;
    assert(0 <= column * side <= 0x1_0000_0000_0000_0000 * 0x1_0000 && 0 <= row * side
        <= 0x1_0000_0000_0000_0000 * 0x1_0000) by (nonlinear_arith)
        requires
            0 <= column <= 0x1_0000_0000_0000_0000,
            0 <= row <= 0x1_0000_0000_0000_0000,
            0 <= side <= 0x1_0000,
    ;
    let x: u128 = column * side as u128;
    let y: u128 = row * side as u128;
    if x > i32::MAX as u128 || y > i32::MAX as u128 {
        return None;
    }
    Some(Rect { x: x as i32, y: y as i32, w: side, h: side })
}

/// The tiles that the cells of a tilemap choose from, by index, and the image
/// that they are drawn from.
pub struct Tileset<T> {
    tiles: Vec<Tile>,
    texture: Rc<T>,
}

impl<T> Tileset<T> {
    /// The tiles, by index.
    pub closed spec fn tile_seq(self) -> Seq<Tile> {
        self.tiles@
    }

    /// The image that the tiles are drawn from.
    pub closed spec fn sheet(self) -> T {
        *self.texture
    }

    /// A tileset of `tiles`, drawn from `texture`.
    pub fn new(tiles: Vec<Tile>, texture: &Rc<T>) -> (set: Self)
        ensures
            set.tile_seq() == tiles@,
            set.sheet() == **texture,
    {
        Self { tiles, texture: Rc::clone(texture) }
    }

    /// The tiles, by index.
    pub fn tiles(&self) -> (tiles: &Vec<Tile>)
        ensures
            tiles@ == self.tile_seq(),
    {
        &self.tiles
    }

    /// The image that the tiles are drawn from.
    pub fn texture(&self) -> (texture: &Rc<T>)
        ensures
            **texture == self.sheet(),
    {
        &self.texture
    }
}

/// Whether `map` is a grid of `dims.0` columns and `dims.1` rows.
pub open spec fn grid_fits(dims: (usize, usize), map: Seq<usize>) -> bool {
    dims.0 * dims.1 == map.len()
}

/// Whether every cell of `map` names one of `tiles`.
pub open spec fn cells_known(tiles: Seq<Tile>, map: Seq<usize>) -> bool {
    forall|k: int| 0 <= k < map.len() ==> map[k] < tiles.len()
}

/// One layer of a level: a row-major grid of tile indices, placed in the
/// world at an offset.
///
/// A tilemap always holds one cell per column and row, and every cell names a
/// tile of the tileset.
pub struct Tilemap<T> {
    position: Vec2i,
    dims: (usize, usize),
    tileset: Rc<Tileset<T>>,
    map: Vec<usize>,
}

impl<T> Tilemap<T> {
    /// A tilemap holds one cell per column and row, each of a known tile.
    #[verifier::type_invariant]
    spec fn well_formed(self) -> bool {
        &&& grid_fits(self.dims, self.map@)
        &&& cells_known(self.tileset.tiles@, self.map@)
        &&& self.map@.len() <= usize::MAX
    }

    /// Where the top-left corner of the grid lies in the world.
    pub closed spec fn origin(self) -> Vec2i {
        self.position
    }

    /// The number of columns.
    pub closed spec fn cols(self) -> nat {
        self.dims.0 as nat
    }

    /// The number of rows.
    pub closed spec fn rows(self) -> nat {
        self.dims.1 as nat
    }

    /// The tileset that the cells choose from.
    pub closed spec fn tiles(self) -> Tileset<T> {
        *self.tileset
    }

    /// The tile index of every cell, row by row.
    pub closed spec fn grid(self) -> Seq<usize> {
        self.map@
    }

    /// Whether the grid holds one cell per column and row and every cell
    /// names a tile of the tileset, as holds of every tilemap made by `new`.
    pub open spec fn valid(self) -> bool {
        &&& self.cols() * self.rows() == self.grid().len()
        &&& cells_known(self.tiles().tile_seq(), self.grid())
    }

    /// The tile in the given row and column.
    pub open spec fn cell(self, row: int, col: int) -> Tile {
        self.tiles().tile_seq()[self.grid()[row * self.cols() + col] as int]
    }

    /// The tile that covers the world point `p` together with the world
    /// rectangle of its cell, or `None` where `p` lies outside the grid.
    pub open spec fn tile_under(self, p: Vec2i) -> Option<(Tile, Rect)> {
        let dx = p.0 - self.origin().0;
        let dy = p.1 - self.origin().1;
        let col = dx / (TILE_SZ as int);
        let row = dy / (TILE_SZ as int);
        if 0 <= dx && 0 <= dy && col < self.cols() && row < self.rows() {
            Some(
                (
                    self.cell(row, col),
                    Rect {
                        x: (self.origin().0 + col * TILE_SZ) as i32,
                        y: (self.origin().1 + row * TILE_SZ) as i32,
                        w: TILE_SZ as u16,
                        h: TILE_SZ as u16,
                    },
                ),
            )
        } else {
            None
        }
    }

    /// The tile index of the cell in the given row and column and the world
    /// rectangle of the cell, or `None` where the grid has no such cell or the
    /// cell lies beyond the world.
    pub open spec fn cell_placed(self, row: int, col: int) -> Option<(usize, Rect)> {
        let x = self.origin().0 + col * TILE_SZ;
        let y = self.origin().1 + row * TILE_SZ;
        if 0 <= row < self.rows() && 0 <= col < self.cols() && x <= i32::MAX && y <= i32::MAX {
            Some(
                (
                    self.grid()[row * self.cols() + col],
                    Rect { x: x as i32, y: y as i32, w: TILE_SZ as u16, h: TILE_SZ as u16 },
                ),
            )
        } else {
            None
        }
    }

    /// Lays a grid of `dims.0` columns and `dims.1` rows at `position`.
    ///
    /// The grid is turned down when it does not hold one cell per column and
    /// row, and otherwise when a cell names a tile that `tileset` lacks; the
    /// error then names the first such cell.
    pub fn new(
        position: Vec2i,
        dims: (usize, usize),
        tileset: &Rc<Tileset<T>>,
        map: Vec<usize>,
    ) -> (r: Result<Tilemap<T>, EngineError>)
        ensures
            match r {
                Ok(m) => {
                    &&& m.valid()
                    &&& m.origin() == position
                    &&& m.cols() == dims.0
                    &&& m.rows() == dims.1
                    &&& m.tiles() == **tileset
                    &&& m.grid() == map@
                },
                Err(e) => if !grid_fits(dims, map@) {
                    e == EngineError::GridMismatch
                } else {
                    &&& e matches EngineError::UnknownTile { cell }
                    &&& cell < map.len()
                    &&& map[cell as int] >= tileset.tile_seq().len()
                    &&& cells_known(tileset.tile_seq(), map@.take(cell as int))
                },
            },
    {
        let cells = dims.0.checked_mul(dims.1);
        let fits = match cells {
            Some(cells) => cells == map.len(),
            None => false,
        };
        if !fits {
            assert(dims.0 * dims.1 != map.len());
            return Err(EngineError::GridMismatch);
        }
        let known: usize = tileset.tiles.len();
        let mut k: usize = 0;
        while k < map.len()
            invariant
                k <= map.len(),
                known == tileset.tiles.len(),
                grid_fits(dims, map@),
                forall|c: int| 0 <= c < k ==> map@[c] < known,
            decreases map.len() - k,
        {
            if map[k] >= known {
                return Err(EngineError::UnknownTile { cell: k });
            }
            k += 1;
        }
        Ok(Tilemap { position, dims, tileset: Rc::clone(tileset), map })
    }

    /// Where the top-left corner of the grid lies in the world.
    pub fn position(&self) -> (p: Vec2i)
        ensures
            p == self.origin(),
    {
        self.position
    }

    /// Moves the grid so that its top-left corner lies at `position`.
    pub fn set_position(&mut self, position: Vec2i)
        ensures
            final(self).origin() == position,
            final(self).cols() == old(self).cols(),
            final(self).rows() == old(self).rows(),
            final(self).tiles() == old(self).tiles(),
            final(self).grid() == old(self).grid(),
    {
        proof {
            use_type_invariant(&*self);
        }
        self.position = position;
    }

    /// The number of columns and of rows.
    pub fn size(&self) -> (dims: (usize, usize))
        ensures
            dims.0 == self.cols(),
            dims.1 == self.rows(),
    {
        self.dims
    }

    /// The tileset that the cells choose from.
    pub fn tileset(&self) -> (tileset: &Rc<Tileset<T>>)
        ensures
            **tileset == self.tiles(),
    {
        &self.tileset
    }

    /// The tile index of every cell, row by row.
    pub fn map(&self) -> (map: &Vec<usize>)
        ensures
            map@ == self.grid(),
            self.valid(),
    {
        proof {
            use_type_invariant(self);
        }
        &self.map
    }

    /// The tile index of the cell in the given row and column and the world
    /// rectangle of the cell, for drawing it.
    pub fn cell_at(&self, row: usize, col: usize) -> (found: Option<(usize, Rect)>)
        ensures
            found == self.cell_placed(row as int, col as int),
    {
        proof {
            use_type_invariant(self);
        }
        if row >= self.dims.1 || col >= self.dims.0 {
            return None;
        }
        assert(0 <= row * self.dims.0 <= row * self.dims.0 + col < self.dims.0 * self.dims.1)
            by (nonlinear_arith)
            requires
                0 <= row < self.dims.1,
                0 <= col < self.dims.0,
        ;
        let x: i128 = self.position.0 as i128 + col as i128 * TILE_SZ as i128;
        let y: i128 = self.position.1 as i128 + row as i128 * TILE_SZ as i128;
        if x > i32::MAX as i128 || y > i32::MAX as i128 {
            return None;
        }
        Some(
            (
                self.map[row * self.dims.0 + col],
                Rect { x: x as i32, y: y as i32, w: TILE_SZ as u16, h: TILE_SZ as u16 },
            ),
        )
    }

    /// Looks up the tile under the world point `posn`.
    pub fn tile_at(&self, posn: Vec2i) -> (found: Option<(Tile, Rect)>)
        ensures
            found == self.tile_under(posn),
    {
        proof {
            use_type_invariant(self);
        }
        let dx: i64 = posn.0 as i64 - self.position.0 as i64;
        let dy: i64 = posn.1 as i64 - self.position.1 as i64;
        if dx < 0 || dy < 0 {
            return None;
        }
        let col: u64 = dx as u64 / TILE_SZ as u64;
        let row: u64 = dy as u64 / TILE_SZ as u64;
        if col >= self.dims.0 as u64 || row >= self.dims.1 as u64 {
            return None;
        }
        let r: usize = row as usize;
        let c: usize = col as usize;
        assert(0 <= r * self.dims.0 <= r * self.dims.0 + c < self.dims.0 * self.dims.1)
            by (nonlinear_arith)
            requires
                0 <= r < self.dims.1,
                0 <= c < self.dims.0,
        ;
        let at: usize = r * self.dims.0 + c;
        let tile: Tile = self.tileset.tiles[self.map[at]];
        let rect = Rect {
            x: (self.position.0 as i64 + (col * TILE_SZ as u64) as i64) as i32,
            y: (self.position.1 as i64 + (row * TILE_SZ as u64) as i64) as i32,
            w: TILE_SZ as u16,
            h: TILE_SZ as u16,
        };
        Some((tile, rect))
    }
}

/// The cell that is found under a point holds the point, and is one tile
/// wide and high.
pub proof fn lemma_tile_under_holds_point<T>(map: Tilemap<T>, p: Vec2i)
    ensures
        map.tile_under(p) matches Some((tile, rect)) ==> {
            &&& rect.w == TILE_SZ
            &&& rect.h == TILE_SZ
            &&& rect.left() <= p.0 < rect.right()
            &&& rect.top() <= p.1 < rect.bottom()
            &&& tile == map.cell((p.1 - map.origin().1) / (TILE_SZ as int), (p.0 - map.origin().0) / (
            TILE_SZ as int))
        },
{
}

} // verus!

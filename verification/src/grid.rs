//! The rectangular arrangement of tiles: coordinates, and the dense
//! row-major index that stands for a tile's identity.

use vstd::prelude::*;
use vstd::arithmetic::div_mod::lemma_fundamental_div_mod;
use vstd::arithmetic::div_mod::lemma_fundamental_div_mod_converse;

verus! {

/// Why a minefield could not be set up.
#[derive(Clone, Copy, Debug, PartialEq, Eq, Structural)]
pub enum MinefieldError {
    /// The grid has no tiles or too many, the mines do not fit, or the
    /// adjacency table does not match the grid.
    InvalidConfiguration,
    /// The grid has no tile at the coordinate asked for.
    MissingCell,
}

/// Maps the coordinate `(column, row)` of a tile to the tile's index.
///
/// Tiles are numbered row by row from zero: the tile in column `x` of row
/// `y` has index `y * columns + x`.
#[derive(Clone, Copy, Debug, PartialEq, Eq, Structural)]
pub struct TileMap {
    pub columns: u32,
    pub rows: u32,
}

/// A grid extent is usable when it has at least one tile and every tile
/// index fits in a `u32`.
pub open spec fn valid_extent(columns: u32, rows: u32) -> bool {
    0 < columns * rows <= u32::MAX
}

impl TileMap {
    pub open spec fn wf(self) -> bool {
        valid_extent(self.columns, self.rows)
    }

    /// The number of tiles.
    pub open spec fn cells(self) -> nat {
        (self.columns * self.rows) as nat
    }

    /// Whether a tile lies at `coord`.
    pub open spec fn contains(self, coord: (u32, u32)) -> bool {
        coord.0 < self.columns && coord.1 < self.rows
    }

    /// The index of the tile at `coord`.
    pub open spec fn index_of(self, coord: (u32, u32)) -> int {
        coord.1 * self.columns + coord.0
    }

    /// The coordinate of the tile with index `index`.
    pub open spec fn coord_of(self, index: int) -> (u32, u32) {
        ((index % (self.columns as int)) as u32, (index / (self.columns as int)) as u32)
    }

    /// The index of a tile of the grid is below the number of tiles, and
    /// leads back to the tile's coordinate.
    pub proof fn lemma_index_of(self, coord: (u32, u32))
        requires
            self.wf(),
            self.contains(coord),
        ensures
            0 <= self.index_of(coord) < self.cells(),
            self.coord_of(self.index_of(coord)) == coord,
    {
        let c = self.columns as int;
        let r = self.rows as int;
        let x = coord.0 as int;
        let y = coord.1 as int;
        assert(y * c + c <= r * c) by (nonlinear_arith)
            requires
                0 <= y < r,
                0 <= c,
        ;
        assert(r * c == c * r) by (nonlinear_arith);
        assert(0 <= y * c) by (nonlinear_arith)
            requires
                0 <= y,
                0 <= c,
        ;
        lemma_fundamental_div_mod_converse(y * c + x, c, y, x);
    }

    /// Every index below the number of tiles belongs to exactly one
    /// coordinate of the grid.
    pub proof fn lemma_coord_of(self, index: int)
        requires
            self.wf(),
            0 <= index < self.cells(),
        ensures
            self.contains(self.coord_of(index)),
            self.index_of(self.coord_of(index)) == index,
    {
        let c = self.columns as int;
        let r = self.rows as int;
        assert(c > 0) by (nonlinear_arith)
            requires
                0 < c * r,
                0 <= c,
        ;
        lemma_fundamental_div_mod(index, c);
        let q = index / c;
        let m = index % c;
        assert(0 <= m < c);
        assert(0 <= q) by (nonlinear_arith)
            requires
                index == c * q + m,
                0 <= index,
                0 <= m < c,
        ;
        assert(q < r) by (nonlinear_arith)
            requires
                index == c * q + m,
                index < c * r,
                0 <= m,
                0 < c,
        ;
        assert(c * q == q * c) by (nonlinear_arith);
    }

    /// The map of a grid of `columns` by `rows` tiles, if that is a usable
    /// extent.
    pub fn new(columns: u32, rows: u32) -> (made: Result<TileMap, MinefieldError>)
        ensures
            made is Ok <==> valid_extent(columns, rows),
            made is Ok ==> made->Ok_0 == (TileMap { columns, rows }),
    {
        match columns.checked_mul(rows) {
            Some(cells) => {
                if cells == 0 {
                    Err(MinefieldError::InvalidConfiguration)
                } else {
                    Ok(TileMap { columns, rows })
                }
            },
            None => Err(MinefieldError::InvalidConfiguration),
        }
    }

    /// The number of tiles.
    pub fn len(&self) -> (cells: u32)
        requires
            self.wf(),
        ensures
            cells == self.cells(),
    {
        self.columns * self.rows
    }

    /// The index of the tile at `coord`, or `None` where the grid has no
    /// such tile.
    pub fn get(&self, coord: (u32, u32)) -> (index: Option<usize>)
        requires
            self.wf(),
        ensures
            index is Some <==> self.contains(coord),
            index is Some ==> index->Some_0 == self.index_of(coord) && index->Some_0
                < self.cells(),
    {
        if coord.0 < self.columns && coord.1 < self.rows {
            proof {
                self.lemma_index_of(coord);
            }
            Some((coord.1 * self.columns + coord.0) as usize)
        } else {
            None
        }
    }

    /// The coordinate of the tile with index `index`.
    pub fn coord(&self, index: usize) -> (coord: (u32, u32))
        requires
            self.wf(),
            index < self.cells(),
        ensures
            coord == self.coord_of(index as int),
            self.contains(coord),
            self.index_of(coord) == index,
    {
        proof {
            self.lemma_coord_of(index as int);
            assert(self.columns > 0) by (nonlinear_arith)
                requires
                    0 < self.columns * self.rows,
            ;
        }
        let i = index as u32;
        (i % self.columns, i / self.columns)
    }
}

} // verus!

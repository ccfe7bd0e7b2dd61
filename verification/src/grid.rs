//! The geometry of a tile atlas: how a rectangular texture is cut into tiles
//! of one size, and the conversions between a tile's index, its place on the
//! grid and its pixel offset.

use crate::map_data::MapData;
use vstd::prelude::*;

verus! {

/// Why an atlas has no grid.
#[derive(Clone, Copy, Debug, PartialEq, Eq, Structural)]
pub enum ConfigError {
    /// The tile width or the tile height is zero.
    ZeroTileSize,
}

/// The description of a tile atlas.
#[derive(Debug)]
pub struct TilemapData {
    /// The pixel size of one tile, as width and height.
    pub tile_size: (usize, usize),
    /// The pixel size of the whole texture, as width and height.
    pub size: (usize, usize),
    /// The tile index that each string identifier stands for.
    pub mapping: MapData,
}

impl Clone for TilemapData {
    /// A description with the same geometry and the same bindings, in the same
    /// order.
    fn clone(&self) -> (copy: Self)
        ensures
            copy.tile_size == self.tile_size,
            copy.size == self.size,
            copy.mapping.bindings() == self.mapping.bindings(),
            copy.mapping@ == self.mapping@,
    {
        TilemapData { tile_size: self.tile_size, size: self.size, mapping: self.mapping.clone() }
    }
}

impl TilemapData {
    /// Both tile dimensions are positive, so the atlas can be cut into tiles.
    pub open spec fn has_grid(&self) -> bool {
        self.tile_size.0 > 0 && self.tile_size.1 > 0
    }

    /// The number of tile columns.
    pub open spec fn cols(&self) -> int {
        self.size.0 as int / self.tile_size.0 as int
    }

    /// The number of tile rows.
    pub open spec fn rows(&self) -> int {
        self.size.1 as int / self.tile_size.1 as int
    }

    /// The number of cells of the grid.
    pub open spec fn cells(&self) -> int {
        self.cols() * self.rows()
    }

    /// `(col, row)` is a cell of the grid.
    pub open spec fn on_grid(&self, c: (int, int)) -> bool {
        0 <= c.0 < self.cols() && 0 <= c.1 < self.rows()
    }

    /// The cell `(col, row)` of the tile with index `i`, counted row by row.
    pub open spec fn coordinates_of(&self, i: int) -> (int, int) {
        (i % self.cols(), i / self.cols())
    }

    /// The index of the tile in cell `(col, row)`, counted row by row.
    pub open spec fn index_of(&self, c: (int, int)) -> int {
        c.1 * self.cols() + c.0
    }

    /// The pixel offset of the top-left corner of the tile with index `i`.
    pub open spec fn pixel_of(&self, i: int) -> (int, int) {
        (
            self.coordinates_of(i).0 * self.tile_size.0 as int,
            self.coordinates_of(i).1 * self.tile_size.1 as int,
        )
    }

    /// A description with the given geometry and no identifiers.
    pub fn new(tile_size: (usize, usize), size: (usize, usize)) -> (d: Self)
        ensures
            d.tile_size == tile_size,
            d.size == size,
            d.mapping@ == Map::<Seq<char>, usize>::empty(),
            d.mapping.bindings() == Seq::<(Seq<char>, usize)>::empty(),
    {
        TilemapData { tile_size, size, mapping: MapData::new() }
    }

    /// The number of tile columns and rows: the atlas size divided by the tile
    /// size, rounded down. Fails where a tile dimension is zero.
    pub fn tile_grid(&self) -> (r: Result<(usize, usize), ConfigError>)
        ensures
            r is Ok <==> self.has_grid(),
            r matches Ok(g) ==> g.0 == self.cols() && g.1 == self.rows(),
    {
        if self.tile_size.0 == 0 || self.tile_size.1 == 0 {
            Err(ConfigError::ZeroTileSize)
        } else {
            Ok((self.size.0 / self.tile_size.0, self.size.1 / self.tile_size.1))
        }
    }

    /// The index of the tile in cell `c = (col, row)`: `row * cols + col`.
    pub fn tile_coordinates_to_index(&self, c: (usize, usize)) -> (i: usize)
        requires
            self.has_grid(),
            self.on_grid((c.0 as int, c.1 as int)),
            self.cells() <= usize::MAX,
        ensures
            i == self.index_of((c.0 as int, c.1 as int)),
            i < self.cells(),
    {
        let cols = self.size.0 / self.tile_size.0;
        proof {
            self.lemma_index_on_grid((c.0 as int, c.1 as int));
            assert(0 <= c.1 * cols) by (nonlinear_arith)
                requires
                    0 <= c.1,
                    0 <= cols,
            ;
        }
        c.1 * cols + c.0
    }

    /// The cell `(col, row)` of the tile with index `i`:
    /// `(i mod cols, i div cols)`.
    pub fn index_to_tile_coordinates(&self, i: usize) -> (c: (usize, usize))
        requires
            self.has_grid(),
            i < self.cells(),
        ensures
            (c.0 as int, c.1 as int) == self.coordinates_of(i as int),
            self.on_grid((c.0 as int, c.1 as int)),
    {
        let cols = self.size.0 / self.tile_size.0;
        proof {
            self.lemma_coordinates_on_grid(i as int);
        }
        (i % cols, i / cols)
    }

    /// The pixel offset of the top-left corner of the tile with index `i`:
    /// `(col * tile width, row * tile height)`. The whole tile lies inside the
    /// atlas.
    pub fn index_to_pixel_coordinates(&self, i: usize) -> (p: (usize, usize))
        requires
            self.has_grid(),
            i < self.cells(),
        ensures
            (p.0 as int, p.1 as int) == self.pixel_of(i as int),
            p.0 + self.tile_size.0 <= self.size.0,
            p.1 + self.tile_size.1 <= self.size.1,
            p.0 < self.size.0,
            p.1 < self.size.1,
    {
        let tile_coordinate = self.index_to_tile_coordinates(i);
        proof {
            self.lemma_pixel_inside(i as int);
        }
        (tile_coordinate.0 * self.tile_size.0, tile_coordinate.1 * self.tile_size.1)
    }

    /// The cell of a tile index below the cell count lies on the grid.
    pub proof fn lemma_coordinates_on_grid(&self, i: int)
        requires
            self.has_grid(),
            0 <= i < self.cells(),
        ensures
            self.cols() > 0,
            self.rows() > 0,
            self.on_grid(self.coordinates_of(i)),
    {
        let cols = self.cols();
        let rows = self.rows();
        assert(cols >= 0 && rows >= 0);
        assert(cols > 0 && rows > 0) by (nonlinear_arith)
            requires
                cols >= 0,
                rows >= 0,
                0 <= i < cols * rows,
        ;
        assert(0 <= i % cols < cols && 0 <= i / cols < rows) by (nonlinear_arith)
            requires
                cols > 0,
                0 <= i < cols * rows,
        ;
    }

    /// The index of a cell of the grid lies below the cell count.
    pub proof fn lemma_index_on_grid(&self, c: (int, int))
        requires
            self.has_grid(),
            self.on_grid(c),
        ensures
            0 <= self.index_of(c) < self.cells(),
    {
        let cols = self.cols();
        let rows = self.rows();
        assert(0 <= c.1 * cols + c.0 < cols * rows) by (nonlinear_arith)
            requires
                0 <= c.0 < cols,
                0 <= c.1 < rows,
        ;
    }

    /// Round trip: the index of the cell of a tile index is that index again.
    pub proof fn lemma_index_round_trip(&self, i: int)
        requires
            self.has_grid(),
            0 <= i < self.cells(),
        ensures
            self.on_grid(self.coordinates_of(i)),
            self.index_of(self.coordinates_of(i)) == i,
    {
        self.lemma_coordinates_on_grid(i);
        let cols = self.cols();
        assert((i / cols) * cols + i % cols == i) by (nonlinear_arith)
            requires
                cols > 0,
        ;
    }

    /// Round trip: the cell of the index of a cell of the grid is that cell
    /// again.
    pub proof fn lemma_coordinates_round_trip(&self, c: (int, int))
        requires
            self.has_grid(),
            self.on_grid(c),
        ensures
            0 <= self.index_of(c) < self.cells(),
            self.coordinates_of(self.index_of(c)) == c,
    {
        self.lemma_index_on_grid(c);
        let cols = self.cols();
        let col = c.0;
        let row = c.1;
        vstd::arithmetic::div_mod::lemma_fundamental_div_mod_converse(
            row * cols + col,
            cols,
            row,
            col,
        );
    }

    /// The tile with a given index lies wholly inside the atlas, so its pixel
    /// offset is a pixel of the atlas.
    pub proof fn lemma_pixel_inside(&self, i: int)
        requires
            self.has_grid(),
            0 <= i < self.cells(),
        ensures
            0 <= self.pixel_of(i).0,
            0 <= self.pixel_of(i).1,
            self.pixel_of(i).0 + self.tile_size.0 <= self.size.0,
            self.pixel_of(i).1 + self.tile_size.1 <= self.size.1,
            self.pixel_of(i).0 < self.size.0,
            self.pixel_of(i).1 < self.size.1,
    {
        self.lemma_coordinates_on_grid(i);
        let col = self.coordinates_of(i).0;
        let row = self.coordinates_of(i).1;
        let tw = self.tile_size.0 as int;
        let th = self.tile_size.1 as int;
        let w = self.size.0 as int;
        let h = self.size.1 as int;
        assert(0 <= col * tw && col * tw + tw <= w) by (nonlinear_arith)
            requires
                tw > 0,
                w >= 0,
                0 <= col < w / tw,
        ;
        assert(0 <= row * th && row * th + th <= h) by (nonlinear_arith)
            requires
                th > 0,
                h >= 0,
                0 <= row < h / th,
        ;
    }
}

} // verus!

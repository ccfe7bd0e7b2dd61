//! The tile lookup that is built from an atlas description and a texture.

use crate::decode::{decode, DecodeError};
use crate::grid::TilemapData;
use crate::map_data::MapData;
use vstd::prelude::*;

verus! {

/// A rectangle of the atlas, in pixels, with its top-left corner at `(x, y)`.
#[derive(Clone, Copy, Debug, PartialEq, Eq, Structural)]
pub struct TileRect {
    pub x: usize,
    pub y: usize,
    pub width: usize,
    pub height: usize,
}

impl TileRect {
    /// The rectangle without area that stands for a cell which no identifier
    /// refers to.
    pub open spec fn placeholder() -> TileRect {
        TileRect { x: 0, y: 0, width: 0, height: 0 }
    }

    /// The rectangle lies inside an atlas of the given size.
    pub open spec fn inside(&self, size: (usize, usize)) -> bool {
        self.x + self.width <= size.0 && self.y + self.height <= size.1
    }
}

/// Why no tile lookup could be built.
#[derive(Clone, Copy, Debug, PartialEq, Eq, Structural)]
pub enum BuildError {
    /// The description breaks one of its invariants.
    InvalidDescriptor,
}

impl TilemapData {
    /// Some identifier is bound to the tile index `i`.
    pub open spec fn references(&self, i: int) -> bool {
        exists|k: Seq<char>| #[trigger] self.mapping@.contains_key(k) && self.mapping@[k] == i
    }

    /// The rectangle that the tile with index `i` covers in the atlas.
    pub open spec fn tile_rect(&self, i: int) -> TileRect {
        TileRect {
            x: self.pixel_of(i).0 as usize,
            y: self.pixel_of(i).1 as usize,
            width: self.tile_size.0,
            height: self.tile_size.1,
        }
    }

    /// The rectangle kept for cell `i`: that of its tile where an identifier
    /// refers to it, the placeholder where none does.
    pub open spec fn rect_at(&self, i: int) -> TileRect {
        if self.references(i) {
            self.tile_rect(i)
        } else {
            TileRect::placeholder()
        }
    }

    /// The rectangles of all cells, by tile index.
    pub open spec fn tile_rects(&self) -> Seq<TileRect> {
        Seq::new(self.cells() as nat, |i: int| self.rect_at(i))
    }

    /// One of the first `n` bindings, in insertion order, has the index `i`.
    spec fn referenced_before(&self, n: int, i: int) -> bool {
        exists|q: int| 0 <= q < n && (#[trigger] self.mapping.bindings()[q]).1 == i
    }

    /// Once all bindings are counted, `referenced_before` is `references`.
    proof fn lemma_referenced_all(&self, i: int)
        requires
            self.mapping.wf(),
        ensures
            self.referenced_before(self.mapping.bindings().len() as int, i) <==> self.references(
                i,
            ),
    {
        self.mapping.lemma_bindings_view();
        if self.referenced_before(self.mapping.bindings().len() as int, i) {
            let q = choose|q: int|
                0 <= q < self.mapping.bindings().len() && (
                #[trigger] self.mapping.bindings()[q]).1 == i;
            let k = self.mapping.bindings()[q].0;
            assert(self.mapping@.contains_key(k) && self.mapping@[k] == i);
        }
        if self.references(i) {
            let k = choose|k: Seq<char>| #[trigger]
                self.mapping@.contains_key(k) && self.mapping@[k] == i;
            assert(self.mapping@.contains_key(k));
            let q = choose|q: int|
                0 <= q < self.mapping.bindings().len() && #[trigger] self.mapping.bindings()[q]
                    == (k, self.mapping@[k]);
            assert(self.mapping.bindings()[q].1 == i);
        }
    }
}

/// The built tile lookup: the identifiers of an atlas description, the texture
/// that they refer to, and one rectangle for each cell of the grid.
#[derive(Debug)]
pub struct Tilemap<H> {
    mapping: MapData,
    texture: H,
    sprites: Vec<TileRect>,
}

impl<H> Tilemap<H> {
    /// The tile index that each identifier stands for.
    pub closed spec fn symbols(&self) -> Map<Seq<char>, usize> {
        self.mapping@
    }

    /// The rectangles of all cells, by tile index.
    pub closed spec fn rects(&self) -> Seq<TileRect> {
        self.sprites@
    }

    /// The texture that the lookup is bound to.
    pub closed spec fn bound_texture(&self) -> H {
        self.texture
    }

    /// Every identifier stands for a cell that has a rectangle. This holds of
    /// every lookup that a program holds.
    #[verifier::type_invariant]
    pub closed spec fn wf(&self) -> bool {
        &&& self.mapping.wf()
        &&& forall|k: Seq<char>| #[trigger]
            self.mapping@.contains_key(k) ==> self.mapping@[k] < self.sprites@.len()
    }

    /// The lookup holds the identifiers of `data` and the rectangles that
    /// `data` gives to its cells.
    pub open spec fn built_from(&self, data: &TilemapData) -> bool {
        self.symbols() == data.mapping@ && self.rects() == data.tile_rects()
    }

    /// The rectangle of the tile that `key` stands for, or `None` where `key`
    /// is no identifier of the atlas.
    pub fn tile(&self, key: &str) -> (r: Option<&TileRect>)
        ensures
            r is Some <==> self.symbols().contains_key(key@),
            r matches Some(rect) ==> *rect == self.rects()[self.symbols()[key@] as int],
    {
        proof {
            use_type_invariant(self);
        }
        match self.mapping.get(key) {
            Some(v) => Some(&self.sprites[v]),
            None => None,
        }
    }

    /// The texture that the lookup is bound to.
    pub fn texture(&self) -> (t: &H)
        ensures
            *t == self.bound_texture(),
    {
        &self.texture
    }

    /// The rectangles of all cells, by tile index.
    pub fn tile_rects(&self) -> (r: &Vec<TileRect>)
        ensures
            r@ == self.rects(),
    {
        &self.sprites
    }
}

/// The builder of tile lookups.
#[derive(Clone, Copy, Debug, PartialEq, Eq, Structural)]
pub struct TilemapFormat;

impl TilemapFormat {
    /// Binds an atlas description to a texture.
    ///
    /// Succeeds exactly on the valid descriptions. The lookup then has one
    /// rectangle for each cell of the grid: the tile's own rectangle where an
    /// identifier refers to the cell, the placeholder without area elsewhere.
    pub fn build<H>(&self, data: TilemapData, texture: H) -> (r: Result<Tilemap<H>, BuildError>)
        ensures
            r is Ok <==> data.valid(),
            r matches Ok(tilemap) ==> {
                &&& tilemap.built_from(&data)
                &&& tilemap.bound_texture() == texture
            },
    {
        if data.validate().is_err() {
            return Err(BuildError::InvalidDescriptor);
        }
        let cells: usize = (data.size.0 / data.tile_size.0) * (data.size.1 / data.tile_size.1);
        let mut sprites: Vec<TileRect> = Vec::new();
        let mut filled: usize = 0;
        while filled < cells
            invariant
                filled <= cells,
                sprites@.len() == filled,
                forall|i: int| 0 <= i < filled ==> sprites@[i] == TileRect::placeholder(),
            decreases cells - filled,
        {
            sprites.push(TileRect { x: 0, y: 0, width: 0, height: 0 });
            filled += 1;
        }
        let n = data.mapping.len();
        let mut p: usize = 0;
        while p < n
            invariant
                data.valid(),
                cells == data.cells(),
                n == data.mapping.bindings().len(),
                p <= n,
                sprites@.len() == cells,
                forall|i: int|
                    0 <= i < cells ==> #[trigger] sprites@[i] == (if data.referenced_before(
                        p as int,
                        i,
                    ) {
                        data.tile_rect(i)
                    } else {
                        TileRect::placeholder()
                    }),
            decreases n - p,
        {
            let v = data.mapping.index_at(p);
            proof {
                data.mapping.lemma_bindings_view();
                assert(data.mapping@.contains_key(data.mapping.bindings()[p as int].0));
            }
            let offset = data.index_to_pixel_coordinates(v);
            let ghost before = sprites@;
            sprites.set(
                v,
                TileRect {
                    x: offset.0,
                    y: offset.1,
                    width: data.tile_size.0,
                    height: data.tile_size.1,
                },
            );
            proof {
                assert forall|i: int| 0 <= i < cells implies #[trigger] sprites@[i] == (
                if data.referenced_before(p + 1, i) {
                    data.tile_rect(i)
                } else {
                    TileRect::placeholder()
                }) by {
                    if i == v {
                        assert(data.mapping.bindings()[p as int].1 == i);
                    } else {
                        if data.referenced_before(p + 1, i) {
                            let q = choose|q: int|
                                0 <= q < p + 1 && (#[trigger] data.mapping.bindings()[q]).1 == i;
                            assert(q < p);
                        }
                        if data.referenced_before(p as int, i) {
                            let q = choose|q: int|
                                0 <= q < p && (#[trigger] data.mapping.bindings()[q]).1 == i;
                            assert(q < p + 1);
                        }
                        assert(sprites@[i] == before[i]);
                    }
                }
            }
            p += 1;
        }
        proof {
            assert forall|i: int| 0 <= i < cells implies sprites@[i] == data.rect_at(i) by {
                data.lemma_referenced_all(i);
            }
            assert(sprites@ =~= data.tile_rects());
        }
        Ok(Tilemap { mapping: data.mapping, texture, sprites })
    }

    /// Validates what the reader of a description's text form returned and
    /// binds the description to a texture.
    ///
    /// Succeeds exactly where a description was read and is valid; the lookup
    /// is then the one that `build` makes of it. Otherwise the error is the one
    /// that `decode` gives.
    pub fn import<H>(&self, parsed: Result<TilemapData, String>, texture: H) -> (r: Result<
        Tilemap<H>,
        DecodeError,
    >)
        ensures
            r is Ok <==> (parsed matches Ok(data) && data.valid()),
            r matches Ok(tilemap) ==> {
                &&& tilemap.built_from(&parsed->Ok_0)
                &&& tilemap.bound_texture() == texture
            },
            match parsed {
                Err(reason) => r matches Err(DecodeError::MalformedSource(carried)) && carried
                    == reason,
                Ok(data) => match r {
                    Ok(_) => true,
                    Err(DecodeError::InvalidGeometry) => !data.geometry_ok(),
                    Err(DecodeError::IndexOutOfRange(symbol)) => data.geometry_ok() && exists|
                        p: int,
                    |
                        #![auto]
                        data.first_offender(p) && symbol@ == data.mapping.bindings()[p].0,
                    Err(DecodeError::MalformedSource(_)) => false,
                },
            },
    {
        match decode(parsed) {
            Err(e) => Err(e),
            Ok(data) => match self.build(data, texture) {
                Ok(tilemap) => Ok(tilemap),
                Err(_) => Err(DecodeError::InvalidGeometry),
            },
        }
    }
}

impl TilemapData {
    /// What a valid description gives to its cells: one rectangle for each
    /// cell, every rectangle inside the atlas, and for each identifier the
    /// rectangle of its tile, with the tile's pixel offset and size.
    pub proof fn lemma_tile_rects(&self)
        requires
            self.valid(),
        ensures
            self.tile_rects().len() == self.cells(),
            forall|i: int|
                0 <= i < self.cells() ==> (#[trigger] self.tile_rects()[i]).inside(self.size),
            forall|k: Seq<char>| #[trigger]
                self.mapping@.contains_key(k) ==> {
                    let i = self.mapping@[k] as int;
                    &&& self.tile_rects()[i] == self.tile_rect(i)
                    &&& self.tile_rects()[i].x == self.pixel_of(i).0
                    &&& self.tile_rects()[i].y == self.pixel_of(i).1
                    &&& self.tile_rects()[i].width == self.tile_size.0
                    &&& self.tile_rects()[i].height == self.tile_size.1
                },
    {
        assert forall|i: int| 0 <= i < self.cells() implies (#[trigger] self.tile_rects()[i]).inside(
            self.size,
        ) by {
            self.lemma_pixel_inside(i);
        }
        assert forall|k: Seq<char>| #[trigger] self.mapping@.contains_key(k) implies {
            let i = self.mapping@[k] as int;
            &&& self.tile_rects()[i] == self.tile_rect(i)
            &&& self.tile_rects()[i].x == self.pixel_of(i).0
            &&& self.tile_rects()[i].y == self.pixel_of(i).1
            &&& self.tile_rects()[i].width == self.tile_size.0
            &&& self.tile_rects()[i].height == self.tile_size.1
        } by {
            let i = self.mapping@[k] as int;
            assert(self.references(i));
            self.lemma_pixel_inside(i);
        }
    }
}

/// Building is a function of the description alone: lookups built from
/// descriptions with the same geometry and the same bindings hold the same
/// identifiers and the same rectangles, whatever texture each is bound to.
pub proof fn lemma_build_deterministic<H>(
    a: &TilemapData,
    b: &TilemapData,
    built_a: &Tilemap<H>,
    built_b: &Tilemap<H>,
)
    requires
        a.tile_size == b.tile_size,
        a.size == b.size,
        a.mapping@ == b.mapping@,
        built_a.built_from(a),
        built_b.built_from(b),
    ensures
        built_a.symbols() == built_b.symbols(),
        built_a.rects() == built_b.rects(),
{
    assert(a.tile_rects() =~= b.tile_rects());
}

} // verus!

//! Validation of an atlas description after it has been read from its text
//! form.

use crate::grid::TilemapData;
use vstd::prelude::*;

verus! {

/// Why an atlas description was rejected.
#[derive(Debug)]
pub enum DecodeError {
    /// The text could not be read as a description; the reader's reason is
    /// carried along unchanged.
    MalformedSource(String),
    /// A tile dimension is zero, the atlas is not a whole number of tiles wide
    /// or high, or its cell count does not fit the machine's word.
    InvalidGeometry,
    /// The named identifier is bound to an index that is not a cell of the
    /// grid.
    IndexOutOfRange(String),
}

impl TilemapData {
    /// The atlas is cut into whole tiles of positive size, and the number of
    /// its cells fits the machine's word.
    pub open spec fn geometry_ok(&self) -> bool {
        &&& self.has_grid()
        &&& self.size.0 as int % self.tile_size.0 as int == 0
        &&& self.size.1 as int % self.tile_size.1 as int == 0
        &&& self.cells() <= usize::MAX
    }

    /// Every identifier is bound to a cell of the grid.
    pub open spec fn indices_ok(&self) -> bool {
        forall|k: Seq<char>| #[trigger]
            self.mapping@.contains_key(k) ==> self.mapping@[k] < self.cells()
    }

    /// The description meets all its invariants.
    pub open spec fn valid(&self) -> bool {
        self.mapping.wf() && self.geometry_ok() && self.indices_ok()
    }

    /// The binding at position `p` is the first, in insertion order, whose
    /// index is not a cell of the grid.
    pub open spec fn first_offender(&self, p: int) -> bool {
        &&& 0 <= p < self.mapping.bindings().len()
        &&& self.mapping.bindings()[p].1 >= self.cells()
        &&& forall|q: int| 0 <= q < p ==> (#[trigger] self.mapping.bindings()[q]).1 < self.cells()
    }

    /// Checks the invariants of a description: first the geometry, then each
    /// binding in insertion order. The first binding whose index is out of
    /// range is the one that is reported.
    pub fn validate(&self) -> (r: Result<(), DecodeError>)
        ensures
            r is Ok <==> self.valid(),
            match r {
                Ok(_) => self.valid(),
                Err(DecodeError::InvalidGeometry) => !self.geometry_ok(),
                Err(DecodeError::IndexOutOfRange(symbol)) => self.geometry_ok() && exists|p: int|
                    #![auto]
                    self.first_offender(p) && symbol@ == self.mapping.bindings()[p].0,
                Err(DecodeError::MalformedSource(_)) => false,
            },
    {
        proof {
            use_type_invariant(&self.mapping);
        }
        let (cols, rows) = match self.tile_grid() {
            Ok(grid) => grid,
            Err(_) => { return Err(DecodeError::InvalidGeometry); },
        };
        if self.size.0 % self.tile_size.0 != 0 || self.size.1 % self.tile_size.1 != 0 {
            return Err(DecodeError::InvalidGeometry);
        }
        let cells: usize = match cols.checked_mul(rows) {
            Some(cells) => cells,
            None => { return Err(DecodeError::InvalidGeometry); },
        };
        let n = self.mapping.len();
        let mut p: usize = 0;
        while p < n
            invariant
                self.mapping.wf(),
                self.geometry_ok(),
                cells == self.cells(),
                n == self.mapping.bindings().len(),
                p <= n,
                forall|q: int| 0 <= q < p ==> (#[trigger] self.mapping.bindings()[q]).1 < cells,
            decreases n - p,
        {
            if self.mapping.index_at(p) >= cells {
                let symbol = self.mapping.symbol_at(p).clone();
                proof {
                    assert(self.first_offender(p as int));
                    self.mapping.lemma_bindings_view();
                    let k = self.mapping.bindings()[p as int].0;
                    assert(self.mapping@.contains_key(k) && self.mapping@[k] >= cells);
                }
                return Err(DecodeError::IndexOutOfRange(symbol));
            }
            p += 1;
        }
        proof {
            self.mapping.lemma_bindings_view();
        }
        Ok(())
    }
}

/// Turns what the reader of the text form returned into a validated
/// description: a reader's failure becomes `MalformedSource` with the same
/// reason, and a description that was read is returned unchanged if it is
/// valid, and rejected as `validate` rejects it if not.
pub fn decode(parsed: Result<TilemapData, String>) -> (r: Result<TilemapData, DecodeError>)
    ensures
        r is Ok <==> (parsed matches Ok(data) && data.valid()),
        match parsed {
            Err(reason) => r matches Err(DecodeError::MalformedSource(carried)) && carried
                == reason,
            Ok(data) => match r {
                Ok(checked) => checked == data && data.valid(),
                Err(DecodeError::InvalidGeometry) => !data.geometry_ok(),
                Err(DecodeError::IndexOutOfRange(symbol)) => data.geometry_ok() && exists|p: int|
                    #![auto]
                    data.first_offender(p) && symbol@ == data.mapping.bindings()[p].0,
                Err(DecodeError::MalformedSource(_)) => false,
            },
        },
{
    match parsed {
        Err(reason) => Err(DecodeError::MalformedSource(reason)),
        Ok(data) => match data.validate() {
            Ok(_) => Ok(data),
            Err(e) => Err(e),
        },
    }
}

} // verus!

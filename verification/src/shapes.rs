//! The shape table: the seven tetromino variants, each a single canonical
//! 4x4 mask of 16 cells. A mask cell holds `MASK_EMPTY` where the piece has
//! no block, and a nonzero symbol index where it has one. Rotations are
//! computed through the rotation indexer, never stored.

use vstd::prelude::*;

verus! {

/// The mask value of a cell that the piece does not occupy.
pub const MASK_EMPTY: u8 = 10;

/// How many piece variants the catalogue holds.
pub const N_TETROMINOS: u8 = 7;

/// The canonical mask of one variant: the I piece, a vertical bar.
pub open spec fn mask_i() -> Seq<u8> {
    seq![10u8, 10u8, 2u8, 10u8, 10u8, 10u8, 2u8, 10u8, 10u8, 10u8, 2u8, 10u8, 10u8, 10u8, 2u8, 10u8]
}

/// The O piece, a 2x2 box.
pub open spec fn mask_o() -> Seq<u8> {
    seq![10u8, 10u8, 10u8, 10u8, 10u8, 3u8, 3u8, 10u8, 10u8, 3u8, 3u8, 10u8, 10u8, 10u8, 10u8, 10u8]
}

/// The T piece.
pub open spec fn mask_t() -> Seq<u8> {
    seq![10u8, 10u8, 10u8, 10u8, 10u8, 10u8, 10u8, 10u8, 4u8, 4u8, 4u8, 10u8, 10u8, 4u8, 10u8, 10u8]
}

/// The J piece (right ell).
pub open spec fn mask_j() -> Seq<u8> {
    seq![10u8, 10u8, 10u8, 10u8, 10u8, 10u8, 4u8, 10u8, 10u8, 10u8, 4u8, 10u8, 10u8, 4u8, 4u8, 10u8]
}

/// The L piece (left ell).
pub open spec fn mask_l() -> Seq<u8> {
    seq![10u8, 10u8, 10u8, 10u8, 10u8, 5u8, 10u8, 10u8, 10u8, 5u8, 10u8, 10u8, 10u8, 5u8, 5u8, 10u8]
}

/// The S piece.
pub open spec fn mask_s() -> Seq<u8> {
    seq![10u8, 10u8, 10u8, 10u8, 10u8, 10u8, 10u8, 10u8, 6u8, 6u8, 10u8, 10u8, 10u8, 6u8, 6u8, 10u8]
}

/// The Z piece.
pub open spec fn mask_z() -> Seq<u8> {
    seq![10u8, 10u8, 10u8, 10u8, 10u8, 10u8, 10u8, 10u8, 10u8, 7u8, 7u8, 10u8, 7u8, 7u8, 10u8, 10u8]
}

/// The canonical mask of variant v of the catalogue.
pub open spec fn variant_mask(v: int) -> Seq<u8> {
    if v == 0 {
        mask_i()
    } else if v == 1 {
        mask_o()
    } else if v == 2 {
        mask_t()
    } else if v == 3 {
        mask_j()
    } else if v == 4 {
        mask_l()
    } else if v == 5 {
        mask_s()
    } else {
        mask_z()
    }
}

/// Whether mask cell i of mask m is occupied by the piece.
pub open spec fn mask_occupied(m: Seq<u8>, i: int) -> bool {
    m[i] != MASK_EMPTY
}

/// One piece variant: an immutable 16-cell mask, constructed once by
/// `get_shapes` and read-only thereafter.
pub struct Tetromino {
    shape: Vec<u8>,
}

impl Tetromino {
    /// The variant's canonical 16-cell mask.
    pub fn shape(&self) -> (s: &Vec<u8>)
        ensures
            s@ == self.view_mask(),
    {
        &self.shape
    }

    /// View of the mask for contracts.
    pub closed spec fn view_mask(&self) -> Seq<u8> {
        self.shape@
    }
}

/// Builds the catalogue: the seven variants, each with its canonical mask.
pub fn get_shapes() -> (ts: Vec<Tetromino>)
    ensures
        ts@.len() == N_TETROMINOS,
        forall|v: int| 0 <= v < 7 ==> (#[trigger] ts@[v]).view_mask() == variant_mask(v),
{
    let mut ts: Vec<Tetromino> = Vec::new();
    ts.push(Tetromino { shape: vec![10, 10, 2, 10, 10, 10, 2, 10, 10, 10, 2, 10, 10, 10, 2, 10] });
    ts.push(Tetromino { shape: vec![10, 10, 10, 10, 10, 3, 3, 10, 10, 3, 3, 10, 10, 10, 10, 10] });
    ts.push(Tetromino { shape: vec![10, 10, 10, 10, 10, 10, 10, 10, 4, 4, 4, 10, 10, 4, 10, 10] });
    ts.push(Tetromino { shape: vec![10, 10, 10, 10, 10, 10, 4, 10, 10, 10, 4, 10, 10, 4, 4, 10] });
    ts.push(Tetromino { shape: vec![10, 10, 10, 10, 10, 5, 10, 10, 10, 5, 10, 10, 10, 5, 5, 10] });
    ts.push(Tetromino { shape: vec![10, 10, 10, 10, 10, 10, 10, 10, 6, 6, 10, 10, 10, 6, 6, 10] });
    ts.push(Tetromino { shape: vec![10, 10, 10, 10, 10, 10, 10, 10, 10, 7, 7, 10, 7, 7, 10, 10] });
    proof {
        assert(ts@[0].view_mask() =~= mask_i());
        assert(ts@[1].view_mask() =~= mask_o());
        assert(ts@[2].view_mask() =~= mask_t());
        assert(ts@[3].view_mask() =~= mask_j());
        assert(ts@[4].view_mask() =~= mask_l());
        assert(ts@[5].view_mask() =~= mask_s());
        assert(ts@[6].view_mask() =~= mask_z());
    }
    ts
}

/// Every variant's mask has at least one occupied cell; this names one.
pub open spec fn occupied_witness_index(v: int) -> int {
    if v == 0 {
        2
    } else if v == 1 {
        5
    } else if v == 2 {
        8
    } else if v == 3 {
        6
    } else if v == 4 {
        5
    } else if v == 5 {
        8
    } else {
        9
    }
}

/// No variant's mask is blank: the named witness cell is occupied.
pub proof fn lemma_variant_mask_nonempty(v: int)
    requires
        0 <= v < 7,
    ensures
        0 <= occupied_witness_index(v) < 16,
        mask_occupied(variant_mask(v), occupied_witness_index(v)),
{
}

} // verus!

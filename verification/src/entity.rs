//! Drawable entities as the per-frame query hands them to the
//! batcher.

use vstd::prelude::*;

use crate::bytes::le_bytes_of_words;
use crate::bytes::lemma_le_bytes_of_words_len;
use crate::bytes::words_to_le_bytes;

verus! {

/// Byte size of one packed 4×4 transform matrix.
pub const TRANSFORM_SIZE: u64 = 64;

/// A 4×4 world transform: sixteen float bit patterns in column-major
/// order.
pub struct Transform {
    pub bits: Vec<u32>,
}

impl Transform {
    pub open spec fn wf(&self) -> bool {
        self.bits@.len() == 16
    }

    /// The packed matrix, byte for byte.
    pub open spec fn spec_bytes(&self) -> Seq<u8> {
        le_bytes_of_words(self.bits@)
    }

    /// Packs the matrix into its 64-byte record.
    pub fn pack(&self) -> (r: Vec<u8>)
        requires
            self.wf(),
        ensures
            r@ == self.spec_bytes(),
            r@.len() == TRANSFORM_SIZE,
    {
        proof {
            lemma_le_bytes_of_words_len(self.bits@);
        }
        words_to_le_bytes(&self.bits)
    }
}

/// One row of the drawable-entity query: the entity and the assets it
/// references, by identifier, plus its current world transform.
pub struct Entity {
    pub entity: u64,
    pub mesh: u64,
    pub material: u64,
    pub transform: Transform,
}

impl Entity {
    pub open spec fn wf(&self) -> bool {
        self.transform.wf()
    }
}

} // verus!

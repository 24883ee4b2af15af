//! Chunk and block cells of the constructed world.
//!
//! A chunk (or block) word with bit 31 set is mixed and its low 30 bits point
//! at its children; otherwise bit 30 set marks a uniformly full cell whose low
//! 15 bits are the voxel type; otherwise the cell is empty and its low 30 bits
//! hold its six 5-bit AADF distances.

use vstd::prelude::*;

use crate::bits::{lemma_tag_word, lemma_word_bits};
use crate::voxel::VoxelTypeId;

verus! {

/// Bit 31 of a chunk or block word: the cell has children.
pub const CELL_HAS_CHILDREN: u32 = 0x8000_0000;

/// Bit 30 of a chunk or block word: the cell is uniformly full.
pub const CELL_UNIFORM_FULL: u32 = 0x4000_0000;

/// Low 30 bits of a chunk or block word: pointer or AADF payload.
pub const CELL_PAYLOAD_MASK: u32 = 0x3FFF_FFFF;

/// A decoded chunk word.
#[derive(Clone, Copy, Debug, PartialEq, Eq)]
pub enum ChunkCell {
    /// Empty chunk with its packed AADF distances.
    Empty(u32),
    /// Uniformly full chunk of one voxel type.
    UniformFull(VoxelTypeId),
    /// Mixed chunk: pointer to its 64 block words.
    Mixed(u32),
}

/// A decoded block word.
#[derive(Clone, Copy, Debug, PartialEq, Eq)]
pub enum BlockCell {
    /// Empty block with its packed AADF distances.
    Empty(u32),
    /// Uniformly full block of one voxel type.
    UniformFull(VoxelTypeId),
    /// Mixed block: pointer to its 32 voxel words.
    Mixed(u32),
}

/// The kind code of a chunk or block word: 0 empty, 1 uniform full, 2 mixed.
pub open spec fn word_kind(raw: u32) -> u8 {
    if raw >= 0x8000_0000 {
        2
    } else if raw >= 0x4000_0000 {
        1
    } else {
        0
    }
}

impl ChunkCell {
    /// The cell a chunk word encodes.
    pub open spec fn spec_decode(raw: u32) -> ChunkCell {
        if raw >= 0x8000_0000 {
            ChunkCell::Mixed((raw % 0x4000_0000) as u32)
        } else if raw >= 0x4000_0000 {
            ChunkCell::UniformFull(VoxelTypeId((raw % 0x8000) as u16))
        } else {
            ChunkCell::Empty((raw % 0x4000_0000) as u32)
        }
    }

    /// Decode a chunk word.
    pub fn decode(raw: u32) -> (c: ChunkCell)
        ensures
            c == ChunkCell::spec_decode(raw),
    {
        proof {
            lemma_word_bits(raw);
        }
        if raw & CELL_HAS_CHILDREN != 0 {
            ChunkCell::Mixed(raw & CELL_PAYLOAD_MASK)
        } else if raw & CELL_UNIFORM_FULL != 0 {
            ChunkCell::UniformFull(VoxelTypeId((raw & 0x7FFF) as u16))
        } else {
            ChunkCell::Empty(raw & CELL_PAYLOAD_MASK)
        }
    }
}

impl ChunkCell {
    /// The word a chunk cell is stored as: bit 31 and the pointer for a
    /// mixed chunk, bit 30 and the 15-bit type for a uniform one, the 30-bit
    /// AADF payload for an empty one (payloads cut to their widths).
    pub open spec fn spec_encode(self) -> u32 {
        match self {
            ChunkCell::Empty(a) => (a % 0x4000_0000) as u32,
            ChunkCell::UniformFull(t) => (0x4000_0000 + t.0 % 0x8000) as u32,
            ChunkCell::Mixed(p) => (0x8000_0000 + p % 0x4000_0000) as u32,
        }
    }

    /// Encode a chunk cell as its word.
    pub fn encode(&self) -> (word: u32)
        ensures
            word == self.spec_encode(),
    {
        match self {
            ChunkCell::Empty(a) => {
                let payload = *a & CELL_PAYLOAD_MASK;
                proof {
                    lemma_word_bits(*a);
                }
                payload
            },
            ChunkCell::UniformFull(t) => {
                let ty = (t.0 as u32) & 0x7FFF;
                proof {
                    lemma_word_bits(t.0 as u32);
                    lemma_tag_word(1, ty);
                }
                let word = CELL_UNIFORM_FULL | ty;
                word
            },
            ChunkCell::Mixed(p) => {
                let ptr = *p & CELL_PAYLOAD_MASK;
                proof {
                    lemma_word_bits(*p);
                    lemma_tag_word(2, ptr);
                }
                let word = CELL_HAS_CHILDREN | ptr;
                word
            },
        }
    }
}

impl BlockCell {
    /// The cell a block word encodes.
    pub open spec fn spec_decode(raw: u32) -> BlockCell {
        if raw >= 0x8000_0000 {
            BlockCell::Mixed((raw % 0x4000_0000) as u32)
        } else if raw >= 0x4000_0000 {
            BlockCell::UniformFull(VoxelTypeId((raw % 0x8000) as u16))
        } else {
            BlockCell::Empty((raw % 0x4000_0000) as u32)
        }
    }

    /// Decode a block word.
    pub fn decode(raw: u32) -> (b: BlockCell)
        ensures
            b == BlockCell::spec_decode(raw),
    {
        proof {
            lemma_word_bits(raw);
        }
        if raw & CELL_HAS_CHILDREN != 0 {
            BlockCell::Mixed(raw & CELL_PAYLOAD_MASK)
        } else if raw & CELL_UNIFORM_FULL != 0 {
            BlockCell::UniformFull(VoxelTypeId((raw & 0x7FFF) as u16))
        } else {
            BlockCell::Empty(raw & CELL_PAYLOAD_MASK)
        }
    }
}

impl BlockCell {
    /// The word a block cell is stored as, laid out as a chunk word.
    pub open spec fn spec_encode(self) -> u32 {
        match self {
            BlockCell::Empty(a) => (a % 0x4000_0000) as u32,
            BlockCell::UniformFull(t) => (0x4000_0000 + t.0 % 0x8000) as u32,
            BlockCell::Mixed(p) => (0x8000_0000 + p % 0x4000_0000) as u32,
        }
    }

    /// Encode a block cell as its word.
    pub fn encode(&self) -> (word: u32)
        ensures
            word == self.spec_encode(),
    {
        match self {
            BlockCell::Empty(a) => {
                let payload = *a & CELL_PAYLOAD_MASK;
                proof {
                    lemma_word_bits(*a);
                }
                payload
            },
            BlockCell::UniformFull(t) => {
                let ty = (t.0 as u32) & 0x7FFF;
                proof {
                    lemma_word_bits(t.0 as u32);
                    lemma_tag_word(1, ty);
                }
                let word = CELL_UNIFORM_FULL | ty;
                word
            },
            BlockCell::Mixed(p) => {
                let ptr = *p & CELL_PAYLOAD_MASK;
                proof {
                    lemma_word_bits(*p);
                    lemma_tag_word(2, ptr);
                }
                let word = CELL_HAS_CHILDREN | ptr;
                word
            },
        }
    }
}

/// The kind code of a chunk cell: 0 empty, 1 uniform full, 2 mixed.
pub open spec fn spec_chunk_kind(c: ChunkCell) -> u8 {
    match c {
        ChunkCell::Empty(_) => 0,
        ChunkCell::UniformFull(_) => 1,
        ChunkCell::Mixed(_) => 2,
    }
}

/// The kind code of a block cell: 0 empty, 1 uniform full, 2 mixed.
pub open spec fn spec_block_kind(b: BlockCell) -> u8 {
    match b {
        BlockCell::Empty(_) => 0,
        BlockCell::UniformFull(_) => 1,
        BlockCell::Mixed(_) => 2,
    }
}

/// The kind code of a chunk cell.
pub fn chunk_kind(c: &ChunkCell) -> (k: u8)
    ensures
        k == spec_chunk_kind(*c),
{
    match c {
        ChunkCell::Empty(_) => 0,
        ChunkCell::UniformFull(_) => 1,
        ChunkCell::Mixed(_) => 2,
    }
}

/// The kind code of a block cell.
pub fn block_kind(b: &BlockCell) -> (k: u8)
    ensures
        k == spec_block_kind(*b),
{
    match b {
        BlockCell::Empty(_) => 0,
        BlockCell::UniformFull(_) => 1,
        BlockCell::Mixed(_) => 2,
    }
}

/// Decoding a word and taking its kind reads the word's top two bits.
pub proof fn lemma_decode_kind(raw: u32)
    ensures
        spec_chunk_kind(ChunkCell::spec_decode(raw)) == word_kind(raw),
        spec_block_kind(BlockCell::spec_decode(raw)) == word_kind(raw),
{
}

/// Whether a chunk or block cell's payload fits its field: a 30-bit AADF
/// payload or pointer, a 15-bit type.
pub open spec fn chunk_cell_fits(c: ChunkCell) -> bool {
    match c {
        ChunkCell::Empty(a) => a < 0x4000_0000,
        ChunkCell::UniformFull(t) => t.0 < 0x8000,
        ChunkCell::Mixed(p) => p < 0x4000_0000,
    }
}

/// Whether a block cell's payload fits its field.
pub open spec fn block_cell_fits(b: BlockCell) -> bool {
    match b {
        BlockCell::Empty(a) => a < 0x4000_0000,
        BlockCell::UniformFull(t) => t.0 < 0x8000,
        BlockCell::Mixed(p) => p < 0x4000_0000,
    }
}

/// Encoding then decoding gives back every cell whose payload fits, and
/// decoding a word always gives such a cell, which encodes to a word that
/// decodes the same way: only the bits no cell reads are dropped.
pub proof fn lemma_cell_word_round_trip(c: ChunkCell, b: BlockCell, w: u32)
    ensures
        chunk_cell_fits(c) ==> ChunkCell::spec_decode(c.spec_encode()) == c,
        block_cell_fits(b) ==> BlockCell::spec_decode(b.spec_encode()) == b,
        chunk_cell_fits(ChunkCell::spec_decode(w)),
        block_cell_fits(BlockCell::spec_decode(w)),
        ChunkCell::spec_decode(ChunkCell::spec_decode(w).spec_encode()) == ChunkCell::spec_decode(w),
        BlockCell::spec_decode(BlockCell::spec_decode(w).spec_encode()) == BlockCell::spec_decode(w),
{
}

} // verus!

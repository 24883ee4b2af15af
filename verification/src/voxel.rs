//! Voxel type ids and the 16-bit voxel cell encoding.

use vstd::prelude::*;

use crate::bits::lemma_half_bits;

verus! {

/// Bit 15 of a voxel cell: the voxel is full.
pub const VOXEL_FULL_FLAG: u16 = 0x8000;

/// Low 15 bits of a voxel cell: the voxel type of a full voxel.
pub const VOXEL_PAYLOAD_MASK: u16 = 0x7FFF;

/// A voxel type id; id 0 is the empty voxel.
#[derive(Clone, Copy, Debug, PartialEq, Eq, Structural)]
pub struct VoxelTypeId(pub u16);

impl VoxelTypeId {
    /// The empty voxel.
    pub fn empty() -> (ty: VoxelTypeId)
        ensures
            ty.0 == 0,
    {
        VoxelTypeId(0)
    }

    /// Whether this is the empty voxel.
    pub fn is_empty(&self) -> (b: bool)
        ensures
            b == (self.0 == 0),
    {
        self.0 == 0
    }

    /// The raw 16-bit id.
    pub fn raw(&self) -> (r: u16)
        ensures
            r == self.0,
    {
        self.0
    }
}

/// The 16-bit cell a voxel of type `ty` is stored as: 0 for the empty voxel,
/// otherwise bit 15 set and the low 15 bits of the type.
pub open spec fn spec_voxel_cell(ty: VoxelTypeId) -> u16 {
    if ty.0 == 0 {
        0
    } else {
        (0x8000 + ty.0 % 0x8000) as u16
    }
}

/// The voxel type a 16-bit cell decodes to: a cell with bit 15 set holds its
/// low 15 bits as type, any other cell is empty.
pub open spec fn spec_decode_cell(cell: u16) -> VoxelTypeId {
    if cell >= 0x8000 {
        VoxelTypeId((cell - 0x8000) as u16)
    } else {
        VoxelTypeId(0)
    }
}

/// Encode a voxel type as its 16-bit cell.
pub fn voxel_cell(ty: VoxelTypeId) -> (cell: u16)
    ensures
        cell == spec_voxel_cell(ty),
{
    if ty.is_empty() {
        0u16
    } else {
        let raw = ty.raw();
        proof {
            lemma_half_bits(raw);
        }
        VOXEL_FULL_FLAG | (raw & VOXEL_PAYLOAD_MASK)
    }
}

/// Decode a 16-bit cell back to its voxel type.
pub fn decode_cell(cell: u16) -> (ty: VoxelTypeId)
    ensures
        ty == spec_decode_cell(cell),
{
    let ty_bits = cell & VOXEL_PAYLOAD_MASK;
    let full = cell & VOXEL_FULL_FLAG != 0;
    proof {
        lemma_half_bits(cell);
    }
    if full {
        VoxelTypeId(ty_bits)
    } else {
        VoxelTypeId::empty()
    }
}

/// Decoding the cell of a voxel type gives the type back whenever the type
/// fits in the 15 payload bits.
pub proof fn lemma_cell_round_trip(ty: VoxelTypeId)
    requires
        ty.0 < 0x8000,
    ensures
        spec_decode_cell(spec_voxel_cell(ty)) == ty,
{
}

/// A voxel's cell is 0 exactly for the empty type; any other type gets bit
/// 15 set and keeps its low 15 bits. Decoding reads a cell with bit 15 clear
/// as empty and one with it set as its low 15 bits.
pub proof fn lemma_cell_bits(ty: VoxelTypeId, cell: u16)
    ensures
        (spec_voxel_cell(ty) == 0) <==> ty.0 == 0,
        ty.0 != 0 ==> spec_voxel_cell(ty) >= 0x8000 && spec_voxel_cell(ty) % 0x8000 == ty.0 % 0x8000,
        cell < 0x8000 ==> spec_decode_cell(cell).0 == 0,
        cell >= 0x8000 ==> spec_decode_cell(cell).0 == cell % 0x8000,
{
}

} // verus!

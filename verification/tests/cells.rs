use naadf::cell::{block_kind, chunk_kind, BlockCell, ChunkCell};
use naadf::voxel::{decode_cell, voxel_cell, VoxelTypeId};

#[test]
fn voxel_cell_encodes_full_flag_and_type() {
    assert_eq!(voxel_cell(VoxelTypeId(0)), 0);
    assert_eq!(voxel_cell(VoxelTypeId(7)), 0x8007);
    assert_eq!(voxel_cell(VoxelTypeId(0x7FFF)), 0xFFFF);
    // Only the low 15 bits of the type are kept.
    assert_eq!(voxel_cell(VoxelTypeId(0x8005)), 0x8005);
}

#[test]
fn decode_cell_reads_type_of_full_cells_only() {
    assert_eq!(decode_cell(0), VoxelTypeId(0));
    assert_eq!(decode_cell(0x8007), VoxelTypeId(7));
    // Bit 15 clear: an empty cell whatever its low bits.
    assert_eq!(decode_cell(0x0007), VoxelTypeId(0));
}

#[test]
fn cell_round_trip_for_every_small_type() {
    for t in [0u16, 1, 2, 9, 0x42, 0x1234, 0x7FFF] {
        assert_eq!(decode_cell(voxel_cell(VoxelTypeId(t))), VoxelTypeId(t));
    }
}

#[test]
fn voxel_type_id_helpers() {
    assert!(VoxelTypeId::empty().is_empty());
    assert!(!VoxelTypeId(3).is_empty());
    assert_eq!(VoxelTypeId(3).raw(), 3);
}

#[test]
fn chunk_cell_decodes_each_kind() {
    assert_eq!(ChunkCell::decode(0x8000_0040), ChunkCell::Mixed(0x40));
    assert_eq!(ChunkCell::decode(0xC000_0040), ChunkCell::Mixed(0x40));
    assert_eq!(ChunkCell::decode(0x4000_0009), ChunkCell::UniformFull(VoxelTypeId(9)));
    assert_eq!(ChunkCell::decode(0x4001_8009), ChunkCell::UniformFull(VoxelTypeId(9)));
    assert_eq!(ChunkCell::decode(0x0123_4567), ChunkCell::Empty(0x0123_4567));
    assert_eq!(chunk_kind(&ChunkCell::decode(0)), 0);
    assert_eq!(chunk_kind(&ChunkCell::decode(0x4000_0001)), 1);
    assert_eq!(chunk_kind(&ChunkCell::decode(0x8000_0000)), 2);
}

#[test]
fn block_cell_decodes_each_kind() {
    assert_eq!(BlockCell::decode(0x8000_0020), BlockCell::Mixed(0x20));
    assert_eq!(BlockCell::decode(0x4000_7FFF), BlockCell::UniformFull(VoxelTypeId(0x7FFF)));
    assert_eq!(BlockCell::decode(0x3FFF_FFFF), BlockCell::Empty(0x3FFF_FFFF));
    assert_eq!(block_kind(&BlockCell::decode(0x3FFF_FFFF)), 0);
    assert_eq!(block_kind(&BlockCell::decode(0x7FFF_FFFF)), 1);
    assert_eq!(block_kind(&BlockCell::decode(0xFFFF_FFFF)), 2);
}

#[test]
fn cells_encode_to_the_words_they_decode_from() {
    assert_eq!(ChunkCell::Mixed(0x40).encode(), 0x8000_0040);
    assert_eq!(ChunkCell::UniformFull(VoxelTypeId(9)).encode(), 0x4000_0009);
    assert_eq!(ChunkCell::Empty(0x0123_4567).encode(), 0x0123_4567);
    assert_eq!(BlockCell::Mixed(0x20).encode(), 0x8000_0020);
    assert_eq!(BlockCell::UniformFull(VoxelTypeId(0x7FFF)).encode(), 0x4000_7FFF);
    for w in [0u32, 1, 0x3FFF_FFFF, 0x4000_0001, 0x4000_7FFF, 0x8000_0000, 0xBFFF_FFFF] {
        assert_eq!(ChunkCell::decode(w).encode(), w);
        assert_eq!(BlockCell::decode(w).encode(), w);
    }
}

#[test]
fn encoding_drops_bits_no_cell_reads() {
    // Bit 30 of a mixed word and bits 15..30 of a uniform word carry nothing.
    assert_eq!(ChunkCell::decode(0xC000_0005).encode(), 0x8000_0005);
    assert_eq!(ChunkCell::decode(0x4001_8009).encode(), 0x4000_0009);
    assert_eq!(ChunkCell::UniformFull(VoxelTypeId(0x8009)).encode(), 0x4000_0009);
    assert_eq!(ChunkCell::Mixed(0x4000_0001).encode(), 0x8000_0001);
}

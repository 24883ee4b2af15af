use naadf::segment::{
    build_segment_voxel_buffer, build_segment_voxel_buffer_for_region,
    build_segment_voxel_buffer_for_world, decode_segment_voxels_into_volume,
    decode_segment_voxels_to_volume, voxel_at_block_local,
};
use naadf::volume::DenseVolume;
use naadf::voxel::VoxelTypeId;

/// Half-word index of voxel `(x, y, z)` in a segment buffer over a box `sx`
/// by `sy` chunks per layer.
fn half_index(sx: usize, sy: usize, x: usize, y: usize, z: usize) -> usize {
    let chunk = x / 16 + (y / 16) * sx + (z / 16) * sx * sy;
    let (lx, ly, lz) = (x % 16, y % 16, z % 16);
    let block = lx / 4 + (ly / 4) * 4 + (lz / 4) * 16;
    let voxel = lx % 4 + (ly % 4) * 4 + (lz % 4) * 16;
    chunk * 4096 + block * 64 + voxel
}

fn half_at(buf: &[u32], h: usize) -> u16 {
    let w = buf[h / 2];
    if h % 2 == 0 {
        (w & 0xFFFF) as u16
    } else {
        (w >> 16) as u16
    }
}

fn same_voxels(a: &DenseVolume, b: &DenseVolume) -> bool {
    a.size_in_chunks == b.size_in_chunks && a.voxels == b.voxels
}

#[test]
fn dense_volume_set_and_read() {
    let mut v = DenseVolume::empty([1, 2, 1]);
    assert_eq!(v.size_in_voxels(), [16, 32, 16]);
    assert_eq!(v.voxels.len(), 16 * 32 * 16);
    v.set([3, 20, 9], VoxelTypeId(4));
    assert_eq!(v.voxel_at([3, 20, 9]), VoxelTypeId(4));
    assert_eq!(v.voxel_at([3, 20, 8]), VoxelTypeId(0));
    // x-fastest storage.
    assert_eq!(v.voxels[3 + 20 * 16 + 9 * 16 * 32], VoxelTypeId(4));
}

#[test]
fn segment_buffer_places_each_voxel_at_its_half_word() {
    let mut v = DenseVolume::empty([1, 1, 1]);
    v.set([3, 5, 7], VoxelTypeId(9));
    v.set([4, 5, 7], VoxelTypeId(2));
    let buf = build_segment_voxel_buffer(&v, 1);
    assert_eq!(buf.len(), 2048);
    let h9 = half_index(1, 1, 3, 5, 7);
    let h2 = half_index(1, 1, 4, 5, 7);
    assert_eq!(half_at(&buf, h9), 0x8009);
    assert_eq!(half_at(&buf, h2), 0x8002);
    let full = buf.iter().filter(|w| **w != 0).count();
    assert_eq!(full, 2);
    // Voxel (3,5,7): block (0,1,1) = 20, voxel (3,1,3) = 55 → half 1335,
    // the high half of word 667.
    assert_eq!(h9, 1335);
    assert_eq!(buf[667], 0x8009_0000);
}

#[test]
fn segment_buffer_pads_voxels_outside_the_volume_with_zero() {
    let mut v = DenseVolume::empty([1, 1, 1]);
    v.set([15, 15, 15], VoxelTypeId(1));
    let buf = build_segment_voxel_buffer(&v, 2);
    assert_eq!(buf.len(), 8 * 2048);
    assert_eq!(half_at(&buf, half_index(2, 2, 15, 15, 15)), 0x8001);
    assert_eq!(buf.iter().filter(|w| **w != 0).count(), 1);
}

#[test]
fn region_buffer_reads_from_the_chunk_offset() {
    let mut v = DenseVolume::empty([2, 1, 1]);
    v.set([20, 1, 2], VoxelTypeId(5));
    v.set([2, 1, 2], VoxelTypeId(6));
    let buf = build_segment_voxel_buffer_for_region(&v, [1, 0, 0], 1);
    assert_eq!(buf.len(), 2048);
    assert_eq!(half_at(&buf, half_index(1, 1, 4, 1, 2)), 0x8005);
    assert_eq!(buf.iter().filter(|w| **w != 0).count(), 1);
    let origin = build_segment_voxel_buffer_for_region(&v, [0, 0, 0], 1);
    assert_eq!(origin, build_segment_voxel_buffer(&v, 1));
}

#[test]
fn world_buffer_covers_exactly_the_world_chunks() {
    let mut v = DenseVolume::empty([2, 1, 1]);
    v.set([17, 0, 0], VoxelTypeId(3));
    let buf = build_segment_voxel_buffer_for_world(&v, 2);
    // Chunks (0,0,0) and (1,0,0) of a 2-wide segment.
    assert_eq!(buf.len(), 2 * 2048);
    assert_eq!(half_at(&buf, half_index(2, 2, 17, 0, 0)), 0x8003);
    let full = build_segment_voxel_buffer(&v, 2);
    assert_eq!(&full[..buf.len()], &buf[..]);
}

#[test]
fn segment_round_trip_gives_the_volume_back() {
    let mut v = DenseVolume::empty([1, 1, 1]);
    for (i, p) in [[0u32, 0, 0], [15, 15, 15], [7, 3, 11], [1, 14, 2]].iter().enumerate() {
        v.set(*p, VoxelTypeId(i as u16 + 1));
    }
    let buf = build_segment_voxel_buffer(&v, 1);
    let back = decode_segment_voxels_to_volume(&buf, [1, 1, 1]);
    assert!(same_voxels(&v, &back));
}

#[test]
fn decode_into_volume_writes_only_the_group() {
    let mut src = DenseVolume::empty([1, 1, 1]);
    src.set([2, 3, 4], VoxelTypeId(8));
    let buf = build_segment_voxel_buffer(&src, 1);
    let mut dst = DenseVolume::empty([2, 1, 1]);
    dst.set([0, 0, 0], VoxelTypeId(1));
    dst.set([16, 0, 0], VoxelTypeId(1));
    decode_segment_voxels_into_volume(&buf, [1, 0, 0], [1, 1, 1], &mut dst);
    assert_eq!(dst.voxel_at([18, 3, 4]), VoxelTypeId(8));
    // The group's other voxels are overwritten with the decoded (empty) ones.
    assert_eq!(dst.voxel_at([16, 0, 0]), VoxelTypeId(0));
    // Outside the group nothing changes.
    assert_eq!(dst.voxel_at([0, 0, 0]), VoxelTypeId(1));
    assert_eq!(dst.voxel_at([2, 3, 4]), VoxelTypeId(0));
}

#[test]
fn region_round_trip_through_a_larger_world() {
    let mut v = DenseVolume::empty([2, 2, 1]);
    v.set([17, 18, 3], VoxelTypeId(11));
    v.set([31, 31, 15], VoxelTypeId(12));
    let buf = build_segment_voxel_buffer_for_region(&v, [1, 1, 0], 1);
    let mut w = DenseVolume::empty([2, 2, 1]);
    decode_segment_voxels_into_volume(&buf, [1, 1, 0], [1, 1, 1], &mut w);
    assert_eq!(w.voxel_at([17, 18, 3]), VoxelTypeId(11));
    assert_eq!(w.voxel_at([31, 31, 15]), VoxelTypeId(12));
}

#[test]
fn voxel_at_block_local_reads_the_cell() {
    let mut v = DenseVolume::empty([2, 1, 1]);
    // Chunk (1,0,0), block (0,1,0), voxel index 5 = (1,1,0) → (17, 5, 0).
    v.set([17, 5, 0], VoxelTypeId(6));
    assert_eq!(voxel_at_block_local(&v, [1, 0, 0], [0, 1, 0], 5), 0x8006);
    assert_eq!(voxel_at_block_local(&v, [1, 0, 0], [0, 1, 0], 4), 0);
    // Outside the volume the cell is empty.
    assert_eq!(voxel_at_block_local(&v, [2, 0, 0], [0, 0, 0], 0), 0);
}

#[test]
fn positions_past_the_volume_read_as_empty_without_wrapping() {
    let mut v = DenseVolume::empty([1, 1, 1]);
    v.set([0, 0, 0], VoxelTypeId(9));
    assert_eq!(voxel_at_block_local(&v, [0, 0, 0], [0, 0, 0], 0), 0x8009);
    // Chunk 2^28 along x is voxel 2^32: past the volume, not voxel 0.
    assert_eq!(voxel_at_block_local(&v, [0x1000_0000, 0, 0], [0, 0, 0], 0), 0);
    assert_eq!(voxel_at_block_local(&v, [1, 0, 0], [0, 0, 0], 0), 0);
}

use naadf::gpu_types::{
    GpuBoundQueueInfo, GpuConstructionParams, GpuHashValueSlot, GpuVoxelType, VoxelType,
    MATERIAL_BASE_DIFFUSE, MATERIAL_BASE_EMISSIVE, MATERIAL_LAYER_METALLIC_MIRROR,
    MATERIAL_LAYER_NONE,
};
use naadf::half::f16_bits;

/// Byte offset of the word holding `value` in an uploaded record.
fn byte_offset(words: &[u32], value: u32) -> usize {
    words.iter().position(|w| *w == value).expect("field value not found") * 4
}

/// A construction uniform whose every field holds a distinct value: field
/// `k` (in declaration order) holds `k + 1`.
fn numbered_params() -> GpuConstructionParams {
    GpuConstructionParams {
        size_in_chunks: [1, 2, 3],
        _pad0: 4,
        group_size_in_groups: [5, 6, 7],
        _pad1: 8,
        bound_group_queue_max_size: 9,
        hash_map_size: 10,
        segment_size_in_chunks: 11,
        max_group_bound_dispatch: 12,
        chunk_offset: [13, 14, 15],
        _pad2: 16,
        frame_index: 17,
        changed_chunk_count: 18,
        changed_block_count: 19,
        changed_voxel_count: 20,
    }
}

fn bits3(v: [f32; 3]) -> [u32; 3] {
    [v[0].to_bits(), v[1].to_bits(), v[2].to_bits()]
}

#[test]
fn f16_round_trips_simple_values() {
    assert_eq!(f16_bits(0.0f32.to_bits()), 0x0000);
    assert_eq!(f16_bits(1.0f32.to_bits()), 0x3C00);
    assert_eq!(f16_bits(0.5f32.to_bits()), 0x3800);
    assert_eq!(f16_bits(2.0f32.to_bits()), 0x4000);
}

#[test]
fn gpu_voxel_type_packs_base_layer_roughness() {
    let ty = VoxelType {
        material_base: MATERIAL_BASE_EMISSIVE,
        material_layer: MATERIAL_LAYER_METALLIC_MIRROR,
        roughness: 1.0f32.to_bits(),
        color_base: bits3([1.0, 0.0, 0.0]),
        color_layered: bits3([0.0, 1.0, 0.0]),
    };
    let g = GpuVoxelType::from_voxel_type(&ty);
    assert_eq!(g.data[0] & 0xFFFF, 13);
    assert_eq!(g.data[0] >> 16, 0x3C00);
    assert_eq!(g.data[1] & 0xFFFF, 0x3C00);
    assert_eq!(g.data[1] >> 16, 0x0000);
}

#[test]
fn construction_params_layout() {
    let w = numbered_params().to_words();
    assert_eq!(std::mem::size_of::<GpuConstructionParams>(), 80);
    assert_eq!(w.len() * 4, 80);
    assert_eq!(byte_offset(&w, 1), 0);
    assert_eq!(byte_offset(&w, 5), 16);
    assert_eq!(byte_offset(&w, 9), 32);
    assert_eq!(byte_offset(&w, 10), 36);
    assert_eq!(byte_offset(&w, 11), 40);
    assert_eq!(byte_offset(&w, 12), 44);
    assert_eq!(byte_offset(&w, 13), 48);
    assert_eq!(byte_offset(&w, 17), 64);
    assert_eq!(byte_offset(&w, 18), 68);
    assert_eq!(byte_offset(&w, 19), 72);
    assert_eq!(byte_offset(&w, 20), 76);
    assert_eq!(byte_offset(&w, 1) % 16, 0);
    assert_eq!(byte_offset(&w, 5) % 16, 0);
    assert_eq!(byte_offset(&w, 13) % 16, 0);
}

#[test]
fn hash_value_slot_layout() {
    let slot = GpuHashValueSlot { voxel_pointer: 1, use_count: 2, hash_raw: 3, _pad: 4 };
    let w = slot.to_words();
    assert_eq!(std::mem::size_of::<GpuHashValueSlot>(), 16);
    assert_eq!(byte_offset(&w, 1), 0);
    assert_eq!(byte_offset(&w, 2), 4);
    assert_eq!(byte_offset(&w, 3), 8);
    assert_eq!(byte_offset(&w, 4), 12);
}

#[test]
fn bound_queue_info_layout() {
    let info = GpuBoundQueueInfo { start: 1, size: 2 };
    let w = info.to_words();
    assert_eq!(std::mem::size_of::<GpuBoundQueueInfo>(), 8);
    assert_eq!(byte_offset(&w, 1), 0);
    assert_eq!(byte_offset(&w, 2), 4);
}

#[test]
fn construction_params_words_follow_field_order() {
    let w = numbered_params().to_words();
    let expected: Vec<u32> = (1..=20).collect();
    assert_eq!(w.to_vec(), expected);
}

#[test]
fn f16_converts_edge_values() {
    // Largest finite half.
    assert_eq!(f16_bits(65504.0f32.to_bits()), 0x7BFF);
    // Past the half range: infinity.
    assert_eq!(f16_bits(65536.0f32.to_bits()), 0x7C00);
    assert_eq!(f16_bits(f32::INFINITY.to_bits()), 0x7C00);
    assert_eq!(f16_bits(f32::NEG_INFINITY.to_bits()), 0xFC00);
    // A quiet NaN keeps a mantissa bit.
    assert_eq!(f16_bits(f32::NAN.to_bits()), 0x7E00);
    // Negative values set the sign bit.
    assert_eq!(f16_bits((-1.0f32).to_bits()), 0xBC00);
    assert_eq!(f16_bits((-0.0f32).to_bits()), 0x8000);
    // Smallest subnormal half, and a value that underflows to zero.
    assert_eq!(f16_bits(2.0f32.powi(-24).to_bits()), 0x0001);
    assert_eq!(f16_bits(2.0f32.powi(-26).to_bits()), 0x0000);
    // Round to nearest: below, above and exactly at half a unit.
    assert_eq!(f16_bits(0x3F80_0FFF), 0x3C00);
    assert_eq!(f16_bits(0x3F80_1001), 0x3C01);
    // Ties go to the even neighbour.
    assert_eq!(f16_bits(0x3F80_1000), 0x3C00);
    assert_eq!(f16_bits(0x3F80_3000), 0x3C02);
    // A tie above the largest finite half rounds to infinity.
    assert_eq!(f16_bits(65520.0f32.to_bits()), 0x7C00);
    // Subnormal ties: half the smallest unit rounds to zero, one and a half
    // units round to two.
    assert_eq!(f16_bits(2.0f32.powi(-25).to_bits()), 0x0000);
    assert_eq!(f16_bits((3.0f32 * 2.0f32.powi(-25)).to_bits()), 0x0002);
    assert_eq!(f16_bits((5.0f32 * 2.0f32.powi(-25)).to_bits()), 0x0002);
}

#[test]
fn f16_negation_flips_only_the_sign() {
    for x in [0.5f32, 1.0, 3.25, 1.0e-6, 70000.0, 1.0e-9] {
        let pos = f16_bits(x.to_bits());
        let neg = f16_bits((-x).to_bits());
        assert_eq!(pos ^ 0x8000, neg, "value {x}");
    }
}

#[test]
fn gpu_voxel_type_packs_every_channel() {
    let ty = VoxelType {
        material_base: MATERIAL_BASE_DIFFUSE,
        material_layer: MATERIAL_LAYER_NONE,
        roughness: 0.5f32.to_bits(),
        color_base: bits3([0.5, 2.0, 1.0]),
        color_layered: bits3([2.0, 0.5, 1.0]),
    };
    let g = GpuVoxelType::from_voxel_type(&ty);
    assert_eq!(g.data[0], 0x3800_0000);
    assert_eq!(g.data[1], 0x4000_3800);
    assert_eq!(g.data[2], 0x4000_3C00);
    assert_eq!(g.data[3], 0x3C00_3800);
}

#[test]
fn gpu_voxel_type_keeps_two_bits_of_each_material_code() {
    let ty = VoxelType {
        material_base: 5,
        material_layer: 6,
        roughness: 0,
        color_base: [0; 3],
        color_layered: [0; 3],
    };
    let g = GpuVoxelType::from_voxel_type(&ty);
    // base 5 & 3 = 1, layer 6 & 3 = 2 → 1 | 2 << 2 = 9.
    assert_eq!(g.data[0], 9);
}

/// The binary32 value of a binary16 pattern.
fn half_to_f32(h: u16) -> f32 {
    let sign = if h & 0x8000 != 0 { -1.0f32 } else { 1.0 };
    let exp = ((h >> 10) & 0x1F) as i32;
    let mant = (h & 0x3FF) as f32;
    let magnitude = if exp == 0 {
        mant * 2.0f32.powi(-24)
    } else if exp == 31 {
        f32::INFINITY
    } else {
        (1.0 + mant / 1024.0) * 2.0f32.powi(exp - 15)
    };
    sign * magnitude
}

#[test]
fn every_non_nan_half_round_trips_through_f32() {
    for h in 0u16..=0xFFFF {
        let is_nan = (h & 0x7C00) == 0x7C00 && (h & 0x3FF) != 0;
        if is_nan {
            assert_eq!(f16_bits(f32::from_bits(0x7F80_0000 | ((h as u32 & 0x3FF) << 13)).to_bits()) & 0x7FFF, 0x7E00);
            continue;
        }
        assert_eq!(f16_bits(half_to_f32(h).to_bits()), h, "half {h:#06x}");
    }
}

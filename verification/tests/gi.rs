use naadf::counters::{
    accum_index_of, bucket_grid_of, rand_salts_of, taa_index_of, UVec2, CAMERA_HISTORY_DEPTH,
};

#[test]
fn accum_index_walks_the_ring() {
    assert_eq!(accum_index_of(0, 128), 127);
    assert_eq!(accum_index_of(1, 128), 126);
    assert_eq!(accum_index_of(127, 128), 0);
    assert_eq!(accum_index_of(128, 128), 127);
    assert_eq!(accum_index_of(129, 128), 126);
}

#[test]
fn rand_salts_are_two_distinct_per_frame_values() {
    for frame in [0u32, 1, 2, 100, 12345] {
        let (a, b) = rand_salts_of(frame);
        assert_ne!(a, b, "the two salts must never collide (frame {frame})");
        assert_eq!(a, frame, "the first salt is the raw frame counter");
    }
    assert_ne!(rand_salts_of(0), rand_salts_of(1));
}

#[test]
fn bucket_grid_ceils_to_eights() {
    assert_eq!(bucket_grid_of(UVec2::new(8, 8)), (UVec2::new(1, 1), 1));
    assert_eq!(bucket_grid_of(UVec2::new(9, 8)), (UVec2::new(2, 1), 2));
    assert_eq!(bucket_grid_of(UVec2::new(1920, 1080)), (UVec2::new(240, 135), 240 * 135));
    assert_eq!(bucket_grid_of(UVec2::new(1921, 1081)), (UVec2::new(241, 136), 241 * 136));
}

#[test]
fn rand_salt_is_frame_xor_golden_ratio() {
    assert_eq!(rand_salts_of(0), (0, 0x9E37_79B9));
    assert_eq!(rand_salts_of(0x9E37_79B9), (0x9E37_79B9, 0));
    assert_eq!(rand_salts_of(u32::MAX), (u32::MAX, !0x9E37_79B9u32));
}

#[test]
fn taa_index_matches_accum_index_with_history_depth() {
    for frame in [0u32, 1, 5, 127, 128, 129, 1000, u32::MAX] {
        assert_eq!(taa_index_of(frame), accum_index_of(frame, CAMERA_HISTORY_DEPTH as u32));
    }
    assert_eq!(taa_index_of(0), 127);
    assert_eq!(taa_index_of(u32::MAX), 0);
}

#[test]
fn accum_index_steps_down_and_wraps() {
    let max = 5u32;
    for frame in 0u32..20 {
        let cur = accum_index_of(frame, max);
        let next = accum_index_of(frame + 1, max);
        assert!(cur < max);
        assert_eq!(next, if cur == 0 { max - 1 } else { cur - 1 });
    }
    assert_eq!(accum_index_of(7, 1), 0);
}

#[test]
fn bucket_grid_of_empty_viewport_is_empty() {
    assert_eq!(bucket_grid_of(UVec2::new(0, 0)), (UVec2::new(0, 0), 0));
    assert_eq!(bucket_grid_of(UVec2::new(1, 1)), (UVec2::new(1, 1), 1));
}

#[test]
fn bucket_grid_covers_each_viewport_exactly() {
    for w in [1u32, 7, 8, 9, 15, 16, 17, 1000, 1921] {
        let (grid, count) = bucket_grid_of(UVec2::new(w, w + 3));
        assert!(8 * grid.x >= w && 8 * (grid.x - 1) < w);
        assert!(8 * grid.y >= w + 3 && 8 * (grid.y - 1) < w + 3);
        assert_eq!(count, grid.x * grid.y);
    }
}

#[test]
fn salts_differ_within_and_across_frames() {
    for a in 0u32..200 {
        let (s0, s1) = rand_salts_of(a);
        assert_ne!(s0, s1);
        for b in (a + 1)..200 {
            assert_ne!(rand_salts_of(b).1, s1);
        }
    }
}

use colorify::block::{
    contains_str, create_block_collection, ordered_threshold, pack_rgba, position_hash,
    should_replace, voxel_key, BlockCollection, FallableBehaviour,
};

#[test]
fn collection_and_cache() {
    let mut c = BlockCollection::new(vec![0, 2, 5]);
    assert!(!c.is_empty());
    assert_eq!(c.blocks(), &vec![0, 2, 5]);
    assert_eq!(c.cached(7), None);
    c.remember(7, 2);
    assert_eq!(c.cached(7), Some(2));
    c.remember(7, 5);
    assert_eq!(c.cached(7), Some(5));
    assert_eq!(c.cached(8), None);
    assert!(BlockCollection::new(vec![]).is_empty());
}

#[test]
fn collections_leave_out_excluded_names() {
    let ids = vec!["stone".to_string(), "gravel".to_string(), "cauldron".to_string(), "dirt".to_string()];
    assert_eq!(create_block_collection(&ids, &["cauldron"]), vec![0, 1, 3]);
    assert_eq!(create_block_collection(&ids, &["gravel", "cauldron"]), vec![0, 3]);
    assert_eq!(create_block_collection(&ids, &[]), vec![0, 1, 2, 3]);
    assert!(contains_str(&["a", "b"], "b"));
    assert!(!contains_str(&["a", "b"], "c"));
}

#[test]
fn ordered_thresholds() {
    assert_eq!(ordered_threshold(0, 0, 0), 0);
    assert_eq!(ordered_threshold(1, 0, 0), 16);
    assert_eq!(ordered_threshold(-1, 0, 0), 16);
    assert_eq!(ordered_threshold(0, 1, 0), 48);
    assert_eq!(ordered_threshold(0, 0, 1), 24);
    assert_eq!(ordered_threshold(7, 7, 7), 63);
    assert_eq!(ordered_threshold(-5, 4, 0), 16);
}

#[test]
fn position_hash_matches_the_formula() {
    fn reference(bits: [u32; 3]) -> u32 {
        let mut h = 0x811C_9DC5u32;
        for b in bits {
            h = (h ^ b).wrapping_mul(0x0100_0193);
        }
        h = (h ^ (h >> 16)).wrapping_mul(0x85EB_CA6B);
        h ^= h >> 13;
        h & 0xFF_FFFF
    }
    for bits in [[0u32, 0, 0], [1.5f32.to_bits(), (-2.0f32).to_bits(), 0], [7, 8, 9]] {
        assert_eq!(position_hash(bits[0], bits[1], bits[2]), reference(bits));
    }
    assert!(position_hash(1, 2, 3) < 0x100_0000);
}

#[test]
fn voxel_keys() {
    assert_eq!(voxel_key(0, 0, 0), 0);
    assert_eq!(voxel_key(1, 2, 3), (1u64 << 42) | (2 << 21) | 3);
    assert_eq!(voxel_key(-1, 0, 0), 0x1F_FFFFu64 << 42);
    assert_ne!(voxel_key(-1, 0, 0), voxel_key(1, 0, 0));
}

#[test]
fn rgba_keys() {
    assert_eq!(pack_rgba(1, 2, 3, 4), 0x0102_0304);
    assert_eq!(pack_rgba(255, 0, 0, 255), 0xFF00_00FF);
}

#[test]
fn falling_blocks() {
    assert!(should_replace(FallableBehaviour::ReplaceFallable, true, true));
    assert!(!should_replace(FallableBehaviour::ReplaceFalling, true, true));
    assert!(should_replace(FallableBehaviour::ReplaceFalling, true, false));
    assert!(!should_replace(FallableBehaviour::DoNothing, true, false));
    assert!(!should_replace(FallableBehaviour::ReplaceFallable, false, false));
}

#[test]
fn bits_and_sample_hashes() {
    let h = colorify::block::bits_hash(1, 2, 3);
    let mut want: u32 = 0x811C_9DC5;
    for b in [1u32, 2, 3] {
        want = (want ^ b).wrapping_mul(0x0100_0193);
    }
    assert_eq!(h, want);
    let s = colorify::block::sample_hash(h, 4, 2);
    let mut x = h ^ 5u32.wrapping_mul(0x9E37_79B9) ^ 2u32.wrapping_mul(0x85EB_CA6B);
    x = (x ^ (x >> 16)).wrapping_mul(0xC2B2_AE35);
    assert_eq!(s, (x ^ (x >> 16)) & 0xFF_FFFF);
    assert!(s < 0x100_0000);
}

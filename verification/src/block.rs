//! The integer side of turning voxels into blocks: candidate collections with their match
//! cache, ordered and hashed dithering, voxel position keys, and falling-block handling.
use std::collections::HashMap;
use vstd::prelude::*;
use vstd::string::*;

verus! {

broadcast use vstd::std_specs::hash::group_hash_axioms;

/// How voxel colours are jittered before matching.
#[derive(Clone, Copy, PartialEq, Eq, Structural, Debug)]
pub enum DitherMode {
    Off,
    Random,
    Ordered,
}

impl DitherMode {
    /// The default: no dithering.
    pub fn default() -> (res: Self)
        ensures
            res == DitherMode::Off,
    {
        DitherMode::Off
    }
}

/// What happens to blocks that fall (sand, gravel, concrete powder).
#[derive(Clone, Copy, PartialEq, Eq, Structural, Debug)]
pub enum FallableBehaviour {
    /// Never use them.
    ReplaceFallable,
    /// Use them only where something holds them up.
    ReplaceFalling,
    /// Use them anywhere.
    DoNothing,
}

impl FallableBehaviour {
    /// The default: fallable blocks only where they are held up.
    pub fn default() -> (res: Self)
        ensures
            res == FallableBehaviour::ReplaceFalling,
    {
        FallableBehaviour::ReplaceFalling
    }
}

/// Whether a matched block must be swapped for one that does not fall.
pub open spec fn spec_should_replace(b: FallableBehaviour, is_fallable: bool, is_supported: bool) -> bool {
    match b {
        FallableBehaviour::ReplaceFallable => is_fallable,
        FallableBehaviour::ReplaceFalling => is_fallable && !is_supported,
        FallableBehaviour::DoNothing => false,
    }
}

/// Whether a matched block must be swapped for one that does not fall.
pub fn should_replace(b: FallableBehaviour, is_fallable: bool, is_supported: bool) -> (res: bool)
    ensures
        res == spec_should_replace(b, is_fallable, is_supported),
{
    match b {
        FallableBehaviour::ReplaceFallable => is_fallable,
        FallableBehaviour::ReplaceFalling => is_fallable && !is_supported,
        FallableBehaviour::DoNothing => false,
    }
}

/// The candidate blocks for matching (indices into the palette), with a cache from a
/// colour's key to the block it matched.
pub struct BlockCollection {
    blocks: Vec<usize>,
    cache: HashMap<u32, usize>,
}

impl BlockCollection {
    pub closed spec fn spec_blocks(&self) -> Seq<usize> {
        self.blocks@
    }

    pub closed spec fn spec_cache(&self) -> Map<u32, usize> {
        self.cache@
    }

    /// A collection of `blocks` with nothing cached.
    pub fn new(blocks: Vec<usize>) -> (res: Self)
        ensures
            res.spec_blocks() == blocks@,
            res.spec_cache() == Map::<u32, usize>::empty(),
    {
        BlockCollection { blocks, cache: HashMap::new() }
    }

    /// Whether the collection has no blocks.
    pub fn is_empty(&self) -> (res: bool)
        ensures
            res == (self.spec_blocks().len() == 0),
    {
        self.blocks.len() == 0
    }

    /// The palette indices in the collection.
    pub fn blocks(&self) -> (res: &Vec<usize>)
        ensures
            res@ == self.spec_blocks(),
    {
        &self.blocks
    }

    /// The block cached for a colour key.
    pub fn cached(&self, key: u32) -> (res: Option<usize>)
        ensures
            res == if self.spec_cache().contains_key(key) {
                Some(self.spec_cache()[key])
            } else {
                None
            },
    {
        match self.cache.get(&key) {
            Some(v) => Some(*v),
            None => None,
        }
    }

    /// Caches the block a colour key matched.
    pub fn remember(&mut self, key: u32, block: usize)
        ensures
            final(self).spec_cache() == old(self).spec_cache().insert(key, block),
            final(self).spec_blocks() == old(self).spec_blocks(),
    {
        self.cache.insert(key, block);
    }
}

/// A read of the cache gives back what was last remembered for that key, and leaves the
/// other keys as they were.
pub proof fn cache_read_after_write(before: Map<u32, usize>, key: u32, block: usize, other: u32)
    ensures
        before.insert(key, block).contains_key(key),
        before.insert(key, block)[key] == block,
        other != key ==> (before.insert(key, block).contains_key(other) == before.contains_key(
            other,
        )),
        other != key && before.contains_key(other) ==> before.insert(key, block)[other]
            == before[other],
{
}

/// Whether a list of names holds `s`.
pub open spec fn listed(list: Seq<&str>, s: Seq<char>) -> bool {
    exists|j: int| 0 <= j < list.len() && (#[trigger] list[j])@ == s
}

pub(crate) fn str_equal(a: &str, b: &str) -> (res: bool)
    ensures
        res == (a@ == b@),
{
    let x: String = a.to_owned();
    let y: String = b.to_owned();
    x == y
}

/// Whether a name is in a list.
pub fn contains_str(list: &[&str], s: &str) -> (res: bool)
    ensures
        res == listed(list@, s@),
{
    let mut j: usize = 0;
    while j < list.len()
        invariant
            j <= list@.len(),
            forall|k: int| 0 <= k < j ==> (#[trigger] list@[k])@ != s@,
        decreases list@.len() - j,
    {
        if str_equal(list[j], s) {
            return true;
        }
        j = j + 1;
    }
    false
}

/// The palette indices, in order, whose names are not excluded.
pub open spec fn kept_indices(ids: Seq<Seq<char>>, exclude: Seq<&str>, n: nat) -> Seq<usize>
    decreases n,
{
    if n == 0 {
        seq![]
    } else {
        let rest = kept_indices(ids, exclude, (n - 1) as nat);
        if listed(exclude, ids[n - 1]) {
            rest
        } else {
            rest.push((n - 1) as usize)
        }
    }
}

pub open spec fn names(ids: Seq<String>) -> Seq<Seq<char>> {
    ids.map_values(|s: String| s@)
}

/// The candidates for a palette whose blocks are named `ids`: every block but the excluded
/// ones.
pub fn create_block_collection(ids: &Vec<String>, exclude: &[&str]) -> (res: Vec<usize>)
    ensures
        res@ == kept_indices(names(ids@), exclude@, ids@.len()),
{
    let mut out: Vec<usize> = Vec::new();
    let mut i: usize = 0;
    while i < ids.len()
        invariant
            i <= ids@.len(),
            out@ == kept_indices(names(ids@), exclude@, i as nat),
        decreases ids@.len() - i,
    {
        assert(names(ids@)[i as int] == ids@[i as int]@);
        if !contains_str(exclude, ids[i].as_str()) {
            out.push(i);
        }
        i = i + 1;
    }
    out
}

/// The 4×4×4 ordered-dither thresholds, 0 to 63.
pub open spec fn dither_matrix() -> Seq<u8> {
    seq![
        0u8, 16, 2, 18, 48, 32, 50, 34, 6, 22, 4, 20, 54, 38, 52, 36, 24, 40, 26, 42, 8, 56, 10,
        58, 30, 46, 28, 44, 14, 62, 12, 60, 3, 19, 5, 21, 51, 35, 53, 37, 1, 17, 7, 23, 49, 33,
        55, 39, 27, 43, 29, 45, 11, 59, 13, 61, 25, 41, 31, 47, 9, 57, 15, 63,
    ]
}

pub open spec fn abs_mod4(v: int) -> int {
    (if v < 0 {
        -v
    } else {
        v
    }) % 4
}

/// The ordered-dither threshold at a voxel position: the matrix entry for the absolute
/// remainders of its coordinates by 4.
pub open spec fn spec_ordered_threshold(x: i32, y: i32, z: i32) -> u8 {
    dither_matrix()[abs_mod4(x as int) + 4 * abs_mod4(y as int) + 16 * abs_mod4(z as int)]
}

/// The ordered-dither threshold at `(x, y, z)` is the entry of the 4x4x4 matrix at the
/// absolute remainders by 4 of the coordinates: `|x| % 4`, plus 4 times `|y| % 4`, plus 16
/// times `|z| % 4`.
pub proof fn threshold_at_remainders(x: i32, y: i32, z: i32)
    ensures
        spec_ordered_threshold(x, y, z) == dither_matrix()[(if x < 0 { -x } else { x as int }) % 4
            + 4 * ((if y < 0 { -y } else { y as int }) % 4) + 16 * ((if z < 0 {
            -z
        } else {
            z as int
        }) % 4)],
        0 <= (if x < 0 { -x } else { x as int }) % 4 + 4 * ((if y < 0 { -y } else { y as int }) % 4)
            + 16 * ((if z < 0 { -z } else { z as int }) % 4) < 64,
{
}

fn abs_rem4(v: i32) -> (res: usize)
    ensures
        res == abs_mod4(v as int),
{
    let a: i64 = if v < 0 {
        -(v as i64)
    } else {
        v as i64
    };
    (a % 4) as usize
}

/// The ordered-dithering threshold at a position.
pub fn ordered_threshold(x: i32, y: i32, z: i32) -> (res: u8)
    ensures
        res == spec_ordered_threshold(x, y, z),
        res == dither_matrix()[(if x < 0 { -x } else { x as int }) % 4 + 4 * ((if y < 0 {
            -y
        } else {
            y as int
        }) % 4) + 16 * ((if z < 0 { -z } else { z as int }) % 4)],
{
    let m: Vec<u8> = vec![
        0u8, 16, 2, 18, 48, 32, 50, 34, 6, 22, 4, 20, 54, 38, 52, 36, 24, 40, 26, 42, 8, 56, 10,
        58, 30, 46, 28, 44, 14, 62, 12, 60, 3, 19, 5, 21, 51, 35, 53, 37, 1, 17, 7, 23, 49, 33,
        55, 39, 27, 43, 29, 45, 11, 59, 13, 61, 25, 41, 31, 47, 9, 57, 15, 63,
    ];
    assert(m@ =~= dither_matrix());
    let i = abs_rem4(x) + 4 * abs_rem4(y) + 16 * abs_rem4(z);
    m[i]
}

/// `a * b` modulo 2^32.
pub open spec fn mul32(a: u32, b: u32) -> u32 {
    ((a as nat * b as nat) % 0x1_0000_0000) as u32
}

/// One step of the position hash: xor in a coordinate's bits, then multiply by the FNV
/// prime.
pub open spec fn hash_step(h: u32, b: u32) -> u32 {
    mul32(h ^ b, 0x0100_0193u32)
}

/// The hash behind random dithering: FNV-1a over the bit patterns of the three coordinates,
/// a final mix, and the low 24 bits.
pub open spec fn spec_position_hash(bx: u32, by: u32, bz: u32) -> u32 {
    let h = hash_step(hash_step(hash_step(0x811C_9DC5u32, bx), by), bz);
    let h2 = mul32(h ^ (h >> 16u32), 0x85EB_CA6Bu32);
    let h3 = h2 ^ (h2 >> 13u32);
    h3 & 0xFF_FFFFu32
}

/// The random-dithering hash of a position's coordinate bits.
pub fn position_hash(bx: u32, by: u32, bz: u32) -> (res: u32)
    ensures
        res == spec_position_hash(bx, by, bz),
{
    let mut h: u32 = 0x811C_9DC5u32;
    h = (h ^ bx).wrapping_mul(0x0100_0193u32);
    h = (h ^ by).wrapping_mul(0x0100_0193u32);
    h = (h ^ bz).wrapping_mul(0x0100_0193u32);
    h = (h ^ (h >> 16u32)).wrapping_mul(0x85EB_CA6Bu32);
    h = h ^ (h >> 13u32);
    h & 0xFF_FFFFu32
}

/// FNV-1a over the bit patterns of a position's three coordinates.
pub open spec fn spec_bits_hash(bx: u32, by: u32, bz: u32) -> u32 {
    hash_step(hash_step(hash_step(0x811C_9DC5u32, bx), by), bz)
}

/// FNV-1a over a position's coordinate bits.
pub fn bits_hash(bx: u32, by: u32, bz: u32) -> (res: u32)
    ensures
        res == spec_bits_hash(bx, by, bz),
{
    let mut h: u32 = 0x811C_9DC5u32;
    h = (h ^ bx).wrapping_mul(0x0100_0193u32);
    h = (h ^ by).wrapping_mul(0x0100_0193u32);
    h = (h ^ bz).wrapping_mul(0x0100_0193u32);
    h
}

/// The jitter of a colour sample on one axis, as 24 bits: the position's hash mixed with
/// the sample number and the axis.
pub open spec fn spec_sample_hash(h: u32, seed: u32, axis: u32) -> u32 {
    let x = h ^ mul32((seed + 1) as u32, 0x9E37_79B9u32) ^ mul32(axis, 0x85EB_CA6Bu32);
    let x2 = mul32(x ^ (x >> 16u32), 0xC2B2_AE35u32);
    (x2 ^ (x2 >> 16u32)) & 0xFF_FFFFu32
}

/// The 24-bit jitter of a colour sample on one axis.
pub fn sample_hash(h: u32, seed: u32, axis: u32) -> (res: u32)
    requires
        seed < u32::MAX,
    ensures
        res == spec_sample_hash(h, seed, axis),
{
    let mut x = h ^ (seed + 1).wrapping_mul(0x9E37_79B9u32) ^ axis.wrapping_mul(0x85EB_CA6Bu32);
    x = (x ^ (x >> 16u32)).wrapping_mul(0xC2B2_AE35u32);
    let x = x ^ (x >> 16u32);
    x & 0xFF_FFFFu32
}

/// A voxel's key: the low 21 bits of x, y and z, packed high to low.
pub open spec fn spec_voxel_key(x: i64, y: i64, z: i64) -> u64 {
    (((x as u64) & 0x1F_FFFFu64) << 42u64) | (((y as u64) & 0x1F_FFFFu64) << 21u64) | ((z as u64)
        & 0x1F_FFFFu64)
}

/// A voxel's key.
pub fn voxel_key(x: i64, y: i64, z: i64) -> (res: u64)
    ensures
        res == spec_voxel_key(x, y, z),
{
    (((x as u64) & 0x1F_FFFFu64) << 42u64) | (((y as u64) & 0x1F_FFFFu64) << 21u64) | ((z as u64)
        & 0x1F_FFFFu64)
}

/// Coordinates from -2^20 up to (not including) 2^20.
pub open spec fn key_range(v: i64) -> bool {
    -0x10_0000 <= v < 0x10_0000
}

/// Within ±2^20 on each axis, distinct voxel positions have distinct keys.
pub proof fn voxel_key_injective(x1: i64, y1: i64, z1: i64, x2: i64, y2: i64, z2: i64)
    requires
        key_range(x1) && key_range(y1) && key_range(z1),
        key_range(x2) && key_range(y2) && key_range(z2),
        spec_voxel_key(x1, y1, z1) == spec_voxel_key(x2, y2, z2),
    ensures
        x1 == x2 && y1 == y2 && z1 == z2,
{
    assert(x1 == x2 && y1 == y2 && z1 == z2) by (bit_vector)
        requires
            -0x10_0000 <= x1 < 0x10_0000,
            -0x10_0000 <= y1 < 0x10_0000,
            -0x10_0000 <= z1 < 0x10_0000,
            -0x10_0000 <= x2 < 0x10_0000,
            -0x10_0000 <= y2 < 0x10_0000,
            -0x10_0000 <= z2 < 0x10_0000,
            (((x1 as u64) & 0x1F_FFFFu64) << 42u64) | (((y1 as u64) & 0x1F_FFFFu64) << 21u64) | ((
            z1 as u64) & 0x1F_FFFFu64) == (((x2 as u64) & 0x1F_FFFFu64) << 42u64) | (((y2 as u64)
                & 0x1F_FFFFu64) << 21u64) | ((z2 as u64) & 0x1F_FFFFu64),
    ;
}

/// A colour's cache key: its four channels packed high to low.
pub open spec fn spec_pack_rgba(r: u8, g: u8, b: u8, a: u8) -> u32 {
    ((r as u32) << 24u32) | ((g as u32) << 16u32) | ((b as u32) << 8u32) | (a as u32)
}

/// A colour's cache key.
pub fn pack_rgba(r: u8, g: u8, b: u8, a: u8) -> (res: u32)
    ensures
        res == spec_pack_rgba(r, g, b, a),
        res == r as int * 0x100_0000 + g as int * 0x1_0000 + b as int * 0x100 + a as int,
{
    let res = ((r as u32) << 24u32) | ((g as u32) << 16u32) | ((b as u32) << 8u32) | (a as u32);
    assert(res == r as int * 0x100_0000 + g as int * 0x1_0000 + b as int * 0x100 + a as int)
        by (bit_vector)
        requires
            res == ((r as u32) << 24u32) | ((g as u32) << 16u32) | ((b as u32) << 8u32) | (a as u32),
    ;
    res
}

/// Different colours have different cache keys.
pub proof fn pack_rgba_injective(r1: u8, g1: u8, b1: u8, a1: u8, r2: u8, g2: u8, b2: u8, a2: u8)
    requires
        spec_pack_rgba(r1, g1, b1, a1) == spec_pack_rgba(r2, g2, b2, a2),
    ensures
        r1 == r2 && g1 == g2 && b1 == b2 && a1 == a2,
{
    assert(r1 == r2 && g1 == g2 && b1 == b2 && a1 == a2) by (bit_vector)
        requires
            ((r1 as u32) << 24u32) | ((g1 as u32) << 16u32) | ((b1 as u32) << 8u32) | (a1 as u32)
                == ((r2 as u32) << 24u32) | ((g2 as u32) << 16u32) | ((b2 as u32) << 8u32) | (
            a2 as u32),
    ;
}

} // verus!

//! Writing blocks straight into a Bedrock world: the placements are sorted into the
//! 16×16×16 sub-chunks that hold them, and each sub-chunk's cells and palette are laid out
//! before it is written back.
use std::collections::BTreeMap;
use vstd::prelude::*;
use vstd::string::*;

use crate::text::{int_text, push_i64};

verus! {

/// A world found on this machine, as listed to the front end.
pub struct WorldInfo {
    pub folder_name: String,
    pub folder_path: String,
    pub level_name: Option<String>,
}

/// A block state read from a world, with its state values written out as text.
pub struct BlockStateView {
    pub name: String,
    pub states: BTreeMap<String, String>,
    pub version: Option<i32>,
}

/// A block to place: its offset from the origin and its name.
pub type BlockPlacement = (i32, i32, i32, String);

/// A placement inside one sub-chunk: local x, y, z (each below 16) and the block's name.
pub type LocalPlacement = (u8, u8, u8, String);

/// The world position of a placement.
pub open spec fn world_coords(origin: [i32; 3], b: BlockPlacement) -> (int, int, int) {
    (origin[0] + b.0, origin[1] + b.1, origin[2] + b.2)
}

/// The sub-chunk that holds a placement: chunk x, chunk z and section y, each the world
/// coordinate divided by 16, rounding down.
pub open spec fn section_key(origin: [i32; 3], b: BlockPlacement) -> (int, int, int) {
    let w = world_coords(origin, b);
    (w.0 / 16, w.2 / 16, w.1 / 16)
}

/// A placement's position inside its sub-chunk, with the block's name.
pub open spec fn local_place(origin: [i32; 3], b: BlockPlacement) -> (u8, u8, u8, Seq<char>) {
    let w = world_coords(origin, b);
    ((w.0 % 16) as u8, (w.1 % 16) as u8, (w.2 % 16) as u8, b.3@)
}

/// A sub-chunk's section number must fit in an `i8`.
pub open spec fn section_in_range(origin: [i32; 3], b: BlockPlacement) -> bool {
    -128 <= world_coords(origin, b).1 / 16 <= 127
}

/// Every placement's world position fits in an `i32`.
pub open spec fn coords_fit(origin: [i32; 3], blocks: Seq<BlockPlacement>) -> bool {
    forall|k: int|
        0 <= k < blocks.len() ==> {
            let w = #[trigger] world_coords(origin, blocks[k]);
            &&& i32::MIN <= w.0 <= i32::MAX
            &&& i32::MIN <= w.1 <= i32::MAX
            &&& i32::MIN <= w.2 <= i32::MAX
        }
}

/// The local placements, in order, of the blocks that fall in sub-chunk `key`.
pub open spec fn placements_in(
    origin: [i32; 3],
    blocks: Seq<BlockPlacement>,
    key: (int, int, int),
) -> Seq<(u8, u8, u8, Seq<char>)>
    decreases blocks.len(),
{
    if blocks.len() == 0 {
        seq![]
    } else {
        let rest = placements_in(origin, blocks.drop_last(), key);
        if section_key(origin, blocks.last()) == key {
            rest.push(local_place(origin, blocks.last()))
        } else {
            rest
        }
    }
}

/// Sub-chunk keys in the order the groups come out: by chunk x, then chunk z, then section.
pub open spec fn key_lt(a: (int, int, int), b: (int, int, int)) -> bool {
    a.0 < b.0 || (a.0 == b.0 && (a.1 < b.1 || (a.1 == b.1 && a.2 < b.2)))
}

/// The placements that fall in one sub-chunk.
pub struct SectionGroup {
    pub cx: i32,
    pub cz: i32,
    pub sy: i8,
    pub placements: Vec<LocalPlacement>,
}

pub open spec fn local_view(p: LocalPlacement) -> (u8, u8, u8, Seq<char>) {
    (p.0, p.1, p.2, p.3@)
}

impl SectionGroup {
    pub open spec fn key(&self) -> (int, int, int) {
        (self.cx as int, self.cz as int, self.sy as int)
    }

    pub open spec fn placements_view(&self) -> Seq<(u8, u8, u8, Seq<char>)> {
        self.placements@.map_values(|p: LocalPlacement| local_view(p))
    }
}

/// `groups` sorts `blocks` into sub-chunks: one group per sub-chunk that some block falls
/// in, in key order, each holding its blocks' local placements in the order of the input.
pub open spec fn grouped(
    origin: [i32; 3],
    blocks: Seq<BlockPlacement>,
    groups: Seq<SectionGroup>,
) -> bool {
    &&& forall|i: int, j: int|
        0 <= i < j < groups.len() ==> key_lt(#[trigger] groups[i].key(), #[trigger] groups[j].key())
    &&& forall|i: int|
        0 <= i < groups.len() ==> #[trigger] groups[i].placements_view() == placements_in(
            origin,
            blocks,
            groups[i].key(),
        ) && groups[i].placements@.len() > 0
    &&& forall|k: int|
        #![trigger blocks[k]]
        0 <= k < blocks.len() ==> exists|i: int|
            0 <= i < groups.len() && #[trigger] groups[i].key() == section_key(origin, blocks[k])
}

/// The error for a placement whose section lies outside the world's height range.
pub open spec fn y_range_error(wy: int) -> Seq<char> {
    "Y 越界: "@ + int_text(wy)
}

proof fn lemma_placements_step(
    origin: [i32; 3],
    blocks: Seq<BlockPlacement>,
    i: int,
    key: (int, int, int),
)
    requires
        0 <= i < blocks.len(),
    ensures
        placements_in(origin, blocks.take(i + 1), key) == if section_key(origin, blocks[i])
            == key {
            placements_in(origin, blocks.take(i), key).push(local_place(origin, blocks[i]))
        } else {
            placements_in(origin, blocks.take(i), key)
        },
{
    assert(blocks.take(i + 1).drop_last() =~= blocks.take(i));
    assert(blocks.take(i + 1).last() == blocks[i]);
}

proof fn lemma_placements_absent(
    origin: [i32; 3],
    blocks: Seq<BlockPlacement>,
    i: int,
    key: (int, int, int),
)
    requires
        0 <= i <= blocks.len(),
        forall|k: int| 0 <= k < i ==> section_key(origin, #[trigger] blocks[k]) != key,
    ensures
        placements_in(origin, blocks.take(i), key) == Seq::<(u8, u8, u8, Seq<char>)>::empty(),
    decreases i,
{
    if i == 0 {
        assert(blocks.take(0) =~= Seq::<BlockPlacement>::empty());
    } else {
        lemma_placements_absent(origin, blocks, i - 1, key);
        lemma_placements_step(origin, blocks, i - 1, key);
    }
}

fn key_less(a: (i32, i32, i8), b: (i32, i32, i8)) -> (res: bool)
    ensures
        res == key_lt((a.0 as int, a.1 as int, a.2 as int), (b.0 as int, b.1 as int, b.2 as int)),
{
    a.0 < b.0 || (a.0 == b.0 && (a.1 < b.1 || (a.1 == b.1 && a.2 < b.2)))
}

/// The first position in `groups` whose key is not below `key`.
fn find_section(groups: &Vec<SectionGroup>, key: (i32, i32, i8)) -> (pos: usize)
    requires
        forall|i: int, j: int|
            0 <= i < j < groups@.len() ==> key_lt(
                #[trigger] groups@[i].key(),
                #[trigger] groups@[j].key(),
            ),
    ensures
        pos <= groups@.len(),
        forall|i: int|
            0 <= i < pos ==> key_lt(
                #[trigger] groups@[i].key(),
                (key.0 as int, key.1 as int, key.2 as int),
            ),
        forall|i: int|
            pos <= i < groups@.len() ==> !key_lt(
                #[trigger] groups@[i].key(),
                (key.0 as int, key.1 as int, key.2 as int),
            ),
{
    let ghost k = (key.0 as int, key.1 as int, key.2 as int);
    let mut lo: usize = 0;
    let mut hi: usize = groups.len();
    while lo < hi
        invariant
            lo <= hi <= groups@.len(),
            k == (key.0 as int, key.1 as int, key.2 as int),
            forall|i: int, j: int|
                0 <= i < j < groups@.len() ==> key_lt(
                    #[trigger] groups@[i].key(),
                    #[trigger] groups@[j].key(),
                ),
            forall|i: int| 0 <= i < lo ==> key_lt(#[trigger] groups@[i].key(), k),
            forall|i: int| hi <= i < groups@.len() ==> !key_lt(#[trigger] groups@[i].key(), k),
        decreases hi - lo,
    {
        let mid = lo + (hi - lo) / 2;
        let g = &groups[mid];
        let below = key_less((g.cx, g.cz, g.sy), key);
        assert(g.key() == groups@[mid as int].key());
        assert(below == key_lt(groups@[mid as int].key(), k));
        if below {
            assert forall|i: int| 0 <= i < mid + 1 implies key_lt(#[trigger] groups@[i].key(), k) by {
                if i < mid {
                    assert(key_lt(groups@[i].key(), groups@[mid as int].key()));
                }
            }
            lo = mid + 1;
        } else {
            assert forall|i: int| mid <= i < groups@.len() implies !key_lt(
                #[trigger] groups@[i].key(),
                k,
            ) by {
                if i > mid {
                    assert(key_lt(groups@[mid as int].key(), groups@[i].key()));
                }
            }
            hi = mid;
        }
    }
    lo
}

/// Why a world write with nothing to write is refused.
pub open spec fn no_blocks_error() -> Seq<char> {
    "没有生成任何方块"@
}

/// A world write needs at least one block: `count` is how many there are.
pub fn check_blocks_given(count: usize) -> (res: Result<(), String>)
    ensures
        res is Err <==> count == 0,
        res matches Err(e) ==> e@ == no_blocks_error(),
{
    if count == 0 {
        Err(String::from_str("没有生成任何方块"))
    } else {
        Ok(())
    }
}

/// Sorts the placements into the sub-chunks that hold them (positions are `origin` plus each
/// block's offset). Fails on the first placement, in order, whose section does not fit in an
/// `i8`.
#[verifier::spinoff_prover]
#[verifier::rlimit(40)]
pub fn group_by_section(origin: [i32; 3], blocks: &[BlockPlacement]) -> (res: Result<
    Vec<SectionGroup>,
    String,
>)
    requires
        coords_fit(origin, blocks@),
    ensures
        match res {
            Ok(groups) => (forall|k: int|
                0 <= k < blocks@.len() ==> section_in_range(origin, #[trigger] blocks@[k]))
                && grouped(origin, blocks@, groups@),
            Err(e) => exists|k: int|
                0 <= k < blocks@.len() && !section_in_range(origin, #[trigger] blocks@[k]) && (
                forall|j: int| 0 <= j < k ==> section_in_range(origin, #[trigger] blocks@[j]))
                && e@ == y_range_error(world_coords(origin, blocks@[k]).1),
        },
{
    let mut groups: Vec<SectionGroup> = Vec::new();
    let mut i: usize = 0;
    while i < blocks.len()
        invariant
            0 <= i <= blocks@.len(),
            coords_fit(origin, blocks@),
            forall|k: int| 0 <= k < i ==> section_in_range(origin, #[trigger] blocks@[k]),
            grouped(origin, blocks@.take(i as int), groups@),
        decreases blocks@.len() - i,
    {
        let b = &blocks[i];
        proof {
            let w = world_coords(origin, blocks@[i as int]);
            assert(i32::MIN <= w.0 <= i32::MAX && i32::MIN <= w.1 <= i32::MAX && i32::MIN <= w.2
                <= i32::MAX);
        }
        let wx: i32 = origin[0] + b.0;
        let wy: i32 = origin[1] + b.1;
        let wz: i32 = origin[2] + b.2;
        let cx: i32 = match wx.checked_div_euclid(16) {
            Some(v) => v,
            None => 0,
        };
        let cz: i32 = match wz.checked_div_euclid(16) {
            Some(v) => v,
            None => 0,
        };
        let qy: i32 = match wy.checked_div_euclid(16) {
            Some(v) => v,
            None => 0,
        };
        let lx: i32 = match wx.checked_rem_euclid(16) {
            Some(v) => v,
            None => 0,
        };
        let ly: i32 = match wy.checked_rem_euclid(16) {
            Some(v) => v,
            None => 0,
        };
        let lz: i32 = match wz.checked_rem_euclid(16) {
            Some(v) => v,
            None => 0,
        };
        assert(cx == wx as int / 16 && cz == wz as int / 16 && qy == wy as int / 16);
        assert(lx == wx as int % 16 && ly == wy as int % 16 && lz == wz as int % 16);
        if qy < -128 || qy > 127 {
            let mut e = String::new();
            proof {
                reveal_strlit("Y 越界: ");
            }
            e.append("Y 越界: ");
            push_i64(&mut e, wy as i64);
            assert(e@ =~= y_range_error(world_coords(origin, blocks@[i as int]).1));
            return Err(e);
        }
        let sy: i8 = qy as i8;
        let key: (i32, i32, i8) = (cx, cz, sy);
        let ghost kk = (cx as int, cz as int, sy as int);
        let ghost old_groups = groups@;
        let ghost bi = blocks@[i as int];
        assert(section_key(origin, bi) == kk);
        let place: LocalPlacement = (lx as u8, ly as u8, lz as u8, b.3.clone());
        assert(local_view(place) == local_place(origin, bi));
        let pos = find_section(&groups, key);
        proof {
            assert forall|j: int| 0 <= j < old_groups.len() implies #[trigger] old_groups[j].key()
                != kk || j == pos by {
                if old_groups[j].key() == kk && j > pos {
                    assert(key_lt(old_groups[pos as int].key(), old_groups[j].key()));
                }
            }
            assert forall|j: int|
                0 <= j < old_groups.len() && old_groups[j].key() != kk implies placements_in(
                origin,
                blocks@.take(i + 1),
                #[trigger] old_groups[j].key(),
            ) == placements_in(origin, blocks@.take(i as int), old_groups[j].key()) by {
                lemma_placements_step(origin, blocks@, i as int, old_groups[j].key());
            }
            lemma_placements_step(origin, blocks@, i as int, kk);
        }
        if pos < groups.len() && groups[pos].cx == cx && groups[pos].cz == cz && groups[pos].sy
            == sy {
            assert(old_groups[pos as int].key() == kk);
            assert(old_groups[pos as int].placements_view() == placements_in(
                origin,
                blocks@.take(i as int),
                kk,
            ));
            groups[pos].placements.push(place);
            proof {
                let ng = groups@;
                assert(ng[pos as int].key() == kk);
                assert(ng.len() == old_groups.len());
                assert forall|j: int| 0 <= j < ng.len() && j != pos implies #[trigger] ng[j]
                    == old_groups[j] by {}
                assert(ng[pos as int].placements_view() =~= old_groups[pos as int].placements_view().push(
                    local_place(origin, bi),
                ));
                assert forall|j: int|
                    0 <= j < ng.len() implies #[trigger] ng[j].placements_view() == placements_in(
                    origin,
                    blocks@.take(i + 1),
                    ng[j].key(),
                ) && ng[j].placements@.len() > 0 by {
                    if j != pos {
                        assert(ng[j] == old_groups[j]);
                        assert(old_groups[j].key() != kk);
                    } else {
                        assert(placements_in(origin, blocks@.take(i + 1), kk) == placements_in(
                            origin,
                            blocks@.take(i as int),
                            kk,
                        ).push(local_place(origin, bi)));
                    }
                }
                assert forall|k: int| #![trigger blocks@.take(i + 1)[k]] 0 <= k < i + 1 implies exists|j: int|
                    0 <= j < ng.len() && #[trigger] ng[j].key() == section_key(
                        origin,
                        blocks@.take(i + 1)[k],
                    ) by {
                    if k < i {
                        assert(blocks@.take(i + 1)[k] == blocks@.take(i as int)[k]);
                        let j = choose|j: int|
                            0 <= j < old_groups.len() && #[trigger] old_groups[j].key()
                                == section_key(origin, blocks@.take(i as int)[k]);
                        assert(ng[j].key() == old_groups[j].key());
                    } else {
                        assert(ng[pos as int].key() == kk);
                    }
                }
                assert forall|a: int, c: int|
                    0 <= a < c < ng.len() implies key_lt(
                    #[trigger] ng[a].key(),
                    #[trigger] ng[c].key(),
                ) by {
                    assert(ng[a].key() == old_groups[a].key());
                    assert(ng[c].key() == old_groups[c].key());
                }
            }
        } else {
            proof {
                assert forall|k: int| 0 <= k < i implies section_key(
                    origin,
                    #[trigger] blocks@.take(i as int)[k],
                ) != kk by {
                    let j = choose|j: int|
                        0 <= j < old_groups.len() && #[trigger] old_groups[j].key() == section_key(
                            origin,
                            blocks@.take(i as int)[k],
                        );
                    if j < pos {
                        assert(key_lt(old_groups[j].key(), kk));
                    } else if j > pos {
                        assert(key_lt(old_groups[pos as int].key(), old_groups[j].key()));
                        assert(!key_lt(old_groups[pos as int].key(), kk));
                    }
                }
                lemma_placements_absent(origin, blocks@.take(i as int), i as int, kk);
                assert(blocks@.take(i as int).take(i as int) =~= blocks@.take(i as int));
            }
            let mut pl: Vec<LocalPlacement> = Vec::new();
            pl.push(place);
            let g = SectionGroup { cx, cz, sy, placements: pl };
            assert(g.placements_view() =~= seq![local_place(origin, bi)]);
            groups.insert(pos, g);
            proof {
                let ng = groups@;
                assert(ng.len() == old_groups.len() + 1);
                assert forall|j: int| 0 <= j < pos implies #[trigger] ng[j] == old_groups[j] by {}
                assert forall|j: int|
                    pos < j < ng.len() implies #[trigger] ng[j] == old_groups[j - 1] by {}
                assert(placements_in(origin, blocks@.take(i as int), kk) =~= Seq::<
                    (u8, u8, u8, Seq<char>),
                >::empty());
                assert forall|j: int|
                    0 <= j < ng.len() implies #[trigger] ng[j].placements_view() == placements_in(
                    origin,
                    blocks@.take(i + 1),
                    ng[j].key(),
                ) && ng[j].placements@.len() > 0 by {
                    if j < pos {
                        assert(ng[j] == old_groups[j]);
                    } else if j > pos {
                        assert(ng[j] == old_groups[j - 1]);
                    } else {
                        assert(seq![local_place(origin, bi)] =~= Seq::<
                            (u8, u8, u8, Seq<char>),
                        >::empty().push(local_place(origin, bi)));
                    }
                }
                assert forall|k: int| #![trigger blocks@.take(i + 1)[k]] 0 <= k < i + 1 implies exists|j: int|
                    0 <= j < ng.len() && #[trigger] ng[j].key() == section_key(
                        origin,
                        blocks@.take(i + 1)[k],
                    ) by {
                    if k < i {
                        assert(blocks@.take(i + 1)[k] == blocks@.take(i as int)[k]);
                        let j = choose|j: int|
                            0 <= j < old_groups.len() && #[trigger] old_groups[j].key()
                                == section_key(origin, blocks@.take(i as int)[k]);
                        if j < pos {
                            assert(ng[j] == old_groups[j]);
                        } else {
                            assert(ng[j + 1] == old_groups[j]);
                        }
                    } else {
                        assert(ng[pos as int].key() == kk);
                    }
                }
                assert forall|a: int, c: int|
                    0 <= a < c < ng.len() implies key_lt(
                    #[trigger] ng[a].key(),
                    #[trigger] ng[c].key(),
                ) by {
                    if a < pos && c < pos {
                        assert(ng[a] == old_groups[a] && ng[c] == old_groups[c]);
                    } else if a < pos && c == pos {
                        assert(ng[a] == old_groups[a]);
                    } else if a < pos {
                        assert(ng[a] == old_groups[a] && ng[c] == old_groups[c - 1]);
                    } else if a == pos {
                        assert(ng[c] == old_groups[c - 1]);
                        assert(!key_lt(old_groups[c - 1].key(), kk));
                        assert(old_groups[c - 1].key() != kk);
                    } else {
                        assert(ng[a] == old_groups[a - 1] && ng[c] == old_groups[c - 1]);
                    }
                }
            }
        }
        i = i + 1;
    }
    assert(blocks@.take(blocks@.len() as int) =~= blocks@);
    Ok(groups)
}


/// The number of cells in a sub-chunk.
pub const SECTION_CELLS: usize = 4096;

/// What one cell of a sub-chunk holds while the sub-chunk is being rewritten.
#[derive(Clone, Copy, PartialEq, Eq, Structural, Debug)]
pub enum SectionCell {
    /// Air: the sub-chunk was not stored, or stored no block indices.
    Air,
    /// The block state at this index of the stored sub-chunk's own palette.
    Stored(u16),
    /// The placement at this index of the sub-chunk's group.
    Placed(usize),
}

/// The cells of a sub-chunk as stored: each cell's index into the stored palette, or all
/// air when there is nothing stored.
pub open spec fn stored_cell(stored: Option<Seq<u16>>, i: int) -> SectionCell {
    match stored {
        Some(ix) => SectionCell::Stored(ix[i]),
        None => SectionCell::Air,
    }
}

pub open spec fn opt_vec_view(stored: Option<&Vec<u16>>) -> Option<Seq<u16>> {
    match stored {
        Some(v) => Some(v@),
        None => None,
    }
}

/// A sub-chunk's cells before any placement, in storage order.
pub fn initial_cells(stored: Option<&Vec<u16>>) -> (res: Vec<SectionCell>)
    requires
        stored matches Some(ix) ==> ix@.len() >= SECTION_CELLS,
    ensures
        res@.len() == SECTION_CELLS,
        forall|i: int| 0 <= i < SECTION_CELLS ==> #[trigger] res@[i] == stored_cell(opt_vec_view(stored), i),
{
    let mut cells: Vec<SectionCell> = Vec::new();
    let mut i: usize = 0;
    while i < SECTION_CELLS
        invariant
            i <= SECTION_CELLS,
            stored matches Some(ix) ==> ix@.len() >= SECTION_CELLS,
            cells@.len() == i,
            forall|j: int| 0 <= j < i ==> #[trigger] cells@[j] == stored_cell(opt_vec_view(stored), j),
        decreases SECTION_CELLS - i,
    {
        let c = match stored {
            Some(ix) => SectionCell::Stored(ix[i]),
            None => SectionCell::Air,
        };
        cells.push(c);
        i = i + 1;
    }
    cells
}

/// A cell's offset in a sub-chunk's storage: x-major, then z, then y.
pub open spec fn cell_index(x: int, y: int, z: int) -> int {
    x * 256 + z * 16 + y
}

/// `bedrock_world::block_storage_index`: the storage offset of local position (x, y, z),
/// `x * 256 + z * 16 + y`.
#[verifier::external_body]
fn storage_index(x: u8, y: u8, z: u8) -> (res: usize)
    ensures
        res == cell_index(x as int, y as int, z as int),
{
    bedrock_world::block_storage_index(x, y, z)
}

/// The cells after the placements are written over them in order, a later placement
/// replacing an earlier one in the same cell.
pub open spec fn overlaid(cells: Seq<SectionCell>, placements: Seq<LocalPlacement>) -> Seq<
    SectionCell,
>
    decreases placements.len(),
{
    if placements.len() == 0 {
        cells
    } else {
        let p = placements.last();
        overlaid(cells, placements.drop_last()).update(
            cell_index(p.0 as int, p.1 as int, p.2 as int),
            SectionCell::Placed((placements.len() - 1) as usize),
        )
    }
}

/// Whether every placement lies inside the sub-chunk.
pub open spec fn placements_local(placements: Seq<LocalPlacement>) -> bool {
    forall|k: int|
        0 <= k < placements.len() ==> #[trigger] placements[k].0 < 16 && placements[k].1 < 16
            && placements[k].2 < 16
}

/// Writes the group's placements over the sub-chunk's cells.
pub fn overlay_placements(cells: &mut Vec<SectionCell>, placements: &Vec<LocalPlacement>)
    requires
        old(cells)@.len() == SECTION_CELLS,
        placements_local(placements@),
    ensures
        final(cells)@ == overlaid(old(cells)@, placements@),
{
    let mut k: usize = 0;
    while k < placements.len()
        invariant
            k <= placements@.len(),
            placements_local(placements@),
            cells@ == overlaid(old(cells)@, placements@.take(k as int)),
            cells@.len() == SECTION_CELLS,
        decreases placements@.len() - k,
    {
        let p = &placements[k];
        assert(p.0 < 16 && p.1 < 16 && p.2 < 16);
        let si = storage_index(p.0, p.1, p.2);
        cells.set(si, SectionCell::Placed(k));
        proof {
            let t = placements@.take(k + 1);
            assert(t.drop_last() =~= placements@.take(k as int));
            assert(t.last() == placements@[k as int]);
        }
        k = k + 1;
    }
    assert(placements@.take(placements@.len() as int) =~= placements@);
}

/// The storage cell a placement targets.
pub open spec fn target_of(p: LocalPlacement) -> int {
    cell_index(p.0 as int, p.1 as int, p.2 as int)
}

proof fn lemma_overlaid_len(cells: Seq<SectionCell>, placements: Seq<LocalPlacement>)
    requires
        cells.len() == SECTION_CELLS,
        placements_local(placements),
    ensures
        overlaid(cells, placements).len() == cells.len(),
    decreases placements.len(),
{
    if placements.len() > 0 {
        let init = placements.drop_last();
        assert forall|k: int| 0 <= k < init.len() implies #[trigger] init[k].0 < 16 && init[k].1 < 16
            && init[k].2 < 16 by {
            assert(init[k] == placements[k]);
        }
        lemma_overlaid_len(cells, init);
        assert(placements[placements.len() - 1].0 < 16);
    }
}

/// Writing placements over a sub-chunk keeps the existing blocks everywhere else: a cell
/// that no placement targets keeps what it held.
pub proof fn overlay_keeps_untargeted_cells(
    cells: Seq<SectionCell>,
    placements: Seq<LocalPlacement>,
    c: int,
)
    requires
        cells.len() == SECTION_CELLS,
        placements_local(placements),
        0 <= c < cells.len(),
        forall|j: int| 0 <= j < placements.len() ==> target_of(#[trigger] placements[j]) != c,
    ensures
        overlaid(cells, placements).len() == cells.len(),
        overlaid(cells, placements)[c] == cells[c],
    decreases placements.len(),
{
    lemma_overlaid_len(cells, placements);
    if placements.len() > 0 {
        let init = placements.drop_last();
        assert forall|k: int| 0 <= k < init.len() implies #[trigger] init[k].0 < 16 && init[k].1 < 16
            && init[k].2 < 16 by {
            assert(init[k] == placements[k]);
        }
        lemma_overlaid_len(cells, init);
        assert(placements[placements.len() - 1].0 < 16);
        assert forall|j: int| 0 <= j < init.len() implies target_of(#[trigger] init[j]) != c by {
            assert(init[j] == placements[j]);
        }
        overlay_keeps_untargeted_cells(cells, init, c);
        assert(target_of(placements[placements.len() - 1]) != c);
    }
}

/// A targeted cell holds the last placement that targets it.
pub proof fn overlay_last_placement_wins(
    cells: Seq<SectionCell>,
    placements: Seq<LocalPlacement>,
    c: int,
    j: int,
)
    requires
        cells.len() == SECTION_CELLS,
        placements_local(placements),
        0 <= c < cells.len(),
        0 <= j < placements.len(),
        target_of(placements[j]) == c,
        forall|k: int| j < k < placements.len() ==> target_of(#[trigger] placements[k]) != c,
    ensures
        overlaid(cells, placements)[c] == SectionCell::Placed(j as usize),
    decreases placements.len(),
{
    let last = placements.len() - 1;
    let init = placements.drop_last();
    assert forall|k: int| 0 <= k < init.len() implies #[trigger] init[k].0 < 16 && init[k].1 < 16
        && init[k].2 < 16 by {
        assert(init[k] == placements[k]);
    }
    lemma_overlaid_len(cells, init);
    assert(placements[last].0 < 16 && placements[last].1 < 16 && placements[last].2 < 16);
    let prev = overlaid(cells, init);
    assert(placements.last() == placements[last]);
    assert(overlaid(cells, placements) == prev.update(
        target_of(placements[last]),
        SectionCell::Placed(last as usize),
    ));
    if j < last {
        assert(target_of(placements[last]) != c);
        assert(init[j] == placements[j]);
        assert forall|k: int| j < k < init.len() implies target_of(#[trigger] init[k]) != c by {
            assert(init[k] == placements[k]);
        }
        overlay_last_placement_wins(cells, init, c, j);
    }
}

/// A storage cell's offset in a structure, which orders cells x, then y, then z.
pub open spec fn structure_cell(i: int) -> int {
    (i / 256) * 256 + (i % 16) * 16 + (i / 16) % 16
}

proof fn lemma_structure_cell(i: int, j: int)
    requires
        0 <= i < 4096,
        0 <= j < 4096,
    ensures
        0 <= structure_cell(i) < 4096,
        structure_cell(i) == structure_cell(j) ==> i == j,
{
    assert(0 <= structure_cell(i) < 4096) by (nonlinear_arith)
        requires
            0 <= i < 4096,
    ;
    assert(structure_cell(i) == structure_cell(j) ==> i == j) by (nonlinear_arith)
        requires
            0 <= i < 4096,
            0 <= j < 4096,
    ;
}

/// A sub-chunk's structure palette: `firsts` are the storage cells where each distinct key
/// first occurs, in storage order, and `indices` gives each structure cell its palette
/// entry, counting from 1 (entry 0 is the structure's own air).
pub struct SectionPalette {
    pub firsts: Vec<usize>,
    pub indices: Vec<i32>,
}

pub open spec fn keys_view(keys: Seq<String>) -> Seq<Seq<char>> {
    keys.map_values(|s: String| s@)
}

/// `firsts` lists, in order, the cells whose key does not occur before them.
pub open spec fn first_occurrences(k: Seq<Seq<char>>, firsts: Seq<usize>) -> bool {
    &&& forall|a: int, b: int| 0 <= a < b < firsts.len() ==> #[trigger] firsts[a] < #[trigger] firsts[b]
    &&& forall|r: int|
        0 <= r < firsts.len() ==> #[trigger] firsts[r] < k.len() && !k.take(firsts[r] as int).contains(
            k[firsts[r] as int],
        )
    &&& forall|i: int|
        0 <= i < k.len() ==> k.take(i).contains(#[trigger] k[i]) || firsts.contains(i as usize)
}

/// Builds the structure palette of a sub-chunk from its cells' keys (cells with equal keys
/// share an entry).
pub fn section_palette(keys: &Vec<String>) -> (res: SectionPalette)
    requires
        keys@.len() == SECTION_CELLS,
    ensures
        first_occurrences(keys_view(keys@), res.firsts@),
        res.indices@.len() == SECTION_CELLS,
        forall|i: int|
            0 <= i < SECTION_CELLS ==> {
                let e = #[trigger] res.indices@[structure_cell(i)];
                &&& 1 <= e <= res.firsts@.len()
                &&& keys_view(keys@)[res.firsts@[e - 1] as int] == keys_view(keys@)[i]
            },
{
    let ghost kv = keys_view(keys@);
    let mut firsts: Vec<usize> = Vec::new();
    let mut indices: Vec<i32> = Vec::new();
    let mut n: usize = 0;
    while n < SECTION_CELLS
        invariant
            n <= SECTION_CELLS,
            indices@.len() == n,
            forall|j: int| 0 <= j < n ==> #[trigger] indices@[j] == 0,
        decreases SECTION_CELLS - n,
    {
        indices.push(0);
        n = n + 1;
    }
    let mut i: usize = 0;
    while i < SECTION_CELLS
        invariant
            i <= SECTION_CELLS,
            keys@.len() == SECTION_CELLS,
            kv == keys_view(keys@),
            indices@.len() == SECTION_CELLS,
            firsts@.len() <= i,
            forall|a: int, b: int| 0 <= a < b < firsts@.len() ==> #[trigger] firsts@[a] < #[trigger] firsts@[b],
            forall|r: int| 0 <= r < firsts@.len() ==> #[trigger] firsts@[r] < i && !kv.take(
                firsts@[r] as int,
            ).contains(kv[firsts@[r] as int]),
            forall|j: int| 0 <= j < i ==> kv.take(j).contains(#[trigger] kv[j]) || firsts@.contains(
                j as usize,
            ),
            forall|j: int|
                0 <= j < i ==> {
                    let e = #[trigger] indices@[structure_cell(j)];
                    &&& 1 <= e <= firsts@.len()
                    &&& kv[firsts@[e - 1] as int] == kv[j]
                },
        decreases SECTION_CELLS - i,
    {
        let mut r: usize = 0;
        let mut found: usize = firsts.len();
        while r < firsts.len() && found == firsts.len()
            invariant
                r <= firsts@.len(),
                found <= firsts@.len(),
                keys@.len() == SECTION_CELLS,
                kv == keys_view(keys@),
                i < SECTION_CELLS,
                forall|q: int| 0 <= q < firsts@.len() ==> #[trigger] firsts@[q] < i,
                found < firsts@.len() ==> kv[firsts@[found as int] as int] == kv[i as int],
                found == firsts@.len() ==> forall|q: int|
                    0 <= q < r ==> kv[#[trigger] firsts@[q] as int] != kv[i as int],
            decreases firsts@.len() - r,
        {
            if keys[firsts[r]] == keys[i] {
                found = r;
            }
            r = r + 1;
        }
        let ghost old_firsts = firsts@;
        if found == firsts.len() {
            proof {
                assert forall|x: int| 0 <= x < i implies kv.take(i as int)[x] != kv[i as int] by {
                    assert(kv.take(i as int)[x] == kv[x]);
                    let e = indices@[structure_cell(x)];
                    assert(kv[old_firsts[e - 1] as int] == kv[x]);
                }
                assert(!kv.take(i as int).contains(kv[i as int]));
            }
            firsts.push(i);
            proof {
                assert forall|j: int| #![trigger old_firsts.contains(j as usize)] 0 <= j < i && old_firsts.contains(j as usize) implies firsts@.contains(
                    j as usize,
                ) by {
                    let q = choose|q: int| 0 <= q < old_firsts.len() && old_firsts[q] == j as usize;
                    assert(firsts@[q] == j as usize);
                }
                assert(firsts@[found as int] == i);
            }
        }
        assert(kv[firsts@[found as int] as int] == kv[i as int]);
        proof {
            lemma_structure_cell(i as int, 0);
        }
        let si: usize = (i / 256) * 256 + (i % 16) * 16 + (i / 16) % 16;
        assert(si == structure_cell(i as int));
        let ghost old_indices = indices@;
        indices.set(si, (found + 1) as i32);
        proof {
            assert forall|j: int| 0 <= j < i implies #[trigger] indices@[structure_cell(j)]
                == old_indices[structure_cell(j)] by {
                lemma_structure_cell(j, i as int);
            }
            assert forall|j: int| 0 <= j < i + 1 implies kv.take(j).contains(#[trigger] kv[j])
                || firsts@.contains(j as usize) by {
                if j == i && found < old_firsts.len() {
                    assert(kv.take(j)[old_firsts[found as int] as int] == kv[j]);
                } else if j < i && !kv.take(j).contains(kv[j]) {
                    let q = choose|q: int| 0 <= q < old_firsts.len() && old_firsts[q] == j as usize;
                    assert(firsts@[q] == j as usize);
                }
            }
        }
        i = i + 1;
    }
    SectionPalette { firsts, indices }
}


/// Two cells share a palette entry exactly when their keys are equal: equal blocks are
/// merged and different blocks are kept apart.
pub proof fn palette_entries_match_keys(
    keys: Seq<Seq<char>>,
    firsts: Seq<usize>,
    indices: Seq<i32>,
    i: int,
    j: int,
)
    requires
        keys.len() == SECTION_CELLS,
        first_occurrences(keys, firsts),
        indices.len() == SECTION_CELLS,
        forall|c: int|
            0 <= c < SECTION_CELLS ==> {
                let e = #[trigger] indices[structure_cell(c)];
                &&& 1 <= e <= firsts.len()
                &&& keys[firsts[e - 1] as int] == keys[c]
            },
        0 <= i < SECTION_CELLS,
        0 <= j < SECTION_CELLS,
    ensures
        (indices[structure_cell(i)] == indices[structure_cell(j)]) <==> (keys[i] == keys[j]),
{
    let ei = indices[structure_cell(i)];
    let ej = indices[structure_cell(j)];
    if keys[i] == keys[j] && ei != ej {
        let a = firsts[ei - 1] as int;
        let b = firsts[ej - 1] as int;
        assert(keys[a] == keys[b]);
        if ei < ej {
            assert(firsts[ei - 1] < firsts[ej - 1]);
            assert(keys.take(b)[a] == keys[a]);
            assert(keys.take(b).contains(keys[b]));
        } else {
            assert(firsts[ej - 1] < firsts[ei - 1]);
            assert(keys.take(a)[b] == keys[b]);
            assert(keys.take(a).contains(keys[a]));
        }
    }
}

} // verus!

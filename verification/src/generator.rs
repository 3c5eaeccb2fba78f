//! Pixel-art generation: from matched palette entries to blocks, preview, commands,
//! function files and structure files.
use vstd::prelude::*;
use vstd::string::*;

use crate::common::{spec_switch_xyz, switch_xyz};
use crate::ditherer::{dist_mode, spec_dist_mode, PaletteColorInput};
use crate::nbt::{
    blocks_model, no_duplicates, position_index, set_block_model, set_block_reads_back,
    structure_bytes, structure_volume, McStructure,
};
use crate::staircase::{
    abs_int, compress_staircase_column, compressed, is_solid, stair_palette, stair_rgb_spec,
    staircase_column, staircase_step, spec_staircase_step, walked_cell, StairCell,
};
use crate::ditherer::palette_colors;
use crate::text::{int_text, push_i64};

verus! {

/// Lines per `.mcfunction` file when slicing is on.
pub const FUNCTION_LINES: usize = 10000;

/// What to generate and how to lay it out.
pub struct GenParams {
    /// 0 = xOy, 1 = xOz, 2 = yOz.
    pub plane: i32,
    pub color_distance: String,
    pub use_staircase: bool,
    pub use_struct: bool,
    pub staircase_gap: i32,
    /// Compress the staircase: step at most 2, each run sunk to the base.
    pub staircase_compress: bool,
    pub offset: [i32; 3],
    pub auto_slice_mcfunction: bool,
    pub use_dithering: bool,
    pub socket_output: bool,
    /// Collect `(x, y, z, id)` for writing into a world instead of files or commands.
    pub ldb_output: bool,
}

/// What generation produced.
pub struct GenOutput {
    /// RGBA preview, row-major, `width * height * 4` bytes.
    pub preview: Vec<u8>,
    pub commands: Option<Vec<String>>,
    /// Blocks for a world write, in world-relative coordinates.
    pub blocks_ldb: Option<Vec<(i32, i32, i32, String)>>,
    /// Bounding-box size of the emitted blocks.
    pub size: [i32; 3],
    pub function_files: usize,
    /// The text of `output_{i}.mcfunction`, for each `i`.
    pub functions: Vec<String>,
    /// The bytes of `output.mcstructure`, where one is written.
    pub structure: Option<Vec<u8>>,
}

/// A matched grid cell: its height, palette entry and preview colour.
#[derive(Clone, Copy, Debug)]
pub struct GridEntry {
    pub y: i32,
    pub pal: usize,
    pub colour: [u8; 3],
}

/// A block as emitted: grid position, height and palette entry.
#[derive(Clone, Copy, PartialEq, Eq, Structural, Debug)]
pub struct Placed {
    pub x: i32,
    pub y: i32,
    pub z: i32,
    pub pal: usize,
}

/// The grid cell visited `k`-th: columns `x` in order, each column's cells `z` ascending,
/// or descending when `desc`.
pub open spec fn visit(k: int, h: int, desc: bool) -> (int, int) {
    (k / h, if desc {
        h - 1 - k % h
    } else {
        k % h
    })
}

/// The blocks emitted after visiting `k` cells of a column-major grid of height `h`.
pub open spec fn emitted(entries: Seq<Option<GridEntry>>, h: int, desc: bool, k: int) -> Seq<Placed>
    decreases k,
{
    if k <= 0 {
        Seq::empty()
    } else {
        let prev = emitted(entries, h, desc, k - 1);
        let (x, z) = visit(k - 1, h, desc);
        match entries[x * h + z] {
            Some(e) => prev.push(Placed { x: x as i32, y: e.y, z: z as i32, pal: e.pal }),
            None => prev,
        }
    }
}

/// The RGBA preview of a grid: pixel `(x, z)` (row `z`) shows its entry's colour opaque,
/// or stays transparent black.
pub open spec fn preview_bytes(entries: Seq<Option<GridEntry>>, w: int, h: int) -> Seq<u8> {
    Seq::new(
        (w * h * 4) as nat,
        |i: int|
            {
                let pix = i / 4;
                let ch = i % 4;
                match entries[(pix % w) * h + pix / w] {
                    Some(e) => if ch < 3 {
                        e.colour[ch]
                    } else {
                        255u8
                    },
                    None => 0u8,
                }
            },
    )
}

proof fn lemma_visit(x: int, j: int, h: int, desc: bool)
    requires
        0 <= x,
        0 <= j < h,
    ensures
        visit(x * h + j, h, desc) == (x, if desc {
            h - 1 - j
        } else {
            j
        }),
{
    assert((x * h + j) / h == x && (x * h + j) % h == j) by (nonlinear_arith)
        requires
            0 <= x,
            0 <= j < h,
    ;
}

proof fn lemma_pixel(x: int, z: int, w: int, h: int)
    requires
        0 <= x < w,
        0 <= z < h,
    ensures
        0 <= (z * w + x) * 4 && (z * w + x) * 4 + 3 < w * h * 4,
        (z * w + x) % w == x,
        (z * w + x) / w == z,
{
    assert(0 <= (z * w + x) * 4 && (z * w + x) * 4 + 3 < w * h * 4) by (nonlinear_arith)
        requires
            0 <= x < w,
            0 <= z < h,
    ;
    assert((z * w + x) % w == x && (z * w + x) / w == z) by (nonlinear_arith)
        requires
            0 <= x < w,
            0 <= z < h,
    ;
}

/// Walks a column-major grid in emission order: the emitted blocks, and the preview.
pub fn collect_blocks(entries: &Vec<Option<GridEntry>>, w: usize, h: usize, desc: bool) -> (res: (
    Vec<u8>,
    Vec<Placed>,
))
    requires
        entries@.len() == w * h,
        w * h * 4 <= usize::MAX,
        w <= i32::MAX,
        h <= i32::MAX,
    ensures
        res.0@ == preview_bytes(entries@, w as int, h as int),
        res.1@ == emitted(entries@, h as int, desc, (w * h) as int),
{
    let total = w * h * 4;
    let mut preview: Vec<u8> = vec![0u8; total];
    let mut placed: Vec<Placed> = Vec::new();
    let mut x: usize = 0;
    let mut base: usize = 0;
    proof {
        assert(w * h * 4 == (w * h) * 4) by (nonlinear_arith);
    }
    while x < w
        invariant
            entries@.len() == w * h,
            total == w * h * 4,
            w * h * 4 <= usize::MAX,
            w <= i32::MAX,
            h <= i32::MAX,
            x <= w,
            base == x * h,
            preview@.len() == total,
            placed@ == emitted(entries@, h as int, desc, base as int),
            forall|i: int|
                0 <= i < total ==> #[trigger] preview@[i] == (if (i / 4) % (w as int) < x {
                    preview_bytes(entries@, w as int, h as int)[i]
                } else {
                    0u8
                }),
        decreases w - x,
    {
        proof {
            assert((x + 1) * h <= w * h) by (nonlinear_arith)
                requires x < w;
            assert(w * h <= w * h * 4) by (nonlinear_arith);
            assert forall|i: int| 0 <= i < total implies 0 <= #[trigger] ((i / 4) / (w as int))
                < h by {
                assert(0 <= (i / 4) / (w as int) < h) by (nonlinear_arith)
                    requires
                        0 <= i < w * h * 4,
                        w > 0,
                ;
            }
        }
        let mut j: usize = 0;
        while j < h
            invariant
                entries@.len() == w * h,
                total == w * h * 4,
                w * h * 4 <= usize::MAX,
                w <= i32::MAX,
                h <= i32::MAX,
                x < w,
                j <= h,
                base == x * h,
                (x + 1) * h <= w * h,
                w * h <= w * h * 4,
                forall|i: int| 0 <= i < total ==> 0 <= #[trigger] ((i / 4) / (w as int)) < h,
                preview@.len() == total,
                placed@ == emitted(entries@, h as int, desc, base + j),
                forall|i: int|
                    0 <= i < total ==> #[trigger] preview@[i] == (if (i / 4) % (w as int) < x || ((i
                        / 4) % (w as int) == x && (if desc {
                        h - 1 - (i / 4) / (w as int) < j
                    } else {
                        (i / 4) / (w as int) < j
                    })) {
                        preview_bytes(entries@, w as int, h as int)[i]
                    } else {
                        0u8
                    }),
            decreases h - j,
        {
            let z: usize = if desc {
                h - 1 - j
            } else {
                j
            };
            proof {
                lemma_visit(x as int, j as int, h as int, desc);
            }
            proof {
                assert(x * h + z < w * h) by (nonlinear_arith)
                    requires
                        z < h,
                        (x + 1) * h <= w * h,
                ;
                lemma_pixel(x as int, z as int, w as int, h as int);
            }
            let k = base + z;
            let ghost pre = preview@;
            match entries[k] {
                Some(e) => {
                    let i4 = (z * w + x) * 4;
                    preview.set(i4, e.colour[0]);
                    preview.set(i4 + 1, e.colour[1]);
                    preview.set(i4 + 2, e.colour[2]);
                    preview.set(i4 + 3, 255u8);
                    placed.push(Placed { x: x as i32, y: e.y, z: z as i32, pal: e.pal });
                },
                None => {},
            }
            proof {
                let pix = (z * w + x) as int;
                assert forall|i: int|
                    0 <= i < total implies #[trigger] preview@[i] == (if (i / 4) % (w as int) < x
                    || ((i / 4) % (w as int) == x && (if desc {
                    h - 1 - (i / 4) / (w as int) < j + 1
                } else {
                    (i / 4) / (w as int) < j + 1
                })) {
                    preview_bytes(entries@, w as int, h as int)[i]
                } else {
                    0u8
                }) by {
                    if i / 4 == pix {
                        assert(i == pix * 4 + i % 4);
                    } else {
                        assert(preview@[i] == pre[i]);
                        if (i / 4) % (w as int) == x {
                            let zz = (i / 4) / (w as int);
                            assert(i / 4 == zz * w + x) by (nonlinear_arith)
                                requires
                                    (i / 4) % (w as int) == x,
                                    zz == (i / 4) / (w as int),
                                    w > 0,
                            ;
                            assert(zz != z);
                        }
                    }
                }
            }
            j = j + 1;
        }
        proof {
            assert(base + h == (x + 1) * h) by (nonlinear_arith)
                requires base == x * h;
        }
        base = base + h;
        x = x + 1;
    }
    (preview, placed)
}

// ---------------------------------------------------------------------------
// Command text
// ---------------------------------------------------------------------------
/// `setblock ~x ~y ~z id`.
pub open spec fn setblock_text(x: int, y: int, z: int, id: Seq<char>) -> Seq<char> {
    "setblock ~"@ + int_text(x) + " ~"@ + int_text(y) + " ~"@ + int_text(z) + " "@ + id
}

/// The `setblock` command for a block at `(x, y, z)`.
pub fn setblock_line(x: i32, y: i32, z: i32, id: &str) -> (res: String)
    ensures
        res@ == setblock_text(x as int, y as int, z as int, id@),
{
    let mut s = String::new();
    s.append("setblock ~");
    push_i64(&mut s, x as i64);
    s.append(" ~");
    push_i64(&mut s, y as i64);
    s.append(" ~");
    push_i64(&mut s, z as i64);
    s.append(" ");
    s.append(id);
    assert(s@ =~= setblock_text(x as int, y as int, z as int, id@));
    s
}

/// World-relative coordinates of a grid block: flat art is switched into its plane (a
/// staircase is not), then the offset is added.
pub open spec fn spec_command_coords(staircase: bool, plane: i32, offset: [i32; 3], x: i32, y: i32, z: i32) -> (int, int, int) {
    let s = if staircase {
        [x, y, z]
    } else {
        spec_switch_xyz(plane, [x, y, z])
    };
    (s[0] + offset[0], s[1] + offset[1], s[2] + offset[2])
}

/// Where a grid block lands in the world: a staircase block keeps its grid coordinates;
/// flat art is stood in its plane — plane 0 (xOy) swaps `y` and `z`, plane 1 (xOz) keeps the
/// grid as it is, plane 2 (yOz) swaps `x` and `y` — and then the offset is added. For flat
/// art the command coordinates are the structure position plus the offset.
pub proof fn commands_stand_in_their_plane(
    plane: i32,
    offset: [i32; 3],
    x: i32,
    y: i32,
    z: i32,
    ly: int,
)
    ensures
        spec_command_coords(true, plane, offset, x, y, z) == (
            x + offset[0],
            y + offset[1],
            z + offset[2],
        ),
        plane == 0 ==> spec_command_coords(false, plane, offset, x, y, z) == (
            x + offset[0],
            z + offset[1],
            y + offset[2],
        ),
        plane == 1 ==> spec_command_coords(false, plane, offset, x, y, z) == (
            x + offset[0],
            y + offset[1],
            z + offset[2],
        ),
        plane == 2 ==> spec_command_coords(false, plane, offset, x, y, z) == (
            y + offset[0],
            x + offset[1],
            z + offset[2],
        ),
        ({
            let c = spec_command_coords(false, plane, offset, x, y, z);
            let s = structure_position(false, plane, Placed { x, y, z, pal: 0 }, ly);
            c == (s[0] + offset[0], s[1] + offset[1], s[2] + offset[2])
        }),
{
}

/// Bound on the heights of staircase blocks.
pub open spec fn coord_bound() -> int {
    0x3FFF_FFFF
}

pub open spec fn in_bound(v: int) -> bool {
    -coord_bound() <= v <= coord_bound()
}

pub open spec fn fits_i32(v: int) -> bool {
    i32::MIN <= v <= i32::MAX
}

/// A block's world-relative coordinates are `i32`s.
pub open spec fn coords_fit(staircase: bool, plane: i32, offset: [i32; 3], p: Placed) -> bool {
    let c = spec_command_coords(staircase, plane, offset, p.x, p.y, p.z);
    fits_i32(c.0) && fits_i32(c.1) && fits_i32(c.2)
}

/// Every block's world-relative coordinates are `i32`s.
pub open spec fn all_coords_fit(params: GenParams, ps: Seq<Placed>) -> bool {
    forall|i: int|
        0 <= i < ps.len() ==> coords_fit(
            params.use_staircase,
            params.plane,
            params.offset,
            #[trigger] ps[i],
        )
}

fn command_coords(staircase: bool, plane: i32, offset: [i32; 3], x: i32, y: i32, z: i32) -> (res: (
    i32,
    i32,
    i32,
))
    requires
        coords_fit(staircase, plane, offset, Placed { x, y, z, pal: 0 }),
    ensures
        (res.0 as int, res.1 as int, res.2 as int) == spec_command_coords(
            staircase,
            plane,
            offset,
            x,
            y,
            z,
        ),
{
    let s = if staircase {
        [x, y, z]
    } else {
        switch_xyz(plane, [x, y, z])
    };
    (s[0] + offset[0], s[1] + offset[1], s[2] + offset[2])
}

// ---------------------------------------------------------------------------
// Function files
// ---------------------------------------------------------------------------
pub open spec fn concat_text(lines: Seq<Seq<char>>) -> Seq<char>
    decreases lines.len(),
{
    if lines.len() == 0 {
        Seq::empty()
    } else {
        concat_text(lines.drop_last()) + lines.last()
    }
}

/// The `.mcfunction` files that hold `lines`, one after another: a single file, or, when
/// slicing, a new file after every `FUNCTION_LINES` lines (so the last may be empty).
pub open spec fn function_files(lines: Seq<Seq<char>>, slice: bool) -> Seq<Seq<char>>
    decreases lines.len(),
{
    if lines.len() == 0 {
        seq![Seq::<char>::empty()]
    } else {
        let prev = function_files(lines.drop_last(), slice);
        let files = prev.drop_last().push(prev.last() + lines.last());
        if slice && lines.len() % (FUNCTION_LINES as nat) == 0 {
            files.push(Seq::<char>::empty())
        } else {
            files
        }
    }
}

/// There is always at least one file, the one still being filled.
pub proof fn lemma_function_files_nonempty(lines: Seq<Seq<char>>, slice: bool)
    ensures
        function_files(lines, slice).len() >= 1,
    decreases lines.len(),
{
    if lines.len() > 0 {
        lemma_function_files_nonempty(lines.drop_last(), slice);
    }
}

/// Concatenating the files gives back every line, in order: slicing loses and reorders
/// nothing.
pub proof fn function_files_keep_lines(lines: Seq<Seq<char>>, slice: bool)
    ensures
        concat_text(function_files(lines, slice)) == concat_text(lines),
    decreases lines.len(),
{
    if lines.len() > 0 {
        let prev = function_files(lines.drop_last(), slice);
        function_files_keep_lines(lines.drop_last(), slice);
        lemma_function_files_nonempty(lines.drop_last(), slice);
        let files = prev.drop_last().push(prev.last() + lines.last());
        assert(files.drop_last() == prev.drop_last());
        assert(prev.drop_last().push(prev.last()) == prev);
        assert(concat_text(prev) == concat_text(prev.drop_last()) + prev.last());
        assert(concat_text(files) == concat_text(prev.drop_last()) + (prev.last() + lines.last()));
        assert(concat_text(files) =~= concat_text(prev) + lines.last());
        if slice && lines.len() % (FUNCTION_LINES as nat) == 0 {
            let more = files.push(Seq::<char>::empty());
            assert(function_files(lines, slice) == more);
            assert(more.drop_last() == files);
            assert(concat_text(more) == concat_text(files) + Seq::<char>::empty());
            assert(concat_text(files) + Seq::<char>::empty() =~= concat_text(files));
        } else {
            assert(function_files(lines, slice) == files);
        }
        assert(concat_text(lines) == concat_text(lines.drop_last()) + lines.last());
    } else {
        let one = seq![Seq::<char>::empty()];
        assert(one.drop_last() =~= Seq::<Seq<char>>::empty());
        assert(concat_text(one.drop_last()) == Seq::<char>::empty());
        assert(one.last() == Seq::<char>::empty());
        assert(concat_text(one) == concat_text(one.drop_last()) + one.last());
        assert(concat_text(one) =~= Seq::<char>::empty());
    }
}

// ---------------------------------------------------------------------------
// Grid
// ---------------------------------------------------------------------------
/// Whether grid cell `(x, z)` is drawn: without an alpha channel always, else where the
/// source pixel `(w-1-x, h-1-z)` is fully opaque.
pub open spec fn opaque_at(alpha: Option<Seq<u8>>, w: int, h: int, x: int, z: int) -> bool {
    match alpha {
        None => true,
        Some(a) => a[(h - 1 - z) * w + (w - 1 - x)] == 255,
    }
}

/// Grid cell `k` (column-major: `k = x * h + z`) of flat art.
pub open spec fn flat_entry(
    alpha: Option<Seq<u8>>,
    matches: Seq<u16>,
    rgb: Seq<[u8; 3]>,
    w: int,
    h: int,
    k: int,
) -> Option<GridEntry> {
    if opaque_at(alpha, w, h, k / h, k % h) && matches[k] != u16::MAX {
        Some(GridEntry { y: 0, pal: matches[k] as usize, colour: rgb[matches[k] as int] })
    } else {
        None
    }
}

/// Column `x` of a staircase: walked from the south, then compressed where asked.
pub open spec fn stair_column(
    alpha: Option<Seq<u8>>,
    matches: Seq<u16>,
    w: int,
    h: int,
    x: int,
    step: i32,
    compress: bool,
) -> Seq<StairCell> {
    let choices = matches.subrange(x * h, x * h + h);
    let opaque = Seq::new(h as nat, |z: int| opaque_at(alpha, w, h, x, z));
    let walked = Seq::new(h as nat, |z: int| walked_cell(choices, opaque, step, z));
    if compress {
        compressed(walked, step as int)
    } else {
        walked
    }
}

/// Grid cell `k` of a staircase.
pub open spec fn stair_entry(
    alpha: Option<Seq<u8>>,
    matches: Seq<u16>,
    stair_rgb: Seq<[u8; 3]>,
    w: int,
    h: int,
    step: i32,
    compress: bool,
    k: int,
) -> Option<GridEntry> {
    let c = stair_column(alpha, matches, w, h, k / h, step, compress)[k % h];
    if is_solid(c) {
        Some(
            GridEntry {
                y: c.y,
                pal: c.idx as usize,
                colour: stair_rgb[c.idx * 3 + c.shade],
            },
        )
    } else {
        None
    }
}

/// The characters of each string.
pub open spec fn texts(v: Seq<String>) -> Seq<Seq<char>> {
    v.map_values(|s: String| s@)
}

/// The `.mcfunction` files that hold `lines`.
pub fn function_texts(lines: &Vec<String>, slice: bool) -> (res: Vec<String>)
    ensures
        texts(res@) == function_files(texts(lines@), slice),
{
    let mut done: Vec<String> = Vec::new();
    let mut cur = String::new();
    let mut count: usize = 0;
    let mut i: usize = 0;
    proof {
        assert(texts(lines@).subrange(0, 0) =~= Seq::<Seq<char>>::empty());
        assert(texts(done@).push(cur@) =~= seq![Seq::<char>::empty()]);
    }
    while i < lines.len()
        invariant
            i <= lines@.len(),
            count <= i,
            slice ==> count as int == i as int % (FUNCTION_LINES as int),
            texts(done@).push(cur@) == function_files(texts(lines@).subrange(0, i as int), slice),
        decreases lines@.len() - i,
    {
        let ghost prev = function_files(texts(lines@).subrange(0, i as int), slice);
        let ghost sub = texts(lines@).subrange(0, i + 1);
        proof {
            assert(sub.drop_last() =~= texts(lines@).subrange(0, i as int));
            assert(sub.last() == lines@[i as int]@);
            assert(prev.drop_last() =~= texts(done@));
            assert(prev.last() == cur@);
        }
        cur.append(lines[i].as_str());
        count = count + 1;
        if slice && count >= FUNCTION_LINES {
            let full = cur;
            cur = String::new();
            done.push(full);
            count = 0;
            proof {
                assert(texts(done@).push(cur@) =~= prev.drop_last().push(prev.last() + sub.last()).push(
                    Seq::<char>::empty(),
                ));
            }
        } else {
            proof {
                assert(texts(done@).push(cur@) =~= prev.drop_last().push(prev.last() + sub.last()));
            }
        }
        i = i + 1;
    }
    proof {
        assert(texts(lines@).subrange(0, lines@.len() as int) =~= texts(lines@));
    }
    done.push(cur);
    done
}

proof fn lemma_grid_index(x: int, z: int, w: int, h: int)
    requires
        0 <= x < w,
        0 <= z < h,
    ensures
        0 <= x * h + z < w * h,
        (x * h + z) / h == x,
        (x * h + z) % h == z,
        0 <= (h - 1 - z) * w + (w - 1 - x) < w * h,
{
    assert(0 <= x * h + z < w * h && (x * h + z) / h == x && (x * h + z) % h == z)
        by (nonlinear_arith)
        requires
            0 <= x < w,
            0 <= z < h,
    ;
    assert(0 <= (h - 1 - z) * w + (w - 1 - x) < w * h) by (nonlinear_arith)
        requires
            0 <= x < w,
            0 <= z < h,
    ;
}

/// Whether each grid cell is drawn, column-major.
fn opaque_column(alpha: Option<&Vec<u8>>, w: usize, h: usize, x: usize) -> (res: Vec<bool>)
    requires
        x < w,
        w * h <= usize::MAX,
        alpha matches Some(a) ==> a@.len() >= w * h,
    ensures
        res@.len() == h,
        forall|z: int|
            0 <= z < h ==> #[trigger] res@[z] == opaque_at(
                match alpha {
                    Some(a) => Some(a@),
                    None => None,
                },
                w as int,
                h as int,
                x as int,
                z,
            ),
{
    let mut res: Vec<bool> = Vec::new();
    let mut z: usize = 0;
    while z < h
        invariant
            x < w,
            w * h <= usize::MAX,
            alpha matches Some(a) ==> a@.len() >= w * h,
            z <= h,
            res@.len() == z,
            forall|q: int|
                0 <= q < z ==> #[trigger] res@[q] == opaque_at(
                    match alpha {
                        Some(a) => Some(a@),
                        None => None,
                    },
                    w as int,
                    h as int,
                    x as int,
                    q,
                ),
        decreases h - z,
    {
        proof {
            lemma_grid_index(x as int, z as int, w as int, h as int);
        }
        let o = match alpha {
            None => true,
            Some(a) => a[(h - 1 - z) * w + (w - 1 - x)] == 255,
        };
        res.push(o);
        z = z + 1;
    }
    res
}

pub open spec fn alpha_view(alpha: Option<&Vec<u8>>) -> Option<Seq<u8>> {
    match alpha {
        Some(a) => Some(a@),
        None => None,
    }
}

/// The grid entries of flat art.
pub fn flat_entries(
    alpha: Option<&Vec<u8>>,
    matches: &Vec<u16>,
    rgb: &Vec<[u8; 3]>,
    w: usize,
    h: usize,
) -> (res: Vec<Option<GridEntry>>)
    requires
        w * h <= usize::MAX,
        matches@.len() == w * h,
        alpha matches Some(a) ==> a@.len() >= w * h,
        forall|k: int| 0 <= k < w * h ==> #[trigger] matches@[k] == u16::MAX || matches@[k] < rgb@.len(),
    ensures
        res@.len() == w * h,
        forall|k: int|
            0 <= k < w * h ==> #[trigger] res@[k] == flat_entry(
                alpha_view(alpha),
                matches@,
                rgb@,
                w as int,
                h as int,
                k,
            ),
{
    let mut res: Vec<Option<GridEntry>> = Vec::new();
    let mut x: usize = 0;
    while x < w
        invariant
            w * h <= usize::MAX,
            matches@.len() == w * h,
            alpha matches Some(a) ==> a@.len() >= w * h,
            forall|k: int|
                0 <= k < w * h ==> #[trigger] matches@[k] == u16::MAX || matches@[k] < rgb@.len(),
            x <= w,
            res@.len() == x * h,
            forall|k: int|
                0 <= k < x * h ==> #[trigger] res@[k] == flat_entry(
                    alpha_view(alpha),
                    matches@,
                    rgb@,
                    w as int,
                    h as int,
                    k,
                ),
        decreases w - x,
    {
        let opaque = opaque_column(alpha, w, h, x);
        let mut z: usize = 0;
        proof {
            assert((x + 1) * h <= w * h) by (nonlinear_arith)
                requires x < w;
            assert((x + 1) * h == x * h + h) by (nonlinear_arith);
        }
        while z < h
            invariant
                w * h <= usize::MAX,
                matches@.len() == w * h,
                forall|k: int|
                    0 <= k < w * h ==> #[trigger] matches@[k] == u16::MAX || matches@[k] < rgb@.len(),
                x < w,
                z <= h,
                (x + 1) * h <= w * h,
                res@.len() == x * h + z,
                opaque@.len() == h,
                forall|q: int|
                    0 <= q < h ==> #[trigger] opaque@[q] == opaque_at(
                        alpha_view(alpha),
                        w as int,
                        h as int,
                        x as int,
                        q,
                    ),
                forall|k: int|
                    0 <= k < x * h + z ==> #[trigger] res@[k] == flat_entry(
                        alpha_view(alpha),
                        matches@,
                        rgb@,
                        w as int,
                        h as int,
                        k,
                    ),
            decreases h - z,
        {
            proof {
                lemma_grid_index(x as int, z as int, w as int, h as int);
            }
            let k = x * h + z;
            let m = matches[k];
            let e = if opaque[z] && m != u16::MAX {
                Some(GridEntry { y: 0, pal: m as usize, colour: rgb[m as usize] })
            } else {
                None
            };
            res.push(e);
            z = z + 1;
        }
        x = x + 1;
    }
    res
}

fn copy_range(v: &Vec<u16>, start: usize, len: usize) -> (res: Vec<u16>)
    requires
        start + len <= v.len(),
    ensures
        res@ == v@.subrange(start as int, start + len),
{
    let mut res: Vec<u16> = Vec::new();
    let mut i: usize = 0;
    while i < len
        invariant
            start + len <= v.len(),
            i <= len,
            res@ == v@.subrange(start as int, start + i),
        decreases len - i,
    {
        res.push(v[start + i]);
        i = i + 1;
        assert(res@ =~= v@.subrange(start as int, start + i));
    }
    res
}

/// The grid entries of a staircase.
pub fn stair_entries(
    alpha: Option<&Vec<u8>>,
    matches: &Vec<u16>,
    stair_rgb: &Vec<[u8; 3]>,
    w: usize,
    h: usize,
    step: i32,
    compress: bool,
) -> (res: Vec<Option<GridEntry>>)
    requires
        w * h <= usize::MAX,
        matches@.len() == w * h,
        alpha matches Some(a) ==> a@.len() >= w * h,
        forall|k: int| 0 <= k < w * h ==> #[trigger] matches@[k] < stair_rgb@.len(),
        h * abs_int(step as int) <= 0x1FFF_FFFF,
    ensures
        res@.len() == w * h,
        forall|k: int|
            0 <= k < w * h ==> #[trigger] res@[k] == stair_entry(
                alpha_view(alpha),
                matches@,
                stair_rgb@,
                w as int,
                h as int,
                step,
                compress,
                k,
            ),
        forall|k: int|
            0 <= k < w * h ==> (#[trigger] res@[k] matches Some(e) ==> in_bound(e.y as int) && e.pal
                * 3 < stair_rgb@.len()),
{
    let mut res: Vec<Option<GridEntry>> = Vec::new();
    let mut x: usize = 0;
    while x < w
        invariant
            w * h <= usize::MAX,
            matches@.len() == w * h,
            alpha matches Some(a) ==> a@.len() >= w * h,
            forall|k: int| 0 <= k < w * h ==> #[trigger] matches@[k] < stair_rgb@.len(),
            h * abs_int(step as int) <= 0x1FFF_FFFF,
            x <= w,
            res@.len() == x * h,
            forall|k: int|
                0 <= k < x * h ==> #[trigger] res@[k] == stair_entry(
                    alpha_view(alpha),
                    matches@,
                    stair_rgb@,
                    w as int,
                    h as int,
                    step,
                    compress,
                    k,
                ),
            forall|k: int|
                0 <= k < x * h ==> (#[trigger] res@[k] matches Some(e) ==> in_bound(e.y as int)
                    && e.pal * 3 < stair_rgb@.len()),
        decreases w - x,
    {
        proof {
            assert((x + 1) * h <= w * h) by (nonlinear_arith)
                requires x < w;
            assert((x + 1) * h == x * h + h) by (nonlinear_arith);
        }
        let opaque = opaque_column(alpha, w, h, x);
        let base = x * h;
        let choices = copy_range(matches, base, h);
        let mut col = staircase_column(choices.as_slice(), opaque.as_slice(), step);
        let ghost walked = col@;
        assert(choices@.len() == h);
        if compress {
            compress_staircase_column(&mut col, step);
        }
        let ghost column = stair_column(
            alpha_view(alpha),
            matches@,
            w as int,
            h as int,
            x as int,
            step,
            compress,
        );
        proof {
            let op = Seq::new(h as nat, |z: int| opaque_at(alpha_view(alpha), w as int, h as int, x as int, z));
            assert(opaque@ =~= op);
            assert(walked =~= Seq::new(h as nat, |z: int| walked_cell(choices@, opaque@, step, z)));
            assert(col@ == column);
            assert forall|q: int|
                0 <= q < h && is_solid(#[trigger] col@[q]) implies in_bound(col@[q].y as int)
                    && col@[q].idx * 3 + col@[q].shade == choices@[q] by {
                assert(is_solid(walked[q]));
                assert(opaque@[q]);
                assert(walked[q] == walked_cell(choices@, opaque@, step, q));
                let m = choices@[q];
                assert((m / 3) * 3 + m % 3 == m);
                assert(walked[q].idx * 3 + walked[q].shade == choices@[q]);
                assert(abs_int(walked[q].y as int) <= h * abs_int(step as int));
                assert(2 * h * abs_int(step as int) == 2 * (h * abs_int(step as int)))
                    by (nonlinear_arith);
                if compress {
                    assert(col@[q].idx == walked[q].idx && col@[q].shade == walked[q].shade);
                    assert(col@[q].y >= 0);
                    assert(col@[q].y <= 2 * h * abs_int(step as int));
                } else {
                    assert(col@[q] == walked[q]);
                }
            }
        }
        let mut z: usize = 0;
        while z < h
            invariant
                w * h <= usize::MAX,
                matches@.len() == w * h,
                forall|k: int| 0 <= k < w * h ==> #[trigger] matches@[k] < stair_rgb@.len(),
                h * abs_int(step as int) <= 0x1FFF_FFFF,
                x < w,
                z <= h,
                (x + 1) * h <= w * h,
                res@.len() == x * h + z,
                col@ == column,
                column == stair_column(
                    alpha_view(alpha),
                    matches@,
                    w as int,
                    h as int,
                    x as int,
                    step,
                    compress,
                ),
                col@.len() == h,
                base == x * h,
                base + h <= w * h,
                choices@ == matches@.subrange(base as int, base + h),
                forall|q: int|
                    0 <= q < h && is_solid(#[trigger] col@[q]) ==> in_bound(col@[q].y as int)
                        && col@[q].idx * 3 + col@[q].shade == choices@[q],
                forall|k: int|
                    0 <= k < x * h + z ==> #[trigger] res@[k] == stair_entry(
                        alpha_view(alpha),
                        matches@,
                        stair_rgb@,
                        w as int,
                        h as int,
                        step,
                        compress,
                        k,
                    ),
                forall|k: int|
                    0 <= k < x * h + z ==> (#[trigger] res@[k] matches Some(e) ==> in_bound(
                        e.y as int,
                    ) && e.pal * 3 < stair_rgb@.len()),
            decreases h - z,
        {
            proof {
                lemma_grid_index(x as int, z as int, w as int, h as int);
            }
            let c = col[z];
            proof {
                assert(choices@[z as int] == matches@[base + z]);
            }
            let e = if c.y != i32::MIN {
                Some(
                    GridEntry {
                        y: c.y,
                        pal: c.idx as usize,
                        colour: stair_rgb[c.idx as usize * 3 + c.shade as usize],
                    },
                )
            } else {
                None
            };
            res.push(e);
            proof {
                let k = x * h + z;
                assert(k / (h as int) == x && k % (h as int) == z);
                assert(stair_column(
                    alpha_view(alpha),
                    matches@,
                    w as int,
                    h as int,
                    k / (h as int),
                    step,
                    compress,
                ) == column);
                assert(column[k % (h as int)] == c);
                assert(res@[k] == e);
                assert(res@[k] == stair_entry(
                    alpha_view(alpha),
                    matches@,
                    stair_rgb@,
                    w as int,
                    h as int,
                    step,
                    compress,
                    k,
                ));
            }
            z = z + 1;
        }
        x = x + 1;
    }
    res
}

// ---------------------------------------------------------------------------
// Bounding box and structure file
// ---------------------------------------------------------------------------
pub open spec fn min_int(a: int, b: int) -> int {
    if a < b {
        a
    } else {
        b
    }
}

pub open spec fn max_int(a: int, b: int) -> int {
    if a > b {
        a
    } else {
        b
    }
}

/// Least and greatest `x`, `y`, `z` of the blocks (`i32::MAX` / `i32::MIN` when none).
pub open spec fn bbox(ps: Seq<Placed>) -> (int, int, int, int, int, int)
    decreases ps.len(),
{
    if ps.len() == 0 {
        (
            i32::MAX as int,
            i32::MAX as int,
            i32::MAX as int,
            i32::MIN as int,
            i32::MIN as int,
            i32::MIN as int,
        )
    } else {
        let b = bbox(ps.drop_last());
        let p = ps.last();
        (
            min_int(b.0, p.x as int),
            min_int(b.1, p.y as int),
            min_int(b.2, p.z as int),
            max_int(b.3, p.x as int),
            max_int(b.4, p.y as int),
            max_int(b.5, p.z as int),
        )
    }
}

/// The box, or all zeros when there are no blocks.
pub open spec fn bbox_or_zero(ps: Seq<Placed>) -> (int, int, int, int, int, int) {
    if ps.len() == 0 {
        (0, 0, 0, 0, 0, 0)
    } else {
        bbox(ps)
    }
}

/// Size of the box around the blocks: `max - min + 1` per axis, or 0s when there are none.
pub open spec fn bounding_size(ps: Seq<Placed>) -> [i32; 3] {
    if ps.len() == 0 {
        [0, 0, 0]
    } else {
        let b = bbox(ps);
        [(b.3 - b.0 + 1) as i32, (b.4 - b.1 + 1) as i32, (b.5 - b.2 + 1) as i32]
    }
}

/// Grid blocks: a column and a row that are valid `i32` indices, at a bounded height.
pub open spec fn placed_in_bound(ps: Seq<Placed>) -> bool {
    forall|i: int|
        0 <= i < ps.len() ==> 0 <= (#[trigger] ps[i]).x < i32::MAX && in_bound(ps[i].y as int)
            && 0 <= ps[i].z < i32::MAX
}

proof fn lemma_bbox_bound(ps: Seq<Placed>)
    requires
        placed_in_bound(ps),
        ps.len() > 0,
    ensures
        0 <= bbox(ps).0 <= bbox(ps).3 < i32::MAX,
        in_bound(bbox(ps).1) && in_bound(bbox(ps).4) && bbox(ps).1 <= bbox(ps).4,
        0 <= bbox(ps).2 <= bbox(ps).5 < i32::MAX,
    decreases ps.len(),
{
    if ps.len() > 1 {
        assert(placed_in_bound(ps.drop_last())) by {
            assert forall|i: int| 0 <= i < ps.drop_last().len() implies 0 <= (
            #[trigger] ps.drop_last()[i]).x < i32::MAX && in_bound(ps.drop_last()[i].y as int) && 0
                <= ps.drop_last()[i].z < i32::MAX by {
                assert(ps.drop_last()[i] == ps[i]);
            }
        }
        lemma_bbox_bound(ps.drop_last());
    } else {
        assert(ps.drop_last().len() == 0);
        assert(bbox(ps.drop_last()).0 == i32::MAX);
    }
    let l = ps[ps.len() - 1];
    assert(ps.last() == l);
    assert(0 <= l.x < i32::MAX && in_bound(l.y as int) && 0 <= l.z < i32::MAX);
}

/// Every block lies in the box.
proof fn lemma_bbox_contains(ps: Seq<Placed>, i: int)
    requires
        0 <= i < ps.len(),
    ensures
        bbox(ps).0 <= ps[i].x <= bbox(ps).3,
        bbox(ps).1 <= ps[i].y <= bbox(ps).4,
        bbox(ps).2 <= ps[i].z <= bbox(ps).5,
    decreases ps.len(),
{
    if i < ps.len() - 1 {
        assert(ps.drop_last()[i] == ps[i]);
        lemma_bbox_contains(ps.drop_last(), i);
    }
}

fn bbox_exec(ps: &Vec<Placed>) -> (res: (i32, i32, i32, i32, i32, i32))
    ensures
        (res.0 as int, res.1 as int, res.2 as int, res.3 as int, res.4 as int, res.5 as int)
            == bbox(ps@),
{
    let (mut lx, mut ly, mut lz) = (i32::MAX, i32::MAX, i32::MAX);
    let (mut mx, mut my, mut mz) = (i32::MIN, i32::MIN, i32::MIN);
    let mut i: usize = 0;
    while i < ps.len()
        invariant
            i <= ps@.len(),
            (lx as int, ly as int, lz as int, mx as int, my as int, mz as int) == bbox(
                ps@.subrange(0, i as int),
            ),
        decreases ps@.len() - i,
    {
        let p = ps[i];
        if p.x < lx {
            lx = p.x;
        }
        if p.y < ly {
            ly = p.y;
        }
        if p.z < lz {
            lz = p.z;
        }
        if p.x > mx {
            mx = p.x;
        }
        if p.y > my {
            my = p.y;
        }
        if p.z > mz {
            mz = p.z;
        }
        proof {
            let sub = ps@.subrange(0, i + 1);
            assert(sub.drop_last() =~= ps@.subrange(0, i as int));
            assert(sub.last() == p);
        }
        i = i + 1;
    }
    assert(ps@.subrange(0, ps@.len() as int) =~= ps@);
    (lx, ly, lz, mx, my, mz)
}

/// Size of the box around the blocks.
pub fn bounding_size_of(ps: &Vec<Placed>) -> (res: [i32; 3])
    requires
        placed_in_bound(ps@),
    ensures
        res == bounding_size(ps@),
{
    if ps.len() == 0 {
        return [0, 0, 0];
    }
    let b = bbox_exec(ps);
    proof {
        lemma_bbox_bound(ps@);
    }
    [b.3 - b.0 + 1, b.4 - b.1 + 1, b.5 - b.2 + 1]
}

/// The id of each palette entry.
pub open spec fn palette_ids(palette: Seq<PaletteColorInput>) -> Seq<Seq<char>> {
    palette.map_values(|p: PaletteColorInput| p.id@)
}

/// Size of the structure written for the blocks: the box (a 1×1×1 box when there are no
/// blocks), switched into the plane unless it is a staircase.
pub open spec fn structure_size(staircase: bool, plane: i32, ps: Seq<Placed>) -> [i32; 3] {
    let b = bbox_or_zero(ps);
    let raw = [(b.3 - b.0 + 1) as i32, (b.4 - b.1 + 1) as i32, (b.5 - b.2 + 1) as i32];
    if staircase {
        raw
    } else {
        spec_switch_xyz(plane, raw)
    }
}

/// The position `McStructure::set_block` takes for the 0-based cell `p`: it counts each
/// coordinate from 1, so cell `p` is stored at `(p.x * sy + p.y) * sz + p.z`.
pub open spec fn slot_pos(p: [i32; 3]) -> [i32; 3] {
    [(p[0] + 1) as i32, (p[1] + 1) as i32, (p[2] + 1) as i32]
}

fn slot_of(p: [i32; 3]) -> (res: [i32; 3])
    requires
        p[0] < i32::MAX && p[1] < i32::MAX && p[2] < i32::MAX,
    ensures
        res == slot_pos(p),
{
    [p[0] + 1, p[1] + 1, p[2] + 1]
}

/// Where the 0-based cell `p` is stored in a structure of the given size.
pub open spec fn cell_index(size: [i32; 3], p: [i32; 3]) -> int {
    (p[0] * size[1] + p[1]) * size[2] + p[2]
}

/// `p` is a cell of a structure of the given size.
pub open spec fn cell_in(size: [i32; 3], p: [i32; 3]) -> bool {
    0 <= p[0] < size[0] && 0 <= p[1] < size[1] && 0 <= p[2] < size[2]
}

/// Blocks given by 0-based cells, as `set_block` takes them.
pub open spec fn slotted(cells: Seq<([i32; 3], Seq<char>)>) -> Seq<([i32; 3], Seq<char>)> {
    Seq::new(cells.len(), |j: int| (slot_pos(cells[j].0), cells[j].1))
}

proof fn lemma_cell_slot(size: [i32; 3], p: [i32; 3])
    requires
        cell_in(size, p),
        size[0] * size[1] * size[2] <= usize::MAX,
    ensures
        position_index(size, slot_pos(p)[0], slot_pos(p)[1], slot_pos(p)[2]) == cell_index(size, p),
        0 <= cell_index(size, p) < structure_volume(size),
{
    let (s0, s1, s2) = (size[0] as int, size[1] as int, size[2] as int);
    let (x, y, z) = (p[0] as int, p[1] as int, p[2] as int);
    assert(x * s1 * s2 + y * s2 + z == (x * s1 + y) * s2 + z) by (nonlinear_arith);
    assert(0 <= (x * s1 + y) * s2 + z < s0 * s1 * s2) by (nonlinear_arith)
        requires
            0 <= x < s0,
            0 <= y < s1,
            0 <= z < s2,
    ;
    assert(s0 * s1 <= s0 * s1 * s2) by (nonlinear_arith)
        requires
            s0 >= 1,
            s1 >= 1,
            s2 >= 1,
    ;
}

/// Different cells are stored in different places, so no block covers another's cell.
pub proof fn cells_are_distinct(size: [i32; 3], p: [i32; 3], q: [i32; 3])
    requires
        cell_in(size, p),
        cell_in(size, q),
        p != q,
    ensures
        cell_index(size, p) != cell_index(size, q),
{
    let (s1, s2) = (size[1] as int, size[2] as int);
    let (a, b) = (p[0] * s1 + p[1], q[0] * s1 + q[1]);
    if a == b {
        assert(p[0] == q[0] && p[1] == q[1]) by (nonlinear_arith)
            requires
                p[0] * s1 + p[1] == q[0] * s1 + q[1],
                0 <= p[1] < s1,
                0 <= q[1] < s1,
        ;
        assert(p[2] != q[2]) by {
            assert(p =~= q ==> false);
            if p[2] == q[2] {
                assert(p =~= q);
            }
        }
    } else {
        assert(a * s2 + p[2] != b * s2 + q[2]) by (nonlinear_arith)
            requires
                a != b,
                0 <= p[2] < s2,
                0 <= q[2] < s2,
        ;
    }
}

proof fn lemma_model_shape(size: [i32; 3], bs: Seq<([i32; 3], Seq<char>)>)
    ensures
        blocks_model(size, bs).0.len() == structure_volume(size),
        no_duplicates(blocks_model(size, bs).1),
        blocks_model(size, bs).1.len() <= bs.len(),
    decreases bs.len(),
{
    if bs.len() > 0 {
        lemma_model_shape(size, bs.drop_last());
        let prev = blocks_model(size, bs.drop_last());
        let pos = bs.last().0;
        let k = position_index(size, pos[0], pos[1], pos[2]);
        if crate::nbt::position_in_bounds(size, pos) && 0 <= k < prev.0.len() {
            if prev.1.len() < i32::MAX {
                set_block_reads_back(size, prev.0, prev.1, pos, bs.last().1);
            }
            let pal = crate::nbt::palette_with(prev.1, bs.last().1);
            if !prev.1.contains(bs.last().1) {
                assert forall|i: int, j: int|
                    0 <= i < pal.len() && 0 <= j < pal.len() && i != j implies pal[i] != pal[j] by {
                    if i == prev.1.len() as int {
                        assert(pal[j] == prev.1[j]);
                        assert(prev.1.contains(prev.1[j]));
                    } else if j == prev.1.len() as int {
                        assert(pal[i] == prev.1[i]);
                        assert(prev.1.contains(prev.1[i]));
                    }
                }
            }
        }
    }
}

/// Blocks placed in a structure by their 0-based cells each land in their own cell: the
/// cell of block `i` names block `i`'s id, unless a later block is given for the same cell.
pub proof fn placed_blocks_read_back(size: [i32; 3], cells: Seq<([i32; 3], Seq<char>)>, i: int)
    requires
        size[0] * size[1] * size[2] <= usize::MAX,
        forall|j: int| 0 <= j < cells.len() ==> cell_in(size, #[trigger] cells[j].0),
        cells.len() < i32::MAX,
        0 <= i < cells.len(),
        forall|j: int| i < j < cells.len() ==> #[trigger] cells[j].0 != cells[i].0,
    ensures
        ({
            let m = blocks_model(size, slotted(cells));
            let k = cell_index(size, cells[i].0);
            &&& 0 <= k < m.0.len()
            &&& 0 <= m.0[k] < m.1.len()
            &&& m.1[m.0[k] as int] == cells[i].1
        }),
    decreases cells.len(),
{
    let n = cells.len();
    let bs = slotted(cells);
    let prevc = cells.drop_last();
    assert(bs.drop_last() =~= slotted(prevc));
    lemma_model_shape(size, slotted(prevc));
    let prev = blocks_model(size, slotted(prevc));
    let last = cells[n - 1];
    assert(bs.last() == (slot_pos(last.0), last.1));
    lemma_cell_slot(size, last.0);
    lemma_cell_slot(size, cells[i].0);
    let kl = cell_index(size, last.0);
    let k = cell_index(size, cells[i].0);
    assert(prev.1.len() < i32::MAX);
    set_block_reads_back(size, prev.0, prev.1, slot_pos(last.0), last.1);
    if i < n - 1 {
        placed_blocks_read_back(size, prevc, i);
        assert(prevc[i] == cells[i]);
        cells_are_distinct(size, last.0, cells[i].0);
    }
}

/// Where a block goes in the structure: a staircase block is lowered by the box's least
/// `y`; flat art is switched into its plane.
pub open spec fn structure_position(staircase: bool, plane: i32, p: Placed, ly: int) -> [i32; 3] {
    if staircase {
        [p.x, (p.y - ly) as i32, p.z]
    } else {
        spec_switch_xyz(plane, [p.x, p.y, p.z])
    }
}

pub open spec fn structure_blocks(
    staircase: bool,
    plane: i32,
    ps: Seq<Placed>,
    ids: Seq<Seq<char>>,
) -> Seq<([i32; 3], Seq<char>)> {
    let ly = bbox_or_zero(ps).1;
    Seq::new(
        ps.len(),
        |i: int| (slot_pos(structure_position(staircase, plane, ps[i], ly)), ids[ps[i].pal as int]),
    )
}

/// The `.mcstructure` file for the blocks; `None` where the structure's slots would not
/// fit in memory.
pub open spec fn structure_file(staircase: bool, plane: i32, ps: Seq<Placed>, ids: Seq<Seq<char>>) -> Option<
    Seq<u8>,
> {
    let size = structure_size(staircase, plane, ps);
    if structure_volume(size) * 4 > isize::MAX {
        None
    } else {
        let m = blocks_model(size, structure_blocks(staircase, plane, ps, ids));
        Some(structure_bytes(size, m.0, m.1))
    }
}

pub open spec fn pal_in_range(ps: Seq<Placed>, n: int) -> bool {
    forall|i: int| 0 <= i < ps.len() ==> (#[trigger] ps[i]).pal < n
}

fn volume_fits(size: [i32; 3]) -> (res: bool)
    ensures
        res == (structure_volume(size) * 4 <= isize::MAX),
{
    let a: u128 = if size[0] < 0 {
        0
    } else {
        size[0] as u128
    };
    let b: u128 = if size[1] < 0 {
        0
    } else {
        size[1] as u128
    };
    let c: u128 = if size[2] < 0 {
        0
    } else {
        size[2] as u128
    };
    proof {
        assert(a * b <= 0x1_0000_0000_0000_0000) by (nonlinear_arith)
            requires a < 0x1_0000_0000, b < 0x1_0000_0000;
    }
    let ab0 = a * b;
    let ab: u128 = if ab0 > usize::MAX as u128 {
        usize::MAX as u128
    } else {
        ab0
    };
    proof {
        assert(ab * c <= 0x1_0000_0000_0000_0000_0000_0000) by (nonlinear_arith)
            requires ab <= 0x1_0000_0000_0000_0000, c < 0x1_0000_0000;
    }
    let abc0 = ab * c;
    let abc: u128 = if abc0 > usize::MAX as u128 {
        usize::MAX as u128
    } else {
        abc0
    };
    abc * 4 <= isize::MAX as u128
}

/// Writes the blocks as an `.mcstructure` file.
pub fn write_structure(
    ps: &Vec<Placed>,
    palette: &[PaletteColorInput],
    staircase: bool,
    plane: i32,
) -> (res: Option<Vec<u8>>)
    requires
        placed_in_bound(ps@),
        pal_in_range(ps@, palette@.len() as int),
    ensures
        match res {
            Some(b) => structure_file(staircase, plane, ps@, palette_ids(palette@)) == Some(b@),
            None => structure_file(staircase, plane, ps@, palette_ids(palette@)) is None,
        },
{
    let (lx, ly, lz, mx, my, mz) = if ps.len() == 0 {
        (0, 0, 0, 0, 0, 0)
    } else {
        proof {
            lemma_bbox_bound(ps@);
        }
        bbox_exec(ps)
    };
    let raw = [mx - lx + 1, my - ly + 1, mz - lz + 1];
    let size = if staircase {
        raw
    } else {
        switch_xyz(plane, raw)
    };
    if !volume_fits(size) {
        return None;
    }
    let ghost blocks = structure_blocks(staircase, plane, ps@, palette_ids(palette@));
    let mut structure = McStructure::new(size);
    let mut i: usize = 0;
    while i < ps.len()
        invariant
            i <= ps@.len(),
            placed_in_bound(ps@),
            pal_in_range(ps@, palette@.len() as int),
            size == structure_size(staircase, plane, ps@),
            ly as int == bbox_or_zero(ps@).1,
            ps@.len() > 0 ==> in_bound(ly as int),
            blocks == structure_blocks(staircase, plane, ps@, palette_ids(palette@)),
            structure.wf(),
            structure.size() == size,
            (structure.indices(), structure.palette()) == blocks_model(
                size,
                blocks.subrange(0, i as int),
            ),
        decreases ps@.len() - i,
    {
        let p = ps[i];
        let cell = if staircase {
            [p.x, p.y - ly, p.z]
        } else {
            switch_xyz(plane, [p.x, p.y, p.z])
        };
        let pos = slot_of(cell);
        structure.set_block(pos, palette[p.pal].id.as_str());
        proof {
            let sub = blocks.subrange(0, i + 1);
            assert(sub.drop_last() =~= blocks.subrange(0, i as int));
            assert(sub.last() == blocks[i as int]);
            assert(blocks[i as int].0 == pos);
            assert(blocks[i as int].1 == palette@[p.pal as int].id@);
        }
        i = i + 1;
    }
    assert(blocks.subrange(0, ps@.len() as int) =~= blocks);
    let mut out: Vec<u8> = Vec::new();
    structure.write_file(&mut out);
    assert(out@ =~= structure.spec_bytes());
    Some(out)
}

// ---------------------------------------------------------------------------
// Generation
// ---------------------------------------------------------------------------
/// The average colours of a palette.
pub open spec fn palette_rgb(palette: Seq<PaletteColorInput>) -> Seq<[u8; 3]> {
    palette.map_values(|p: PaletteColorInput| p.average)
}

/// The matched grid: flat art takes entry `matches[k]` (or nothing where it is `u16::MAX`);
/// a staircase takes colour `matches[k] / 3` in shade `matches[k] % 3` from the staircase
/// palette, at walked (and maybe compressed) heights. Transparent cells stay empty.
pub open spec fn gen_entries(
    alpha: Option<Seq<u8>>,
    matches: Seq<u16>,
    palette: Seq<PaletteColorInput>,
    w: int,
    h: int,
    staircase: bool,
    gap: i32,
    compress: bool,
) -> Seq<Option<GridEntry>> {
    if staircase {
        Seq::new(
            (w * h) as nat,
            |k: int|
                stair_entry(
                    alpha,
                    matches,
                    stair_rgb_spec(palette_rgb(palette)),
                    w,
                    h,
                    spec_staircase_step(gap, compress),
                    compress,
                    k,
                ),
        )
    } else {
        Seq::new((w * h) as nat, |k: int| flat_entry(alpha, matches, palette_rgb(palette), w, h, k))
    }
}

/// The command for one emitted block.
pub open spec fn block_command(params: GenParams, ids: Seq<Seq<char>>, p: Placed) -> Seq<char> {
    let c = spec_command_coords(params.use_staircase, params.plane, params.offset, p.x, p.y, p.z);
    setblock_text(c.0, c.1, c.2, ids[p.pal as int])
}

/// The world-write record for one emitted block.
pub open spec fn block_record(params: GenParams, ids: Seq<Seq<char>>, p: Placed) -> (int, int, int, Seq<char>) {
    let c = spec_command_coords(params.use_staircase, params.plane, params.offset, p.x, p.y, p.z);
    (c.0, c.1, c.2, ids[p.pal as int])
}

pub open spec fn record_view(r: (i32, i32, i32, String)) -> (int, int, int, Seq<char>) {
    (r.0 as int, r.1 as int, r.2 as int, r.3@)
}

/// Whether function files are written (no structure, socket or world output).
pub open spec fn writes_functions(params: GenParams) -> bool {
    !(params.use_struct || params.socket_output || params.ldb_output)
}

/// What `generate` promises of a successful run on the emitted blocks `ps`.
pub open spec fn gen_output_ok(
    o: GenOutput,
    params: GenParams,
    ids: Seq<Seq<char>>,
    entries: Seq<Option<GridEntry>>,
    ps: Seq<Placed>,
    w: int,
    h: int,
) -> bool {
    &&& o.preview@ == preview_bytes(entries, w, h)
    &&& o.size == bounding_size(ps)
    &&& (o.commands is Some <==> params.socket_output)
    &&& (o.commands matches Some(c) ==> texts(c@) == Seq::new(
        ps.len(),
        |i: int| block_command(params, ids, ps[i]),
    ))
    &&& (o.blocks_ldb is Some <==> params.ldb_output)
    &&& (o.blocks_ldb matches Some(b) ==> b@.map_values(|r: (i32, i32, i32, String)| record_view(r))
        == (if params.socket_output {
        Seq::empty()
    } else {
        Seq::new(ps.len(), |i: int| block_record(params, ids, ps[i]))
    }))
    &&& (writes_functions(params) ==> texts(o.functions@) == function_files(
        Seq::new(ps.len(), |i: int| block_command(params, ids, ps[i]) + "\n"@),
        params.auto_slice_mcfunction,
    ) && o.function_files == o.functions@.len())
    &&& (!writes_functions(params) ==> o.functions@.len() == 0 && o.function_files == 0)
    &&& (o.structure is Some <==> (!params.socket_output && params.use_struct))
    &&& (o.structure matches Some(b) ==> Some(b@) == structure_file(
        params.use_staircase,
        params.plane,
        if params.ldb_output {
            Seq::empty()
        } else {
            ps
        },
        ids,
    ))
}

proof fn lemma_emitted_props(entries: Seq<Option<GridEntry>>, w: int, h: int, desc: bool, k: int, npal: int)
    requires
        0 <= k <= w * h,
        h > 0,
        w <= i32::MAX,
        h <= i32::MAX,
        entries.len() == w * h,
        forall|j: int|
            0 <= j < w * h ==> (#[trigger] entries[j] matches Some(e) ==> in_bound(e.y as int)
                && e.pal < npal),
    ensures
        placed_in_bound(emitted(entries, h, desc, k)),
        pal_in_range(emitted(entries, h, desc, k), npal),
    decreases k,
{
    if k > 0 {
        lemma_emitted_props(entries, w, h, desc, k - 1, npal);
        let (x, z) = visit(k - 1, h, desc);
        assert(0 <= (k - 1) / h < w && 0 <= (k - 1) % h < h) by (nonlinear_arith)
            requires
                0 <= k - 1 < w * h,
                h > 0,
        ;
        assert(0 <= x * h + z < w * h) by (nonlinear_arith)
            requires
                0 <= x < w,
                0 <= z < h,
        ;
    }
}

fn command_lines(ps: &Vec<Placed>, palette: &[PaletteColorInput], params: &GenParams, newline: bool) -> (res: Vec<String>)
    requires
        placed_in_bound(ps@),
        pal_in_range(ps@, palette@.len() as int),
        all_coords_fit(*params, ps@),
    ensures
        texts(res@) == Seq::new(
            ps@.len(),
            |i: int|
                if newline {
                    block_command(*params, palette_ids(palette@), ps@[i]) + "\n"@
                } else {
                    block_command(*params, palette_ids(palette@), ps@[i])
                },
        ),
{
    let mut res: Vec<String> = Vec::new();
    let mut i: usize = 0;
    while i < ps.len()
        invariant
            i <= ps@.len(),
            placed_in_bound(ps@),
            pal_in_range(ps@, palette@.len() as int),
            all_coords_fit(*params, ps@),
            texts(res@) == Seq::new(
                i as nat,
                |j: int|
                    if newline {
                        block_command(*params, palette_ids(palette@), ps@[j]) + "\n"@
                    } else {
                        block_command(*params, palette_ids(palette@), ps@[j])
                    },
            ),
        decreases ps@.len() - i,
    {
        let p = ps[i];
        let (cx, cy, cz) = command_coords(
            params.use_staircase,
            params.plane,
            params.offset,
            p.x,
            p.y,
            p.z,
        );
        let mut line = setblock_line(cx, cy, cz, palette[p.pal].id.as_str());
        if newline {
            line.append("\n");
        }
        let ghost prev = res@;
        res.push(line);
        proof {
            assert(palette_ids(palette@)[p.pal as int] == palette@[p.pal as int].id@);
            assert(ps@[i as int] == p);
            assert(res@ == prev.push(line));
            assert(texts(res@) =~= texts(prev).push(line@));
            assert(texts(res@) =~= Seq::new(
                (i + 1) as nat,
                |j: int|
                    if newline {
                        block_command(*params, palette_ids(palette@), ps@[j]) + "\n"@
                    } else {
                        block_command(*params, palette_ids(palette@), ps@[j])
                    },
            ));
        }
        i = i + 1;
    }
    res
}

fn block_records(ps: &Vec<Placed>, palette: &[PaletteColorInput], params: &GenParams) -> (res: Vec<
    (i32, i32, i32, String),
>)
    requires
        placed_in_bound(ps@),
        pal_in_range(ps@, palette@.len() as int),
        all_coords_fit(*params, ps@),
    ensures
        res@.map_values(|r: (i32, i32, i32, String)| record_view(r)) == Seq::new(
            ps@.len(),
            |i: int| block_record(*params, palette_ids(palette@), ps@[i]),
        ),
{
    let mut res: Vec<(i32, i32, i32, String)> = Vec::new();
    let mut i: usize = 0;
    while i < ps.len()
        invariant
            i <= ps@.len(),
            placed_in_bound(ps@),
            pal_in_range(ps@, palette@.len() as int),
            all_coords_fit(*params, ps@),
            res@.map_values(|r: (i32, i32, i32, String)| record_view(r)) == Seq::new(
                i as nat,
                |j: int| block_record(*params, palette_ids(palette@), ps@[j]),
            ),
        decreases ps@.len() - i,
    {
        let p = ps[i];
        let (cx, cy, cz) = command_coords(
            params.use_staircase,
            params.plane,
            params.offset,
            p.x,
            p.y,
            p.z,
        );
        let id = palette[p.pal].id.clone();
        let ghost prev = res@;
        res.push((cx, cy, cz, id));
        proof {
            assert(palette_ids(palette@)[p.pal as int] == palette@[p.pal as int].id@);
            assert(ps@[i as int] == p);
            assert(res@ == prev.push((cx, cy, cz, id)));
            assert(res@.map_values(|r: (i32, i32, i32, String)| record_view(r)) =~= prev.map_values(
                |r: (i32, i32, i32, String)| record_view(r),
            ).push(record_view((cx, cy, cz, id))));
            assert(res@.map_values(|r: (i32, i32, i32, String)| record_view(r)) =~= Seq::new(
                (i + 1) as nat,
                |j: int| block_record(*params, palette_ids(palette@), ps@[j]),
            ));
        }
        i = i + 1;
    }
    res
}

/// Whether the blocks' world-relative coordinates are computed: for commands, a world
/// write or function files.
pub open spec fn uses_coords(params: GenParams) -> bool {
    params.socket_output || params.ldb_output || !params.use_struct
}

/// Where coordinates are computed, every emitted block's fit an `i32` once the offset is
/// added.
pub open spec fn gen_coords_fit(
    w: usize,
    h: usize,
    alpha: Option<Seq<u8>>,
    matches: Seq<u16>,
    palette: Seq<PaletteColorInput>,
    params: GenParams,
) -> bool {
    uses_coords(params) ==> all_coords_fit(
        params,
        emitted(
            gen_entries(
                alpha,
                matches,
                palette,
                w as int,
                h as int,
                params.use_staircase,
                params.staircase_gap,
                params.staircase_compress,
            ),
            h as int,
            params.use_staircase,
            (w * h) as int,
        ),
    )
}

/// The grid of a generation run walked in emission order: its preview and its blocks.
fn grid_blocks(
    width: usize,
    height: usize,
    alpha: Option<&Vec<u8>>,
    matches: &Vec<u16>,
    palette: &[PaletteColorInput],
    params: &GenParams,
) -> (res: (Vec<u8>, Vec<Placed>))
    requires
        width > 0,
        height > 0,
        width <= i32::MAX,
        height <= i32::MAX,
        width * height * 4 <= usize::MAX,
        palette@.len() * 3 <= usize::MAX,
        matches@.len() == width * height,
        alpha matches Some(a) ==> a@.len() >= width * height,
        params.use_staircase ==> height * abs_int(
            spec_staircase_step(params.staircase_gap, params.staircase_compress) as int,
        ) <= 0x1FFF_FFFF,
        params.use_staircase ==> forall|k: int|
            0 <= k < width * height ==> #[trigger] matches@[k] < palette@.len() * 3,
        !params.use_staircase ==> forall|k: int|
            0 <= k < width * height ==> #[trigger] matches@[k] == u16::MAX || matches@[k]
                < palette@.len(),
    ensures
        ({
            let entries = gen_entries(
                alpha_view(alpha),
                matches@,
                palette@,
                width as int,
                height as int,
                params.use_staircase,
                params.staircase_gap,
                params.staircase_compress,
            );
            &&& res.0@ == preview_bytes(entries, width as int, height as int)
            &&& res.1@ == emitted(entries, height as int, params.use_staircase, (width * height) as int)
        }),
        placed_in_bound(res.1@),
        pal_in_range(res.1@, palette@.len() as int),
{
    let w = width;
    let h = height;
    let full_rgb = palette_colors(palette);
    let ghost entries_spec = gen_entries(
        alpha_view(alpha),
        matches@,
        palette@,
        w as int,
        h as int,
        params.use_staircase,
        params.staircase_gap,
        params.staircase_compress,
    );
    proof {
        assert(full_rgb@ =~= palette_rgb(palette@));
        assert(w * h <= w * h * 4) by (nonlinear_arith);
    }
    let entries = if params.use_staircase {
        let stair = stair_palette(full_rgb.as_slice());
        let step = staircase_step(params.staircase_gap, params.staircase_compress);
        let e = stair_entries(alpha, matches, &stair, w, h, step, params.staircase_compress);
        proof {
            assert(e@ =~= entries_spec);
        }
        e
    } else {
        let e = flat_entries(alpha, matches, &full_rgb, w, h);
        proof {
            assert(e@ =~= entries_spec);
        }
        e
    };
    proof {
        assert forall|j: int|
            0 <= j < w * h implies (#[trigger] entries@[j] matches Some(e) ==> in_bound(e.y as int)
                && e.pal < palette@.len()) by {
            if params.use_staircase {
            } else {
                if let Some(e) = entries@[j] {
                    assert(e.y == 0);
                }
            }
        }
        lemma_emitted_props(
            entries@,
            w as int,
            h as int,
            params.use_staircase,
            (w * h) as int,
            palette@.len() as int,
        );
    }
    collect_blocks(&entries, w, h, params.use_staircase)
}

fn shifted_fits(staircase: bool, plane: i32, offset: [i32; 3], p: Placed) -> (res: bool)
    ensures
        res == coords_fit(staircase, plane, offset, p),
{
    let s = if staircase {
        [p.x, p.y, p.z]
    } else {
        switch_xyz(plane, [p.x, p.y, p.z])
    };
    let a = s[0] as i64 + offset[0] as i64;
    let b = s[1] as i64 + offset[1] as i64;
    let c = s[2] as i64 + offset[2] as i64;
    let lo = i32::MIN as i64;
    let hi = i32::MAX as i64;
    lo <= a && a <= hi && lo <= b && b <= hi && lo <= c && c <= hi
}

/// Whether `generate` can add the offset to every block it would emit (see
/// `gen_coords_fit`); it walks the grid as `generate` does.
pub fn generate_coords_fit(
    width: usize,
    height: usize,
    alpha: Option<&Vec<u8>>,
    matches: &Vec<u16>,
    palette: &[PaletteColorInput],
    params: &GenParams,
) -> (res: bool)
    requires
        width <= i32::MAX,
        height <= i32::MAX,
        width * height * 4 <= usize::MAX,
        palette@.len() * 3 <= usize::MAX,
        matches@.len() == width * height,
        alpha matches Some(a) ==> a@.len() >= width * height,
        params.use_staircase ==> height * abs_int(
            spec_staircase_step(params.staircase_gap, params.staircase_compress) as int,
        ) <= 0x1FFF_FFFF,
        params.use_staircase ==> forall|k: int|
            0 <= k < width * height ==> #[trigger] matches@[k] < palette@.len() * 3,
        !params.use_staircase ==> forall|k: int|
            0 <= k < width * height ==> #[trigger] matches@[k] == u16::MAX || matches@[k]
                < palette@.len(),
    ensures
        res == gen_coords_fit(width, height, alpha_view(alpha), matches@, palette@, *params),
{
    if !(params.socket_output || params.ldb_output || !params.use_struct) {
        return true;
    }
    if width == 0 || height == 0 {
        proof {
            assert(width * height == 0) by (nonlinear_arith)
                requires width == 0 || height == 0;
        }
        return true;
    }
    let (_, placed) = grid_blocks(width, height, alpha, matches, palette, params);
    let ghost fits = gen_coords_fit(width, height, alpha_view(alpha), matches@, palette@, *params);
    assert(fits == all_coords_fit(*params, placed@));
    let mut i: usize = 0;
    while i < placed.len()
        invariant
            i <= placed@.len(),
            fits == all_coords_fit(*params, placed@),
            fits == gen_coords_fit(width, height, alpha_view(alpha), matches@, palette@, *params),
            forall|j: int|
                0 <= j < i ==> coords_fit(
                    params.use_staircase,
                    params.plane,
                    params.offset,
                    #[trigger] placed@[j],
                ),
        decreases placed@.len() - i,
    {
        if !shifted_fits(params.use_staircase, params.plane, params.offset, placed[i]) {
            assert(!coords_fit(params.use_staircase, params.plane, params.offset, placed@[i as int]));
            assert(!all_coords_fit(*params, placed@));
            return false;
        }
        i = i + 1;
    }
    true
}

/// Generates pixel art from matched palette entries.
///
/// `matches` is column-major (`matches[x * height + z]` belongs to grid column `x`, row
/// `z`, that is source pixel `(width-1-x, height-1-z)`): for flat art a palette index, or
/// `u16::MAX` for none; for a staircase an index into `stair_palette` of the palette's
/// colours. `alpha`, where given, is the source image's alpha channel, row-major.
pub fn generate(
    width: usize,
    height: usize,
    alpha: Option<&Vec<u8>>,
    matches: &Vec<u16>,
    palette: &[PaletteColorInput],
    params: &GenParams,
) -> (res: Result<GenOutput, String>)
    requires
        width <= i32::MAX,
        height <= i32::MAX,
        width * height * 4 <= usize::MAX,
        palette@.len() * 3 <= usize::MAX,
        matches@.len() == width * height,
        alpha matches Some(a) ==> a@.len() >= width * height,
        gen_coords_fit(width, height, alpha_view(alpha), matches@, palette@, *params),
        params.use_staircase ==> height * abs_int(
            spec_staircase_step(params.staircase_gap, params.staircase_compress) as int,
        ) <= 0x1FFF_FFFF,
        params.use_staircase ==> forall|k: int|
            0 <= k < width * height ==> #[trigger] matches@[k] < palette@.len() * 3,
        !params.use_staircase ==> forall|k: int|
            0 <= k < width * height ==> #[trigger] matches@[k] == u16::MAX || matches@[k]
                < palette@.len(),
    ensures
        ({
            let entries = gen_entries(
                alpha_view(alpha),
                matches@,
                palette@,
                width as int,
                height as int,
                params.use_staircase,
                params.staircase_gap,
                params.staircase_compress,
            );
            let ps = emitted(entries, height as int, params.use_staircase, (width * height) as int);
            let ids = palette_ids(palette@);
            &&& (res is Err <==> (width == 0 || height == 0 || spec_dist_mode(params.color_distance@) is None
                || palette@.len() == 0 || (!params.socket_output
                && params.use_struct && structure_file(
                params.use_staircase,
                params.plane,
                if params.ldb_output {
                    Seq::empty()
                } else {
                    ps
                },
                ids,
            ) is None)))
            &&& (res matches Ok(o) ==> gen_output_ok(o, *params, ids, entries, ps, width as int, height as int))
            &&& (res matches Err(e) ==> e@ == (if width == 0 || height == 0 {
                "图片尺寸为空"@
            } else if spec_dist_mode(params.color_distance@) is None || palette@.len() == 0 {
                "色差公式无效"@
            } else {
                "结构尺寸过大"@
            }))
        }),
{
    if width == 0 || height == 0 {
        return Err(String::from_str("图片尺寸为空"));
    }
    if dist_mode(params.color_distance.as_str()).is_none() || palette.len() == 0 {
        return Err(String::from_str("色差公式无效"));
    }
    let w = width;
    let h = height;
    let ghost entries_spec = gen_entries(
        alpha_view(alpha),
        matches@,
        palette@,
        w as int,
        h as int,
        params.use_staircase,
        params.staircase_gap,
        params.staircase_compress,
    );
    let (preview, placed) = grid_blocks(w, h, alpha, matches, palette, params);
    assert(uses_coords(*params) ==> all_coords_fit(*params, placed@));
    let size = bounding_size_of(&placed);
    let socket = params.socket_output;
    let ldb = params.ldb_output;
    let commands = if socket {
        Some(command_lines(&placed, palette, params, false))
    } else {
        None
    };
    let blocks_ldb = if ldb {
        if socket {
            Some(Vec::new())
        } else {
            Some(block_records(&placed, palette, params))
        }
    } else {
        None
    };
    let writes = !(params.use_struct || socket || ldb);
    let functions = if writes {
        let lines = command_lines(&placed, palette, params, true);
        proof {
            assert(texts(lines@) =~= Seq::new(
                placed@.len(),
                |i: int| block_command(*params, palette_ids(palette@), placed@[i]) + "\n"@,
            ));
        }
        function_texts(&lines, params.auto_slice_mcfunction)
    } else {
        Vec::new()
    };
    let file_count = functions.len();
    let structure = if !socket && params.use_struct {
        let empty: Vec<Placed> = Vec::new();
        let blocks = if ldb {
            &empty
        } else {
            &placed
        };
        match write_structure(blocks, palette, params.use_staircase, params.plane) {
            Some(b) => Some(b),
            None => {
                return Err(String::from_str("结构尺寸过大"));
            },
        }
    } else {
        None
    };
    let out = GenOutput {
        preview,
        commands,
        blocks_ldb,
        size,
        function_files: file_count,
        functions,
        structure,
    };
    proof {
        let ps = emitted(entries_spec, h as int, params.use_staircase, (w * h) as int);
        let ids = palette_ids(palette@);
        assert(placed@ == ps);
        if let Some(b) = &out.blocks_ldb {
            if socket {
                assert(b@.map_values(|r: (i32, i32, i32, String)| record_view(r)) =~= Seq::empty());
            }
        }
        assert(out.preview@ == preview_bytes(entries_spec, w as int, h as int));
        assert(out.size == bounding_size(ps));
        assert(out.commands matches Some(c) ==> texts(c@) == Seq::new(
            ps.len(),
            |i: int| block_command(*params, ids, ps[i]),
        ));
        assert(writes_functions(*params) ==> texts(out.functions@) == function_files(
            Seq::new(ps.len(), |i: int| block_command(*params, ids, ps[i]) + "\n"@),
            params.auto_slice_mcfunction,
        ) && out.function_files == out.functions@.len());
        assert(out.structure matches Some(b) ==> Some(b@) == structure_file(
            params.use_staircase,
            params.plane,
            if params.ldb_output {
                Seq::empty()
            } else {
                ps
            },
            ids,
        ));
        assert(gen_output_ok(out, *params, ids, entries_spec, ps, w as int, h as int));
    }
    Ok(out)
}

// ---------------------------------------------------------------------------
// Exporting voxel builds
// ---------------------------------------------------------------------------
/// What exporting a block list produced.
pub struct Export3d {
    /// `setblock` commands, in socket mode.
    pub commands: Option<Vec<String>>,
    /// The text of `output_{i}.mcfunction`, for each `i`, in function mode.
    pub functions: Vec<String>,
    /// The bytes of `output.mcstructure`, in structure mode.
    pub structure: Option<Vec<u8>>,
}

pub open spec fn as_placed(bs: Seq<(i32, i32, i32, String)>) -> Seq<Placed> {
    Seq::new(bs.len(), |i: int| Placed { x: bs[i].0, y: bs[i].1, z: bs[i].2, pal: 0 })
}

/// The command that places block `b` shifted by `offset`.
pub open spec fn export_command(offset: [i32; 3], b: (i32, i32, i32, String)) -> Seq<char> {
    setblock_text(b.0 + offset[0], b.1 + offset[1], b.2 + offset[2], b.3@)
}

/// The `.mcstructure` file of a block list: the box around the blocks (1×1×1 when there
/// are none), each block in its own cell, moved so the box starts at the origin (see
/// `placed_blocks_read_back`); `None` where the slots would not fit in memory.
pub open spec fn export_structure(bs: Seq<(i32, i32, i32, String)>) -> Option<Seq<u8>> {
    let b = bbox_or_zero(as_placed(bs));
    let size = [(b.3 - b.0 + 1) as i32, (b.4 - b.1 + 1) as i32, (b.5 - b.2 + 1) as i32];
    if structure_volume(size) * 4 > isize::MAX {
        None
    } else {
        let blocks = Seq::new(
            bs.len(),
            |i: int|
                (
                    slot_pos(
                        [(bs[i].0 - b.0) as i32, (bs[i].1 - b.1) as i32, (bs[i].2 - b.2) as i32],
                    ),
                    bs[i].3@,
                ),
        );
        let m = blocks_model(size, blocks);
        Some(structure_bytes(size, m.0, m.1))
    }
}

/// A block's coordinates plus the offset are `i32`s.
pub open spec fn export_sum_fits(offset: [i32; 3], b: (i32, i32, i32, String)) -> bool {
    fits_i32(b.0 + offset[0]) && fits_i32(b.1 + offset[1]) && fits_i32(b.2 + offset[2])
}

/// The box's size on each axis is an `i32`.
pub open spec fn spans_fit(b: (int, int, int, int, int, int)) -> bool {
    b.3 - b.0 + 1 <= i32::MAX && b.4 - b.1 + 1 <= i32::MAX && b.5 - b.2 + 1 <= i32::MAX
}

/// What an export computes fits its integers: shifted coordinates for commands and
/// function files, the box's size for a structure.
pub open spec fn export_fits(
    bs: Seq<(i32, i32, i32, String)>,
    offset: [i32; 3],
    use_struct: bool,
    socket_output: bool,
) -> bool {
    if socket_output || !use_struct {
        forall|i: int| 0 <= i < bs.len() ==> export_sum_fits(offset, #[trigger] bs[i])
    } else {
        spans_fit(bbox_or_zero(as_placed(bs)))
    }
}

/// Exports the blocks of a voxel build: as commands (socket), as a structure file, or as
/// function files.
#[verifier::spinoff_prover]
#[verifier::rlimit(40)]
pub fn export_blocks_3d(
    blocks: &Vec<(i32, i32, i32, String)>,
    use_struct: bool,
    auto_slice_mcfunction: bool,
    offset: [i32; 3],
    socket_output: bool,
) -> (res: Result<Export3d, String>)
    requires
        export_fits(blocks@, offset, use_struct, socket_output),
    ensures
        res is Err <==> (!socket_output && use_struct && export_structure(blocks@) is None),
        res matches Err(e) ==> e@ == "结构尺寸过大"@,
        res matches Ok(e) ==> {
            &&& (e.commands is Some <==> socket_output)
            &&& (e.commands matches Some(c) ==> texts(c@) == Seq::new(
                blocks@.len(),
                |i: int| export_command(offset, blocks@[i]),
            ))
            &&& (e.structure is Some <==> (!socket_output && use_struct))
            &&& (e.structure matches Some(b) ==> Some(b@) == export_structure(blocks@))
            &&& (!socket_output && !use_struct ==> texts(e.functions@) == function_files(
                Seq::new(blocks@.len(), |i: int| export_command(offset, blocks@[i]) + "\n"@),
                auto_slice_mcfunction,
            ))
            &&& (socket_output || use_struct ==> e.functions@.len() == 0)
        },
{
    if socket_output || !use_struct {
        let mut lines: Vec<String> = Vec::new();
        let mut i: usize = 0;
        while i < blocks.len()
            invariant
                i <= blocks@.len(),
                socket_output || !use_struct,
                export_fits(blocks@, offset, use_struct, socket_output),
                texts(lines@) == Seq::new(
                    i as nat,
                    |j: int|
                        if socket_output {
                            export_command(offset, blocks@[j])
                        } else {
                            export_command(offset, blocks@[j]) + "\n"@
                        },
                ),
            decreases blocks@.len() - i,
        {
            let b = &blocks[i];
            assert(export_sum_fits(offset, blocks@[i as int]));
            let mut line = setblock_line(b.0 + offset[0], b.1 + offset[1], b.2 + offset[2], b.3.as_str());
            if !socket_output {
                line.append("\n");
            }
            let ghost prev = lines@;
            lines.push(line);
            proof {
                assert(texts(lines@) =~= texts(prev).push(line@));
                assert(texts(lines@) =~= Seq::new(
                    (i + 1) as nat,
                    |j: int|
                        if socket_output {
                            export_command(offset, blocks@[j])
                        } else {
                            export_command(offset, blocks@[j]) + "\n"@
                        },
                ));
            }
            i = i + 1;
        }
        if socket_output {
            proof {
                assert(texts(lines@) =~= Seq::new(
                    blocks@.len(),
                    |j: int| export_command(offset, blocks@[j]),
                ));
            }
            return Ok(Export3d { commands: Some(lines), functions: Vec::new(), structure: None });
        }
        proof {
            assert(texts(lines@) =~= Seq::new(
                blocks@.len(),
                |j: int| export_command(offset, blocks@[j]) + "\n"@,
            ));
        }
        let functions = function_texts(&lines, auto_slice_mcfunction);
        return Ok(Export3d { commands: None, functions, structure: None });
    }
    // structure
    let mut ps: Vec<Placed> = Vec::new();
    let mut i: usize = 0;
    while i < blocks.len()
        invariant
            i <= blocks@.len(),
            ps@ == as_placed(blocks@.subrange(0, i as int)),
        decreases blocks@.len() - i,
    {
        ps.push(Placed { x: blocks[i].0, y: blocks[i].1, z: blocks[i].2, pal: 0 });
        i = i + 1;
        proof {
            assert(ps@ =~= as_placed(blocks@.subrange(0, i as int)));
        }
    }
    proof {
        assert(blocks@.subrange(0, blocks@.len() as int) =~= blocks@);
    }
    let (lx, ly, lz, mx, my, mz) = if ps.len() == 0 {
        (0, 0, 0, 0, 0, 0)
    } else {
        bbox_exec(&ps)
    };
    proof {
        assert forall|j: int| 0 <= j < blocks@.len() implies lx <= (#[trigger] blocks@[j]).0 <= mx
            && ly <= blocks@[j].1 <= my && lz <= blocks@[j].2 <= mz by {
            lemma_bbox_contains(ps@, j);
            assert(ps@[j].x == blocks@[j].0 && ps@[j].y == blocks@[j].1 && ps@[j].z == blocks@[j].2);
        }
        if blocks@.len() > 0 {
            lemma_bbox_contains(ps@, 0);
        }
        assert(spans_fit(bbox_or_zero(as_placed(blocks@))));
    }
    let size = [mx - lx + 1, my - ly + 1, mz - lz + 1];
    if !volume_fits(size) {
        return Err(String::from_str("结构尺寸过大"));
    }
    let ghost model_blocks = Seq::new(
        blocks@.len(),
        |j: int|
            (
                slot_pos(
                    [(blocks@[j].0 - lx) as i32, (blocks@[j].1 - ly) as i32, (blocks@[j].2 - lz) as i32],
                ),
                blocks@[j].3@,
            ),
    );
    let mut structure = McStructure::new(size);
    let mut k: usize = 0;
    while k < blocks.len()
        invariant
            k <= blocks@.len(),
            forall|j: int|
                0 <= j < blocks@.len() ==> lx <= (#[trigger] blocks@[j]).0 <= mx && ly
                    <= blocks@[j].1 <= my && lz <= blocks@[j].2 <= mz,
            mx - lx + 1 <= i32::MAX && my - ly + 1 <= i32::MAX && mz - lz + 1 <= i32::MAX,
            model_blocks == Seq::new(
                blocks@.len(),
                |j: int|
                    (
                        slot_pos(
                            [
                                (blocks@[j].0 - lx) as i32,
                                (blocks@[j].1 - ly) as i32,
                                (blocks@[j].2 - lz) as i32,
                            ],
                        ),
                        blocks@[j].3@,
                    ),
            ),
            structure.wf(),
            structure.size() == size,
            (structure.indices(), structure.palette()) == blocks_model(
                size,
                model_blocks.subrange(0, k as int),
            ),
        decreases blocks@.len() - k,
    {
        let b = &blocks[k];
        let pos = slot_of([b.0 - lx, b.1 - ly, b.2 - lz]);
        structure.set_block(pos, b.3.as_str());
        proof {
            let sub = model_blocks.subrange(0, k + 1);
            assert(sub.drop_last() =~= model_blocks.subrange(0, k as int));
            assert(sub.last() == model_blocks[k as int]);
            assert(model_blocks[k as int].0 =~= pos);
        }
        k = k + 1;
    }
    assert(model_blocks.subrange(0, blocks@.len() as int) =~= model_blocks);
    let mut out: Vec<u8> = Vec::new();
    structure.write_file(&mut out);
    proof {
        assert(bbox_or_zero(as_placed(blocks@)) == (
            lx as int,
            ly as int,
            lz as int,
            mx as int,
            my as int,
            mz as int,
        ));
        assert(out@ =~= structure.spec_bytes());
    }
    Ok(Export3d { commands: None, functions: Vec::new(), structure: Some(out) })
}

} // verus!

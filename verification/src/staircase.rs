//! Staircase map art: block heights from shade choices, and their lossless compression.
use vstd::prelude::*;

verus! {

/// One cell of a staircase column. `y == i32::MIN` marks an empty (transparent) cell.
#[derive(Clone, Copy, PartialEq, Eq, Structural, Debug)]
pub struct StairCell {
    pub y: i32,
    pub idx: u16,
    pub shade: u8,
}

pub open spec fn is_solid(c: StairCell) -> bool {
    c.y != i32::MIN
}

pub open spec fn abs_int(v: int) -> int {
    if v < 0 {
        -v
    } else {
        v
    }
}

/// The step a staircase uses: the gap, capped at 2 when compressing.
pub open spec fn spec_staircase_step(gap: i32, compress: bool) -> i32 {
    if compress && gap > 2 {
        2
    } else {
        gap
    }
}

/// The step a staircase uses.
pub fn staircase_step(gap: i32, compress: bool) -> (res: i32)
    ensures
        res == spec_staircase_step(gap, compress),
{
    if compress {
        if gap < 2 {
            gap
        } else {
            2
        }
    } else {
        gap
    }
}

/// The height change that a block of the given shade hands to the block north of it:
/// shade 0 (dark) `-step`, shade 1 (flat) `0`, any other shade (light) `+step`.
pub open spec fn shade_offset(shade: u8, step: i32) -> int {
    if shade == 0 {
        -step
    } else if shade == 1 {
        0
    } else {
        step as int
    }
}

/// What two neighbouring solid blocks of a column must satisfy so that the southern one
/// keeps its shade: shade 0 needs it at least `step` above its northern neighbour,
/// shade 1 level with it, any other shade at least `step` below it.
pub open spec fn link_ok(south_shade: u8, step: int, y_north: int, y_south: int) -> bool {
    if south_shade == 0 {
        y_south >= y_north + step
    } else if south_shade == 1 {
        y_south == y_north
    } else {
        y_north >= y_south + step
    }
}

/// Heights `ys` (one per cell) keep every shade of a column's solid runs and are never
/// negative.
pub open spec fn heights_ok(col: Seq<StairCell>, ys: Seq<int>, step: int) -> bool {
    &&& ys.len() == col.len()
    &&& forall|p: int| 0 <= p < col.len() && is_solid(col[p]) ==> ys[p] >= 0
    &&& forall|p: int|
        0 <= p < col.len() - 1 && is_solid(col[p]) && is_solid(col[p + 1]) ==> link_ok(
            #[trigger] col[p + 1].shade,
            step,
            ys[p],
            ys[p + 1],
        )
}

pub open spec fn heights_of(col: Seq<StairCell>) -> Seq<int> {
    Seq::new(col.len(), |p: int| col[p].y as int)
}

/// The compressed column: every cell keeps its block and shade, empty cells stay empty,
/// and the heights of the solid cells are the least non-negative heights that keep every
/// shade.
pub open spec fn is_compression_of(old_col: Seq<StairCell>, new_col: Seq<StairCell>, step: int) -> bool {
    &&& new_col.len() == old_col.len()
    &&& forall|p: int|
        0 <= p < old_col.len() ==> (#[trigger] new_col[p]).idx == old_col[p].idx && new_col[p].shade
            == old_col[p].shade && (is_solid(new_col[p]) <==> is_solid(old_col[p]))
    &&& heights_ok(old_col, heights_of(new_col), step)
    &&& forall|zs: Seq<int>|
        #![trigger heights_ok(old_col, zs, step)]
        heights_ok(old_col, zs, step) ==> forall|p: int|
            0 <= p < old_col.len() && is_solid(old_col[p]) ==> new_col[p].y <= #[trigger] zs[p]
}

/// The shade-driven bounds of link `j` of a run (`j` joins run cells `j` and `j + 1`).
spec fn run_link_ok(col: Seq<StairCell>, start: int, low: Seq<i32>, j: int, step: int) -> bool {
    link_ok(col[start + j + 1].shade, step, low[j] as int, low[j + 1] as int)
}

/// The forward half of a link's bounds: what the southern cell owes its northern one.
spec fn forward_ok(col: Seq<StairCell>, start: int, low: Seq<i32>, j: int, step: int) -> bool {
    let sh = col[start + j + 1].shade;
    if sh == 0 {
        low[j + 1] >= low[j] + step
    } else if sh == 1 {
        low[j + 1] >= low[j]
    } else {
        true
    }
}

/// The links in `1..=p` whose southern cell has shade 0.
spec fn rises(col: Seq<StairCell>, p: int) -> int
    decreases p,
{
    if p <= 0 {
        0
    } else {
        rises(col, p - 1) + (if col[p].shade == 0 {
            1int
        } else {
            0int
        })
    }
}

/// The links from `p` on whose southern cell has a shade above 1.
spec fn falls(col: Seq<StairCell>, p: int) -> int
    decreases col.len() - p,
{
    if p >= col.len() - 1 {
        0
    } else {
        falls(col, p + 1) + (if col[p + 1].shade != 0 && col[p + 1].shade != 1 {
            1int
        } else {
            0int
        })
    }
}

/// Heights that keep every shade: each cell one step up for each rising link north of it
/// and one for each falling link south of it (all zero for a step that is not positive).
spec fn plain_heights(col: Seq<StairCell>, step: int) -> Seq<int> {
    Seq::new(
        col.len(),
        |p: int|
            if step > 0 {
                step * (rises(col, p) + falls(col, p))
            } else {
                0
            },
    )
}

proof fn lemma_counts(col: Seq<StairCell>, p: int)
    requires
        0 <= p < col.len(),
    ensures
        0 <= rises(col, p) <= p,
        0 <= falls(col, p) <= col.len() - 1 - p,
    decreases col.len() - p,
{
    lemma_rises(col, p);
    if p < col.len() - 1 {
        lemma_counts(col, p + 1);
    }
}

proof fn lemma_rises(col: Seq<StairCell>, p: int)
    requires
        0 <= p,
    ensures
        0 <= rises(col, p) <= p,
    decreases p,
{
    if p > 0 {
        lemma_rises(col, p - 1);
    }
}

/// The plain heights keep every shade and stay within `(len - 1) * |step|`.
proof fn lemma_plain_heights(col: Seq<StairCell>, step: int)
    requires
        col.len() >= 1,
    ensures
        heights_ok(col, plain_heights(col, step), step),
        forall|p: int|
            0 <= p < col.len() ==> 0 <= #[trigger] plain_heights(col, step)[p] <= (col.len() - 1)
                * abs_int(step),
{
    let zs = plain_heights(col, step);
    let s = abs_int(step);
    assert forall|p: int| 0 <= p < col.len() implies 0 <= #[trigger] zs[p] <= (col.len() - 1) * s by {
        lemma_counts(col, p);
        if step > 0 {
            let c = rises(col, p) + falls(col, p);
            assert(0 <= c <= col.len() - 1);
            assert(0 <= step * c <= (col.len() - 1) * s) by (nonlinear_arith)
                requires
                    0 <= c <= col.len() - 1,
                    step > 0,
                    s == step,
            ;
        } else {
            assert(0 <= (col.len() - 1) * s) by (nonlinear_arith)
                requires
                    col.len() >= 1,
                    s >= 0,
            ;
        }
    }
    assert forall|p: int|
        0 <= p < col.len() - 1 && is_solid(col[p]) && is_solid(col[p + 1]) implies link_ok(
        #[trigger] col[p + 1].shade,
        step,
        zs[p],
        zs[p + 1],
    ) by {
        if step > 0 {
            let a = rises(col, p);
            let b = falls(col, p + 1);
            let up: int = if col[p + 1].shade == 0 {
                1
            } else {
                0
            };
            let down: int = if col[p + 1].shade != 0 && col[p + 1].shade != 1 {
                1
            } else {
                0
            };
            assert(rises(col, p + 1) == a + up);
            assert(falls(col, p) == b + down);
            assert(zs[p] == step * (a + b + down));
            assert(zs[p + 1] == step * (a + up + b));
            assert(step * (a + up + b) == step * (a + b) + step * up) by (nonlinear_arith);
            assert(step * (a + b + down) == step * (a + b) + step * down) by (nonlinear_arith);
            assert(step * up == if up == 1 { step } else { 0 }) by (nonlinear_arith)
                requires
                    up == 0 || up == 1,
            ;
            assert(step * down == if down == 1 { step } else { 0 }) by (nonlinear_arith)
                requires
                    down == 0 || down == 1,
            ;
        }
    }
}

/// Sinks the solid run `start..end` of `col` to its least heights.
fn compress_run(
    col: &mut Vec<StairCell>,
    start: usize,
    end: usize,
    step: i32,
    Ghost(orig): Ghost<Seq<StairCell>>,
)
    requires
        start < end <= old(col)@.len(),
        orig.len() == old(col)@.len(),
        old(col)@.len() * abs_int(step as int) <= 0x7FFF_FFFF,
        forall|p: int|
            0 <= p < orig.len() ==> (#[trigger] old(col)@[p]).shade == orig[p].shade
                && old(col)@[p].idx == orig[p].idx && (is_solid(old(col)@[p]) <==> is_solid(
                orig[p],
            )),
        forall|p: int| start <= p < end ==> is_solid(#[trigger] orig[p]),
    ensures
        final(col)@.len() == old(col)@.len(),
        forall|p: int|
            0 <= p < orig.len() && !(start <= p < end) ==> #[trigger] final(col)@[p] == old(
                col,
            )@[p],
        forall|p: int|
            start <= p < end ==> (#[trigger] final(col)@[p]).shade == orig[p].shade
                && final(col)@[p].idx == orig[p].idx && 0 <= final(col)@[p].y <= 2 * orig.len()
                * abs_int(step as int),
        forall|p: int|
            start <= p && p + 1 < end ==> link_ok(
                #[trigger] orig[p + 1].shade,
                step as int,
                final(col)@[p].y as int,
                final(col)@[p + 1].y as int,
            ),
        forall|zs: Seq<int>, p: int|
            #![trigger heights_ok(orig, zs, step as int), zs[p]]
            heights_ok(orig, zs, step as int) && start <= p < end ==> final(col)@[p].y <= zs[p],
{
    let n = end - start;
    let ghost s = abs_int(step as int);
    let ghost total = old(col)@.len();
    assert(n * s <= 0x7FFF_FFFF) by (nonlinear_arith)
        requires
            n <= total,
            total * s <= 0x7FFF_FFFF,
            s >= 0,
    ;
    let mut low: Vec<i32> = vec![0i32; n];
    // forward: what each cell owes its northern neighbour
    let mut k: usize = 0;
    while k + 1 < n
        invariant
            n == end - start,
            start < end <= col@.len(),
            orig.len() == col@.len(),
            col@ == old(col)@,
            s == abs_int(step as int),
            n * s <= 0x7FFF_FFFF,
            low@.len() == n,
            k < n,
            forall|p: int| 0 <= p < orig.len() ==> (#[trigger] col@[p]).shade == orig[p].shade,
            forall|p: int| start <= p < end ==> is_solid(#[trigger] orig[p]),
            forall|j: int| 0 <= j <= k ==> 0 <= #[trigger] low@[j] <= j * s,
            forall|j: int| k < j < n ==> #[trigger] low@[j] == 0,
            forall|j: int| 0 <= j < k ==> #[trigger] forward_ok(orig, start as int, low@, j, step as int),
            forall|zs: Seq<int>, j: int|
                #![trigger heights_ok(orig, zs, step as int), zs[start + j]]
                heights_ok(orig, zs, step as int) && 0 <= j <= k ==> low@[j] <= zs[start + j],
        decreases n - k,
    {
        let sh = col[start + k + 1].shade;
        let prev = low[k];
        assert(prev + s <= (k + 1) * s) by (nonlinear_arith)
            requires prev <= k * s;
        assert((k + 1) * s <= n * s) by (nonlinear_arith)
            requires k + 1 <= n, s >= 0;
        let ghost low0 = low@;
        let next: i32 = if sh == 0 {
            if prev + step < 0 {
                0
            } else {
                prev + step
            }
        } else if sh == 1 {
            prev
        } else {
            0
        };
        low.set(k + 1, next);
        proof {
            let kk = k as int;
            assert(forward_ok(orig, start as int, low@, kk, step as int));
            assert forall|zs: Seq<int>, j: int|
                #![trigger heights_ok(orig, zs, step as int), zs[start + j]]
                heights_ok(orig, zs, step as int) && 0 <= j <= kk + 1 implies low@[j] <= zs[start
                + j] by {
                if j == kk + 1 {
                    let p = start + kk;
                    assert(is_solid(orig[p]) && is_solid(orig[p + 1]));
                    assert(link_ok(orig[p + 1].shade, step as int, zs[p], zs[p + 1]));
                    assert(zs[start + kk] >= low@[kk]);
                }
            }
            assert forall|j: int| 0 <= j < kk + 1 implies #[trigger] forward_ok(
                orig,
                start as int,
                low@,
                j,
                step as int,
            ) by {
                if j < kk {
                    assert(forward_ok(orig, start as int, low0, j, step as int));
                }
            }
        }
        k = k + 1;
    }
    // backward: what each cell owes its southern neighbour
    let mut kb: usize = n - 1;
    let ghost pz = plain_heights(orig, step as int);
    proof {
        lemma_plain_heights(orig, step as int);
        let last = (n - 1) as int;
        assert(low@[last] <= last * s);
        assert(last * s <= (2 * n - 1 - last) * s) by (nonlinear_arith)
            requires last >= 0, s >= 0, last == n - 1;
    }
    while kb > 0
        invariant
            n == end - start,
            start < end <= col@.len(),
            orig.len() == col@.len(),
            col@ == old(col)@,
            s == abs_int(step as int),
            n * s <= 0x7FFF_FFFF,
            low@.len() == n,
            kb < n,
            forall|p: int| 0 <= p < orig.len() ==> (#[trigger] col@[p]).shade == orig[p].shade,
            forall|p: int| start <= p < end ==> is_solid(#[trigger] orig[p]),
            forall|j: int| 0 <= j < n ==> 0 <= #[trigger] low@[j],
            forall|j: int| 0 <= j < kb ==> #[trigger] low@[j] <= j * s,
            forall|j: int| kb <= j < n ==> #[trigger] low@[j] <= (2 * n - 1 - j) * s,
            orig.len() * s <= 0x7FFF_FFFF,
            heights_ok(orig, pz, step as int),
            forall|p: int| 0 <= p < orig.len() ==> #[trigger] pz[p] <= (orig.len() - 1) * s,
            forall|j: int| 0 <= j < kb ==> #[trigger] forward_ok(orig, start as int, low@, j, step as int),
            forall|j: int|
                kb <= j && j + 1 < n ==> #[trigger] run_link_ok(orig, start as int, low@, j, step as int),
            forall|zs: Seq<int>, j: int|
                #![trigger heights_ok(orig, zs, step as int), zs[start + j]]
                heights_ok(orig, zs, step as int) && 0 <= j < n ==> low@[j] <= zs[start + j],
        decreases kb,
    {
        let kk = kb - 1;
        let sh = col[start + kk + 1].shade;
        let cur = low[kk];
        let nxt = low[kk + 1];
        let ghost low0 = low@;
        proof {
            let kn = kk + 1;
            assert(nxt <= (2 * n - 1 - kn) * s);
            assert((2 * n - 1 - (kk + 1)) * s + s == (2 * n - 1 - kk) * s) by (nonlinear_arith);
            assert((2 * n - 1 - kk) * s <= 2 * n * s) by (nonlinear_arith)
                requires kk >= 0, s >= 0;
            assert(kk * s <= (2 * n - 1 - kk) * s) by (nonlinear_arith)
                requires kk + 1 < n, s >= 0;
            assert((2 * n - 1 - kn) * s <= 2 * n * s) by (nonlinear_arith)
                requires kn >= 0, s >= 0;
            assert(nxt <= pz[start + kn]);
            assert(pz[start + kn] <= (orig.len() - 1) * s);
            assert((orig.len() - 1) * s + s == orig.len() * s) by (nonlinear_arith);
            assert(nxt + s <= 0x7FFF_FFFF);
            assert(s <= 0x7FFF_FFFF) by (nonlinear_arith)
                requires n * s <= 0x7FFF_FFFF, n >= 1, s >= 0;
        }
        if sh == 0 {
        } else if sh == 1 {
            if nxt > cur {
                low.set(kk, nxt);
            }
        } else {
            let v = nxt + step;
            if v > cur {
                low.set(kk, v);
            }
        }
        proof {
            let k2 = kk as int;
            assert(forward_ok(orig, start as int, low0, k2, step as int));
            assert(run_link_ok(orig, start as int, low@, k2, step as int));
            assert forall|j: int| kb - 1 <= j && j + 1 < n implies #[trigger] run_link_ok(
                orig,
                start as int,
                low@,
                j,
                step as int,
            ) by {
                if j > k2 {
                    assert(run_link_ok(orig, start as int, low0, j, step as int));
                }
            }
            assert forall|j: int| 0 <= j < kb - 1 implies #[trigger] forward_ok(
                orig,
                start as int,
                low@,
                j,
                step as int,
            ) by {
                assert(forward_ok(orig, start as int, low0, j, step as int));
            }
            assert forall|zs: Seq<int>, j: int|
                #![trigger heights_ok(orig, zs, step as int), zs[start + j]]
                heights_ok(orig, zs, step as int) && 0 <= j < n implies low@[j] <= zs[start + j] by {
                if j == k2 {
                    let p = start + k2;
                    assert(is_solid(orig[p]) && is_solid(orig[p + 1]));
                    assert(link_ok(orig[p + 1].shade, step as int, zs[p], zs[p + 1]));
                    let jn = k2 + 1;
                    assert(zs[start + jn] >= low0[jn]);
                    assert(zs[start + k2] >= low0[k2]);
                }
            }
        }
        kb = kk;
    }
    // write back
    let ghost before = col@;
    let mut w: usize = 0;
    while w < n
        invariant
            n == end - start,
            start < end <= col@.len(),
            orig.len() == col@.len(),
            before == old(col)@,
            low@.len() == n,
            w <= n,
            forall|p: int|
                0 <= p < orig.len() && !(start <= p < start + w) ==> #[trigger] col@[p] == before[p],
            forall|j: int| 0 <= j < w ==> (#[trigger] col@[start + j]).y == low@[j]
                && col@[start + j].shade == before[start + j].shade && col@[start + j].idx
                == before[start + j].idx,
        decreases n - w,
    {
        let c = col[start + w];
        col.set(start + w, StairCell { y: low[w], idx: c.idx, shade: c.shade });
        w = w + 1;
    }
    proof {
        assert forall|p: int| start <= p && p + 1 < end implies link_ok(
            #[trigger] orig[p + 1].shade,
            step as int,
            col@[p].y as int,
            col@[p + 1].y as int,
        ) by {
            let j = p - start;
            assert(run_link_ok(orig, start as int, low@, j, step as int));
            assert(col@[start + j].y == low@[j]);
            assert(col@[start + (j + 1)].y == low@[j + 1]);
        }
        assert(2 * n * s <= 2 * orig.len() * s) by (nonlinear_arith)
            requires n <= orig.len(), s >= 0;
        assert forall|p: int|
            start <= p < end implies (#[trigger] col@[p]).shade == orig[p].shade && col@[p].idx
                == orig[p].idx && 0 <= col@[p].y <= 2 * orig.len() * abs_int(step as int) by {
            let j = p - start;
            assert(col@[start + j].y == low@[j]);
            assert(low@[j] <= (2 * n - 1 - j) * s);
            assert((2 * n - 1 - j) * s <= 2 * n * s) by (nonlinear_arith)
                requires j >= 0, s >= 0;
        }
        assert forall|zs: Seq<int>, p: int|
            #![trigger heights_ok(orig, zs, step as int), zs[p]]
            heights_ok(orig, zs, step as int) && start <= p < end implies col@[p].y <= zs[p] by {
            let j = p - start;
            assert(col@[start + j].y == low@[j]);
            assert(low@[j] <= zs[start + j]);
        }
    }
}

/// Lossless compression of one column: each solid run sinks to the least non-negative
/// heights that keep every block's shade.
pub fn compress_staircase_column(col: &mut Vec<StairCell>, step: i32)
    requires
        old(col)@.len() * abs_int(step as int) <= 0x7FFF_FFFF,
    ensures
        is_compression_of(old(col)@, final(col)@, step as int),
        final(col)@ == compressed(old(col)@, step as int),
        forall|p: int|
            0 <= p < old(col)@.len() && is_solid(old(col)@[p]) ==> (#[trigger] final(col)@[p]).y
                <= 2 * old(col)@.len() * abs_int(step as int),
{
    let ghost orig = col@;
    let height = col.len();
    let mut i: usize = 0;
    while i < height
        invariant
            height == col.len(),
            orig.len() == height,
            orig == old(col)@,
            i <= height,
            height * abs_int(step as int) <= 0x7FFF_FFFF,
            forall|p: int|
                0 <= p < height ==> (#[trigger] col@[p]).idx == orig[p].idx && col@[p].shade
                    == orig[p].shade && (is_solid(col@[p]) <==> is_solid(orig[p])),
            forall|p: int| i <= p < height ==> #[trigger] col@[p] == orig[p],
            0 < i < height ==> !(is_solid(orig[i - 1]) && is_solid(orig[i as int])),
            forall|p: int|
                0 <= p < i && is_solid(orig[p]) ==> 0 <= #[trigger] col@[p].y <= 2 * height
                    * abs_int(step as int),
            forall|p: int|
                0 <= p && p + 1 < i && is_solid(orig[p]) && is_solid(orig[p + 1]) ==> link_ok(
                    #[trigger] orig[p + 1].shade,
                    step as int,
                    col@[p].y as int,
                    col@[p + 1].y as int,
                ),
            forall|zs: Seq<int>, p: int|
                #![trigger heights_ok(orig, zs, step as int), zs[p]]
                heights_ok(orig, zs, step as int) && 0 <= p < i && is_solid(orig[p]) ==> col@[p].y
                    <= zs[p],
        decreases height - i,
    {
        let i0 = i;
        while i < height && col[i].y == i32::MIN
            invariant
                height == col.len(),
                i0 <= i <= height,
                forall|p: int| i0 <= p < height ==> #[trigger] col@[p] == orig[p],
                forall|p: int| i0 <= p < i ==> !is_solid(#[trigger] orig[p]),
            decreases height - i,
        {
            i = i + 1;
        }
        proof {
            assert forall|p: int| i0 <= p < i implies !is_solid(#[trigger] orig[p]) by {}
        }
        if i < height {
        let start = i;
        let mut end = i;
        while end < height && col[end].y != i32::MIN
            invariant
                height == col.len(),
                start <= end <= height,
                forall|p: int| start <= p < height ==> #[trigger] col@[p] == orig[p],
                forall|p: int| start <= p < end ==> is_solid(#[trigger] orig[p]),
            decreases height - end,
        {
            end = end + 1;
        }
        assert(start > 0 ==> !is_solid(orig[start - 1]));
        compress_run(col, start, end, step, Ghost(orig));
        i = end;
        }
    }
    proof {
        assert(heights_of(col@).len() == orig.len());
        assert forall|p: int|
            0 <= p < orig.len() - 1 && is_solid(orig[p]) && is_solid(orig[p + 1]) implies link_ok(
            #[trigger] orig[p + 1].shade,
            step as int,
            heights_of(col@)[p],
            heights_of(col@)[p + 1],
        ) by {}
        assert(is_compression_of(orig, col@, step as int));
        compression_unique(orig, col@, compressed(orig, step as int), step as int);
    }
}

/// The empty cell.
pub open spec fn empty_cell() -> StairCell {
    StairCell { y: i32::MIN, idx: 0, shade: 0 }
}

/// Walking a column from its southern end: the height reached and the offset the last
/// solid cell hands north, once every cell from `z` southwards has been walked. An empty
/// cell resets both to 0.
pub open spec fn walk_state(choices: Seq<u16>, opaque: Seq<bool>, step: i32, z: int) -> (int, int)
    decreases choices.len() - z,
{
    if z >= choices.len() || z < 0 {
        (0, 0)
    } else {
        let prev = walk_state(choices, opaque, step, z + 1);
        if !opaque[z] {
            (0, 0)
        } else {
            (prev.0 + prev.1, shade_offset((choices[z] % 3) as u8, step))
        }
    }
}

/// Cell `z` of a walked column: empty where transparent, else block `choice / 3` with
/// shade `choice % 3` at the height the walk reached.
pub open spec fn walked_cell(choices: Seq<u16>, opaque: Seq<bool>, step: i32, z: int) -> StairCell {
    if !opaque[z] {
        empty_cell()
    } else {
        let prev = walk_state(choices, opaque, step, z + 1);
        StairCell {
            y: (prev.0 + prev.1) as i32,
            idx: (choices[z] / 3) as u16,
            shade: (choices[z] % 3) as u8,
        }
    }
}

proof fn lemma_walk_bounds(choices: Seq<u16>, opaque: Seq<bool>, step: i32, z: int)
    requires
        0 <= z <= choices.len(),
    ensures
        abs_int(walk_state(choices, opaque, step, z).0) <= (choices.len() - z) * abs_int(
            step as int,
        ),
        abs_int(walk_state(choices, opaque, step, z).1) <= abs_int(step as int),
    decreases choices.len() - z,
{
    if z < choices.len() {
        lemma_walk_bounds(choices, opaque, step, z + 1);
        assert((choices.len() - (z + 1)) * abs_int(step as int) + abs_int(step as int) == (
        choices.len() - z) * abs_int(step as int)) by (nonlinear_arith);
    }
}

/// Heights of a walked column: a transparent cell is empty; an opaque cell at the southern
/// end, or just north of a transparent cell, is at height 0 (a gap restarts the walk); and
/// an opaque cell just north of another is above it by that cell's shade offset: `-step`
/// for shade 0, 0 for shade 1, `step` for any other shade.
pub proof fn walked_heights(choices: Seq<u16>, opaque: Seq<bool>, step: i32, z: int)
    requires
        choices.len() == opaque.len(),
        choices.len() * abs_int(step as int) <= 0x7FFF_FFFF,
        0 <= z < choices.len(),
    ensures
        !opaque[z] ==> walked_cell(choices, opaque, step, z).y == i32::MIN,
        opaque[z] ==> walked_cell(choices, opaque, step, z).idx == choices[z] / 3
            && walked_cell(choices, opaque, step, z).shade == choices[z] % 3,
        opaque[z] && (z + 1 == choices.len() || !opaque[z + 1]) ==> walked_cell(
            choices,
            opaque,
            step,
            z,
        ).y == 0,
        opaque[z] && z + 1 < choices.len() && opaque[z + 1] ==> walked_cell(
            choices,
            opaque,
            step,
            z,
        ).y == walked_cell(choices, opaque, step, z + 1).y + (if choices[z + 1] % 3 == 0 {
            -step
        } else if choices[z + 1] % 3 == 1 {
            0
        } else {
            step as int
        }),
{
    let s = abs_int(step as int);
    lemma_walk_bounds(choices, opaque, step, z + 1);
    if z + 1 < choices.len() {
        lemma_walk_bounds(choices, opaque, step, z + 2);
        assert((choices.len() - (z + 1)) * s <= choices.len() * s) by (nonlinear_arith)
            requires
                z >= 0,
                s >= 0,
        ;
        assert((choices.len() - (z + 2)) * s <= choices.len() * s) by (nonlinear_arith)
            requires
                z >= 0,
                s >= 0,
        ;
        assert((choices.len() - (z + 2)) * s + s <= choices.len() * s) by (nonlinear_arith)
            requires
                z >= 0,
                s >= 0,
        ;
    }
    assert((choices.len() - (z + 1)) * s + s <= choices.len() * s) by (nonlinear_arith)
        requires
            z >= 0,
            s >= 0,
    ;
}

/// Heights of one staircase column from its shade choices (`choice / 3` is the block,
/// `choice % 3` the shade), walked from the southern end; transparent cells stay empty and
/// restart the walk.
pub fn staircase_column(choices: &[u16], opaque: &[bool], step: i32) -> (res: Vec<StairCell>)
    requires
        choices@.len() == opaque@.len(),
        choices@.len() * abs_int(step as int) <= 0x7FFF_FFFF,
    ensures
        res@.len() == choices@.len(),
        forall|z: int|
            0 <= z < choices@.len() ==> #[trigger] res@[z] == walked_cell(
                choices@,
                opaque@,
                step,
                z,
            ),
        forall|z: int|
            0 <= z < choices@.len() && opaque@[z] ==> abs_int(#[trigger] res@[z].y as int)
                <= choices@.len() * abs_int(step as int),
        forall|z: int|
            0 <= z < choices@.len() && opaque@[z] && (z + 1 == choices@.len() || !opaque@[z + 1])
                ==> #[trigger] res@[z].y == 0,
        forall|z: int|
            0 <= z && z + 1 < choices@.len() && opaque@[z] && opaque@[z + 1] ==> #[trigger] res@[z].y
                == res@[z + 1].y + (if choices@[z + 1] % 3 == 0 {
                -step
            } else if choices@[z + 1] % 3 == 1 {
                0
            } else {
                step as int
            }),
{
    let height = choices.len();
    let mut col: Vec<StairCell> = vec![StairCell { y: i32::MIN, idx: 0, shade: 0 }; height];
    let mut basey: i32 = 0;
    let mut offset: i32 = 0;
    let mut z: usize = height;
    let ghost s = abs_int(step as int);
    while z > 0
        invariant
            height == choices@.len(),
            height == opaque@.len(),
            col@.len() == height,
            z <= height,
            s == abs_int(step as int),
            height * s <= 0x7FFF_FFFF,
            (basey as int, offset as int) == walk_state(choices@, opaque@, step, z as int),
            forall|q: int| 0 <= q < z ==> #[trigger] col@[q] == empty_cell(),
            forall|q: int|
                z <= q < height ==> #[trigger] col@[q] == walked_cell(choices@, opaque@, step, q),
            forall|q: int|
                z <= q < height && opaque@[q] ==> abs_int(#[trigger] col@[q].y as int) <= height
                    * s,
        decreases z,
    {
        let zz = z - 1;
        proof {
            lemma_walk_bounds(choices@, opaque@, step, z as int);
            assert((height - z) * s + s <= height * s) by (nonlinear_arith)
                requires 1 <= z <= height, s >= 0;
            assert(s <= 0x7FFF_FFFF) by (nonlinear_arith)
                requires height * s <= 0x7FFF_FFFF, height >= 1, s >= 0;
        }
        if !opaque[zz] {
            basey = 0;
            offset = 0;
        } else {
            let idx3 = choices[zz];
            let shade = (idx3 % 3) as u8;
            let offset_now: i32 = if shade == 0 {
                0 - step
            } else if shade == 1 {
                0
            } else {
                step
            };
            let y = basey + offset;
            col.set(zz, StairCell { y, idx: idx3 / 3, shade });
            basey = y;
            offset = offset_now;
        }
        z = zz;
    }
    proof {
        assert forall|q: int|
            0 <= q < height && opaque@[q] && (q + 1 == height || !opaque@[q + 1]) implies #[trigger] col@[q].y
                == 0 by {
            walked_heights(choices@, opaque@, step, q);
        }
        assert forall|q: int|
            0 <= q && q + 1 < height && opaque@[q] && opaque@[q + 1] implies #[trigger] col@[q].y
                == col@[q + 1].y + (if choices@[q + 1] % 3 == 0 {
                -step
            } else if choices@[q + 1] % 3 == 1 {
                0
            } else {
                step as int
            }) by {
            walked_heights(choices@, opaque@, step, q);
        }
    }
    col
}

/// The three shades of one map colour: the colour scaled by 255/255, 220/255 and 180/255,
/// each channel rounded down.
pub open spec fn shaded(c: [u8; 3], shade: int) -> [u8; 3] {
    [(c[0] * shade / 255) as u8, (c[1] * shade / 255) as u8, (c[2] * shade / 255) as u8]
}

fn shade_rgb(c: [u8; 3], shade: u32) -> (res: [u8; 3])
    requires
        shade <= 255,
    ensures
        res == shaded(c, shade as int),
{
    proof {
        assert(c[0] * shade <= 255 * 255 && c[1] * shade <= 255 * 255 && c[2] * shade <= 255 * 255)
            by (nonlinear_arith)
            requires c[0] <= 255, c[1] <= 255, c[2] <= 255, shade <= 255;
    }
    let r = (c[0] as u32) * shade / 255;
    let g = (c[1] as u32) * shade / 255;
    let b = (c[2] as u32) * shade / 255;
    [r as u8, g as u8, b as u8]
}

/// Brightness of shade `s` (0, 1, 2): 255, 220, 180.
pub open spec fn shade_level(s: int) -> int {
    if s == 0 {
        255
    } else if s == 1 {
        220
    } else {
        180
    }
}

/// The staircase palette of a list of colours (see `stair_palette`).
pub open spec fn stair_rgb_spec(full: Seq<[u8; 3]>) -> Seq<[u8; 3]> {
    Seq::new(full.len() * 3, |k: int| shaded(full[k / 3], shade_level(k % 3)))
}

/// The staircase palette: for each colour, its dark, flat and light shades, in that order
/// (entry `3 * i + s` is colour `i` in shade `s`).
pub fn stair_palette(full_rgb: &[[u8; 3]]) -> (res: Vec<[u8; 3]>)
    requires
        full_rgb@.len() * 3 <= usize::MAX,
    ensures
        res@ == stair_rgb_spec(full_rgb@),
        res@.len() == full_rgb@.len() * 3,
        forall|i: int, s: int|
            0 <= i < full_rgb@.len() && 0 <= s < 3 ==> #[trigger] res@[3 * i + s] == shaded(
                full_rgb@[i],
                if s == 0 {
                    255
                } else if s == 1 {
                    220
                } else {
                    180
                },
            ),
{
    let mut res: Vec<[u8; 3]> = Vec::new();
    let mut i: usize = 0;
    while i < full_rgb.len()
        invariant
            i <= full_rgb@.len(),
            full_rgb@.len() * 3 <= usize::MAX,
            res@.len() == i * 3,
            forall|k: int, s: int|
                0 <= k < i && 0 <= s < 3 ==> #[trigger] res@[3 * k + s] == shaded(
                    full_rgb@[k],
                    if s == 0 {
                        255
                    } else if s == 1 {
                        220
                    } else {
                        180
                    },
                ),
        decreases full_rgb@.len() - i,
    {
        let c = full_rgb[i];
        res.push(shade_rgb(c, 255));
        res.push(shade_rgb(c, 220));
        res.push(shade_rgb(c, 180));
        proof {
            assert forall|k: int, s: int|
                0 <= k < i + 1 && 0 <= s < 3 implies #[trigger] res@[3 * k + s] == shaded(
                full_rgb@[k],
                if s == 0 {
                    255
                } else if s == 1 {
                    220
                } else {
                    180
                },
            ) by {
                if k == i {
                    assert(3 * k + s == 3 * i + s);
                }
            }
        }
        i = i + 1;
    }
    proof {
        assert forall|k: int| 0 <= k < res@.len() implies #[trigger] res@[k] == stair_rgb_spec(
            full_rgb@,
        )[k] by {
            let q = k / 3;
            let r = k % 3;
            assert(k == 3 * q + r);
            assert(res@[3 * q + r] == shaded(full_rgb@[q], shade_level(r)));
        }
        assert(res@ =~= stair_rgb_spec(full_rgb@));
    }
    res
}

/// The least non-negative heights of a column that keep every shade (see
/// `is_compression_of`; there is exactly one such column).
pub open spec fn compressed(col: Seq<StairCell>, step: int) -> Seq<StairCell> {
    choose|c: Seq<StairCell>| is_compression_of(col, c, step)
}

/// Two compressions of one column are the same column.
pub proof fn compression_unique(col: Seq<StairCell>, a: Seq<StairCell>, b: Seq<StairCell>, step: int)
    requires
        is_compression_of(col, a, step),
        is_compression_of(col, b, step),
    ensures
        a == b,
{
    assert(heights_ok(col, heights_of(a), step));
    assert(heights_ok(col, heights_of(b), step));
    assert forall|p: int| 0 <= p < col.len() implies #[trigger] a[p] == b[p] by {
        if is_solid(col[p]) {
            assert(a[p].y <= heights_of(b)[p]);
            assert(b[p].y <= heights_of(a)[p]);
        } else {
            assert(!is_solid(a[p]) && !is_solid(b[p]));
        }
    }
    assert(a =~= b);
}


/// Cells `p` and `q` lie in one solid run: every cell from one to the other is solid.
pub open spec fn same_run(col: Seq<StairCell>, p: int, q: int) -> bool {
    forall|r: int|
        (if p <= q {
            p <= r <= q
        } else {
            q <= r <= p
        }) ==> is_solid(#[trigger] col[r])
}

proof fn lemma_run_step(col: Seq<StairCell>, p: int, q: int)
    requires
        0 <= p < col.len(),
        0 <= q < col.len() - 1,
        is_solid(col[p]),
        is_solid(col[q]),
        is_solid(col[q + 1]),
    ensures
        same_run(col, p, q) <==> same_run(col, p, q + 1),
{
    if same_run(col, p, q) {
        assert forall|r: int|
            (if p <= q + 1 {
                p <= r <= q + 1
            } else {
                q + 1 <= r <= p
            }) implies is_solid(#[trigger] col[r]) by {
            if r != q + 1 {
                if p <= q {
                    assert(p <= r <= q);
                } else {
                    assert(q <= r <= p);
                }
            }
        }
    }
    if same_run(col, p, q + 1) {
        assert forall|r: int|
            (if p <= q {
                p <= r <= q
            } else {
                q <= r <= p
            }) implies is_solid(#[trigger] col[r]) by {
            if r != q {
                if p <= q + 1 {
                    assert(p <= r <= q + 1);
                } else {
                    assert(q + 1 <= r <= p);
                }
            }
        }
    }
}

/// Compression sinks each solid run to the base: some block of the run holding `p` sits at
/// height 0.
pub proof fn compression_touches_base(col: Seq<StairCell>, c: Seq<StairCell>, step: int, p: int)
    requires
        is_compression_of(col, c, step),
        0 <= p < col.len(),
        is_solid(col[p]),
    ensures
        exists|q: int| 0 <= q < col.len() && same_run(col, p, q) && (#[trigger] c[q]).y == 0,
{
    if !(exists|q: int| 0 <= q < col.len() && same_run(col, p, q) && (#[trigger] c[q]).y == 0) {
        let zs = Seq::new(
            col.len(),
            |q: int|
                if same_run(col, p, q) {
                    c[q].y - 1
                } else {
                    c[q].y as int
                },
        );
        assert(heights_ok(col, heights_of(c), step));
        assert forall|q: int| 0 <= q < col.len() && is_solid(col[q]) implies zs[q] >= 0 by {
            assert(heights_of(c)[q] >= 0);
            if same_run(col, p, q) {
                assert(c[q].y != 0);
            }
        }
        assert forall|q: int|
            0 <= q < col.len() - 1 && is_solid(col[q]) && is_solid(col[q + 1]) implies link_ok(
            #[trigger] col[q + 1].shade,
            step,
            zs[q],
            zs[q + 1],
        ) by {
            lemma_run_step(col, p, q);
            assert(link_ok(col[q + 1].shade, step, heights_of(c)[q], heights_of(c)[q + 1]));
        }
        assert(heights_ok(col, zs, step));
        assert(same_run(col, p, p));
        assert(c[p].y <= zs[p]);
    }
}

} // verus!

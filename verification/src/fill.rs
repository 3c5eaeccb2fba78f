//! Filling a hollow voxel shell: the cells of a box that no path of empty cells joins to the
//! box's faces are enclosed, and each takes the colour of a nearest shell cell.
use vstd::prelude::*;
use vstd::arithmetic::div_mod::{lemma_fundamental_div_mod, lemma_fundamental_div_mod_converse};
use vstd::set_lib::{lemma_int_range, lemma_len_subset, set_int_range};

verus! {

/// Cell `(x, y, z)` of a box `nx` wide and `ny` deep: `x + nx * y + nx * ny * z`.
pub open spec fn cell(nx: int, ny: int, x: int, y: int, z: int) -> int {
    x + nx * y + nx * ny * z
}

/// The coordinates of cell `i`.
pub open spec fn gx(nx: int, i: int) -> int {
    i % nx
}

pub open spec fn gy(nx: int, ny: int, i: int) -> int {
    (i / nx) % ny
}

pub open spec fn gz(nx: int, ny: int, i: int) -> int {
    i / (nx * ny)
}

/// Cell `i` lies in the box.
pub open spec fn in_grid(nx: int, ny: int, nz: int, i: int) -> bool {
    0 <= i < nx * ny * nz
}

pub open spec fn dist1(a: int, b: int) -> int {
    if a < b {
        b - a
    } else {
        a - b
    }
}

/// Two cells share a face.
pub open spec fn adjacent(nx: int, ny: int, nz: int, i: int, j: int) -> bool {
    &&& in_grid(nx, ny, nz, i)
    &&& in_grid(nx, ny, nz, j)
    &&& dist1(gx(nx, i), gx(nx, j)) + dist1(gy(nx, ny, i), gy(nx, ny, j)) + dist1(
        gz(nx, ny, i),
        gz(nx, ny, j),
    ) == 1
}

/// A cell on one of the box's faces.
pub open spec fn on_face(nx: int, ny: int, nz: int, i: int) -> bool {
    gx(nx, i) == 0 || gx(nx, i) == nx - 1 || gy(nx, ny, i) == 0 || gy(nx, ny, i) == ny - 1 || gz(
        nx,
        ny,
        i,
    ) == 0 || gz(nx, ny, i) == nz - 1
}

proof fn lemma_cell_coords(nx: int, ny: int, nz: int, x: int, y: int, z: int)
    requires
        0 <= x < nx,
        0 <= y < ny,
        0 <= z < nz,
    ensures
        in_grid(nx, ny, nz, cell(nx, ny, x, y, z)),
        gx(nx, cell(nx, ny, x, y, z)) == x,
        gy(nx, ny, cell(nx, ny, x, y, z)) == y,
        gz(nx, ny, cell(nx, ny, x, y, z)) == z,
{
    let c = cell(nx, ny, x, y, z);
    assert(c == (y + ny * z) * nx + x) by (nonlinear_arith)
        requires
            c == x + nx * y + nx * ny * z,
    ;
    lemma_fundamental_div_mod_converse(c, nx, y + ny * z, x);
    assert(y + ny * z == z * ny + y) by (nonlinear_arith);
    lemma_fundamental_div_mod_converse(y + ny * z, ny, z, y);
    assert(nx * ny > 0) by (nonlinear_arith)
        requires
            nx > 0,
            ny > 0,
    ;
    assert(0 <= x + nx * y < nx * ny) by (nonlinear_arith)
        requires
            0 <= x < nx,
            0 <= y < ny,
    ;
    assert(c == z * (nx * ny) + (x + nx * y)) by (nonlinear_arith)
        requires
            c == x + nx * y + nx * ny * z,
    ;
    lemma_fundamental_div_mod_converse(c, nx * ny, z, x + nx * y);
    assert(0 <= c < nx * ny * nz) by (nonlinear_arith)
        requires
            c == z * (nx * ny) + (x + nx * y),
            0 <= x + nx * y < nx * ny,
            0 <= z < nz,
    ;
}

proof fn lemma_coords_of(nx: int, ny: int, nz: int, i: int)
    requires
        nx > 0,
        ny > 0,
        in_grid(nx, ny, nz, i),
    ensures
        0 <= gx(nx, i) < nx,
        0 <= gy(nx, ny, i) < ny,
        0 <= gz(nx, ny, i) < nz,
        i == cell(nx, ny, gx(nx, i), gy(nx, ny, i), gz(nx, ny, i)),
{
    lemma_fundamental_div_mod(i, nx);
    let q = i / nx;
    lemma_fundamental_div_mod(q, ny);
    assert(nx * ny > 0) by (nonlinear_arith)
        requires
            nx > 0,
            ny > 0,
    ;
    let x = i % nx;
    let y = q % ny;
    let z = q / ny;
    assert(0 <= x < nx && 0 <= y < ny);
    assert(q >= 0) by (nonlinear_arith)
        requires
            i >= 0,
            nx > 0,
            q == i / nx,
    ;
    assert(i == x + nx * y + nx * ny * z) by (nonlinear_arith)
        requires
            i == nx * q + x,
            q == ny * z + y,
    ;
    assert(0 <= x + nx * y < nx * ny) by (nonlinear_arith)
        requires
            0 <= x < nx,
            0 <= y < ny,
    ;
    assert(i == z * (nx * ny) + (x + nx * y)) by (nonlinear_arith)
        requires
            i == x + nx * y + nx * ny * z,
    ;
    lemma_fundamental_div_mod_converse(i, nx * ny, z, x + nx * y);
    assert(0 <= z < nz) by (nonlinear_arith)
        requires
            i == z * (nx * ny) + (x + nx * y),
            0 <= x + nx * y < nx * ny,
            0 <= i < nx * ny * nz,
    ;
}

/// The neighbour of cell `i` in direction `d`: +x, -x, +y, -y, +z, -z.
pub open spec fn nbr(nx: int, ny: int, nz: int, i: int, d: int) -> Option<int> {
    let (x, y, z) = (gx(nx, i), gy(nx, ny, i), gz(nx, ny, i));
    if d == 0 {
        if x + 1 < nx {
            Some(cell(nx, ny, x + 1, y, z))
        } else {
            None
        }
    } else if d == 1 {
        if x > 0 {
            Some(cell(nx, ny, x - 1, y, z))
        } else {
            None
        }
    } else if d == 2 {
        if y + 1 < ny {
            Some(cell(nx, ny, x, y + 1, z))
        } else {
            None
        }
    } else if d == 3 {
        if y > 0 {
            Some(cell(nx, ny, x, y - 1, z))
        } else {
            None
        }
    } else if d == 4 {
        if z + 1 < nz {
            Some(cell(nx, ny, x, y, z + 1))
        } else {
            None
        }
    } else {
        if z > 0 {
            Some(cell(nx, ny, x, y, z - 1))
        } else {
            None
        }
    }
}

proof fn lemma_nbr_adjacent(nx: int, ny: int, nz: int, i: int, d: int)
    requires
        nx > 0,
        ny > 0,
        in_grid(nx, ny, nz, i),
    ensures
        nbr(nx, ny, nz, i, d) matches Some(j) ==> adjacent(nx, ny, nz, i, j),
{
    lemma_coords_of(nx, ny, nz, i);
    let (x, y, z) = (gx(nx, i), gy(nx, ny, i), gz(nx, ny, i));
    if let Some(j) = nbr(nx, ny, nz, i, d) {
        if d == 0 {
            lemma_cell_coords(nx, ny, nz, x + 1, y, z);
        } else if d == 1 {
            lemma_cell_coords(nx, ny, nz, x - 1, y, z);
        } else if d == 2 {
            lemma_cell_coords(nx, ny, nz, x, y + 1, z);
        } else if d == 3 {
            lemma_cell_coords(nx, ny, nz, x, y - 1, z);
        } else if d == 4 {
            lemma_cell_coords(nx, ny, nz, x, y, z + 1);
        } else {
            lemma_cell_coords(nx, ny, nz, x, y, z - 1);
        }
    }
}

proof fn lemma_adjacent_nbr(nx: int, ny: int, nz: int, i: int, j: int)
    requires
        nx > 0,
        ny > 0,
        adjacent(nx, ny, nz, i, j),
    ensures
        exists|d: int| 0 <= d < 6 && #[trigger] nbr(nx, ny, nz, i, d) == Some(j),
{
    lemma_coords_of(nx, ny, nz, i);
    lemma_coords_of(nx, ny, nz, j);
    let (x, y, z) = (gx(nx, i), gy(nx, ny, i), gz(nx, ny, i));
    let (a, b, c) = (gx(nx, j), gy(nx, ny, j), gz(nx, ny, j));
    if a == x + 1 {
        assert(nbr(nx, ny, nz, i, 0) == Some(j));
    } else if a == x - 1 {
        assert(nbr(nx, ny, nz, i, 1) == Some(j));
    } else if b == y + 1 {
        assert(nbr(nx, ny, nz, i, 2) == Some(j));
    } else if b == y - 1 {
        assert(nbr(nx, ny, nz, i, 3) == Some(j));
    } else if c == z + 1 {
        assert(nbr(nx, ny, nz, i, 4) == Some(j));
    } else {
        assert(nbr(nx, ny, nz, i, 5) == Some(j));
    }
}

/// The neighbour of a cell in one direction, if the box has one there.
fn neighbor(nx: usize, ny: usize, nz: usize, i: usize, d: usize) -> (res: Option<usize>)
    requires
        nx > 0,
        ny > 0,
        nx * ny * nz <= usize::MAX,
        i < nx * ny * nz,
    ensures
        match res {
            Some(j) => nbr(nx as int, ny as int, nz as int, i as int, d as int) == Some(j as int),
            None => nbr(nx as int, ny as int, nz as int, i as int, d as int) is None,
        },
{
    proof {
        lemma_coords_of(nx as int, ny as int, nz as int, i as int);
        assert(nx * ny <= nx * ny * nz) by (nonlinear_arith)
            requires
                nz >= 1,
                nx * ny >= 0,
        ;
        assert(nx * ny > 0) by (nonlinear_arith)
            requires
                nx > 0,
                ny > 0,
        ;
    }
    let nxy = nx * ny;
    let x = i % nx;
    let y = (i / nx) % ny;
    let z = i / nxy;
    proof {
        let (a, b, c) = (x as int, y as int, z as int);
        assert(i as int == a + nx * b + nx * ny * c);
    }
    if d == 0 {
        if x + 1 < nx {
            Some(i + 1)
        } else {
            None
        }
    } else if d == 1 {
        if x > 0 {
            Some(i - 1)
        } else {
            None
        }
    } else if d == 2 {
        if y + 1 < ny {
            proof {
                lemma_cell_coords(nx as int, ny as int, nz as int, x as int, y + 1, z as int);
                assert(cell(nx as int, ny as int, x as int, y + 1, z as int) == i + nx)
                    by (nonlinear_arith)
                    requires
                        i == cell(nx as int, ny as int, x as int, y as int, z as int),
                ;
            }
            Some(i + nx)
        } else {
            None
        }
    } else if d == 3 {
        if y > 0 {
            proof {
                assert(cell(nx as int, ny as int, x as int, y - 1, z as int) == i - nx)
                    by (nonlinear_arith)
                    requires
                        i == cell(nx as int, ny as int, x as int, y as int, z as int),
                ;
                assert(nx <= nx * y) by (nonlinear_arith)
                    requires
                        y >= 1,
                        nx >= 0,
                ;
            }
            Some(i - nx)
        } else {
            None
        }
    } else if d == 4 {
        if z + 1 < nz {
            proof {
                lemma_cell_coords(nx as int, ny as int, nz as int, x as int, y as int, z + 1);
                assert(cell(nx as int, ny as int, x as int, y as int, z + 1) == i + nxy)
                    by (nonlinear_arith)
                    requires
                        i == cell(nx as int, ny as int, x as int, y as int, z as int),
                        nxy == nx * ny,
                ;
            }
            Some(i + nxy)
        } else {
            None
        }
    } else {
        if z > 0 {
            proof {
                assert(cell(nx as int, ny as int, x as int, y as int, z - 1) == i - nxy)
                    by (nonlinear_arith)
                    requires
                        i == cell(nx as int, ny as int, x as int, y as int, z as int),
                        nxy == nx * ny,
                ;
                assert(nxy <= nxy * z) by (nonlinear_arith)
                    requires
                        z >= 1,
                        nxy >= 0,
                ;
                assert(nx * ny * z == nxy * z) by (nonlinear_arith)
                    requires
                        nxy == nx * ny,
                ;
            }
            Some(i - nxy)
        } else {
            None
        }
    }
}


/// Each cell of `p` shares a face with the next.
pub open spec fn walk(nx: int, ny: int, nz: int, p: Seq<int>) -> bool {
    forall|k: int| 0 <= k < p.len() - 1 ==> #[trigger] adjacent(nx, ny, nz, p[k], p[k + 1])
}

/// A walk of empty cells that ends on a face of the box.
pub open spec fn escape_path(nx: int, ny: int, nz: int, surf: Seq<bool>, p: Seq<int>) -> bool {
    &&& p.len() > 0
    &&& walk(nx, ny, nz, p)
    &&& forall|k: int| 0 <= k < p.len() ==> in_grid(nx, ny, nz, #[trigger] p[k]) && !surf[p[k]]
    &&& on_face(nx, ny, nz, p.last())
}

/// An empty cell joined to a face of the box by empty cells.
pub open spec fn outside(nx: int, ny: int, nz: int, surf: Seq<bool>, i: int) -> bool {
    exists|p: Seq<int>| #[trigger] escape_path(nx, ny, nz, surf, p) && p[0] == i
}

/// An empty cell that the shell closes in.
pub open spec fn enclosed(nx: int, ny: int, nz: int, surf: Seq<bool>, i: int) -> bool {
    in_grid(nx, ny, nz, i) && !surf[i] && !outside(nx, ny, nz, surf, i)
}

proof fn lemma_escape_prepend(nx: int, ny: int, nz: int, surf: Seq<bool>, q: Seq<int>, j: int)
    requires
        escape_path(nx, ny, nz, surf, q),
        in_grid(nx, ny, nz, j),
        !surf[j],
        adjacent(nx, ny, nz, j, q[0]),
    ensures
        escape_path(nx, ny, nz, surf, seq![j] + q),
        (seq![j] + q)[0] == j,
{
    let p = seq![j] + q;
    assert forall|k: int| 0 <= k < p.len() - 1 implies #[trigger] adjacent(
        nx,
        ny,
        nz,
        p[k],
        p[k + 1],
    ) by {
        if k > 0 {
            assert(p[k] == q[k - 1] && p[k + 1] == q[k]);
            assert(adjacent(nx, ny, nz, q[k - 1], q[k - 1 + 1]));
        }
    }
    assert forall|k: int| 0 <= k < p.len() implies in_grid(nx, ny, nz, #[trigger] p[k])
        && !surf[p[k]] by {
        if k > 0 {
            assert(p[k] == q[k - 1]);
        }
    }
    assert(p.last() == q.last());
}

/// Every empty neighbour of a marked cell is marked.
pub open spec fn closed(nx: int, ny: int, nz: int, surf: Seq<bool>, ext: Seq<bool>) -> bool {
    forall|i: int, j: int|
        #![trigger ext[i], adjacent(nx, ny, nz, i, j)]
        in_grid(nx, ny, nz, i) && ext[i] && adjacent(nx, ny, nz, i, j) && !surf[j] ==> ext[j]
}

proof fn lemma_outside_marked(
    nx: int,
    ny: int,
    nz: int,
    surf: Seq<bool>,
    ext: Seq<bool>,
    p: Seq<int>,
)
    requires
        closed(nx, ny, nz, surf, ext),
        forall|j: int|
            in_grid(nx, ny, nz, j) && on_face(nx, ny, nz, j) && !surf[j] ==> #[trigger] ext[j],
        escape_path(nx, ny, nz, surf, p),
    ensures
        ext[p[0]],
    decreases p.len(),
{
    assert(in_grid(nx, ny, nz, p[0]));
    if p.len() > 1 {
        let q = p.drop_first();
        assert forall|k: int| 0 <= k < q.len() - 1 implies #[trigger] adjacent(
            nx,
            ny,
            nz,
            q[k],
            q[k + 1],
        ) by {
            assert(adjacent(nx, ny, nz, p[k + 1], p[k + 1 + 1]));
        }
        assert forall|k: int| 0 <= k < q.len() implies in_grid(nx, ny, nz, #[trigger] q[k])
            && !surf[q[k]] by {
            assert(q[k] == p[k + 1]);
        }
        assert(q.last() == p.last());
        lemma_outside_marked(nx, ny, nz, surf, ext, q);
        assert(adjacent(nx, ny, nz, p[0], p[1]));
        assert(adjacent(nx, ny, nz, q[0], p[0]));
    }
}

/// Marks the empty cells joined to a face of the box by empty cells.
fn mark_outside(nx: usize, ny: usize, nz: usize, surface: &Vec<bool>) -> (ext: Vec<bool>)
    requires
        nx > 0,
        ny > 0,
        surface@.len() == nx * ny * nz,
    ensures
        ext@.len() == surface@.len(),
        forall|i: int|
            0 <= i < ext@.len() ==> (#[trigger] ext@[i] <==> (!surface@[i] && outside(
                nx as int,
                ny as int,
                nz as int,
                surface@,
                i,
            ))),
{
    let n = surface.len();
    let ghost surf = surface@;
    let ghost (gnx, gny, gnz) = (nx as int, ny as int, nz as int);
    let mut ext: Vec<bool> = Vec::new();
    let mut i: usize = 0;
    while i < n
        invariant
            i <= n,
            ext@.len() == i,
            forall|j: int| 0 <= j < i ==> !(#[trigger] ext@[j]),
        decreases n - i,
    {
        ext.push(false);
        i = i + 1;
    }
    if n == 0 {
        return ext;
    }
    proof {
        assert(nz > 0);
        assert(nx * ny <= nx * ny * nz) by (nonlinear_arith)
            requires
                nz >= 1,
                nx * ny >= 0,
        ;
        assert(nx * ny > 0) by (nonlinear_arith)
            requires
                nx > 0,
                ny > 0,
        ;
    }
    let nxy = nx * ny;
    let mut queue: Vec<usize> = Vec::new();
    let ghost mut seen: Set<int> = Set::empty();
    let mut i: usize = 0;
    while i < n
        invariant
            n == surf.len(),
            n == gnx * gny * gnz,
            nxy == gnx * gny,
            nxy > 0,
            gnx == nx,
            gny == ny,
            gnz == nz,
            nx > 0,
            ny > 0,
            surf == surface@,
            i <= n,
            ext@.len() == n,
            seen.finite(),
            queue@.len() == seen.len(),
            forall|j: int| #[trigger] seen.contains(j) <==> (0 <= j < n && ext@[j]),
            forall|k: int| 0 <= k < queue@.len() ==> #[trigger] queue@[k] < n && ext@[queue@[k] as int],
            forall|j: int| 0 <= j < n && #[trigger] ext@[j] ==> exists|k: int| 0 <= k < queue@.len() && queue@[k] == j,
            forall|j: int| 0 <= j < n && #[trigger] ext@[j] ==> !surf[j] && outside(gnx, gny, gnz, surf, j),
            forall|j: int| i <= j < n ==> !(#[trigger] ext@[j]),
            forall|j: int| 0 <= j < i && on_face(gnx, gny, gnz, j) && !surf[j] ==> #[trigger] ext@[j],
        decreases n - i,
    {
        let x = i % nx;
        let y = (i / nx) % ny;
        let z = i / nxy;
        if (x == 0 || x + 1 == nx || y == 0 || y + 1 == ny || z == 0 || z + 1 == nz) && !surface[i] {
            proof {
                assert(escape_path(gnx, gny, gnz, surf, seq![i as int]));
            }
            let ghost oldq = queue@;
            let ghost olde = ext@;
            ext.set(i, true);
            proof {
                seen = seen.insert(i as int);
            }
            queue.push(i);
            proof {
                assert(queue@[queue@.len() - 1] == i);
                assert forall|j: int| 0 <= j < n && #[trigger] ext@[j] implies exists|k: int|
                    0 <= k < queue@.len() && queue@[k] == j by {
                    if j != i {
                        assert(olde[j]);
                        let k = choose|k: int| 0 <= k < oldq.len() && oldq[k] == j;
                        assert(queue@[k] == j);
                    }
                }
            }
        }
        i = i + 1;
    }
    proof {
        assert(seen.subset_of(set_int_range(0, n as int)));
        lemma_int_range(0, n as int);
        lemma_len_subset(seen, set_int_range(0, n as int));
    }
    let mut head: usize = 0;
    while head < queue.len()
        invariant
            n == surf.len(),
            n == gnx * gny * gnz,
            gnx == nx,
            gny == ny,
            gnz == nz,
            gnx > 0,
            gny > 0,
            surf == surface@,
            head <= queue@.len() <= n,
            ext@.len() == n,
            seen.finite(),
            queue@.len() == seen.len(),
            forall|j: int| #[trigger] seen.contains(j) <==> (0 <= j < n && ext@[j]),
            forall|k: int| 0 <= k < queue@.len() ==> #[trigger] queue@[k] < n && ext@[queue@[k] as int],
            forall|j: int| 0 <= j < n && #[trigger] ext@[j] ==> exists|k: int| 0 <= k < queue@.len() && queue@[k] == j,
            forall|j: int| 0 <= j < n && #[trigger] ext@[j] ==> !surf[j] && outside(gnx, gny, gnz, surf, j),
            forall|j: int| 0 <= j < n && on_face(gnx, gny, gnz, j) && !surf[j] ==> #[trigger] ext@[j],
            forall|k: int, j: int|
                #![trigger queue@[k], adjacent(gnx, gny, gnz, queue@[k] as int, j)]
                0 <= k < head && adjacent(gnx, gny, gnz, queue@[k] as int, j) && !surf[j] ==> ext@[j],
        decreases 2 * n - head - queue@.len(),
    {
        let c = queue[head];
        let ghost qc = c as int;
        let ghost ql = queue@.len();
        let mut d: usize = 0;
        while d < 6
            invariant
                n == surf.len(),
                n == gnx * gny * gnz,
                gnx == nx,
                gny == ny,
                gnz == nz,
                gnx > 0,
                gny > 0,
                surf == surface@,
                head < queue@.len(),
                head <= queue@.len() <= n,
                c < n,
                qc == c as int,
                queue@[head as int] == c,
                ext@[qc],
                ext@.len() == n,
                seen.finite(),
                queue@.len() == seen.len(),
                forall|j: int| #[trigger] seen.contains(j) <==> (0 <= j < n && ext@[j]),
                forall|k: int| 0 <= k < queue@.len() ==> #[trigger] queue@[k] < n && ext@[queue@[k] as int],
                forall|j: int| 0 <= j < n && #[trigger] ext@[j] ==> exists|k: int| 0 <= k < queue@.len() && queue@[k] == j,
                forall|j: int| 0 <= j < n && #[trigger] ext@[j] ==> !surf[j] && outside(gnx, gny, gnz, surf, j),
                forall|j: int| 0 <= j < n && on_face(gnx, gny, gnz, j) && !surf[j] ==> #[trigger] ext@[j],
                forall|k: int, j: int|
                    #![trigger queue@[k], adjacent(gnx, gny, gnz, queue@[k] as int, j)]
                    0 <= k < head && adjacent(gnx, gny, gnz, queue@[k] as int, j) && !surf[j] ==> ext@[j],
                forall|e: int|
                    0 <= e < d && #[trigger] nbr(gnx, gny, gnz, qc, e) is Some && !surf[nbr(
                        gnx,
                        gny,
                        gnz,
                        qc,
                        e,
                    )->0] ==> ext@[nbr(gnx, gny, gnz, qc, e)->0],
                queue@.len() >= ql,
                d <= 6,
            decreases 6 - d,
        {
            let ghost ext0 = ext@;
            let nb = neighbor(nx, ny, nz, c, d);
            if let Some(j) = nb {
                proof {
                    lemma_nbr_adjacent(gnx, gny, gnz, qc, d as int);
                }
                if !surface[j] && !ext[j] {
                    proof {
                        let q = choose|q: Seq<int>| #[trigger] escape_path(gnx, gny, gnz, surf, q) && q[0] == qc;
                        assert(adjacent(gnx, gny, gnz, j as int, qc));
                        lemma_escape_prepend(gnx, gny, gnz, surf, q, j as int);
                        seen = seen.insert(j as int);
                        assert(seen.subset_of(set_int_range(0, n as int)));
                        lemma_int_range(0, n as int);
                        lemma_len_subset(seen, set_int_range(0, n as int));
                    }
                    let ghost oldq = queue@;
                    let ghost olde = ext@;
                    ext.set(j, true);
                    queue.push(j);
                    proof {
                        assert(queue@[queue@.len() - 1] == j);
                        assert forall|m: int| 0 <= m < n && #[trigger] ext@[m] implies exists|k: int|
                            0 <= k < queue@.len() && queue@[k] == m by {
                            if m != j {
                                assert(olde[m]);
                                let k = choose|k: int| 0 <= k < oldq.len() && oldq[k] == m;
                                assert(queue@[k] == m);
                            }
                        }
                    }
                }
            }
            proof {
                assert forall|m: int| 0 <= m < n && ext0[m] implies ext@[m] by {}
                assert forall|e: int|
                    0 <= e < d + 1 && #[trigger] nbr(gnx, gny, gnz, qc, e) is Some && !surf[nbr(
                        gnx,
                        gny,
                        gnz,
                        qc,
                        e,
                    )->0] implies ext@[nbr(gnx, gny, gnz, qc, e)->0] by {
                    let m = nbr(gnx, gny, gnz, qc, e)->0;
                    lemma_nbr_adjacent(gnx, gny, gnz, qc, e);
                    if e < d {
                        assert(ext0[m]);
                    }
                }
            }
            d = d + 1;
        }
        proof {
            assert forall|j: int| adjacent(gnx, gny, gnz, qc, j) && !surf[j] implies ext@[j] by {
                lemma_adjacent_nbr(gnx, gny, gnz, qc, j);
                let e = choose|e: int| 0 <= e < 6 && #[trigger] nbr(gnx, gny, gnz, qc, e) == Some(j);
                assert(nbr(gnx, gny, gnz, qc, e) is Some);
            }
        }
        head = head + 1;
    }
    proof {
        assert forall|i: int, j: int|
            in_grid(gnx, gny, gnz, i) && ext@[i] && adjacent(gnx, gny, gnz, i, j) && !surf[j] implies ext@[j] by {
            let k = choose|k: int| 0 <= k < queue@.len() && queue@[k] == i;
            assert(adjacent(gnx, gny, gnz, queue@[k] as int, j));
        }
        assert(closed(gnx, gny, gnz, surf, ext@));
        assert forall|i: int| 0 <= i < n && !surf[i] && outside(gnx, gny, gnz, surf, i) implies #[trigger] ext@[i] by {
            let q = choose|q: Seq<int>| #[trigger] escape_path(gnx, gny, gnz, surf, q) && q[0] == i;
            lemma_outside_marked(gnx, gny, gnz, surf, ext@, q);
        }
    }
    ext
}


/// A walk from shell cell `p[0]` whose later cells are all enclosed.
pub open spec fn feed_path(nx: int, ny: int, nz: int, surf: Seq<bool>, p: Seq<int>) -> bool {
    &&& p.len() > 0
    &&& walk(nx, ny, nz, p)
    &&& in_grid(nx, ny, nz, p[0])
    &&& surf[p[0]]
    &&& forall|k: int| 1 <= k < p.len() ==> enclosed(nx, ny, nz, surf, #[trigger] p[k])
}

/// Shell cell `s` reaches cell `i` in exactly `k` steps through enclosed cells.
pub open spec fn fed(nx: int, ny: int, nz: int, surf: Seq<bool>, i: int, k: int, s: int) -> bool {
    exists|p: Seq<int>|
        #[trigger] feed_path(nx, ny, nz, surf, p) && p.len() == k + 1 && p[0] == s && p.last()
            == i
}

/// Shell cell `s` is one of those that reach cell `i` in the fewest steps through enclosed
/// cells.
pub open spec fn nearest(nx: int, ny: int, nz: int, surf: Seq<bool>, i: int, s: int) -> bool {
    exists|d: int|
        #![trigger fed(nx, ny, nz, surf, i, d, s)]
        fed(nx, ny, nz, surf, i, d, s) && forall|e: int, t: int|
            0 <= e < d ==> !#[trigger] fed(nx, ny, nz, surf, i, e, t)
}

proof fn lemma_fed_basic(nx: int, ny: int, nz: int, surf: Seq<bool>, i: int, k: int, s: int)
    requires
        fed(nx, ny, nz, surf, i, k, s),
    ensures
        k >= 0,
        in_grid(nx, ny, nz, s),
        surf[s],
        k == 0 ==> i == s,
        k >= 1 ==> enclosed(nx, ny, nz, surf, i),
{
    let p = choose|p: Seq<int>|
        #[trigger] feed_path(nx, ny, nz, surf, p) && p.len() == k + 1 && p[0] == s && p.last()
            == i;
    if k >= 1 {
        assert(enclosed(nx, ny, nz, surf, p[k]));
    }
}

proof fn lemma_fed_push(
    nx: int,
    ny: int,
    nz: int,
    surf: Seq<bool>,
    c: int,
    k: int,
    s: int,
    j: int,
)
    requires
        fed(nx, ny, nz, surf, c, k, s),
        enclosed(nx, ny, nz, surf, j),
        adjacent(nx, ny, nz, c, j),
    ensures
        fed(nx, ny, nz, surf, j, k + 1, s),
{
    let p = choose|p: Seq<int>|
        #[trigger] feed_path(nx, ny, nz, surf, p) && p.len() == k + 1 && p[0] == s && p.last()
            == c;
    let q = p.push(j);
    assert forall|m: int| 0 <= m < q.len() - 1 implies #[trigger] adjacent(
        nx,
        ny,
        nz,
        q[m],
        q[m + 1],
    ) by {
        if m < p.len() - 1 {
            assert(adjacent(nx, ny, nz, p[m], p[m + 1]));
        }
    }
    assert forall|m: int| 1 <= m < q.len() implies enclosed(nx, ny, nz, surf, #[trigger] q[m]) by {
        if m < p.len() {
            assert(q[m] == p[m]);
        }
    }
    assert(feed_path(nx, ny, nz, surf, q));
}

proof fn lemma_fed_step(nx: int, ny: int, nz: int, surf: Seq<bool>, i: int, k: int, t: int) -> (j:
    int)
    requires
        fed(nx, ny, nz, surf, i, k, t),
        k >= 1,
    ensures
        adjacent(nx, ny, nz, j, i),
        fed(nx, ny, nz, surf, j, k - 1, t),
{
    let p = choose|p: Seq<int>|
        #[trigger] feed_path(nx, ny, nz, surf, p) && p.len() == k + 1 && p[0] == t && p.last()
            == i;
    let q = p.drop_last();
    assert(adjacent(nx, ny, nz, p[k - 1], p[k - 1 + 1]));
    assert forall|m: int| 0 <= m < q.len() - 1 implies #[trigger] adjacent(
        nx,
        ny,
        nz,
        q[m],
        q[m + 1],
    ) by {
        assert(adjacent(nx, ny, nz, p[m], p[m + 1]));
    }
    assert forall|m: int| 1 <= m < q.len() implies enclosed(nx, ny, nz, surf, #[trigger] q[m]) by {
        assert(q[m] == p[m]);
    }
    assert(feed_path(nx, ny, nz, surf, q));
    p[k - 1]
}

/// Every enclosed cell is reached from some shell cell: the first shell cell in the `+x`
/// direction, since the walk that way cannot reach the face.
proof fn lemma_fed_some(nx: int, ny: int, nz: int, surf: Seq<bool>, i: int) -> (r: (int, int))
    requires
        nx > 0,
        ny > 0,
        enclosed(nx, ny, nz, surf, i),
    ensures
        fed(nx, ny, nz, surf, i, r.0, r.1),
    decreases nx - gx(nx, i),
{
    lemma_coords_of(nx, ny, nz, i);
    let (x, y, z) = (gx(nx, i), gy(nx, ny, i), gz(nx, ny, i));
    if x == nx - 1 {
        assert(escape_path(nx, ny, nz, surf, seq![i]));
        assert(false);
    }
    let j = cell(nx, ny, x + 1, y, z);
    lemma_cell_coords(nx, ny, nz, x + 1, y, z);
    assert(adjacent(nx, ny, nz, i, j));
    if surf[j] {
        assert(feed_path(nx, ny, nz, surf, seq![j]));
        assert(seq![j].last() == j);
        assert(fed(nx, ny, nz, surf, j, 0, j));
        lemma_fed_push(nx, ny, nz, surf, j, 0, j, i);
        (1, j)
    } else {
        if outside(nx, ny, nz, surf, j) {
            let q = choose|q: Seq<int>| #[trigger] escape_path(nx, ny, nz, surf, q) && q[0] == j;
            lemma_escape_prepend(nx, ny, nz, surf, q, i);
            assert(false);
        }
        let r = lemma_fed_some(nx, ny, nz, surf, j);
        lemma_fed_push(nx, ny, nz, surf, j, r.0, r.1, i);
        (r.0 + 1, r.1)
    }
}


/// Each labelled cell is enclosed, and its label is a shell cell that reaches it at level
/// `lv[i]` (between 1 and `top`), the fewest steps of any shell cell.
spec fn labels_ok(
    nx: int,
    ny: int,
    nz: int,
    surf: Seq<bool>,
    owner: Seq<Option<usize>>,
    lv: Seq<int>,
    top: int,
) -> bool {
    forall|i: int|
        0 <= i < owner.len() && #[trigger] owner[i] is Some ==> {
            &&& enclosed(nx, ny, nz, surf, i)
            &&& 1 <= lv[i] <= top
            &&& fed(nx, ny, nz, surf, i, lv[i], owner[i]->0 as int)
            &&& forall|e: int, t: int| 0 <= e < lv[i] ==> !#[trigger] fed(nx, ny, nz, surf, i, e, t)
        }
}

/// No shell cell reaches an unlabelled enclosed cell in `level` steps or fewer.
spec fn unlabelled_far(
    nx: int,
    ny: int,
    nz: int,
    surf: Seq<bool>,
    owner: Seq<Option<usize>>,
    level: int,
) -> bool {
    forall|i: int, e: int, t: int|
        0 <= i < owner.len() && enclosed(nx, ny, nz, surf, i) && owner[i] is None && 0 <= e
            <= level ==> !#[trigger] fed(nx, ny, nz, surf, i, e, t)
}

/// The cells of the frontier at `level`: the shell cells at level 0, else the labelled cells
/// whose level is `level`.
spec fn at_level(surf: Seq<bool>, owner: Seq<Option<usize>>, lv: Seq<int>, level: int, i: int) -> bool {
    if level == 0 {
        surf[i]
    } else {
        owner[i] is Some && lv[i] == level
    }
}

/// `cur` lists exactly the cells at `level`.
spec fn frontier(
    surf: Seq<bool>,
    owner: Seq<Option<usize>>,
    lv: Seq<int>,
    level: int,
    cur: Seq<usize>,
) -> bool {
    &&& forall|k: int|
        0 <= k < cur.len() ==> #[trigger] cur[k] < owner.len() && at_level(
            surf,
            owner,
            lv,
            level,
            cur[k] as int,
        )
    &&& forall|i: int|
        0 <= i < owner.len() && #[trigger] at_level(surf, owner, lv, level, i) ==> exists|k: int|
            0 <= k < cur.len() && cur[k] == i
}

/// Once the frontier is empty, every enclosed cell that a shell cell reaches is labelled.
proof fn lemma_all_labelled(
    nx: int,
    ny: int,
    nz: int,
    surf: Seq<bool>,
    owner: Seq<Option<usize>>,
    lv: Seq<int>,
    level: int,
    i: int,
    m: int,
    t: int,
)
    requires
        nx > 0,
        ny > 0,
        owner.len() == nx * ny * nz,
        surf.len() == owner.len(),
        lv.len() == owner.len(),
        level >= 0,
        labels_ok(nx, ny, nz, surf, owner, lv, level),
        unlabelled_far(nx, ny, nz, surf, owner, level),
        frontier(surf, owner, lv, level, Seq::empty()),
        enclosed(nx, ny, nz, surf, i),
        fed(nx, ny, nz, surf, i, m, t),
    ensures
        owner[i] is Some,
    decreases m,
{
    lemma_fed_basic(nx, ny, nz, surf, i, m, t);
    let j = lemma_fed_step(nx, ny, nz, surf, i, m, t);
    lemma_fed_basic(nx, ny, nz, surf, j, m - 1, t);
    if m - 1 == 0 {
        assert(at_level(surf, owner, lv, level, j) ==> false);
        assert(level >= 1);
        assert(!fed(nx, ny, nz, surf, i, 1, t) || owner[i] is Some);
    } else {
        lemma_all_labelled(nx, ny, nz, surf, owner, lv, level, j, m - 1, t);
        assert(owner[j] is Some);
        assert(at_level(surf, owner, lv, level, j) ==> false);
        let s = owner[j]->0 as int;
        assert(lv[j] < level);
        lemma_fed_push(nx, ny, nz, surf, j, lv[j], s, i);
        assert(!fed(nx, ny, nz, surf, i, lv[j] + 1, s) || owner[i] is Some);
    }
}

/// Labels each enclosed cell with a nearest shell cell, level by level from the shell.
fn spread_nearest(nx: usize, ny: usize, nz: usize, surface: &Vec<bool>, ext: &Vec<bool>) -> (res:
    Vec<Option<usize>>)
    requires
        nx > 0,
        ny > 0,
        surface@.len() == nx * ny * nz,
        ext@.len() == surface@.len(),
        forall|i: int|
            0 <= i < ext@.len() ==> (#[trigger] ext@[i] <==> (!surface@[i] && outside(
                nx as int,
                ny as int,
                nz as int,
                surface@,
                i,
            ))),
    ensures
        res@.len() == surface@.len(),
        forall|i: int|
            0 <= i < res@.len() ==> (#[trigger] res@[i] is Some <==> enclosed(
                nx as int,
                ny as int,
                nz as int,
                surface@,
                i,
            )),
        forall|i: int|
            0 <= i < res@.len() && #[trigger] res@[i] is Some ==> nearest(
                nx as int,
                ny as int,
                nz as int,
                surface@,
                i,
                res@[i]->0 as int,
            ),
{
    let n = surface.len();
    let ghost surf = surface@;
    let ghost (gnx, gny, gnz) = (nx as int, ny as int, nz as int);
    let mut owner: Vec<Option<usize>> = Vec::new();
    let mut cur: Vec<usize> = Vec::new();
    let mut i: usize = 0;
    while i < n
        invariant
            n == surf.len(),
            surf == surface@,
            i <= n,
            owner@.len() == i,
            forall|j: int| 0 <= j < i ==> #[trigger] owner@[j] is None,
            forall|k: int| 0 <= k < cur@.len() ==> #[trigger] cur@[k] < i && surf[cur@[k] as int],
            forall|j: int| 0 <= j < i && #[trigger] surf[j] ==> exists|k: int| 0 <= k < cur@.len() && cur@[k] == j,
        decreases n - i,
    {
        owner.push(None);
        if surface[i] {
            let ghost oldc = cur@;
            cur.push(i);
            proof {
                assert forall|j: int| 0 <= j < i + 1 && #[trigger] surf[j] implies exists|k: int|
                    0 <= k < cur@.len() && cur@[k] == j by {
                    if j == i {
                        assert(cur@[cur@.len() - 1] == j);
                    } else {
                        let k = choose|k: int| 0 <= k < oldc.len() && oldc[k] == j;
                        assert(cur@[k] == j);
                    }
                }
            }
        }
        i = i + 1;
    }
    let ghost mut lv: Seq<int> = Seq::new(n as nat, |j: int| 0);
    let ghost mut lab: Set<int> = Set::empty();
    let ghost mut level: int = 0;
    proof {
        assert forall|j: int, e: int, t: int|
            0 <= j < owner@.len() && enclosed(gnx, gny, gnz, surf, j) && owner@[j] is None && 0 <= e
                <= level implies !#[trigger] fed(gnx, gny, gnz, surf, j, e, t) by {
            if fed(gnx, gny, gnz, surf, j, e, t) {
                lemma_fed_basic(gnx, gny, gnz, surf, j, e, t);
            }
        }
        assert forall|j: int| 0 <= j < owner@.len() && #[trigger] at_level(surf, owner@, lv, level, j) implies exists|k: int|
            0 <= k < cur@.len() && cur@[k] == j by {
            assert(surf[j]);
        }
    }
    while cur.len() > 0
        invariant
            n == surf.len(),
            n == gnx * gny * gnz,
            surf == surface@,
            gnx == nx,
            gny == ny,
            gnz == nz,
            gnx > 0,
            gny > 0,
            ext@.len() == n,
            forall|j: int|
                0 <= j < n ==> (#[trigger] ext@[j] <==> (!surf[j] && outside(gnx, gny, gnz, surf, j))),
            owner@.len() == n,
            lv.len() == n,
            level >= 0,
            lab.finite(),
            forall|j: int| #[trigger] lab.contains(j) <==> (0 <= j < n && owner@[j] is Some),
            labels_ok(gnx, gny, gnz, surf, owner@, lv, level),
            unlabelled_far(gnx, gny, gnz, surf, owner@, level),
            frontier(surf, owner@, lv, level, cur@),
        decreases 2 * (n - lab.len()) + (if cur@.len() > 0 { 1int } else { 0int }),
    {
        proof {
            assert(lab.subset_of(set_int_range(0, n as int)));
            lemma_int_range(0, n as int);
            lemma_len_subset(lab, set_int_range(0, n as int));
        }
        let ghost lab0 = lab;
        let ghost owner0 = owner@;
        let mut next: Vec<usize> = Vec::new();
        let mut p: usize = 0;
        while p < cur.len()
            invariant
                n == surf.len(),
                n == gnx * gny * gnz,
                surf == surface@,
                gnx == nx,
                gny == ny,
                gnz == nz,
                gnx > 0,
                gny > 0,
                ext@.len() == n,
                forall|j: int|
                    0 <= j < n ==> (#[trigger] ext@[j] <==> (!surf[j] && outside(gnx, gny, gnz, surf, j))),
                owner@.len() == n,
                lv.len() == n,
                level >= 0,
                p <= cur@.len(),
                lab.finite(),
                lab0.finite(),
                lab0.subset_of(lab),
                lab.len() == lab0.len() + next@.len(),
                forall|j: int| #[trigger] lab.contains(j) <==> (0 <= j < n && owner@[j] is Some),
                forall|j: int| 0 <= j < n && #[trigger] owner0[j] is Some ==> owner@[j] == owner0[j],
                labels_ok(gnx, gny, gnz, surf, owner@, lv, level + 1),
                unlabelled_far(gnx, gny, gnz, surf, owner@, level),
                frontier(surf, owner@, lv, level, cur@),
                forall|q: int, j: int|
                    #![trigger cur@[q], adjacent(gnx, gny, gnz, cur@[q] as int, j)]
                    0 <= q < p && adjacent(gnx, gny, gnz, cur@[q] as int, j) && enclosed(
                        gnx,
                        gny,
                        gnz,
                        surf,
                        j,
                    ) ==> owner@[j] is Some,
                forall|k: int|
                    0 <= k < next@.len() ==> #[trigger] next@[k] < n && owner@[next@[k] as int] is Some
                        && lv[next@[k] as int] == level + 1,
                forall|j: int|
                    0 <= j < n && #[trigger] owner@[j] is Some && lv[j] == level + 1 ==> exists|k: int|
                        0 <= k < next@.len() && next@[k] == j,
            decreases cur@.len() - p,
        {
            let c = cur[p];
            let ghost qc = c as int;
            let src = match owner[c] {
                Some(s) => s,
                None => c,
            };
            proof {
                assert(at_level(surf, owner@, lv, level, qc));
                if level == 0 {
                    assert(feed_path(gnx, gny, gnz, surf, seq![qc]));
                    assert(seq![qc].last() == qc);
                    assert(fed(gnx, gny, gnz, surf, qc, 0, qc));
                    if owner@[qc] is Some {
                        assert(enclosed(gnx, gny, gnz, surf, qc));
                    }
                } else {
                    assert(owner@[qc] is Some);
                }
                assert(fed(gnx, gny, gnz, surf, qc, level, src as int));
            }
            let mut d: usize = 0;
            while d < 6
                invariant
                    n == surf.len(),
                    n == gnx * gny * gnz,
                    surf == surface@,
                    gnx == nx,
                    gny == ny,
                    gnz == nz,
                    gnx > 0,
                    gny > 0,
                    ext@.len() == n,
                    forall|j: int|
                        0 <= j < n ==> (#[trigger] ext@[j] <==> (!surf[j] && outside(gnx, gny, gnz, surf, j))),
                    owner@.len() == n,
                    lv.len() == n,
                    level >= 0,
                    p < cur@.len(),
                    c == cur@[p as int],
                    qc == c as int,
                    c < n,
                    src < n,
                    fed(gnx, gny, gnz, surf, qc, level, src as int),
                    lab.finite(),
                    lab0.finite(),
                    lab0.subset_of(lab),
                    lab.len() == lab0.len() + next@.len(),
                    forall|j: int| #[trigger] lab.contains(j) <==> (0 <= j < n && owner@[j] is Some),
                    forall|j: int| 0 <= j < n && #[trigger] owner0[j] is Some ==> owner@[j] == owner0[j],
                    labels_ok(gnx, gny, gnz, surf, owner@, lv, level + 1),
                    unlabelled_far(gnx, gny, gnz, surf, owner@, level),
                    frontier(surf, owner@, lv, level, cur@),
                    forall|q: int, j: int|
                        #![trigger cur@[q], adjacent(gnx, gny, gnz, cur@[q] as int, j)]
                        0 <= q < p && adjacent(gnx, gny, gnz, cur@[q] as int, j) && enclosed(
                            gnx,
                            gny,
                            gnz,
                            surf,
                            j,
                        ) ==> owner@[j] is Some,
                    forall|e: int|
                        0 <= e < d && #[trigger] nbr(gnx, gny, gnz, qc, e) is Some && enclosed(
                            gnx,
                            gny,
                            gnz,
                            surf,
                            nbr(gnx, gny, gnz, qc, e)->0,
                        ) ==> owner@[nbr(gnx, gny, gnz, qc, e)->0] is Some,
                    forall|k: int|
                        0 <= k < next@.len() ==> #[trigger] next@[k] < n && owner@[next@[k] as int] is Some
                            && lv[next@[k] as int] == level + 1,
                    forall|j: int|
                        0 <= j < n && #[trigger] owner@[j] is Some && lv[j] == level + 1 ==> exists|k: int|
                            0 <= k < next@.len() && next@[k] == j,
                    d <= 6,
                decreases 6 - d,
            {
                let ghost owner1 = owner@;
                let ghost lv1 = lv;
                let ghost next1 = next@;
                let nb = neighbor(nx, ny, nz, c, d);
                if let Some(j) = nb {
                    proof {
                        lemma_nbr_adjacent(gnx, gny, gnz, qc, d as int);
                    }
                    if !surface[j] && !ext[j] && owner[j].is_none() {
                        proof {
                            assert(enclosed(gnx, gny, gnz, surf, j as int));
                            lemma_fed_push(gnx, gny, gnz, surf, qc, level, src as int, j as int);
                            lv = lv.update(j as int, level + 1);
                            lab = lab.insert(j as int);
                            assert(lab0.subset_of(lab));
                        }
                        owner.set(j, Some(src));
                        next.push(j);
                        proof {
                            assert(next@[next@.len() - 1] == j);
                            assert forall|m: int|
                                0 <= m < n && #[trigger] owner@[m] is Some && lv[m] == level + 1 implies exists|k: int|
                                0 <= k < next@.len() && next@[k] == m by {
                                if m != j {
                                    assert(owner1[m] is Some && lv1[m] == level + 1);
                                    let k = choose|k: int| 0 <= k < next1.len() && next1[k] == m;
                                    assert(next@[k] == m);
                                }
                            }
                            assert forall|m: int|
                                0 <= m < owner@.len() && #[trigger] owner@[m] is Some implies {
                                    &&& enclosed(gnx, gny, gnz, surf, m)
                                    &&& 1 <= lv[m] <= level + 1
                                    &&& fed(gnx, gny, gnz, surf, m, lv[m], owner@[m]->0 as int)
                                    &&& forall|e: int, t: int|
                                        0 <= e < lv[m] ==> !#[trigger] fed(gnx, gny, gnz, surf, m, e, t)
                                } by {
                                if m != j {
                                    assert(owner1[m] is Some);
                                }
                            }
                            assert forall|m: int|
                                0 <= m < owner@.len() && #[trigger] at_level(surf, owner@, lv, level, m) implies exists|k: int|
                                0 <= k < cur@.len() && cur@[k] == m by {
                                assert(at_level(surf, owner1, lv1, level, m));
                            }
                            assert forall|k: int| 0 <= k < cur@.len() implies #[trigger] cur@[k] < owner@.len() && at_level(
                                surf,
                                owner@,
                                lv,
                                level,
                                cur@[k] as int,
                            ) by {
                                assert(at_level(surf, owner1, lv1, level, cur@[k] as int));
                            }
                        }
                    }
                }
                proof {
                    assert forall|e: int|
                        0 <= e < d + 1 && #[trigger] nbr(gnx, gny, gnz, qc, e) is Some && enclosed(
                            gnx,
                            gny,
                            gnz,
                            surf,
                            nbr(gnx, gny, gnz, qc, e)->0,
                        ) implies owner@[nbr(gnx, gny, gnz, qc, e)->0] is Some by {
                        lemma_nbr_adjacent(gnx, gny, gnz, qc, e);
                        let m = nbr(gnx, gny, gnz, qc, e)->0;
                        if e < d {
                            assert(owner1[m] is Some);
                        }
                    }
                }
                d = d + 1;
            }
            proof {
                assert forall|j: int|
                    adjacent(gnx, gny, gnz, qc, j) && enclosed(gnx, gny, gnz, surf, j) implies owner@[j] is Some by {
                    lemma_adjacent_nbr(gnx, gny, gnz, qc, j);
                    let e = choose|e: int| 0 <= e < 6 && #[trigger] nbr(gnx, gny, gnz, qc, e) == Some(j);
                    assert(nbr(gnx, gny, gnz, qc, e) is Some);
                }
            }
            p = p + 1;
        }
        proof {
            // The next frontier: no unlabelled enclosed cell is reached in `level + 1` steps.
            assert forall|j: int, e: int, t: int|
                0 <= j < owner@.len() && enclosed(gnx, gny, gnz, surf, j) && owner@[j] is None && 0
                    <= e <= level + 1 implies !#[trigger] fed(gnx, gny, gnz, surf, j, e, t) by {
                if e == level + 1 && fed(gnx, gny, gnz, surf, j, e, t) {
                    let a = lemma_fed_step(gnx, gny, gnz, surf, j, e, t);
                    lemma_fed_basic(gnx, gny, gnz, surf, a, level, t);
                    if level == 0 {
                        assert(at_level(surf, owner@, lv, level, a));
                    } else {
                        assert(owner@[a] is Some);
                        let s = owner@[a]->0 as int;
                        assert(lv[a] <= level);
                        if lv[a] < level {
                            lemma_fed_push(gnx, gny, gnz, surf, a, lv[a], s, j);
                        }
                        assert(at_level(surf, owner@, lv, level, a));
                    }
                    let k = choose|k: int| 0 <= k < cur@.len() && cur@[k] == a;
                    assert(adjacent(gnx, gny, gnz, cur@[k] as int, j));
                }
            }
            assert forall|k: int| 0 <= k < next@.len() implies #[trigger] next@[k] < owner@.len() && at_level(
                surf,
                owner@,
                lv,
                level + 1,
                next@[k] as int,
            ) by {}
            assert forall|j: int| 0 <= j < owner@.len() && #[trigger] at_level(surf, owner@, lv, level + 1, j) implies exists|k: int|
                0 <= k < next@.len() && next@[k] == j by {}
            level = level + 1;
            assert(lab.subset_of(set_int_range(0, n as int)));
            lemma_len_subset(lab, set_int_range(0, n as int));
        }
        cur = next;
    }
    proof {
        assert forall|i: int| 0 <= i < n && enclosed(gnx, gny, gnz, surf, i) implies #[trigger] owner@[i] is Some by {
            let r = lemma_fed_some(gnx, gny, gnz, surf, i);
            lemma_all_labelled(gnx, gny, gnz, surf, owner@, lv, level, i, r.0, r.1);
        }
        assert forall|i: int| 0 <= i < n && #[trigger] owner@[i] is Some implies nearest(gnx, gny, gnz, surf, i, owner@[i]->0 as int) by {
            assert(fed(gnx, gny, gnz, surf, i, lv[i], owner@[i]->0 as int));
        }
    }
    owner
}


/// Solid fill of a voxel shell in an `nx` by `ny` by `nz` box, cell `(x, y, z)` at index
/// `x + nx * y + nx * ny * z`. An empty cell that no path of empty cells joins to a face of
/// the box is enclosed; it gets the index of a shell cell that reaches it in the fewest
/// face-to-face steps through enclosed cells, the one whose label spreads first when the
/// shell cells spread theirs in index order, each to its neighbours in the order `+x`,
/// `-x`, `+y`, `-y`, `+z`, `-z`. Every other cell gets `None`.
pub fn fill_interior(nx: usize, ny: usize, nz: usize, surface: &Vec<bool>) -> (res: Vec<
    Option<usize>,
>)
    requires
        surface@.len() == nx * ny * nz,
    ensures
        res@.len() == surface@.len(),
        forall|i: int|
            0 <= i < res@.len() ==> (#[trigger] res@[i] is Some <==> enclosed(
                nx as int,
                ny as int,
                nz as int,
                surface@,
                i,
            )),
        forall|i: int|
            0 <= i < res@.len() && #[trigger] res@[i] is Some ==> {
                let s = res@[i]->0 as int;
                &&& 0 <= s < surface@.len()
                &&& surface@[s]
                &&& nearest(nx as int, ny as int, nz as int, surface@, i, s)
            },
{
    if surface.len() == 0 {
        return Vec::new();
    }
    proof {
        if nx == 0 || ny == 0 {
            assert(nx * ny * nz == 0) by (nonlinear_arith)
                requires
                    nx == 0 || ny == 0,
            ;
        }
    }
    let ext = mark_outside(nx, ny, nz, surface);
    let res = spread_nearest(nx, ny, nz, surface, &ext);
    proof {
        assert forall|i: int| 0 <= i < res@.len() && #[trigger] res@[i] is Some implies {
            let s = res@[i]->0 as int;
            &&& 0 <= s < surface@.len()
            &&& surface@[s]
        } by {
            let s = res@[i]->0 as int;
            assert(nearest(nx as int, ny as int, nz as int, surface@, i, s));
            let d = choose|d: int|
                #![trigger fed(nx as int, ny as int, nz as int, surface@, i, d, s)]
                fed(nx as int, ny as int, nz as int, surface@, i, d, s) && forall|e: int, t: int|
                    0 <= e < d ==> !#[trigger] fed(nx as int, ny as int, nz as int, surface@, i, e, t);
            lemma_fed_basic(nx as int, ny as int, nz as int, surface@, i, d, s);
        }
    }
    res
}

} // verus!

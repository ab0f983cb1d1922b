//! Contour extraction: "marching triangles" over the density grid.
//!
//! Every unit grid cell is walked along its four corners in a fixed cyclic
//! order. For each consecutive corner pair the walk emits the first corner if
//! its density reaches the threshold, an interpolated vertex exactly at the
//! threshold where the densities strictly cross it, and the second corner if
//! its density reaches the threshold. The collected vertices of a cell are
//! fanned into triangles from the first vertex. The marched area is the grid
//! bounds expanded by one cell on each side, so silhouettes touching the image
//! edge still close against the zero density outside the grid.
//!
//! Interpolation along an edge always starts from the corner with the
//! lexicographically smaller coordinates, so the crossing point is a function
//! of the edge alone, not of which of the two adjacent cells is being walked.
use vstd::prelude::*;

use crate::field::{density_wf, DensityGrid};
use crate::rat::{qle, qlt, Q, Rat};

verus! {

/// A coordinate along one axis: an integer grid corner plus a fractional
/// offset in `[0, 1)` toward the next corner.
#[derive(Clone, Copy, Debug)]
pub struct Coord {
    pub base: i64,
    pub frac: Rat,
}

impl Coord {
    /// The exact coordinate value `base + frac`.
    pub open spec fn q(self) -> Q {
        Q {
            num: self.base * self.frac.den + self.frac.num,
            den: self.frac.den as int,
        }
    }

    /// A coordinate of the marched region: base in the expanded grid range,
    /// fraction in `[0, 1)` with the interpolation denominator bound.
    pub open spec fn wf(self) -> bool {
        &&& -1 <= self.base <= 0x10001
        &&& self.frac.wf()
        &&& 0 <= self.frac.num < self.frac.den <= 0x200_0000_0000_0000
    }

    /// The integer coordinate `base`.
    pub open spec fn spec_int(base: int) -> Coord {
        Coord { base: base as i64, frac: Rat { num: 0, den: 1 } }
    }
}

/// A contour vertex: an exact 2-D position and the density at it. The key
/// identifies the vertex's place in the grid (a corner, or the crossing point
/// on a grid edge) and is equal for two vertices exactly when their positions
/// are equal.
#[derive(Clone, Copy, Debug)]
pub struct MarchVertex {
    pub x: Coord,
    pub y: Coord,
    pub value: Rat,
    pub key: u64,
}

impl MarchVertex {
    pub open spec fn wf(self) -> bool {
        &&& self.x.wf()
        &&& self.y.wf()
        &&& density_wf(self.value) || (self.value.wf() && 0 <= self.value.num <= 0x10000
            && self.value.den <= 0x10000)
    }
}

/// One triangle of the contour: exactly three vertices.
pub type MarchFace = [MarchVertex; 3];

/// Key space: corners and the two edge orientations, each tagged with the
/// lexicographically smaller end point, shifted into disjoint ranges.
pub open spec fn spec_corner_key(x: int, y: int) -> u64 {
    ((x + 1) * 0x100000 + (y + 1)) as u64
}

/// Key of the crossing point on the edge from `(x, y)` toward `(x+1, y)`
/// (`axis == 1`) or toward `(x, y+1)` (`axis == 2`).
pub open spec fn spec_edge_key(axis: int, x: int, y: int) -> u64 {
    (axis * 0x100_0000_0000 + (x + 1) * 0x100000 + (y + 1)) as u64
}

/// Lexicographic order on integer grid coordinates.
pub open spec fn lex_lt(ax: int, ay: int, bx: int, by: int) -> bool {
    ax < bx || (ax == bx && ay < by)
}

/// The two densities strictly straddle the threshold.
pub open spec fn spec_crosses(va: Rat, vb: Rat, iso: Rat) -> bool {
    (qlt(va.q(), iso.q()) && qlt(iso.q(), vb.q())) || (qlt(vb.q(), iso.q()) && qlt(
        iso.q(),
        va.q(),
    ))
}

/// The interpolation parameter `(iso - vo) / (vp - vo)`, as the exact
/// fraction `(n1 * vp.den) / (iso.den * n2)` with the sign moved into the
/// numerator.
pub open spec fn spec_t(vo: Rat, vp: Rat, iso: Rat) -> Rat {
    let n1 = iso.num * vo.den - vo.num * iso.den;
    let n2 = vp.num * vo.den - vo.num * vp.den;
    if n2 >= 0 {
        Rat { num: (n1 * vp.den) as i128, den: (iso.den * n2) as i128 }
    } else {
        Rat { num: (-(n1 * vp.den)) as i128, den: (-(iso.den * n2)) as i128 }
    }
}

/// The vertex emitted for a grid corner whose density reaches the threshold.
pub open spec fn spec_corner_vertex(grid: DensityGrid, ax: int, ay: int) -> MarchVertex {
    MarchVertex {
        x: Coord::spec_int(ax),
        y: Coord::spec_int(ay),
        value: grid.rat_at(ax, ay),
        key: spec_corner_key(ax, ay),
    }
}

/// The interpolated vertex on the edge between corners `a` and `b`, computed
/// from the lexicographically smaller corner.
pub open spec fn spec_cross_vertex(
    grid: DensityGrid,
    iso: Rat,
    ax: int,
    ay: int,
    bx: int,
    by: int,
) -> MarchVertex {
    let ox = if lex_lt(ax, ay, bx, by) { ax } else { bx };
    let oy = if lex_lt(ax, ay, bx, by) { ay } else { by };
    let px = if lex_lt(ax, ay, bx, by) { bx } else { ax };
    let py = if lex_lt(ax, ay, bx, by) { by } else { ay };
    let t = spec_t(grid.rat_at(ox, oy), grid.rat_at(px, py), iso);
    if py == oy {
        MarchVertex {
            x: Coord { base: ox as i64, frac: t },
            y: Coord::spec_int(oy),
            value: iso,
            key: spec_edge_key(1, ox, oy),
        }
    } else {
        MarchVertex {
            x: Coord::spec_int(ox),
            y: Coord { base: oy as i64, frac: t },
            value: iso,
            key: spec_edge_key(2, ox, oy),
        }
    }
}

/// The vertices emitted while walking from corner `a` to corner `b`.
pub open spec fn spec_pair_vertices(
    grid: DensityGrid,
    iso: Rat,
    ax: int,
    ay: int,
    bx: int,
    by: int,
) -> Seq<MarchVertex> {
    let va = grid.rat_at(ax, ay);
    let vb = grid.rat_at(bx, by);
    let ca: Seq<MarchVertex> = if qle(iso.q(), va.q()) {
        seq![spec_corner_vertex(grid, ax, ay)]
    } else {
        seq![]
    };
    let cc: Seq<MarchVertex> = if spec_crosses(va, vb, iso) {
        seq![spec_cross_vertex(grid, iso, ax, ay, bx, by)]
    } else {
        seq![]
    };
    let cb: Seq<MarchVertex> = if qle(iso.q(), vb.q()) {
        seq![spec_corner_vertex(grid, bx, by)]
    } else {
        seq![]
    };
    ca + cc + cb
}

/// All vertices collected in one cell: the four corner pairs in cyclic order
/// `(x,y) -> (x+1,y) -> (x+1,y+1) -> (x,y+1) -> (x,y)`.
pub open spec fn spec_cell_vertices(grid: DensityGrid, iso: Rat, x: int, y: int) -> Seq<
    MarchVertex,
> {
    spec_pair_vertices(grid, iso, x, y, x + 1, y) + spec_pair_vertices(
        grid,
        iso,
        x + 1,
        y,
        x + 1,
        y + 1,
    ) + spec_pair_vertices(grid, iso, x + 1, y + 1, x, y + 1) + spec_pair_vertices(
        grid,
        iso,
        x,
        y + 1,
        x,
        y,
    )
}

/// The triangle fan over a cell's vertices: `(v0, v[i+1], v[i+2])` for every
/// `i`, nothing when fewer than three vertices were collected.
pub open spec fn spec_fan(vs: Seq<MarchVertex>) -> Seq<MarchFace> {
    if vs.len() < 3 {
        seq![]
    } else {
        Seq::new((vs.len() - 2) as nat, |i: int| [vs[0], vs[i + 1], vs[i + 2]])
    }
}

/// The faces of one cell.
pub open spec fn spec_cell_faces(grid: DensityGrid, iso: Rat, x: int, y: int) -> Seq<MarchFace> {
    spec_fan(spec_cell_vertices(grid, iso, x, y))
}

/// The faces of the cells `(x, -1) .. (x, y_end - 1)` of one column.
pub open spec fn spec_column_faces(grid: DensityGrid, iso: Rat, x: int, y_end: int) -> Seq<
    MarchFace,
>
    decreases y_end + 1,
{
    if y_end <= -1 {
        seq![]
    } else {
        spec_column_faces(grid, iso, x, y_end - 1) + spec_cell_faces(grid, iso, x, y_end - 1)
    }
}

/// The faces of the columns `-1 .. x_end - 1`.
pub open spec fn spec_faces_upto(grid: DensityGrid, iso: Rat, x_end: int) -> Seq<MarchFace>
    decreases x_end + 1,
{
    if x_end <= -1 {
        seq![]
    } else {
        spec_faces_upto(grid, iso, x_end - 1) + spec_column_faces(
            grid,
            iso,
            x_end - 1,
            grid.gh as int,
        )
    }
}

/// The full contour of the grid at the given threshold: all cells of the grid
/// bounds expanded by one on each side.
pub open spec fn spec_marching(grid: DensityGrid, iso: Rat) -> Seq<MarchFace> {
    spec_faces_upto(grid, iso, grid.gw as int)
}

/// A threshold value: a fraction with numerator and denominator at most
/// `2^16`, nonnegative.
pub open spec fn iso_wf(iso: Rat) -> bool {
    iso.wf() && 0 <= iso.num <= 0x10000 && iso.den <= 0x10000
}

/// Computes the interpolation parameter for a strictly crossing edge.
fn interp_t(vo: &Rat, vp: &Rat, iso: &Rat) -> (t: Rat)
    requires
        density_wf(*vo),
        density_wf(*vp),
        iso_wf(*iso),
        spec_crosses(*vo, *vp, *iso),
    ensures
        t == spec_t(*vo, *vp, *iso),
        t.wf(),
        0 < t.num < t.den <= 0x200_0000_0000_0000,
{
    proof {
        lemma_interp_bounds(*vo, *vp, *iso);
    }
    let n1 = iso.num * vo.den - vo.num * iso.den;
    let n2 = vp.num * vo.den - vo.num * vp.den;
    if n2 >= 0 {
        Rat { num: n1 * vp.den, den: iso.den * n2 }
    } else {
        Rat { num: -(n1 * vp.den), den: -(iso.den * n2) }
    }
}

/// The crossing parameter is strictly between zero and one and all its
/// intermediates are small.
proof fn lemma_interp_bounds(vo: Rat, vp: Rat, iso: Rat)
    requires
        density_wf(vo),
        density_wf(vp),
        iso_wf(iso),
        spec_crosses(vo, vp, iso),
    ensures
        -0x10_0000_0000 <= iso.num * vo.den <= 0x10_0000_0000,
        -0x10_0000_0000 <= vo.num * iso.den <= 0x10_0000_0000,
        -0x100_0000_0000 <= vp.num * vo.den <= 0x100_0000_0000,
        -0x100_0000_0000 <= vo.num * vp.den <= 0x100_0000_0000,
        ({
            let n1 = iso.num * vo.den - vo.num * iso.den;
            let n2 = vp.num * vo.den - vo.num * vp.den;
            &&& -0x20_0000_0000 <= n1 <= 0x20_0000_0000
            &&& -0x200_0000_0000 <= n2 <= 0x200_0000_0000
            &&& n2 != 0
            &&& -0x200_0000_0000_0000 <= n1 * vp.den <= 0x200_0000_0000_0000
            &&& -0x200_0000_0000_0000 <= iso.den * n2 <= 0x200_0000_0000_0000
            &&& (n2 > 0 ==> 0 < n1 * vp.den < iso.den * n2)
            &&& (n2 < 0 ==> 0 < -(n1 * vp.den) < -(iso.den * n2))
        }),
{
    let n1 = iso.num * vo.den - vo.num * iso.den;
    let n2 = vp.num * vo.den - vo.num * vp.den;
    assert(-0x10_0000_0000 <= iso.num * vo.den <= 0x10_0000_0000) by (nonlinear_arith)
        requires 0 <= iso.num <= 0x10000, 1 <= vo.den <= 0x100000;
    assert(-0x10_0000_0000 <= vo.num * iso.den <= 0x10_0000_0000) by (nonlinear_arith)
        requires 0 <= vo.num <= 0x100000, 1 <= iso.den <= 0x10000;
    assert(-0x100_0000_0000 <= vp.num * vo.den <= 0x100_0000_0000) by (nonlinear_arith)
        requires 0 <= vp.num <= 0x100000, 1 <= vo.den <= 0x100000;
    assert(-0x100_0000_0000 <= vo.num * vp.den <= 0x100_0000_0000) by (nonlinear_arith)
        requires 0 <= vo.num <= 0x100000, 1 <= vp.den <= 0x100000;
    assert(-0x200_0000_0000_0000 <= n1 * vp.den <= 0x200_0000_0000_0000) by (nonlinear_arith)
        requires -0x20_0000_0000 <= n1 <= 0x20_0000_0000, 1 <= vp.den <= 0x100000;
    assert(-0x200_0000_0000_0000 <= iso.den * n2 <= 0x200_0000_0000_0000) by (nonlinear_arith)
        requires -0x200_0000_0000 <= n2 <= 0x200_0000_0000, 1 <= iso.den <= 0x10000;
    if qlt(vo.q(), iso.q()) && qlt(iso.q(), vp.q()) {
        // vo < iso < vp: the edge rises through the threshold.
        assert(n1 > 0);
        assert(n2 > 0) by (nonlinear_arith)
            requires
                vo.num * iso.den < iso.num * vo.den,
                iso.num * vp.den < vp.num * iso.den,
                n2 == vp.num * vo.den - vo.num * vp.den,
                vo.den >= 1,
                vp.den >= 1,
                iso.den >= 1,
        ;
        assert(n1 * vp.den > 0) by (nonlinear_arith)
            requires n1 > 0, vp.den >= 1;
        assert(iso.den * n2 - n1 * vp.den == vo.den * (vp.num * iso.den - iso.num * vp.den))
            by (nonlinear_arith)
            requires
                n1 == iso.num * vo.den - vo.num * iso.den,
                n2 == vp.num * vo.den - vo.num * vp.den,
        ;
        assert(vo.den * (vp.num * iso.den - iso.num * vp.den) > 0) by (nonlinear_arith)
            requires vo.den >= 1, iso.num * vp.den < vp.num * iso.den;
    } else {
        // vp < iso < vo: the edge falls through the threshold.
        assert(qlt(vp.q(), iso.q()) && qlt(iso.q(), vo.q()));
        assert(n1 < 0);
        assert(n2 < 0) by (nonlinear_arith)
            requires
                vp.num * iso.den < iso.num * vp.den,
                iso.num * vo.den < vo.num * iso.den,
                n2 == vp.num * vo.den - vo.num * vp.den,
                vo.den >= 1,
                vp.den >= 1,
                iso.den >= 1,
        ;
        assert(-(n1 * vp.den) > 0) by (nonlinear_arith)
            requires n1 < 0, vp.den >= 1;
        assert(iso.den * n2 - n1 * vp.den == vo.den * (vp.num * iso.den - iso.num * vp.den))
            by (nonlinear_arith)
            requires
                n1 == iso.num * vo.den - vo.num * iso.den,
                n2 == vp.num * vo.den - vo.num * vp.den,
        ;
        assert(vo.den * (vp.num * iso.den - iso.num * vp.den) < 0) by (nonlinear_arith)
            requires vo.den >= 1, vp.num * iso.den < iso.num * vp.den;
    }
}

/// Compares a density against the threshold: cross products stay far below
/// the `i128` range.
fn density_ge_iso(v: &Rat, iso: &Rat) -> (r: bool)
    requires
        density_wf(*v),
        iso_wf(*iso),
    ensures
        r == qle(iso.q(), v.q()),
{
    proof {
        assert(-0x10_0000_0000 <= iso.num * v.den <= 0x10_0000_0000) by (nonlinear_arith)
            requires 0 <= iso.num <= 0x10000, 1 <= v.den <= 0x100000;
        assert(-0x10_0000_0000 <= v.num * iso.den <= 0x10_0000_0000) by (nonlinear_arith)
            requires 0 <= v.num <= 0x100000, 1 <= iso.den <= 0x10000;
    }
    iso.num * v.den <= v.num * iso.den
}

/// Strict value comparison of a density against the threshold.
fn density_lt_iso(v: &Rat, iso: &Rat) -> (r: bool)
    requires
        density_wf(*v),
        iso_wf(*iso),
    ensures
        r == qlt(v.q(), iso.q()),
{
    proof {
        assert(-0x10_0000_0000 <= iso.num * v.den <= 0x10_0000_0000) by (nonlinear_arith)
            requires 0 <= iso.num <= 0x10000, 1 <= v.den <= 0x100000;
        assert(-0x10_0000_0000 <= v.num * iso.den <= 0x10_0000_0000) by (nonlinear_arith)
            requires 0 <= v.num <= 0x100000, 1 <= iso.den <= 0x10000;
    }
    v.num * iso.den < iso.num * v.den
}

/// Appends the vertices of one corner pair walk to `current`.
fn push_pair(
    current: &mut Vec<MarchVertex>,
    grid: &DensityGrid,
    iso: &Rat,
    ax: i64,
    ay: i64,
    bx: i64,
    by: i64,
)
    requires
        grid.wf(),
        iso_wf(*iso),
        -1 <= ax <= 0x10001,
        -1 <= ay <= 0x10001,
        -1 <= bx <= 0x10001,
        -1 <= by <= 0x10001,
    ensures
        final(current)@ == old(current)@ + spec_pair_vertices(
            *grid,
            *iso,
            ax as int,
            ay as int,
            bx as int,
            by as int,
        ),
        forall|i: int|
            old(current)@.len() <= i < final(current)@.len()
                ==> (#[trigger] final(current)@[i]).wf(),
        forall|i: int|
            old(current)@.len() <= i < final(current)@.len()
                ==> ((#[trigger] final(current)@[i]).x.base == ax
                    || final(current)@[i].x.base == bx)
                && (final(current)@[i].y.base == ay || final(current)@[i].y.base == by),
{
    let va = grid.density(ax, ay);
    let vb = grid.density(bx, by);
    if density_ge_iso(&va, iso) {
        current.push(
            MarchVertex {
                x: Coord { base: ax, frac: Rat { num: 0, den: 1 } },
                y: Coord { base: ay, frac: Rat { num: 0, den: 1 } },
                value: va,
                key: corner_key(ax, ay),
            },
        );
    }
    let a_below = density_lt_iso(&va, iso);
    let b_below = density_lt_iso(&vb, iso);
    let a_above = density_gt_iso(&va, iso);
    let b_above = density_gt_iso(&vb, iso);
    let crosses = (a_below && b_above) || (b_below && a_above);
    if crosses {
        let lex = ax < bx || (ax == bx && ay < by);
        let (ox, oy, px, py) = if lex { (ax, ay, bx, by) } else { (bx, by, ax, ay) };
        let vo = grid.density(ox, oy);
        let vp = grid.density(px, py);
        let t = interp_t(&vo, &vp, iso);
        if py == oy {
            current.push(
                MarchVertex {
                    x: Coord { base: ox, frac: t },
                    y: Coord { base: oy, frac: Rat { num: 0, den: 1 } },
                    value: *iso,
                    key: edge_key(1, ox, oy),
                },
            );
        } else {
            current.push(
                MarchVertex {
                    x: Coord { base: ox, frac: Rat { num: 0, den: 1 } },
                    y: Coord { base: oy, frac: t },
                    value: *iso,
                    key: edge_key(2, ox, oy),
                },
            );
        }
    }
    if density_ge_iso(&vb, iso) {
        current.push(
            MarchVertex {
                x: Coord { base: bx, frac: Rat { num: 0, den: 1 } },
                y: Coord { base: by, frac: Rat { num: 0, den: 1 } },
                value: vb,
                key: corner_key(bx, by),
            },
        );
    }
    proof {
        assert(current@ =~= old(current)@ + spec_pair_vertices(
            *grid,
            *iso,
            ax as int,
            ay as int,
            bx as int,
            by as int,
        ));
    }
}

/// The density lies strictly above the threshold.
fn density_gt_iso(v: &Rat, iso: &Rat) -> (r: bool)
    requires
        density_wf(*v),
        iso_wf(*iso),
    ensures
        r == qlt(iso.q(), v.q()),
{
    proof {
        assert(-0x10_0000_0000 <= iso.num * v.den <= 0x10_0000_0000) by (nonlinear_arith)
            requires 0 <= iso.num <= 0x10000, 1 <= v.den <= 0x100000;
        assert(-0x10_0000_0000 <= v.num * iso.den <= 0x10_0000_0000) by (nonlinear_arith)
            requires 0 <= v.num <= 0x100000, 1 <= iso.den <= 0x10000;
    }
    iso.num * v.den < v.num * iso.den
}

fn corner_key(x: i64, y: i64) -> (k: u64)
    requires
        -1 <= x <= 0x10001,
        -1 <= y <= 0x10001,
    ensures
        k == spec_corner_key(x as int, y as int),
{
    ((x + 1) as u64) * 0x100000 + ((y + 1) as u64)
}

fn edge_key(axis: u64, x: i64, y: i64) -> (k: u64)
    requires
        1 <= axis <= 2,
        -1 <= x <= 0x10001,
        -1 <= y <= 0x10001,
    ensures
        k == spec_edge_key(axis as int, x as int, y as int),
{
    axis * 0x100_0000_0000 + ((x + 1) as u64) * 0x100000 + ((y + 1) as u64)
}


/// Well-formedness of a face: all three vertices are well-formed.
pub open spec fn face_wf(f: MarchFace) -> bool {
    f[0].wf() && f[1].wf() && f[2].wf()
}

/// Appends the fan triangles of one cell to `result`.
fn cell_faces(result: &mut Vec<MarchFace>, grid: &DensityGrid, iso: &Rat, x: i64, y: i64)
    requires
        grid.wf(),
        iso_wf(*iso),
        -1 <= x <= 0x10000,
        -1 <= y <= 0x10000,
    ensures
        final(result)@ == old(result)@ + spec_cell_faces(*grid, *iso, x as int, y as int),
        forall|i: int|
            0 <= i < old(result)@.len() ==> final(result)@[i] == old(result)@[i],
        forall|i: int|
            old(result)@.len() <= i < final(result)@.len() ==> face_wf(#[trigger] final(result)@[i])
                && crate::mesh::face_compact(final(result)@[i]),
{
    let mut current: Vec<MarchVertex> = Vec::new();
    push_pair(&mut current, grid, iso, x, y, x + 1, y);
    push_pair(&mut current, grid, iso, x + 1, y, x + 1, y + 1);
    push_pair(&mut current, grid, iso, x + 1, y + 1, x, y + 1);
    push_pair(&mut current, grid, iso, x, y + 1, x, y);
    proof {
        assert(current@ =~= spec_cell_vertices(*grid, *iso, x as int, y as int));
        assert(forall|j: int|
            0 <= j < current@.len() ==> x <= (#[trigger] current@[j]).x.base <= x + 1 && y
                <= current@[j].y.base <= y + 1);
    }
    let ghost cv = current@;
    let ghost base = result@;
    proof {
        assert(base + spec_fan(cv).subrange(0, 0) =~= base);
    }
    if current.len() >= 3 {
        proof {
            assert(current.len() == cv.len());
        }
        let o = current[0];
        let mut i: usize = 1;
        while i + 1 < current.len()
            invariant
                current@ == cv,
                cv.len() <= usize::MAX,
                3 <= cv.len(),
                o == cv[0],
                1 <= i <= cv.len() - 1,
                result@ == base + spec_fan(cv).subrange(0, i - 1),
                forall|j: int| 0 <= j < cv.len() ==> (#[trigger] cv[j]).wf(),
                forall|j: int|
                    0 <= j < cv.len() ==> x <= (#[trigger] cv[j]).x.base <= x + 1 && y
                        <= cv[j].y.base <= y + 1,
            decreases current@.len() - i,
        {
            result.push([o, current[i], current[i + 1]]);
            proof {
                assert(spec_fan(cv)[i - 1] == [cv[0], cv[i as int], cv[i + 1]]);
                assert(result@ =~= base + spec_fan(cv).subrange(0, i as int));
            }
            i += 1;
        }
        proof {
            assert(spec_fan(cv).subrange(0, cv.len() - 2) =~= spec_fan(cv));
        }
    } else {
        proof {
            assert(spec_fan(cv) =~= Seq::<MarchFace>::empty());
            assert(result@ =~= base + spec_fan(cv));
        }
    }
    proof {
        assert forall|k: int| base.len() <= k < result@.len() implies face_wf(
            #[trigger] result@[k],
        ) && crate::mesh::face_compact(result@[k]) by {
            let j = k - base.len();
            assert(result@[k] == spec_fan(cv)[j]);
            assert(spec_fan(cv)[j] == [cv[0], cv[j + 1], cv[j + 2]]);
        }
    }
}

/// Extracts the contour of the density field at the given threshold: the
/// flat list of fan triangles of every cell of the grid bounds expanded by
/// one cell on each side, in column-inner, row-outer order.
pub fn marching_triangles(grid: &DensityGrid, iso: &Rat) -> (r: Vec<MarchFace>)
    requires
        grid.wf(),
        iso_wf(*iso),
    ensures
        r@ == spec_marching(*grid, *iso),
        forall|i: int|
            0 <= i < r@.len() ==> face_wf(#[trigger] r@[i]) && crate::mesh::face_compact(r@[i]),
{
    let mut result: Vec<MarchFace> = Vec::new();
    let gw = grid.gw as i64;
    let gh = grid.gh as i64;
    let mut x: i64 = -1;
    proof {
        assert(result@ =~= spec_faces_upto(*grid, *iso, -1));
    }
    while x < gw
        invariant
            grid.wf(),
            iso_wf(*iso),
            gw == grid.gw,
            gh == grid.gh,
            -1 <= x <= gw,
            gw <= 0x10000,
            gh <= 0x10000,
            result@ == spec_faces_upto(*grid, *iso, x as int),
            forall|i: int|
                0 <= i < result@.len() ==> face_wf(#[trigger] result@[i])
                    && crate::mesh::face_compact(result@[i]),
        decreases gw - x,
    {
        let mut y: i64 = -1;
        proof {
            assert(result@ =~= spec_faces_upto(*grid, *iso, x as int) + spec_column_faces(
                *grid,
                *iso,
                x as int,
                -1,
            ));
        }
        while y < gh
            invariant
                grid.wf(),
                iso_wf(*iso),
                gw == grid.gw,
                gh == grid.gh,
                -1 <= x < gw,
                -1 <= y <= gh,
                gw <= 0x10000,
                gh <= 0x10000,
                result@ == spec_faces_upto(*grid, *iso, x as int) + spec_column_faces(
                    *grid,
                    *iso,
                    x as int,
                    y as int,
                ),
                forall|i: int|
                    0 <= i < result@.len() ==> face_wf(#[trigger] result@[i])
                        && crate::mesh::face_compact(result@[i]),
            decreases gh - y,
        {
            cell_faces(&mut result, grid, iso, x, y);
            proof {
                assert(result@ =~= spec_faces_upto(*grid, *iso, x as int) + spec_column_faces(
                    *grid,
                    *iso,
                    x as int,
                    y as int + 1,
                ));
            }
            y += 1;
        }
        proof {
            assert(result@ =~= spec_faces_upto(*grid, *iso, x as int + 1));
        }
        x += 1;
    }
    result
}


/// The canonical shapes of contour vertices: a grid corner (`kind` 0), the
/// crossing point of the edge from `(x, y)` toward `(x+1, y)` (`kind` 1), or
/// toward `(x, y+1)` (`kind` 2). Every vertex the extractor emits has one of
/// these shapes: the corner branches of a cell walk emit corner vertices, and
/// the crossing branch emits the cross vertex of the walked edge, anchored at
/// the edge's lexicographically smaller end.
pub open spec fn shaped_vertex(
    grid: DensityGrid,
    iso: Rat,
    v: MarchVertex,
    kind: int,
    x: int,
    y: int,
) -> bool {
    &&& -1 <= x <= 0x10001
    &&& -1 <= y <= 0x10001
    &&& (kind == 0 ==> v == spec_corner_vertex(grid, x, y))
    &&& (kind == 1 ==> v == spec_cross_vertex(grid, iso, x, y, x + 1, y) && spec_crosses(
        grid.rat_at(x, y),
        grid.rat_at(x + 1, y),
        iso,
    ))
    &&& (kind == 2 ==> v == spec_cross_vertex(grid, iso, x, y, x, y + 1) && spec_crosses(
        grid.rat_at(x, y),
        grid.rat_at(x, y + 1),
        iso,
    ))
    &&& 0 <= kind <= 2
}

/// An integer coordinate's exact value is its base.
proof fn lemma_int_coord(c: Coord, a: int)
    requires
        c == Coord::spec_int(a),
        -1 <= a <= 0x10001,
    ensures
        c.q().num == a,
        c.q().den == 1,
{
    assert(c.base == a as i64);
    assert(c.frac.num == 0 && c.frac.den == 1);
}

/// A fractional coordinate's exact value, in terms of its parts.
proof fn lemma_cross_coord(c: Coord, o: int, t: Rat)
    requires
        c == (Coord { base: o as i64, frac: t }),
        -1 <= o <= 0x10001,
    ensures
        c.q().num == o * t.den + t.num,
        c.q().den == t.den,
{
    assert(c.base as int == o);
}

/// A coordinate with a strict fractional part never equals an integer.
proof fn lemma_frac_not_int(o: int, tn: int, td: int, c: int)
    requires
        0 < tn < td,
    ensures
        (o * td + tn) * 1 != c * td,
{
    if (o * td + tn) * 1 == c * td {
        assert(tn == (c - o) * td) by (nonlinear_arith)
            requires (o * td + tn) * 1 == c * td;
        assert(!(0 < (c - o) * td < td)) by (nonlinear_arith)
            requires td > 0;
    }
}

/// Two coordinates with strict fractional parts agree on their integer part
/// when they are equal.
proof fn lemma_frac_eq_base(o1: int, t1n: int, t1d: int, o2: int, t2n: int, t2d: int)
    requires
        0 < t1n < t1d,
        0 < t2n < t2d,
        (o1 * t1d + t1n) * t2d == (o2 * t2d + t2n) * t1d,
    ensures
        o1 == o2,
{
    assert((o1 - o2) * (t1d * t2d) == t2n * t1d - t1n * t2d) by (nonlinear_arith)
        requires (o1 * t1d + t1n) * t2d == (o2 * t2d + t2n) * t1d;
    assert(0 < t1n * t2d < t1d * t2d && 0 < t2n * t1d < t1d * t2d) by (nonlinear_arith)
        requires 0 < t1n < t1d, 0 < t2n < t2d;
    assert(o1 == o2) by (nonlinear_arith)
        requires
            (o1 - o2) * (t1d * t2d) == t2n * t1d - t1n * t2d,
            t1d * t2d > 0,
            0 < t1n * t2d < t1d * t2d,
            0 < t2n * t1d < t1d * t2d,
    ;
}

/// The crossing parameter of a strictly crossing edge is strictly inside it.
proof fn lemma_shape_t_strict(grid: DensityGrid, iso: Rat, a: (int, int), b: (int, int))
    requires
        grid.wf(),
        iso_wf(iso),
        spec_crosses(grid.rat_at(a.0, a.1), grid.rat_at(b.0, b.1), iso),
    ensures
        ({
            let t = spec_t(grid.rat_at(a.0, a.1), grid.rat_at(b.0, b.1), iso);
            0 < t.num < t.den
        }),
{
    grid.lemma_rat_at_wf(a.0, a.1);
    grid.lemma_rat_at_wf(b.0, b.1);
    lemma_interp_bounds(grid.rat_at(a.0, a.1), grid.rat_at(b.0, b.1), iso);
}

/// Position determines the key: two contour vertices at the same exact
/// position carry the same key. The normal table, keyed by vertex key,
/// therefore merges exactly the entries that a table keyed by exact position
/// would merge, with the same last-write-wins rule.
pub proof fn lemma_position_determines_key(
    grid: DensityGrid,
    iso: Rat,
    u: MarchVertex,
    v: MarchVertex,
    ku: int,
    ux: int,
    uy: int,
    kv: int,
    vx: int,
    vy: int,
)
    requires
        grid.wf(),
        iso_wf(iso),
        shaped_vertex(grid, iso, u, ku, ux, uy),
        shaped_vertex(grid, iso, v, kv, vx, vy),
        crate::rat::qeq(u.x.q(), v.x.q()),
        crate::rat::qeq(u.y.q(), v.y.q()),
    ensures
        u.key == v.key,
{
    if ku == 1 {
        lemma_shape_t_strict(grid, iso, (ux, uy), (ux + 1, uy));
    }
    if ku == 2 {
        lemma_shape_t_strict(grid, iso, (ux, uy), (ux, uy + 1));
    }
    if kv == 1 {
        lemma_shape_t_strict(grid, iso, (vx, vy), (vx + 1, vy));
    }
    if kv == 2 {
        lemma_shape_t_strict(grid, iso, (vx, vy), (vx, vy + 1));
    }
    if ku == 0 && kv == 0 {
        lemma_int_coord(u.x, ux);
        lemma_int_coord(u.y, uy);
        lemma_int_coord(v.x, vx);
        lemma_int_coord(v.y, vy);
        assert(ux * 1 == vx * 1 && uy * 1 == vy * 1);
        assert(ux == vx && uy == vy);
    } else if ku == 0 && kv == 1 {
        let t = spec_t(grid.rat_at(vx, vy), grid.rat_at(vx + 1, vy), iso);
        lemma_int_coord(u.x, ux);
        lemma_cross_coord(v.x, vx, t);
        lemma_frac_not_int(vx, t.num as int, t.den as int, ux);
    } else if ku == 0 && kv == 2 {
        let t = spec_t(grid.rat_at(vx, vy), grid.rat_at(vx, vy + 1), iso);
        lemma_int_coord(u.y, uy);
        lemma_cross_coord(v.y, vy, t);
        lemma_frac_not_int(vy, t.num as int, t.den as int, uy);
    } else if ku == 1 && kv == 0 {
        let t = spec_t(grid.rat_at(ux, uy), grid.rat_at(ux + 1, uy), iso);
        lemma_int_coord(v.x, vx);
        lemma_cross_coord(u.x, ux, t);
        lemma_frac_not_int(ux, t.num as int, t.den as int, vx);
    } else if ku == 1 && kv == 1 {
        let tu = spec_t(grid.rat_at(ux, uy), grid.rat_at(ux + 1, uy), iso);
        let tv = spec_t(grid.rat_at(vx, vy), grid.rat_at(vx + 1, vy), iso);
        lemma_cross_coord(u.x, ux, tu);
        lemma_cross_coord(v.x, vx, tv);
        lemma_frac_eq_base(ux, tu.num as int, tu.den as int, vx, tv.num as int, tv.den as int);
        lemma_int_coord(u.y, uy);
        lemma_int_coord(v.y, vy);
        assert(uy * 1 == vy * 1);
        assert(uy == vy);
    } else if ku == 1 && kv == 2 {
        let tv = spec_t(grid.rat_at(vx, vy), grid.rat_at(vx, vy + 1), iso);
        lemma_int_coord(u.y, uy);
        lemma_cross_coord(v.y, vy, tv);
        lemma_frac_not_int(vy, tv.num as int, tv.den as int, uy);
    } else if ku == 2 && kv == 0 {
        let t = spec_t(grid.rat_at(ux, uy), grid.rat_at(ux, uy + 1), iso);
        lemma_int_coord(v.y, vy);
        lemma_cross_coord(u.y, uy, t);
        lemma_frac_not_int(uy, t.num as int, t.den as int, vy);
    } else if ku == 2 && kv == 1 {
        let tu = spec_t(grid.rat_at(ux, uy), grid.rat_at(ux, uy + 1), iso);
        lemma_int_coord(v.y, vy);
        lemma_cross_coord(u.y, uy, tu);
        lemma_frac_not_int(uy, tu.num as int, tu.den as int, vy);
    } else {
        let tu = spec_t(grid.rat_at(ux, uy), grid.rat_at(ux, uy + 1), iso);
        let tv = spec_t(grid.rat_at(vx, vy), grid.rat_at(vx, vy + 1), iso);
        lemma_cross_coord(u.y, uy, tu);
        lemma_cross_coord(v.y, vy, tv);
        lemma_frac_eq_base(uy, tu.num as int, tu.den as int, vy, tv.num as int, tv.den as int);
        lemma_int_coord(u.x, ux);
        lemma_int_coord(v.x, vx);
        assert(ux * 1 == vx * 1);
        assert(ux == vx);
    }
}

} // verus!

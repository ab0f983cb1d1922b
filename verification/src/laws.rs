//! Pipeline-wide laws.
//!
//! These public proof functions state properties that relate several stages
//! of the pipeline; each is proved from the specifications the stages'
//! contracts use.
use vstd::prelude::*;

use crate::field::{spec_cell_density, sum_alpha_block, sum_alpha_col, DensityGrid, Image};
use crate::march::{
    iso_wf, spec_cell_faces, spec_cell_vertices, spec_column_faces, spec_corner_vertex,
    spec_faces_upto, spec_fan, spec_marching, spec_pair_vertices, MarchFace,
};
use crate::mesh::{spec_mesh, Options};
use crate::rat::{qint, qle, qlt, Rat};

verus! {

/// Every pixel of the image is fully transparent.
pub open spec fn fully_transparent(img: Image) -> bool {
    forall|x: int, y: int|
        0 <= x < img.width && 0 <= y < img.height ==> #[trigger] img.alpha_at(x, y) == 0
}

proof fn lemma_sum_col_zero(img: Image, px: int, y0: int, y1: int)
    requires
        fully_transparent(img),
        0 <= px < img.width,
        0 <= y0 <= y1,
        y1 <= img.height,
    ensures
        sum_alpha_col(img, px, y0, y1) == 0,
    decreases y1 - y0,
{
    if y0 < y1 {
        lemma_sum_col_zero(img, px, y0 + 1, y1);
    }
}

proof fn lemma_sum_block_zero(img: Image, x0: int, x1: int, y0: int, y1: int)
    requires
        fully_transparent(img),
        0 <= x0 <= x1,
        x1 <= img.width,
        0 <= y0 <= y1,
        y1 <= img.height,
    ensures
        sum_alpha_block(img, x0, x1, y0, y1) == 0,
    decreases x1 - x0,
{
    if x0 < x1 {
        lemma_sum_col_zero(img, x0, y0, y1);
        lemma_sum_block_zero(img, x0 + 1, x1, y0, y1);
    }
}

/// On a fully transparent image every sampled density is zero.
proof fn lemma_densities_zero(img: Image, cs: int, g: DensityGrid, x: int, y: int)
    requires
        fully_transparent(img),
        g.wf_for(img, cs),
    ensures
        g.rat_at(x, y).num == 0,
{
    if 0 <= x < g.gw && 0 <= y < g.gh {
        crate::field::lemma_grid_dim(img.width as int, cs);
        crate::field::lemma_grid_dim(img.height as int, cs);
        let x0 = x * cs;
        let y0 = y * cs;
        assert(0 <= x0 && x0 <= (g.gw - 1) * cs && 0 <= y0 && y0 <= (g.gh - 1) * cs)
            by (nonlinear_arith)
            requires 0 <= x <= g.gw - 1, 0 <= y <= g.gh - 1, cs >= 1, x0 == x * cs, y0 == y * cs;
        let x1 = if x0 + cs <= img.width {
            x0 + cs
        } else {
            img.width as int
        };
        let y1 = if y0 + cs <= img.height {
            y0 + cs
        } else {
            img.height as int
        };
        assert(x1 <= img.width && y1 <= img.height);
        lemma_sum_block_zero(img, x0, x1, y0, y1);
        assert(g.cells@[x]@[y].q() == spec_cell_density(img, cs, x, y));
    }
}

/// A positive threshold is never reached and never crossed on a field of
/// zeros, so no cell walk emits a vertex.
proof fn lemma_pair_empty(g: DensityGrid, iso: Rat, ax: int, ay: int, bx: int, by: int)
    requires
        iso.wf(),
        qlt(qint(0), iso.q()),
        g.wf(),
        g.rat_at(ax, ay).num == 0,
        g.rat_at(bx, by).num == 0,
    ensures
        spec_pair_vertices(g, iso, ax, ay, bx, by) =~= Seq::<crate::march::MarchVertex>::empty(),
{
    let va = g.rat_at(ax, ay);
    let vb = g.rat_at(bx, by);
    g.lemma_rat_at_wf(ax, ay);
    g.lemma_rat_at_wf(bx, by);
    assert(iso.num >= 1);
    assert(iso.num * va.den >= 1 && va.num * iso.den == 0) by (nonlinear_arith)
        requires iso.num >= 1, va.den >= 1, va.num == 0;
    assert(iso.num * vb.den >= 1 && vb.num * iso.den == 0) by (nonlinear_arith)
        requires iso.num >= 1, vb.den >= 1, vb.num == 0;
}

proof fn lemma_cell_empty(g: DensityGrid, iso: Rat, x: int, y: int)
    requires
        iso.wf(),
        qlt(qint(0), iso.q()),
        g.wf(),
        forall|a: int, b: int| (#[trigger] g.rat_at(a, b)).num == 0,
    ensures
        spec_cell_faces(g, iso, x, y) =~= Seq::<MarchFace>::empty(),
{
    lemma_pair_empty(g, iso, x, y, x + 1, y);
    lemma_pair_empty(g, iso, x + 1, y, x + 1, y + 1);
    lemma_pair_empty(g, iso, x + 1, y + 1, x, y + 1);
    lemma_pair_empty(g, iso, x, y + 1, x, y);
    assert(spec_cell_vertices(g, iso, x, y) =~= Seq::<crate::march::MarchVertex>::empty());
    assert(spec_fan(spec_cell_vertices(g, iso, x, y)) =~= Seq::<MarchFace>::empty());
}

proof fn lemma_column_empty(g: DensityGrid, iso: Rat, x: int, y_end: int)
    requires
        iso.wf(),
        qlt(qint(0), iso.q()),
        g.wf(),
        forall|a: int, b: int| (#[trigger] g.rat_at(a, b)).num == 0,
    ensures
        spec_column_faces(g, iso, x, y_end) =~= Seq::<MarchFace>::empty(),
    decreases y_end + 1,
{
    if y_end > -1 {
        lemma_column_empty(g, iso, x, y_end - 1);
        lemma_cell_empty(g, iso, x, y_end - 1);
    }
}

proof fn lemma_upto_empty(g: DensityGrid, iso: Rat, x_end: int)
    requires
        iso.wf(),
        qlt(qint(0), iso.q()),
        g.wf(),
        forall|a: int, b: int| (#[trigger] g.rat_at(a, b)).num == 0,
    ensures
        spec_faces_upto(g, iso, x_end) =~= Seq::<MarchFace>::empty(),
    decreases x_end + 1,
{
    if x_end > -1 {
        lemma_upto_empty(g, iso, x_end - 1);
        lemma_column_empty(g, iso, x_end - 1, g.gh as int);
    }
}

/// The mesh of an empty face list is empty, whatever the configuration.
pub proof fn lemma_mesh_of_no_faces(opts: Options, w: int, h: int)
    ensures
        spec_mesh(Seq::<MarchFace>::empty(), opts, w, h) =~= Seq::<crate::mesh::Vertex>::empty(),
{
}

/// A fully transparent image yields no contour faces and an empty mesh, for
/// every positive threshold.
pub proof fn lemma_transparent_yields_nothing(
    img: Image,
    g: DensityGrid,
    opts: Options,
)
    requires
        fully_transparent(img),
        g.wf_for(img, opts.cell_size as int),
        iso_wf(opts.iso),
        qlt(qint(0), opts.iso.q()),
    ensures
        spec_marching(g, opts.iso) =~= Seq::<MarchFace>::empty(),
        spec_mesh(spec_marching(g, opts.iso), opts, img.width as int, img.height as int)
            =~= Seq::<crate::mesh::Vertex>::empty(),
{
    assert forall|a: int, b: int| (#[trigger] g.rat_at(a, b)).num == 0 by {
        lemma_densities_zero(img, opts.cell_size as int, g, a, b);
    }
    lemma_upto_empty(g, opts.iso, g.gw as int);
    assert(spec_marching(g, opts.iso) =~= Seq::<MarchFace>::empty());
    lemma_mesh_of_no_faces(opts, img.width as int, img.height as int);
    assert(spec_mesh(spec_marching(g, opts.iso), opts, img.width as int, img.height as int)
        =~= spec_mesh(Seq::<MarchFace>::empty(), opts, img.width as int, img.height as int));
}

/// Two density grids that both match the same image and cell size are equal
/// where it matters: they sample identically everywhere.
proof fn lemma_grids_agree(img: Image, cs: int, g1: DensityGrid, g2: DensityGrid, x: int, y: int)
    requires
        g1.wf_for(img, cs),
        g2.wf_for(img, cs),
    ensures
        g1.gw == g2.gw,
        g1.gh == g2.gh,
        g1.rat_at(x, y) == g2.rat_at(x, y),
{
    if 0 <= x < g1.gw && 0 <= y < g1.gh {
        assert(g1.cells@[x]@[y].q() == spec_cell_density(img, cs, x, y));
        assert(g2.cells@[x]@[y].q() == spec_cell_density(img, cs, x, y));
    }
}

proof fn lemma_column_congruent(img: Image, cs: int, g1: DensityGrid, g2: DensityGrid, iso: Rat, x: int, y_end: int)
    requires
        g1.wf_for(img, cs),
        g2.wf_for(img, cs),
    ensures
        spec_column_faces(g1, iso, x, y_end) == spec_column_faces(g2, iso, x, y_end),
    decreases y_end + 1,
{
    if y_end > -1 {
        lemma_column_congruent(img, cs, g1, g2, iso, x, y_end - 1);
        let y = y_end - 1;
        lemma_grids_agree(img, cs, g1, g2, x, y);
        lemma_grids_agree(img, cs, g1, g2, x + 1, y);
        lemma_grids_agree(img, cs, g1, g2, x + 1, y + 1);
        lemma_grids_agree(img, cs, g1, g2, x, y + 1);
        assert(spec_cell_vertices(g1, iso, x, y) == spec_cell_vertices(g2, iso, x, y));
    }
}

proof fn lemma_upto_congruent(img: Image, cs: int, g1: DensityGrid, g2: DensityGrid, iso: Rat, x_end: int)
    requires
        g1.wf_for(img, cs),
        g2.wf_for(img, cs),
    ensures
        spec_faces_upto(g1, iso, x_end) == spec_faces_upto(g2, iso, x_end),
    decreases x_end + 1,
{
    if x_end > -1 {
        lemma_upto_congruent(img, cs, g1, g2, iso, x_end - 1);
        lemma_grids_agree(img, cs, g1, g2, 0, 0);
        lemma_column_congruent(img, cs, g1, g2, iso, x_end - 1, g1.gh as int);
    }
}

/// Determinism of the pipeline: the extracted contour, and with it the
/// assembled mesh, is a function of the image and the configuration alone.
/// Any two density grids that match the image give identical faces and
/// identical meshes; together with the exact contracts of texture repair and
/// serialization, running the pipeline twice on the same input produces
/// byte-identical results.
pub proof fn lemma_pipeline_deterministic(
    img: Image,
    opts: Options,
    g1: DensityGrid,
    g2: DensityGrid,
)
    requires
        g1.wf_for(img, opts.cell_size as int),
        g2.wf_for(img, opts.cell_size as int),
    ensures
        spec_marching(g1, opts.iso) == spec_marching(g2, opts.iso),
        spec_mesh(spec_marching(g1, opts.iso), opts, img.width as int, img.height as int)
            == spec_mesh(spec_marching(g2, opts.iso), opts, img.width as int, img.height as int),
{
    lemma_grids_agree(img, opts.cell_size as int, g1, g2, 0, 0);
    lemma_upto_congruent(img, opts.cell_size as int, g1, g2, opts.iso, g1.gw as int);
}


/// Every pixel of the image is fully opaque.
pub open spec fn fully_opaque(img: Image) -> bool {
    forall|x: int, y: int|
        0 <= x < img.width && 0 <= y < img.height ==> #[trigger] img.alpha_at(x, y) == 255
}

proof fn lemma_sum_col_full(img: Image, px: int, y0: int, y1: int)
    requires
        fully_opaque(img),
        0 <= px < img.width,
        0 <= y0 <= y1,
        y1 <= img.height,
    ensures
        sum_alpha_col(img, px, y0, y1) == 255 * (y1 - y0),
    decreases y1 - y0,
{
    if y0 < y1 {
        lemma_sum_col_full(img, px, y0 + 1, y1);
    }
}

proof fn lemma_sum_block_full(img: Image, x0: int, x1: int, y0: int, y1: int)
    requires
        fully_opaque(img),
        0 <= x0 <= x1,
        x1 <= img.width,
        0 <= y0 <= y1,
        y1 <= img.height,
    ensures
        sum_alpha_block(img, x0, x1, y0, y1) == 255 * (x1 - x0) * (y1 - y0),
    decreases x1 - x0,
{
    if x0 < x1 {
        lemma_sum_col_full(img, x0, y0, y1);
        lemma_sum_block_full(img, x0 + 1, x1, y0, y1);
        assert(255 * (x1 - x0) * (y1 - y0) == 255 * (x1 - x0 - 1) * (y1 - y0) + 255 * (y1 - y0))
            by (nonlinear_arith);
    } else {
        assert(255 * (x1 - x0) * (y1 - y0) == 0) by (nonlinear_arith)
            requires x0 == x1;
    }
}

/// On a fully opaque image every in-grid density is exactly one.
proof fn lemma_density_one(img: Image, cs: int, g: DensityGrid, x: int, y: int)
    requires
        fully_opaque(img),
        g.wf_for(img, cs),
        0 <= x < g.gw,
        0 <= y < g.gh,
    ensures
        g.rat_at(x, y).num == g.rat_at(x, y).den,
{
    crate::field::lemma_grid_dim(img.width as int, cs);
    crate::field::lemma_grid_dim(img.height as int, cs);
    let x0 = x * cs;
    let y0 = y * cs;
    assert(0 <= x0 && x0 <= (g.gw - 1) * cs && 0 <= y0 && y0 <= (g.gh - 1) * cs)
        by (nonlinear_arith)
        requires 0 <= x <= g.gw - 1, 0 <= y <= g.gh - 1, cs >= 1, x0 == x * cs, y0 == y * cs;
    let x1 = if x0 + cs <= img.width {
        x0 + cs
    } else {
        img.width as int
    };
    let y1 = if y0 + cs <= img.height {
        y0 + cs
    } else {
        img.height as int
    };
    lemma_sum_block_full(img, x0, x1, y0, y1);
    assert(g.cells@[x]@[y].q() == spec_cell_density(img, cs, x, y));
}

/// A fully covered cell: when the densities at all four corners reach the
/// threshold, the walk collects each corner twice and no crossings, and the
/// fan yields exactly six faces. Exactly two of them are genuine triangles,
/// the two halves of the cell split along its diagonal; the other four repeat
/// a vertex and are degenerate.
pub proof fn lemma_covered_cell_two_triangles(g: DensityGrid, iso: Rat, x: int, y: int)
    requires
        g.wf(),
        iso.wf(),
        -1 <= x <= 0x10000,
        -1 <= y <= 0x10000,
        qle(iso.q(), g.rat_at(x, y).q()),
        qle(iso.q(), g.rat_at(x + 1, y).q()),
        qle(iso.q(), g.rat_at(x + 1, y + 1).q()),
        qle(iso.q(), g.rat_at(x, y + 1).q()),
    ensures
        ({
            let c0 = spec_corner_vertex(g, x, y);
            let c1 = spec_corner_vertex(g, x + 1, y);
            let c2 = spec_corner_vertex(g, x + 1, y + 1);
            let c3 = spec_corner_vertex(g, x, y + 1);
            let faces = spec_cell_faces(g, iso, x, y);
            &&& faces.len() == 6
            &&& faces[1] == [c0, c1, c2]
            &&& faces[3] == [c0, c2, c3]
            &&& faces[0][1] == faces[0][2]
            &&& faces[2][1] == faces[2][2]
            &&& faces[4][1] == faces[4][2]
            &&& faces[5][0] == faces[5][2]
            &&& c0 != c1 && c1 != c2 && c2 != c3 && c0 != c2 && c0 != c3 && c1 != c3
        }),
{
    let c0 = spec_corner_vertex(g, x, y);
    let c1 = spec_corner_vertex(g, x + 1, y);
    let c2 = spec_corner_vertex(g, x + 1, y + 1);
    let c3 = spec_corner_vertex(g, x, y + 1);
    assert(spec_pair_vertices(g, iso, x, y, x + 1, y) =~= seq![c0, c1]);
    assert(spec_pair_vertices(g, iso, x + 1, y, x + 1, y + 1) =~= seq![c1, c2]);
    assert(spec_pair_vertices(g, iso, x + 1, y + 1, x, y + 1) =~= seq![c2, c3]);
    assert(spec_pair_vertices(g, iso, x, y + 1, x, y) =~= seq![c3, c0]);
    let cv = spec_cell_vertices(g, iso, x, y);
    assert(cv =~= seq![c0, c1, c1, c2, c2, c3, c3, c0]);
    let faces = spec_cell_faces(g, iso, x, y);
    assert(faces.len() == 6);
    assert(faces[1] == [cv[0], cv[2], cv[3]]);
    assert(faces[3] == [cv[0], cv[4], cv[5]]);
    assert(faces[0] == [cv[0], cv[1], cv[2]]);
    assert(faces[2] == [cv[0], cv[3], cv[4]]);
    assert(faces[4] == [cv[0], cv[5], cv[6]]);
    assert(faces[5] == [cv[0], cv[6], cv[7]]);
    assert(c0.x.base == x as i64 && c1.x.base == (x + 1) as i64 && c2.x.base == (x + 1) as i64
        && c3.x.base == x as i64);
    assert(c0.y.base == y as i64 && c1.y.base == y as i64 && c2.y.base == (y + 1) as i64
        && c3.y.base == (y + 1) as i64);
}

/// A fully opaque image at a threshold of at most one: every cell whose four
/// corners lie in the grid fans into exactly six faces, two of them the
/// genuine triangles that split the cell along its diagonal. With the
/// boundary cells' silhouette closing added by the expanded march, this is
/// the contour enclosing the whole grid.
pub proof fn lemma_opaque_cell_two_triangles(
    img: Image,
    g: DensityGrid,
    iso: Rat,
    cs: int,
    x: int,
    y: int,
)
    requires
        fully_opaque(img),
        g.wf_for(img, cs),
        iso_wf(iso),
        qle(iso.q(), qint(1)),
        0 <= x <= g.gw - 2,
        0 <= y <= g.gh - 2,
    ensures
        ({
            let c0 = spec_corner_vertex(g, x, y);
            let c1 = spec_corner_vertex(g, x + 1, y);
            let c2 = spec_corner_vertex(g, x + 1, y + 1);
            let c3 = spec_corner_vertex(g, x, y + 1);
            let faces = spec_cell_faces(g, iso, x, y);
            &&& faces.len() == 6
            &&& faces[1] == [c0, c1, c2]
            &&& faces[3] == [c0, c2, c3]
            &&& faces[0][1] == faces[0][2]
            &&& faces[2][1] == faces[2][2]
            &&& faces[4][1] == faces[4][2]
            &&& faces[5][0] == faces[5][2]
        }),
{
    assert forall|a: int, b: int|
        x <= a <= x + 1 && y <= b <= y + 1 implies qle(iso.q(), #[trigger] g.rat_at(a, b).q()) by {
        lemma_density_one(img, cs, g, a, b);
        g.lemma_rat_at_wf(a, b);
        let v = g.rat_at(a, b);
        assert(iso.num * v.den <= v.num * iso.den) by (nonlinear_arith)
            requires
                iso.num <= iso.den,
                v.num == v.den,
                v.den >= 1,
                iso.den >= 1,
                iso.num >= 0,
        ;
    }
    lemma_covered_cell_two_triangles(g, iso, x, y);
}

} // verus!

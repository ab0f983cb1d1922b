//! Mesh assembly: front, back and side-wall vertices with texture
//! coordinates, extrusion and scaling, and the silhouette normal table.
//!
//! A silhouette edge is a face edge whose two vertices both carry a density
//! exactly equal to the threshold. Each such edge contributes an outward
//! direction (the edge direction rotated a quarter turn) recorded for both of
//! its end points; when a position is shared by several silhouette edges the
//! last write in encounter order wins. Directions are kept unnormalized: they
//! are exact rationals, and scaling a direction to unit length is left to the
//! consumer (it is the one inexact step of the pipeline). The same applies to
//! the configured outward nudge of texture coordinates, which adds
//! `offset * direction / |direction| / image_size` to the vertex's
//! coordinates: the library hands the consumer the exact base value and the
//! exact direction.
use std::collections::HashMap;

use vstd::prelude::*;

use crate::field::{DensityGrid, Image, MAX_CELL_SIZE, MAX_IMAGE_DIM};
use crate::march::{face_wf, marching_triangles, Coord, MarchFace, MarchVertex, iso_wf, spec_marching};
use crate::rat::{qeq, Q, Rat};
use crate::SpriteError;

verus! {

broadcast use {vstd::std_specs::hash::group_hash_axioms, vstd::std_specs::vec::group_vec_axioms};

/// A 2-D vector of exact rationals.
#[derive(Clone, Copy, Debug)]
pub struct Vec2r {
    pub x: Rat,
    pub y: Rat,
}

/// A 3-D vector of exact rationals.
#[derive(Clone, Copy, Debug)]
pub struct Vec3r {
    pub x: Rat,
    pub y: Rat,
    pub z: Rat,
}

/// The outward normal attached to an output vertex.
#[derive(Clone, Copy, Debug)]
pub enum NormalDir {
    /// A silhouette vertex: the unnormalized outward direction in the image
    /// plane (the zero vector when the silhouette edge was degenerate). The
    /// consumer scales it to unit length and extends it with `z = 0`.
    Outward(Vec2r),
    /// An interior vertex: the consumer uses the unit `+z` direction.
    PlusZ,
}

/// An output vertex: position, texture coordinates and normal. Positions and
/// texture coordinates are the exact values before the configured
/// normal-offset nudge, which the consumer applies together with
/// normalization.
#[derive(Clone, Copy, Debug)]
pub struct Vertex {
    pub a_pos: Vec3r,
    pub a_uv: Vec2r,
    pub a_normal: NormalDir,
}

/// The scaling policy applied to the assembled mesh.
#[derive(Clone, Copy, Debug)]
pub enum ScalingMode {
    /// Scale y by `height / 2` and x by `height / 2` times the image aspect
    /// ratio, preserving the image's proportions.
    FixedHeight(Rat),
}

/// The mesh generation configuration.
#[derive(Clone, Copy, Debug)]
pub struct Options {
    /// Pixels per density grid cell edge.
    pub cell_size: usize,
    /// The density threshold between inside and outside.
    pub iso: Rat,
    /// How far texture sampling is nudged outward along the silhouette
    /// normal, in pixels.
    pub normal_uv_offset: Rat,
    /// The extrusion thickness: front and back faces sit at `z = thickness/2`
    /// and `z = -thickness/2`.
    pub thickness: Rat,
    pub scaling: ScalingMode,
    pub front_face: bool,
    pub back_face: bool,
}

/// A configuration fraction: nonnegative, numerator and denominator at most
/// `2^16`.
pub open spec fn param_wf(p: Rat) -> bool {
    p.wf() && 0 <= p.num <= 0x10000 && p.den <= 0x10000
}

impl Options {
    pub open spec fn height(self) -> Rat {
        match self.scaling {
            ScalingMode::FixedHeight(h) => h,
        }
    }

    pub open spec fn wf(self) -> bool {
        &&& 1 <= self.cell_size <= MAX_CELL_SIZE
        &&& iso_wf(self.iso)
        &&& param_wf(self.normal_uv_offset)
        &&& param_wf(self.thickness)
        &&& param_wf(self.height())
    }

    /// The defaults: cells of ten pixels, threshold one half, a two pixel
    /// outward texture nudge, thickness one tenth, unit height, both faces.
    pub fn new_default() -> (r: Options)
        ensures
            r.cell_size == 10,
            r.iso.q() == (Q { num: 1, den: 2 }),
            r.normal_uv_offset.q() == (Q { num: 2, den: 1 }),
            r.thickness.q() == (Q { num: 1, den: 10 }),
            r.scaling matches ScalingMode::FixedHeight(h) && h.q() == (Q { num: 1, den: 1 }),
            r.front_face,
            r.back_face,
            r.wf(),
    {
        Options {
            cell_size: 10,
            iso: Rat { num: 1, den: 2 },
            normal_uv_offset: Rat { num: 2, den: 1 },
            thickness: Rat { num: 1, den: 10 },
            scaling: ScalingMode::FixedHeight(Rat { num: 1, den: 1 }),
            front_face: true,
            back_face: true,
        }
    }
}

impl Default for Options {
    /// The documented default configuration.
    fn default() -> (r: Options)
        ensures
            r.cell_size == 10,
            r.iso.q() == (Q { num: 1, den: 2 }),
            r.normal_uv_offset.q() == (Q { num: 2, den: 1 }),
            r.thickness.q() == (Q { num: 1, den: 10 }),
            r.scaling matches ScalingMode::FixedHeight(h) && h.q() == (Q { num: 1, den: 1 }),
            r.front_face,
            r.back_face,
            r.wf(),
    {
        Options::new_default()
    }
}

/// The difference `b - a` of two coordinates whose integer parts are at most
/// one cell apart, computed without large intermediates.
pub open spec fn spec_coord_sub(b: Coord, a: Coord) -> Rat {
    Rat {
        num: ((b.base - a.base) * (b.frac.den * a.frac.den) + (b.frac.num * a.frac.den
            - a.frac.num * b.frac.den)) as i128,
        den: (b.frac.den * a.frac.den) as i128,
    }
}

/// Negation of an exact rational.
pub open spec fn spec_rat_neg(r: Rat) -> Rat {
    Rat { num: (-r.num) as i128, den: r.den }
}

/// The outward direction of the silhouette edge from `a` to `b`: the edge
/// direction rotated a quarter turn counterclockwise, unnormalized.
pub open spec fn spec_edge_normal(a: MarchVertex, b: MarchVertex) -> Vec2r {
    Vec2r { x: spec_rat_neg(spec_coord_sub(b.y, a.y)), y: spec_coord_sub(b.x, a.x) }
}

/// Both end points carry a density exactly equal to the threshold.
pub open spec fn is_silhouette_pair(a: MarchVertex, b: MarchVertex, iso: Rat) -> bool {
    qeq(a.value.q(), iso.q()) && qeq(b.value.q(), iso.q())
}

/// Records the edge normal for both end points of one silhouette edge.
pub open spec fn spec_record_pair(
    m: Map<u64, Vec2r>,
    a: MarchVertex,
    b: MarchVertex,
    iso: Rat,
) -> Map<u64, Vec2r> {
    if is_silhouette_pair(a, b, iso) {
        let n = spec_edge_normal(a, b);
        m.insert(a.key, n).insert(b.key, n)
    } else {
        m
    }
}

/// Records the silhouette normals of one face: the three cyclic vertex pairs
/// in order.
pub open spec fn spec_record_face(m: Map<u64, Vec2r>, f: MarchFace, iso: Rat) -> Map<u64, Vec2r> {
    spec_record_pair(
        spec_record_pair(spec_record_pair(m, f[0], f[1], iso), f[1], f[2], iso),
        f[2],
        f[0],
        iso,
    )
}

/// The normal table of the first `i` faces.
pub open spec fn spec_normals_upto(faces: Seq<MarchFace>, iso: Rat, i: int) -> Map<u64, Vec2r>
    decreases i,
{
    if i <= 0 {
        Map::empty()
    } else {
        spec_record_face(spec_normals_upto(faces, iso, i - 1), faces[i - 1], iso)
    }
}

/// The silhouette normal table: a map from vertex key to the outward
/// direction of the last silhouette edge, in encounter order, that touches
/// the vertex.
pub open spec fn spec_normals(faces: Seq<MarchFace>, iso: Rat) -> Map<u64, Vec2r> {
    spec_normals_upto(faces, iso, faces.len() as int)
}

/// The integer parts of the two coordinates are at most one apart (vertices
/// of one face always lie in one grid cell).
pub open spec fn coord_near(a: Coord, b: Coord) -> bool {
    -1 <= b.base - a.base <= 1
}

/// Computes `b - a` for two nearby well-formed coordinates.
fn coord_sub(b: &Coord, a: &Coord) -> (d: Rat)
    requires
        a.wf(),
        b.wf(),
        coord_near(*a, *b),
    ensures
        d == spec_coord_sub(*b, *a),
        d.wf(),
        d.q().abs_le(0x10_0000_0000_0000_0000_0000_0000_0000, 0x4_0000_0000_0000_0000_0000_0000_0000),
{
    proof {
        lemma_coord_sub_bounds(*b, *a);
    }
    let dd = b.frac.den * a.frac.den;
    let fr = b.frac.num * a.frac.den - a.frac.num * b.frac.den;
    Rat { num: (b.base - a.base) as i128 * dd + fr, den: dd }
}

/// The intermediates of `coord_sub` stay far inside `i128` and the result is
/// a well-formed rational.
proof fn lemma_coord_sub_bounds(b: Coord, a: Coord)
    requires
        a.wf(),
        b.wf(),
        coord_near(a, b),
    ensures
        1 <= b.frac.den * a.frac.den <= 0x4_0000_0000_0000_0000_0000_0000_0000,
        -0x4_0000_0000_0000_0000_0000_0000_0000 <= b.frac.num * a.frac.den
            <= 0x4_0000_0000_0000_0000_0000_0000_0000,
        -0x4_0000_0000_0000_0000_0000_0000_0000 <= a.frac.num * b.frac.den
            <= 0x4_0000_0000_0000_0000_0000_0000_0000,
        -0x4_0000_0000_0000_0000_0000_0000_0000 <= (b.base - a.base) * (b.frac.den * a.frac.den)
            <= 0x4_0000_0000_0000_0000_0000_0000_0000,
        -0x10_0000_0000_0000_0000_0000_0000_0000 <= (b.base - a.base) * (b.frac.den * a.frac.den)
            + (b.frac.num * a.frac.den - a.frac.num * b.frac.den)
            <= 0x10_0000_0000_0000_0000_0000_0000_0000,
{
    let m: int = 0x200_0000_0000_0000;
    assert(1 <= b.frac.den * a.frac.den <= m * m) by (nonlinear_arith)
        requires 1 <= b.frac.den <= m, 1 <= a.frac.den <= m;
    assert(-(m * m) <= b.frac.num * a.frac.den <= m * m) by (nonlinear_arith)
        requires 0 <= b.frac.num <= m, 1 <= a.frac.den <= m;
    assert(-(m * m) <= a.frac.num * b.frac.den <= m * m) by (nonlinear_arith)
        requires 0 <= a.frac.num <= m, 1 <= b.frac.den <= m;
    assert(-(m * m) <= (b.base - a.base) * (b.frac.den * a.frac.den) <= m * m)
        by (nonlinear_arith)
        requires -1 <= b.base - a.base <= 1, 1 <= b.frac.den * a.frac.den <= m * m;
}

/// All three vertices of the face lie in one grid cell: their integer parts
/// are pairwise at most one apart.
pub open spec fn face_compact(f: MarchFace) -> bool {
    forall|i: int, j: int|
        0 <= i < 3 && 0 <= j < 3 ==> coord_near(#[trigger] f[i].x, #[trigger] f[j].x)
            && coord_near(f[i].y, f[j].y)
}

/// Tests whether a vertex's density equals the threshold exactly.
fn value_is_iso(v: &MarchVertex, iso: &Rat) -> (r: bool)
    requires
        v.wf(),
        iso_wf(*iso),
    ensures
        r == qeq(v.value.q(), iso.q()),
{
    proof {
        assert(-0x100_0000_0000 <= v.value.num * iso.den <= 0x100_0000_0000) by (nonlinear_arith)
            requires -0x100000 <= v.value.num <= 0x100000, 1 <= iso.den <= 0x10000;
        assert(-0x100_0000_0000 <= iso.num * v.value.den <= 0x100_0000_0000) by (nonlinear_arith)
            requires 0 <= iso.num <= 0x10000, 1 <= v.value.den <= 0x100000;
    }
    v.value.num * iso.den == iso.num * v.value.den
}

/// Records the normal of one face edge if it is a silhouette edge.
fn record_pair(m: &mut HashMap<u64, Vec2r>, a: &MarchVertex, b: &MarchVertex, iso: &Rat)
    requires
        a.wf(),
        b.wf(),
        iso_wf(*iso),
        coord_near(a.x, b.x),
        coord_near(a.y, b.y),
    ensures
        final(m)@ == spec_record_pair(old(m)@, *a, *b, *iso),
{
    if value_is_iso(a, iso) && value_is_iso(b, iso) {
        let dx = coord_sub(&b.x, &a.x);
        let dy = coord_sub(&b.y, &a.y);
        let n = Vec2r { x: Rat { num: -dy.num, den: dy.den }, y: dx };
        m.insert(a.key, n);
        m.insert(b.key, n);
    }
}

/// Builds the silhouette normal table of a face list.
pub fn build_normals(faces: &Vec<MarchFace>, iso: &Rat) -> (m: HashMap<u64, Vec2r>)
    requires
        iso_wf(*iso),
        forall|i: int| 0 <= i < faces@.len() ==> face_wf(#[trigger] faces@[i]),
        forall|i: int| 0 <= i < faces@.len() ==> face_compact(#[trigger] faces@[i]),
    ensures
        m@ == spec_normals(faces@, *iso),
{
    let mut m: HashMap<u64, Vec2r> = HashMap::new();
    let n = faces.len();
    let mut i: usize = 0;
    while i < n
        invariant
            iso_wf(*iso),
            n == faces@.len(),
            i <= n,
            forall|j: int| 0 <= j < faces@.len() ==> face_wf(#[trigger] faces@[j]),
            forall|j: int| 0 <= j < faces@.len() ==> face_compact(#[trigger] faces@[j]),
            m@ == spec_normals_upto(faces@, *iso, i as int),
        decreases n - i,
    {
        let f = &faces[i];
        record_pair(&mut m, &f[0], &f[1], iso);
        record_pair(&mut m, &f[1], &f[2], iso);
        record_pair(&mut m, &f[2], &f[0], iso);
        i += 1;
    }
    m
}


/// The texture coordinate of a contour position along one axis:
/// `(pos + 1/2) * cell_size / dim`.
pub open spec fn spec_uv(pos: Coord, cs: int, dim: int) -> Rat {
    Rat {
        num: ((2 * (pos.base * pos.frac.den + pos.frac.num) + pos.frac.den) * cs) as i128,
        den: (2 * pos.frac.den * dim) as i128,
    }
}

/// The clip-space x position: `(uv * 2 - 1) * (height / 2) * (w / h)`.
pub open spec fn spec_pos_x(uv: Rat, hn: int, hd: int, w: int, h: int) -> Rat {
    Rat { num: ((2 * uv.num - uv.den) * hn * w) as i128, den: (uv.den * 2 * hd * h) as i128 }
}

/// The clip-space y position: `(uv * 2 - 1) * (height / 2)`.
pub open spec fn spec_pos_y(uv: Rat, hn: int, hd: int) -> Rat {
    Rat { num: ((2 * uv.num - uv.den) * hn) as i128, den: (uv.den * 2 * hd) as i128 }
}

/// The z position: `zsign * thickness / 2`.
pub open spec fn spec_pos_z(zsign: int, tn: int, td: int) -> Rat {
    Rat { num: (zsign * tn) as i128, den: (2 * td) as i128 }
}

/// The output vertex for one contour vertex on the front (`zsign == 1`) or
/// back (`zsign == -1`) face, or on a side wall.
pub open spec fn spec_out_vertex(
    v: MarchVertex,
    zsign: int,
    normals: Map<u64, Vec2r>,
    opts: Options,
    w: int,
    h: int,
) -> Vertex {
    let uvx = spec_uv(v.x, opts.cell_size as int, w);
    let uvy = spec_uv(v.y, opts.cell_size as int, h);
    Vertex {
        a_pos: Vec3r {
            x: spec_pos_x(uvx, opts.height().num as int, opts.height().den as int, w, h),
            y: spec_pos_y(uvy, opts.height().num as int, opts.height().den as int),
            z: spec_pos_z(zsign, opts.thickness.num as int, opts.thickness.den as int),
        },
        a_uv: Vec2r { x: uvx, y: uvy },
        a_normal: if normals.contains_key(v.key) {
            NormalDir::Outward(normals[v.key])
        } else {
            NormalDir::PlusZ
        },
    }
}

/// The front-face vertices of the first `i` faces: each face's vertices in
/// order, at `z = +1`.
pub open spec fn spec_front_upto(
    faces: Seq<MarchFace>,
    i: int,
    normals: Map<u64, Vec2r>,
    opts: Options,
    w: int,
    h: int,
) -> Seq<Vertex>
    decreases i,
{
    if i <= 0 {
        seq![]
    } else {
        spec_front_upto(faces, i - 1, normals, opts, w, h) + seq![
            spec_out_vertex(faces[i - 1][0], 1, normals, opts, w, h),
            spec_out_vertex(faces[i - 1][1], 1, normals, opts, w, h),
            spec_out_vertex(faces[i - 1][2], 1, normals, opts, w, h),
        ]
    }
}

/// The back-face vertices of the first `i` faces: each face's vertices in
/// reversed order for opposite winding, at `z = -1`.
pub open spec fn spec_back_upto(
    faces: Seq<MarchFace>,
    i: int,
    normals: Map<u64, Vec2r>,
    opts: Options,
    w: int,
    h: int,
) -> Seq<Vertex>
    decreases i,
{
    if i <= 0 {
        seq![]
    } else {
        spec_back_upto(faces, i - 1, normals, opts, w, h) + seq![
            spec_out_vertex(faces[i - 1][2], -1, normals, opts, w, h),
            spec_out_vertex(faces[i - 1][1], -1, normals, opts, w, h),
            spec_out_vertex(faces[i - 1][0], -1, normals, opts, w, h),
        ]
    }
}

/// The side-wall vertices of one silhouette edge: two triangles connecting
/// the front and back rings, with the winding
/// `(a,+1) (a,-1) (b,-1)  (a,+1) (b,-1) (b,+1)`.
pub open spec fn spec_side_pair(
    a: MarchVertex,
    b: MarchVertex,
    iso: Rat,
    normals: Map<u64, Vec2r>,
    opts: Options,
    w: int,
    h: int,
) -> Seq<Vertex> {
    if is_silhouette_pair(a, b, iso) {
        seq![
            spec_out_vertex(a, 1, normals, opts, w, h),
            spec_out_vertex(a, -1, normals, opts, w, h),
            spec_out_vertex(b, -1, normals, opts, w, h),
            spec_out_vertex(a, 1, normals, opts, w, h),
            spec_out_vertex(b, -1, normals, opts, w, h),
            spec_out_vertex(b, 1, normals, opts, w, h),
        ]
    } else {
        seq![]
    }
}

/// The side-wall vertices of one face: its three cyclic edges in order.
pub open spec fn spec_side_face(
    f: MarchFace,
    iso: Rat,
    normals: Map<u64, Vec2r>,
    opts: Options,
    w: int,
    h: int,
) -> Seq<Vertex> {
    spec_side_pair(f[0], f[1], iso, normals, opts, w, h) + spec_side_pair(
        f[1],
        f[2],
        iso,
        normals,
        opts,
        w,
        h,
    ) + spec_side_pair(f[2], f[0], iso, normals, opts, w, h)
}

/// The side-wall vertices of the first `i` faces.
pub open spec fn spec_side_upto(
    faces: Seq<MarchFace>,
    i: int,
    iso: Rat,
    normals: Map<u64, Vec2r>,
    opts: Options,
    w: int,
    h: int,
) -> Seq<Vertex>
    decreases i,
{
    if i <= 0 {
        seq![]
    } else {
        spec_side_upto(faces, i - 1, iso, normals, opts, w, h) + spec_side_face(
            faces[i - 1],
            iso,
            normals,
            opts,
            w,
            h,
        )
    }
}

/// The assembled mesh of a face list: the front faces if enabled, then the
/// back faces if enabled, then the side walls, each vertex carrying its
/// exact position, texture coordinates and silhouette normal.
pub open spec fn spec_mesh(faces: Seq<MarchFace>, opts: Options, w: int, h: int) -> Seq<Vertex> {
    let normals = spec_normals(faces, opts.iso);
    let n = faces.len() as int;
    let front: Seq<Vertex> = if opts.front_face {
        spec_front_upto(faces, n, normals, opts, w, h)
    } else {
        seq![]
    };
    let back: Seq<Vertex> = if opts.back_face {
        spec_back_upto(faces, n, normals, opts, w, h)
    } else {
        seq![]
    };
    front + back + spec_side_upto(faces, n, opts.iso, normals, opts, w, h)
}

/// The intermediates of one texture coordinate stay inside `i128`.
proof fn lemma_uv_bounds(pos: Coord, cs: int, dim: int)
    requires
        pos.wf(),
        1 <= cs <= MAX_CELL_SIZE,
        1 <= dim <= MAX_IMAGE_DIM,
    ensures
        ({
            let inner = pos.base * pos.frac.den + pos.frac.num;
            &&& -0x8000000000000000000 <= inner <= 0x8000000000000000000
            &&& -0x800000000000000000000 <= (2 * inner + pos.frac.den) * cs <= 0x800000000000000000000
            &&& 1 <= 2 * pos.frac.den * dim <= 0x4000000000000000000
        }),
{
    let inner = pos.base * pos.frac.den + pos.frac.num;
    assert(-0x4000000000000000000 <= pos.base * pos.frac.den <= 0x4000000000000000000) by (nonlinear_arith)
        requires -1 <= pos.base <= 0x10001, 1 <= pos.frac.den <= 0x200000000000000;
    assert(-0x800000000000000000000 <= (2 * inner + pos.frac.den) * cs <= 0x800000000000000000000) by (nonlinear_arith)
        requires
            -0x8000000000000000000 <= inner <= 0x8000000000000000000,
            1 <= pos.frac.den <= 0x200000000000000,
            1 <= cs <= 64,
    ;
    assert(1 <= 2 * pos.frac.den * dim <= 0x4000000000000000000) by (nonlinear_arith)
        requires 1 <= pos.frac.den <= 0x200000000000000, 1 <= dim <= 0x10000;
}

/// Computes the texture coordinate of a contour position along one axis.
fn uv_coord(pos: &Coord, cs: usize, dim: usize) -> (r: Rat)
    requires
        pos.wf(),
        1 <= cs <= MAX_CELL_SIZE,
        1 <= dim <= MAX_IMAGE_DIM,
    ensures
        r == spec_uv(*pos, cs as int, dim as int),
        r.wf(),
        r.q().abs_le(0x800000000000000000000, 0x4000000000000000000),
{
    proof {
        lemma_uv_bounds(*pos, cs as int, dim as int);
    }
    let inner = pos.base as i128 * pos.frac.den + pos.frac.num;
    Rat { num: (2 * inner + pos.frac.den) * cs as i128, den: 2 * pos.frac.den * dim as i128 }
}

/// The intermediates of the position scaling stay inside `i128`.
proof fn lemma_pos_bounds(uv: Rat, hn: int, hd: int, w: int, h: int)
    requires
        uv.q().abs_le(0x800000000000000000000, 0x4000000000000000000),
        0 <= hn <= 0x10000,
        1 <= hd <= 0x10000,
        1 <= w <= MAX_IMAGE_DIM,
        1 <= h <= MAX_IMAGE_DIM,
    ensures
        ({
            let sn = 2 * uv.num - uv.den;
            &&& -0x2000000000000000000000 <= sn <= 0x2000000000000000000000
            &&& -0x20000000000000000000000000 <= sn * hn <= 0x20000000000000000000000000
            &&& -0x200000000000000000000000000000 <= sn * hn * w <= 0x200000000000000000000000000000
            &&& 1 <= uv.den * 2 * hd <= 0x80000000000000000000000
            &&& 1 <= uv.den * 2 * hd * h <= 0x800000000000000000000000000
        }),
{
    let sn: int = 2 * uv.num - uv.den;
    assert(-0x20000000000000000000000000 <= sn * hn <= 0x20000000000000000000000000) by (nonlinear_arith)
        requires -0x2000000000000000000000 <= sn <= 0x2000000000000000000000, 0 <= hn <= 0x10000;
    assert(-0x200000000000000000000000000000 <= sn * hn * w <= 0x200000000000000000000000000000) by (nonlinear_arith)
        requires -0x20000000000000000000000000 <= sn * hn <= 0x20000000000000000000000000, 1 <= w <= 0x10000;
    assert(1 <= uv.den * 2 * hd <= 0x80000000000000000000000) by (nonlinear_arith)
        requires 1 <= uv.den <= 0x4000000000000000000, 1 <= hd <= 0x10000;
    assert(1 <= uv.den * 2 * hd * h <= 0x800000000000000000000000000) by (nonlinear_arith)
        requires 1 <= uv.den * 2 * hd <= 0x80000000000000000000000, 1 <= h <= 0x10000;
}

/// Emits one output vertex.
fn emit_vertex(
    out: &mut Vec<Vertex>,
    v: &MarchVertex,
    zpos: bool,
    normals: &HashMap<u64, Vec2r>,
    opts: &Options,
    w: usize,
    h: usize,
)
    requires
        v.wf(),
        opts.wf(),
        1 <= w <= MAX_IMAGE_DIM,
        1 <= h <= MAX_IMAGE_DIM,
    ensures
        final(out)@ == old(out)@.push(
            spec_out_vertex(
                *v,
                if zpos { 1int } else { -1int },
                normals@,
                *opts,
                w as int,
                h as int,
            ),
        ),
{
    let uvx = uv_coord(&v.x, opts.cell_size, w);
    let uvy = uv_coord(&v.y, opts.cell_size, h);
    let hgt = match opts.scaling {
        ScalingMode::FixedHeight(hgt) => hgt,
    };
    proof {
        lemma_pos_bounds(uvx, hgt.num as int, hgt.den as int, w as int, h as int);
        lemma_pos_bounds(uvy, hgt.num as int, hgt.den as int, w as int, h as int);
    }
    let px = Rat {
        num: (2 * uvx.num - uvx.den) * hgt.num * w as i128,
        den: uvx.den * 2 * hgt.den * h as i128,
    };
    let py = Rat { num: (2 * uvy.num - uvy.den) * hgt.num, den: uvy.den * 2 * hgt.den };
    let zsign: i128 = if zpos { 1 } else { -1 };
    let pz = Rat { num: zsign * opts.thickness.num, den: 2 * opts.thickness.den };
    let a_normal = match normals.get(&v.key) {
        Some(n) => NormalDir::Outward(*n),
        None => NormalDir::PlusZ,
    };
    out.push(
        Vertex {
            a_pos: Vec3r { x: px, y: py, z: pz },
            a_uv: Vec2r { x: uvx, y: uvy },
            a_normal,
        },
    );
}


/// Generates the thick-sprite mesh of an image: rasterizes the alpha channel
/// into the density field, extracts the contour at the configured threshold,
/// resolves silhouette normals, and assembles front, back and side-wall
/// vertices with exact texture coordinates, extrusion and scaling.
///
/// An empty image or a zero cell size is rejected before any processing. Any
/// density grid that matches the image at the configured cell size describes
/// the result exactly; `DensityGrid::build` produces such a grid.
pub fn generate_mesh(img: &Image, options: &Options) -> (r: Result<Vec<Vertex>, SpriteError>)
    requires
        img.wf(),
        img.width <= MAX_IMAGE_DIM,
        img.height <= MAX_IMAGE_DIM,
        options.cell_size <= MAX_CELL_SIZE,
        iso_wf(options.iso),
        param_wf(options.normal_uv_offset),
        param_wf(options.thickness),
        param_wf(options.height()),
    ensures
        (img.width == 0 || img.height == 0 || options.cell_size == 0) <==> r == Result::<
            Vec<Vertex>,
            SpriteError,
        >::Err(SpriteError::InvalidConfig),
        r matches Err(e) ==> e == SpriteError::InvalidConfig,
        r matches Ok(m) ==> exists|g: DensityGrid|
            {
                &&& #[trigger] g.wf_for(*img, options.cell_size as int)
                &&& m@ == spec_mesh(
                    spec_marching(g, options.iso),
                    *options,
                    img.width as int,
                    img.height as int,
                )
            },
{
    let grid = match DensityGrid::build(img, options.cell_size) {
        Ok(g) => g,
        Err(e) => {
            return Err(e);
        },
    };
    let faces = marching_triangles(&grid, &options.iso);
    let normals = build_normals(&faces, &options.iso);
    let w = img.width;
    let h = img.height;
    let ghost fs = faces@;
    let ghost nm = normals@;
    let n = faces.len();
    let mut out: Vec<Vertex> = Vec::new();
    if options.front_face {
        let mut i: usize = 0;
        while i < n
            invariant
                n == fs.len(),
                i <= n,
                faces@ == fs,
                normals@ == nm,
                options.wf(),
                1 <= w <= MAX_IMAGE_DIM,
                1 <= h <= MAX_IMAGE_DIM,
                forall|j: int| 0 <= j < fs.len() ==> face_wf(#[trigger] fs[j]),
                out@ == spec_front_upto(fs, i as int, nm, *options, w as int, h as int),
            decreases n - i,
        {
            let f = &faces[i];
            emit_vertex(&mut out, &f[0], true, &normals, options, w, h);
            emit_vertex(&mut out, &f[1], true, &normals, options, w, h);
            emit_vertex(&mut out, &f[2], true, &normals, options, w, h);
            proof {
                assert(out@ =~= spec_front_upto(fs, i + 1, nm, *options, w as int, h as int));
            }
            i += 1;
        }
    }
    let ghost front_part = out@;
    if options.back_face {
        let mut i: usize = 0;
        proof {
            assert(out@ =~= front_part + spec_back_upto(fs, 0, nm, *options, w as int, h as int));
        }
        while i < n
            invariant
                n == fs.len(),
                i <= n,
                faces@ == fs,
                normals@ == nm,
                options.wf(),
                1 <= w <= MAX_IMAGE_DIM,
                1 <= h <= MAX_IMAGE_DIM,
                forall|j: int| 0 <= j < fs.len() ==> face_wf(#[trigger] fs[j]),
                out@ == front_part + spec_back_upto(fs, i as int, nm, *options, w as int, h as int),
            decreases n - i,
        {
            let f = &faces[i];
            emit_vertex(&mut out, &f[2], false, &normals, options, w, h);
            emit_vertex(&mut out, &f[1], false, &normals, options, w, h);
            emit_vertex(&mut out, &f[0], false, &normals, options, w, h);
            proof {
                assert(out@ =~= front_part + spec_back_upto(
                    fs,
                    i + 1,
                    nm,
                    *options,
                    w as int,
                    h as int,
                ));
            }
            i += 1;
        }
    }
    let ghost fb_part = out@;
    let mut i: usize = 0;
    proof {
        assert(out@ =~= fb_part + spec_side_upto(fs, 0, options.iso, nm, *options, w as int, h as int));
    }
    while i < n
        invariant
            n == fs.len(),
            i <= n,
            faces@ == fs,
            normals@ == nm,
            options.wf(),
            1 <= w <= MAX_IMAGE_DIM,
            1 <= h <= MAX_IMAGE_DIM,
            forall|j: int| 0 <= j < fs.len() ==> face_wf(#[trigger] fs[j]),
            out@ == fb_part + spec_side_upto(fs, i as int, options.iso, nm, *options, w as int, h as int),
        decreases n - i,
    {
        let f = &faces[i];
        emit_side_pair(&mut out, &f[0], &f[1], &normals, options, w, h);
        emit_side_pair(&mut out, &f[1], &f[2], &normals, options, w, h);
        emit_side_pair(&mut out, &f[2], &f[0], &normals, options, w, h);
        proof {
            assert(out@ =~= fb_part + spec_side_upto(
                fs,
                i + 1,
                options.iso,
                nm,
                *options,
                w as int,
                h as int,
            ));
        }
        i += 1;
    }
    proof {
        assert(out@ =~= spec_mesh(fs, *options, w as int, h as int));
    }
    Ok(out)
}

/// Emits the six side-wall vertices of one face edge if it lies on the
/// silhouette.
fn emit_side_pair(
    out: &mut Vec<Vertex>,
    a: &MarchVertex,
    b: &MarchVertex,
    normals: &HashMap<u64, Vec2r>,
    opts: &Options,
    w: usize,
    h: usize,
)
    requires
        a.wf(),
        b.wf(),
        opts.wf(),
        1 <= w <= MAX_IMAGE_DIM,
        1 <= h <= MAX_IMAGE_DIM,
    ensures
        final(out)@ == old(out)@ + spec_side_pair(
            *a,
            *b,
            opts.iso,
            normals@,
            *opts,
            w as int,
            h as int,
        ),
{
    if value_is_iso(a, &opts.iso) && value_is_iso(b, &opts.iso) {
        emit_vertex(out, a, true, normals, opts, w, h);
        emit_vertex(out, a, false, normals, opts, w, h);
        emit_vertex(out, b, false, normals, opts, w, h);
        emit_vertex(out, a, true, normals, opts, w, h);
        emit_vertex(out, b, false, normals, opts, w, h);
        emit_vertex(out, b, true, normals, opts, w, h);
    }
    proof {
        assert(final(out)@ =~= old(out)@ + spec_side_pair(
            *a,
            *b,
            opts.iso,
            normals@,
            *opts,
            w as int,
            h as int,
        ));
    }
}

} // verus!

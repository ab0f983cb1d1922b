//! The binary asset container.
//!
//! The asset is one byte buffer: a twelve byte header (magic tag, version
//! two, total length), a metadata chunk (JSON text, padded to a four byte
//! boundary with spaces), and a binary chunk (the vertex buffer followed by
//! the encoded image, padded to a four byte boundary with zeros). The
//! metadata describes the buffer: two buffer views (vertices with a stride of
//! twenty bytes, and the image), a position accessor with its exact decimal
//! bounding box, a texture-coordinate accessor, and the image, texture,
//! material, mesh, node and scene records that tie them together.
//!
//! Vertex components arrive as IEEE 754 single-precision bit patterns; the
//! bounding box is computed in the total order of finite floats.
use vstd::prelude::*;
use vstd::string::StringSliceAdditionalSpecFns;

use crate::field::Image;
use crate::numfmt::{f32_finite, spec_f32_dec, spec_udec, f32_dec, u64_dec, f32_exp, f32_exp_field, f32_mantissa, f32_q, f32_sign, lemma_pow2_adds, lemma_pow2_mono, lemma_pow2_pos, pow2};
use crate::spec_align4;
use crate::SpriteError;

verus! {

broadcast use vstd::std_specs::vec::group_vec_axioms;

/// One vertex of the exported buffer: three position components and two
/// texture coordinates, each an IEEE 754 single-precision bit pattern.
#[derive(Clone, Copy, Debug)]
pub struct GlbVertex {
    pub pos_x: u32,
    pub pos_y: u32,
    pub pos_z: u32,
    pub uv_x: u32,
    pub uv_y: u32,
}

impl GlbVertex {
    /// Position component `c`.
    pub open spec fn comp(self, c: int) -> u32 {
        if c == 0 {
            self.pos_x
        } else if c == 1 {
            self.pos_y
        } else {
            self.pos_z
        }
    }

    /// All five components are finite floats.
    pub open spec fn finite(self) -> bool {
        f32_finite(self.pos_x) && f32_finite(self.pos_y) && f32_finite(self.pos_z) && f32_finite(
            self.uv_x,
        ) && f32_finite(self.uv_y)
    }
}

pub open spec fn vertices_finite(vs: Seq<GlbVertex>) -> bool {
    forall|i: int| 0 <= i < vs.len() ==> (#[trigger] vs[i]).finite()
}

/// The order key of a single-precision bit pattern: an unsigned value whose
/// order agrees with the order of the finite floats (negative zero comes
/// directly before positive zero).
pub open spec fn f32_key(b: u32) -> u32 {
    if b >= 0x8000_0000 {
        !b
    } else {
        (b + 0x8000_0000) as u32
    }
}

/// Order of two bit patterns as floats.
pub open spec fn f32_le_bits(a: u32, b: u32) -> bool {
    f32_key(a) <= f32_key(b)
}

/// The smallest position component `c` of the first `i` vertices, starting
/// from the bit pattern of the largest finite float.
pub open spec fn spec_min_upto(vs: Seq<GlbVertex>, i: int, c: int) -> u32
    decreases i,
{
    if i <= 0 {
        0x7f7f_ffffu32
    } else {
        let prev = spec_min_upto(vs, i - 1, c);
        let x = vs[i - 1].comp(c);
        if f32_key(x) < f32_key(prev) {
            x
        } else {
            prev
        }
    }
}

/// The largest position component `c` of the first `i` vertices, starting
/// from the bit pattern of the smallest finite float.
pub open spec fn spec_max_upto(vs: Seq<GlbVertex>, i: int, c: int) -> u32
    decreases i,
{
    if i <= 0 {
        0xff7f_ffffu32
    } else {
        let prev = spec_max_upto(vs, i - 1, c);
        let x = vs[i - 1].comp(c);
        if f32_key(x) > f32_key(prev) {
            x
        } else {
            prev
        }
    }
}

/// The bounding box bounds every vertex position, in float order.
pub proof fn lemma_bounds_bound(vs: Seq<GlbVertex>, i: int, j: int, c: int)
    requires
        0 <= j < i <= vs.len(),
    ensures
        f32_le_bits(spec_min_upto(vs, i, c), vs[j].comp(c)),
        f32_le_bits(vs[j].comp(c), spec_max_upto(vs, i, c)),
    decreases i,
{
    if j < i - 1 {
        lemma_bounds_bound(vs, i - 1, j, c);
    }
}

/// The bounding box is attained: each bound is either the neutral start
/// value or one of the vertex components.
pub proof fn lemma_bounds_attained(vs: Seq<GlbVertex>, i: int, c: int)
    requires
        0 <= i <= vs.len(),
    ensures
        spec_min_upto(vs, i, c) == 0x7f7f_ffffu32 || exists|j: int|
            0 <= j < i && vs[j].comp(c) == spec_min_upto(vs, i, c),
        spec_max_upto(vs, i, c) == 0xff7f_ffffu32 || exists|j: int|
            0 <= j < i && vs[j].comp(c) == spec_max_upto(vs, i, c),
    decreases i,
{
    if i > 0 {
        lemma_bounds_attained(vs, i - 1, c);
    }
}

/// Computes the order key of a bit pattern.
fn key_of(b: u32) -> (k: u32)
    ensures
        k == f32_key(b),
{
    if b >= 0x8000_0000 {
        !b
    } else {
        b + 0x8000_0000
    }
}

/// Computes the exact bounding box of the vertex positions: the smallest and
/// largest bit pattern of each component, in the total order of the floats.
/// An empty list yields the neutral bounds (largest and smallest finite
/// float).
pub fn bounding_coords(points: &Vec<GlbVertex>) -> (r: ((u32, u32, u32), (u32, u32, u32)))
    ensures
        r.0.0 == spec_min_upto(points@, points@.len() as int, 0),
        r.0.1 == spec_min_upto(points@, points@.len() as int, 1),
        r.0.2 == spec_min_upto(points@, points@.len() as int, 2),
        r.1.0 == spec_max_upto(points@, points@.len() as int, 0),
        r.1.1 == spec_max_upto(points@, points@.len() as int, 1),
        r.1.2 == spec_max_upto(points@, points@.len() as int, 2),
{
    let mut mn = (0x7f7f_ffffu32, 0x7f7f_ffffu32, 0x7f7f_ffffu32);
    let mut mx = (0xff7f_ffffu32, 0xff7f_ffffu32, 0xff7f_ffffu32);
    let n = points.len();
    let mut i: usize = 0;
    while i < n
        invariant
            n == points@.len(),
            i <= n,
            mn.0 == spec_min_upto(points@, i as int, 0),
            mn.1 == spec_min_upto(points@, i as int, 1),
            mn.2 == spec_min_upto(points@, i as int, 2),
            mx.0 == spec_max_upto(points@, i as int, 0),
            mx.1 == spec_max_upto(points@, i as int, 1),
            mx.2 == spec_max_upto(points@, i as int, 2),
        decreases n - i,
    {
        let p = points[i];
        if key_of(p.pos_x) < key_of(mn.0) {
            mn.0 = p.pos_x;
        }
        if key_of(p.pos_y) < key_of(mn.1) {
            mn.1 = p.pos_y;
        }
        if key_of(p.pos_z) < key_of(mn.2) {
            mn.2 = p.pos_z;
        }
        if key_of(p.pos_x) > key_of(mx.0) {
            mx.0 = p.pos_x;
        }
        if key_of(p.pos_y) > key_of(mx.1) {
            mx.1 = p.pos_y;
        }
        if key_of(p.pos_z) > key_of(mx.2) {
            mx.2 = p.pos_z;
        }
        i += 1;
    }
    (mn, mx)
}

/// The four bytes of a 32-bit value, little endian.
pub open spec fn le32(x: u32) -> Seq<u8> {
    seq![
        (x & 0xff) as u8,
        ((x >> 8) & 0xff) as u8,
        ((x >> 16) & 0xff) as u8,
        ((x >> 24) & 0xff) as u8,
    ]
}

/// The twenty bytes of one vertex: position then texture coordinates, each
/// component little endian.
pub open spec fn spec_vertex_bytes(v: GlbVertex) -> Seq<u8> {
    le32(v.pos_x) + le32(v.pos_y) + le32(v.pos_z) + le32(v.uv_x) + le32(v.uv_y)
}

/// The vertex buffer bytes of the first `i` vertices.
pub open spec fn spec_vbytes_upto(vs: Seq<GlbVertex>, i: int) -> Seq<u8>
    decreases i,
{
    if i <= 0 {
        seq![]
    } else {
        spec_vbytes_upto(vs, i - 1) + spec_vertex_bytes(vs[i - 1])
    }
}

pub proof fn lemma_vbytes_len(vs: Seq<GlbVertex>, i: int)
    requires
        0 <= i,
    ensures
        spec_vbytes_upto(vs, i).len() == 20 * i,
    decreases i,
{
    if i > 0 {
        lemma_vbytes_len(vs, i - 1);
    }
}

/// Padding with a filler byte up to the next multiple of four.
pub open spec fn pad4(s: Seq<u8>, filler: u8) -> Seq<u8> {
    s + Seq::new((spec_align4(s.len() as int) - s.len()) as nat, |i: int| filler)
}

/// The metadata text. The numbers: the vertex count, the two buffer view
/// lengths and the image view's offset as decimal integers, and the exact
/// decimal expansion of the six bounding-box components.
pub open spec fn spec_json(
    n: nat,
    vb: nat,
    ib: nat,
    mn: (u32, u32, u32),
    mx: (u32, u32, u32),
) -> Seq<u8> {
    "{\"accessors\":[{\"bufferView\":0,\"byteOffset\":0,\"componentType\":5126,\"count\":".spec_bytes()
        + spec_udec(n) + ",\"type\":\"VEC3\",\"min\":[".spec_bytes() + spec_f32_dec(mn.0)
        + ",".spec_bytes() + spec_f32_dec(mn.1) + ",".spec_bytes() + spec_f32_dec(mn.2)
        + "],\"max\":[".spec_bytes() + spec_f32_dec(mx.0) + ",".spec_bytes() + spec_f32_dec(mx.1)
        + ",".spec_bytes() + spec_f32_dec(mx.2)
        + "]},{\"bufferView\":0,\"byteOffset\":12,\"componentType\":5126,\"count\":".spec_bytes()
        + spec_udec(n)
        + ",\"type\":\"VEC2\"}],\"asset\":{\"version\":\"2.0\"},\"buffers\":[{\"byteLength\":".spec_bytes()
        + spec_udec((vb + ib) as nat)
        + "}],\"bufferViews\":[{\"buffer\":0,\"byteLength\":".spec_bytes() + spec_udec(vb)
        + ",\"byteOffset\":0,\"byteStride\":20,\"target\":34962},{\"buffer\":0,\"byteLength\":".spec_bytes()
        + spec_udec(ib) + ",\"byteOffset\":".spec_bytes() + spec_udec(vb)
        + "}],\"images\":[{\"bufferView\":1,\"mimeType\":\"image/png\"}],\"materials\":[{\"doubleSided\":false,\"pbrMetallicRoughness\":{\"baseColorTexture\":{\"index\":0}}}],\"meshes\":[{\"primitives\":[{\"attributes\":{\"POSITION\":0,\"TEXCOORD_0\":1},\"material\":0,\"mode\":4}]}],\"nodes\":[{\"mesh\":0}],\"scenes\":[{\"nodes\":[0]}],\"textures\":[{\"source\":0}]}".spec_bytes()
}

/// The metadata text of a vertex list and an image of the given length.
pub open spec fn spec_glb_json(vs: Seq<GlbVertex>, ib: nat) -> Seq<u8> {
    spec_json(
        vs.len(),
        (20 * vs.len()) as nat,
        ib,
        (
            spec_min_upto(vs, vs.len() as int, 0),
            spec_min_upto(vs, vs.len() as int, 1),
            spec_min_upto(vs, vs.len() as int, 2),
        ),
        (
            spec_max_upto(vs, vs.len() as int, 0),
            spec_max_upto(vs, vs.len() as int, 1),
            spec_max_upto(vs, vs.len() as int, 2),
        ),
    )
}

/// The declared total length of the container: header, chunk headers, padded
/// metadata and padded binary data.
pub open spec fn spec_glb_total(vs: Seq<GlbVertex>, img: Seq<u8>) -> int {
    28 + spec_align4(spec_glb_json(vs, img.len() as nat).len() as int) + spec_align4(
        20 * vs.len() + img.len() as int,
    )
}

/// The whole container: magic, version two, total length, the JSON chunk
/// (length, tag, space-padded text), the binary chunk (length, tag,
/// zero-padded vertex buffer and image bytes).
pub open spec fn glb_frame(json: Seq<u8>, vbytes: Seq<u8>, img: Seq<u8>, total: int) -> Seq<u8> {
    let jl = json.len() as int;
    let bl = vbytes.len() + img.len() as int;
    seq![0x67u8, 0x6cu8, 0x54u8, 0x46u8] + le32(2) + le32(total as u32) + le32(
        spec_align4(jl) as u32,
    ) + seq![0x4au8, 0x53u8, 0x4fu8, 0x4eu8] + json + Seq::new(
        (spec_align4(jl) - jl) as nat,
        |i: int| 0x20u8,
    ) + le32(spec_align4(bl) as u32) + seq![0x42u8, 0x49u8, 0x4eu8, 0x00u8] + vbytes + img
        + Seq::new((spec_align4(bl) - bl) as nat, |i: int| 0u8)
}

pub open spec fn spec_glb(vs: Seq<GlbVertex>, img: Seq<u8>) -> Seq<u8> {
    glb_frame(
        spec_glb_json(vs, img.len() as nat),
        spec_vbytes_upto(vs, vs.len() as int),
        img,
        spec_glb_total(vs, img),
    )
}

/// Rounding up to a multiple of four lands on a multiple of four, at most
/// three bytes later.
pub proof fn lemma_align4_props(n: int)
    requires
        n >= 0,
    ensures
        n <= spec_align4(n) < n + 4,
        spec_align4(n) % 4 == 0,
{
}


/// Appends a string literal's bytes.
fn push_lit(out: &mut Vec<u8>, s: &str)
    ensures
        final(out)@ == old(out)@ + s.spec_bytes(),
{
    let b = s.as_bytes();
    out.extend_from_slice(b);
}

/// Appends an unsigned decimal numeral.
fn push_u64(out: &mut Vec<u8>, n: u64)
    ensures
        final(out)@ == old(out)@ + spec_udec(n as nat),
{
    let d = u64_dec(n);
    out.extend_from_slice(d.as_slice());
}

/// Appends the exact decimal of a finite float bit pattern.
fn push_f32(out: &mut Vec<u8>, bits: u32)
    requires
        f32_finite(bits),
    ensures
        final(out)@ == old(out)@ + spec_f32_dec(bits),
{
    let d = f32_dec(bits);
    out.extend_from_slice(d.as_slice());
}

/// Appends four little-endian bytes.
fn push_le32(out: &mut Vec<u8>, x: u32)
    ensures
        final(out)@ == old(out)@ + le32(x),
{
    let ghost base = out@;
    out.push((x & 0xff) as u8);
    out.push(((x >> 8) & 0xff) as u8);
    out.push(((x >> 16) & 0xff) as u8);
    out.push(((x >> 24) & 0xff) as u8);
    proof {
        assert(out@ =~= base + le32(x));
    }
}

/// Builds the metadata text.
fn build_json(n: u64, vb: u64, ib: u64, mn: (u32, u32, u32), mx: (u32, u32, u32)) -> (r: Vec<u8>)
    requires
        f32_finite(mn.0),
        f32_finite(mn.1),
        f32_finite(mn.2),
        f32_finite(mx.0),
        f32_finite(mx.1),
        f32_finite(mx.2),
        vb + ib <= u64::MAX,
    ensures
        r@ == spec_json(n as nat, vb as nat, ib as nat, mn, mx),
{
    let mut out: Vec<u8> = Vec::new();
    push_lit(
        &mut out,
        "{\"accessors\":[{\"bufferView\":0,\"byteOffset\":0,\"componentType\":5126,\"count\":",
    );
    push_u64(&mut out, n);
    push_lit(&mut out, ",\"type\":\"VEC3\",\"min\":[");
    push_f32(&mut out, mn.0);
    push_lit(&mut out, ",");
    push_f32(&mut out, mn.1);
    push_lit(&mut out, ",");
    push_f32(&mut out, mn.2);
    push_lit(&mut out, "],\"max\":[");
    push_f32(&mut out, mx.0);
    push_lit(&mut out, ",");
    push_f32(&mut out, mx.1);
    push_lit(&mut out, ",");
    push_f32(&mut out, mx.2);
    push_lit(
        &mut out,
        "]},{\"bufferView\":0,\"byteOffset\":12,\"componentType\":5126,\"count\":",
    );
    push_u64(&mut out, n);
    push_lit(
        &mut out,
        ",\"type\":\"VEC2\"}],\"asset\":{\"version\":\"2.0\"},\"buffers\":[{\"byteLength\":",
    );
    push_u64(&mut out, vb + ib);
    push_lit(&mut out, "}],\"bufferViews\":[{\"buffer\":0,\"byteLength\":");
    push_u64(&mut out, vb);
    push_lit(
        &mut out,
        ",\"byteOffset\":0,\"byteStride\":20,\"target\":34962},{\"buffer\":0,\"byteLength\":",
    );
    push_u64(&mut out, ib);
    push_lit(&mut out, ",\"byteOffset\":");
    push_u64(&mut out, vb);
    push_lit(
        &mut out,
        "}],\"images\":[{\"bufferView\":1,\"mimeType\":\"image/png\"}],\"materials\":[{\"doubleSided\":false,\"pbrMetallicRoughness\":{\"baseColorTexture\":{\"index\":0}}}],\"meshes\":[{\"primitives\":[{\"attributes\":{\"POSITION\":0,\"TEXCOORD_0\":1},\"material\":0,\"mode\":4}]}],\"nodes\":[{\"mesh\":0}],\"scenes\":[{\"nodes\":[0]}],\"textures\":[{\"source\":0}]}",
    );
    proof {
        assert(out@ =~= spec_json(n as nat, vb as nat, ib as nat, mn, mx));
    }
    out
}

/// Appends the twenty bytes of every vertex.
fn push_vertices(out: &mut Vec<u8>, vs: &Vec<GlbVertex>)
    ensures
        final(out)@ == old(out)@ + spec_vbytes_upto(vs@, vs@.len() as int),
{
    let ghost base = out@;
    let n = vs.len();
    let mut i: usize = 0;
    proof {
        assert(out@ =~= base + spec_vbytes_upto(vs@, 0));
    }
    while i < n
        invariant
            n == vs@.len(),
            i <= n,
            out@ == base + spec_vbytes_upto(vs@, i as int),
        decreases n - i,
    {
        let v = vs[i];
        push_le32(out, v.pos_x);
        push_le32(out, v.pos_y);
        push_le32(out, v.pos_z);
        push_le32(out, v.uv_x);
        push_le32(out, v.uv_y);
        proof {
            assert(out@ =~= base + spec_vbytes_upto(vs@, i + 1));
        }
        i += 1;
    }
}

/// Appends four bytes.
fn push4(out: &mut Vec<u8>, a: u8, b: u8, c: u8, d: u8)
    ensures
        final(out)@ == old(out)@ + seq![a, b, c, d],
{
    let ghost base = out@;
    out.push(a);
    out.push(b);
    out.push(c);
    out.push(d);
    proof {
        assert(out@ =~= base + seq![a, b, c, d]);
    }
}

/// Appends `count` copies of a filler byte.
fn push_fill(out: &mut Vec<u8>, count: usize, filler: u8)
    ensures
        final(out)@ == old(out)@ + Seq::new(count as nat, |i: int| filler),
{
    let ghost base = out@;
    let mut i: usize = 0;
    proof {
        assert(out@ =~= base + Seq::new(0, |i: int| filler));
    }
    while i < count
        invariant
            i <= count,
            out@ == base + Seq::new(i as nat, |j: int| filler),
        decreases count - i,
    {
        out.push(filler);
        proof {
            assert(out@ =~= base + Seq::new((i + 1) as nat, |j: int| filler));
        }
        i += 1;
    }
}

/// Packs an already-encoded image and the vertex buffer into the binary
/// container. Fails exactly when the container's declared length would not
/// fit in 32 bits; it is never silently truncated.
#[verifier::rlimit(100)]
pub fn save_with_image(vertices: &Vec<GlbVertex>, image_bytes: &Vec<u8>) -> (r: Result<
    Vec<u8>,
    SpriteError,
>)
    requires
        vertices_finite(vertices@),
        vertices@.len() <= 0x1000_0000,
        image_bytes@.len() <= 0x8000_0000,
    ensures
        r matches Ok(b) ==> b@ == spec_glb(vertices@, image_bytes@) && spec_glb_total(
            vertices@,
            image_bytes@,
        ) <= u32::MAX,
        r matches Err(e) ==> e == SpriteError::AssetTooLarge && spec_glb_total(
            vertices@,
            image_bytes@,
        ) > u32::MAX,
{
    let (mn, mx) = bounding_coords(vertices);
    proof {
        if vertices@.len() > 0 {
            lemma_bounds_attained(vertices@, vertices@.len() as int, 0);
            lemma_bounds_attained(vertices@, vertices@.len() as int, 1);
            lemma_bounds_attained(vertices@, vertices@.len() as int, 2);
        }
        assert((0x7f7f_ffffu32 >> 23) & 0xff == 0xfe) by (bit_vector);
        assert((0xff7f_ffffu32 >> 23) & 0xff == 0xfe) by (bit_vector);
    }
    let n = vertices.len();
    let vb: u64 = (n as u64) * 20;
    let ib: u64 = image_bytes.len() as u64;
    let json = build_json(n as u64, vb, ib, mn, mx);
    proof {
        assert(json.len() == json@.len());
        assert(image_bytes.len() == image_bytes@.len());
    }
    let jl: u128 = json.len() as u128;
    let jpad: u128 = (4 - jl % 4) % 4;
    let jp: u128 = jl + jpad;
    let bl: u128 = (vb as u128) + (ib as u128);
    let bpad: u128 = (4 - bl % 4) % 4;
    let bp: u128 = bl + bpad;
    let total: u128 = 28 + jp + bp;
    proof {
        assert(jp == spec_align4(jl as int) && bp == spec_align4(bl as int));
        lemma_vbytes_len(vertices@, vertices@.len() as int);
        assert(spec_glb_total(vertices@, image_bytes@) == total);
    }
    if total > 0xffff_ffff {
        return Err(SpriteError::AssetTooLarge);
    }
    proof {
        assert(json@ == spec_glb_json(vertices@, image_bytes@.len() as nat));
    }
    let mut out: Vec<u8> = Vec::new();
    push4(&mut out, 0x67, 0x6c, 0x54, 0x46);
    push_le32(&mut out, 2);
    push_le32(&mut out, total as u32);
    push_le32(&mut out, jp as u32);
    push4(&mut out, 0x4a, 0x53, 0x4f, 0x4e);
    out.extend_from_slice(json.as_slice());
    push_fill(&mut out, jpad as usize, 0x20);
    push_le32(&mut out, bp as u32);
    push4(&mut out, 0x42, 0x49, 0x4e, 0x00);
    push_vertices(&mut out, vertices);
    out.extend_from_slice(image_bytes.as_slice());
    push_fill(&mut out, bpad as usize, 0);
    proof {
        let jl = spec_glb_json(vertices@, image_bytes@.len() as nat).len() as int;
        let bl = 20 * vertices@.len() + image_bytes@.len() as int;
        assert(Seq::new(jpad as nat, |i: int| 0x20u8) =~= Seq::new(
            (spec_align4(jl) - jl) as nat,
            |i: int| 0x20u8,
        ));
        assert(Seq::new(bpad as nat, |i: int| 0u8) =~= Seq::new(
            (spec_align4(bl) - bl) as nat,
            |i: int| 0u8,
        ));
        assert(out@ == spec_glb(vertices@, image_bytes@));
    }
    Ok(out)
}

/// The bytes that the image encoder produces for an RGBA canvas of the given
/// size. The encoding depends on the pixels and dimensions alone.
pub uninterp spec fn png_of(width: nat, height: nat, rgba: Seq<u8>) -> Seq<u8>;

#[verifier::external_type_specification]
#[verifier::external_body]
pub struct ExImageError(image::ImageError);

/// Relies on image::ImageBuffer: `from_raw` accepts a buffer of exactly
/// `4 * width * height` bytes, and `write_to` encodes it as PNG into the
/// growable in-memory writer. On these inputs the call succeeds: the
/// encoder's only error paths are zero dimensions, a wrong buffer size, an
/// unsupported color type, animation settings, or writer errors, and none of
/// them is reachable for a nonempty RGBA canvas with the exact buffer size
/// written into an in-memory buffer.
#[verifier::external_body]
fn encode_png(width: u32, height: u32, data: &Vec<u8>) -> (r: Result<Vec<u8>, image::ImageError>)
    requires
        data@.len() == 4 * width * height,
        1 <= width,
        1 <= height,
    ensures
        r matches Ok(b) ==> b@ == png_of(width as nat, height as nat, data@),
        r is Ok,
{
    let img: image::RgbaImage = match image::RgbaImage::from_raw(width, height, data.clone()) {
        Some(img) => img,
        None => return Err(image::ImageError::Limits(image::error::LimitError::from_kind(
            image::error::LimitErrorKind::InsufficientMemory,
        ))),
    };
    let mut cursor = std::io::Cursor::new(Vec::new());
    img.write_to(&mut cursor, image::ImageFormat::Png)?;
    Ok(cursor.into_inner())
}

/// Serializes the mesh and the repaired texture into one binary asset:
/// encodes the texture as PNG, then packs it with the vertex buffer. The
/// call succeeds exactly when the encoded image and the declared total
/// length fit the container's limits; an encoder failure would be surfaced
/// as an encoding error, distinct from the container-overflow error, but the
/// encoder's contract rules it out on these inputs.
pub fn save(vertices: &Vec<GlbVertex>, texture: &Image) -> (r: Result<Vec<u8>, SpriteError>)
    requires
        vertices_finite(vertices@),
        vertices@.len() <= 0x1000_0000,
        texture.wf(),
        1 <= texture.width <= crate::field::MAX_IMAGE_DIM,
        1 <= texture.height <= crate::field::MAX_IMAGE_DIM,
    ensures
        r matches Ok(b) ==> {
            let png = png_of(texture.width as nat, texture.height as nat, texture.pixels@);
            &&& png.len() <= 0x8000_0000
            &&& b@ == spec_glb(vertices@, png)
            &&& spec_glb_total(vertices@, png) <= u32::MAX
        },
        ({
            let png = png_of(texture.width as nat, texture.height as nat, texture.pixels@);
            (r is Ok) <==> (png.len() <= 0x8000_0000 && spec_glb_total(vertices@, png)
                <= u32::MAX)
        }),
        r matches Err(e) ==> e == SpriteError::AssetTooLarge,
{
    let png = match encode_png(texture.width as u32, texture.height as u32, &texture.pixels) {
        Ok(b) => b,
        // unreachable under the encoder's contract; kept so a failing encoder
        // would still surface as its own condition
        Err(_) => {
            return Err(SpriteError::Encoding);
        },
    };
    if png.len() > 0x8000_0000 {
        return Err(SpriteError::AssetTooLarge);
    }
    save_with_image(vertices, &png)
}


/// Container framing over arbitrary chunk contents: the total length equals
/// the actual byte length, the declared length field is bytes 8 to 12, and
/// both chunks are multiples of four bytes.
proof fn lemma_frame_shape(json: Seq<u8>, vbytes: Seq<u8>, img: Seq<u8>, total: int)
    requires
        total == 28 + spec_align4(json.len() as int) + spec_align4(vbytes.len() + img.len() as int),
    ensures
        glb_frame(json, vbytes, img, total).len() == total,
        glb_frame(json, vbytes, img, total).subrange(8, 12) =~= le32(total as u32),
        glb_frame(json, vbytes, img, total).len() % 4 == 0,
{
    let jl = json.len() as int;
    let bl = vbytes.len() + img.len() as int;
    lemma_align4_props(jl);
    lemma_align4_props(bl);
    assert(glb_frame(json, vbytes, img, total).len() == total);
}

/// Container framing: the declared length field (bytes 8 to 12 of the
/// container, little endian) equals the container's actual byte length, and
/// both the metadata chunk and the binary chunk are multiples of four bytes,
/// the metadata padded with trailing spaces and the binary data with zeros.
/// The two buffer views the metadata declares — vertices over the first
/// `20 * n` bytes with a stride of twenty, the image over the next
/// `img.len()` bytes — lie inside the binary chunk.
pub proof fn lemma_glb_framing(vs: Seq<GlbVertex>, img: Seq<u8>)
    requires
        spec_glb_total(vs, img) <= u32::MAX,
    ensures
        spec_glb(vs, img).len() == spec_glb_total(vs, img),
        spec_glb(vs, img).subrange(8, 12) =~= le32(spec_glb_total(vs, img) as u32),
        pad4(spec_glb_json(vs, img.len() as nat), 0x20).len() % 4 == 0,
        pad4(spec_vbytes_upto(vs, vs.len() as int) + img, 0).len() % 4 == 0,
        spec_glb(vs, img).len() % 4 == 0,
        20 * vs.len() + img.len() <= pad4(
            spec_vbytes_upto(vs, vs.len() as int) + img,
            0,
        ).len(),
{
    let json = spec_glb_json(vs, img.len() as nat);
    let vbytes = spec_vbytes_upto(vs, vs.len() as int);
    lemma_vbytes_len(vs, vs.len() as int);
    lemma_align4_props(json.len() as int);
    lemma_align4_props(vbytes.len() + img.len() as int);
    lemma_frame_shape(json, vbytes, img, spec_glb_total(vs, img));
}


/// The magnitude of a finite float, scaled to an integer: the value times
/// `2^149` in absolute value.
pub open spec fn mag2(b: u32) -> nat {
    f32_mantissa(b) * pow2((f32_exp(b) + 149) as nat)
}

/// A finite float's value is its scaled magnitude, signed, over `2^149`.
proof fn lemma_q_as_mag(b: u32)
    requires
        f32_finite(b),
    ensures
        f32_q(b).den >= 1,
        f32_q(b).num * pow2(149) as int == (if f32_sign(b) {
            -1int
        } else {
            1int
        }) * mag2(b) * f32_q(b).den,
{
    let s: int = if f32_sign(b) {
        -1
    } else {
        1
    };
    let m = f32_mantissa(b) as int;
    let e = f32_exp(b);
    lemma_pow2_pos(149);
    if e >= 0 {
        lemma_pow2_pos(e as nat);
        lemma_pow2_adds(e as nat, 149);
        assert(s * (f32_mantissa(b) * pow2(e as nat)) as int * pow2(149) as int == s * (
        f32_mantissa(b) * pow2((e + 149) as nat)) as int * 1) by (nonlinear_arith)
            requires
                pow2((e + 149) as nat) == pow2(e as nat) * pow2(149),
        ;
    } else {
        lemma_pow2_pos((-e) as nat);
        lemma_pow2_adds((e + 149) as nat, (-e) as nat);
        assert(s * f32_mantissa(b) as int * pow2(149) as int == s * (f32_mantissa(b) * pow2(
            (e + 149) as nat,
        )) as int * pow2((-e) as nat) as int) by (nonlinear_arith)
            requires
                pow2(149) == pow2((e + 149) as nat) * pow2((-e) as nat),
        ;
    }
}

/// Ordering the scaled signed magnitudes orders the values.
proof fn lemma_mag_le_value(a: u32, b: u32)
    requires
        f32_finite(a),
        f32_finite(b),
        (if f32_sign(a) {
            -1int
        } else {
            1int
        }) * mag2(a) <= (if f32_sign(b) {
            -1int
        } else {
            1int
        }) * mag2(b),
    ensures
        crate::rat::qle(f32_q(a), f32_q(b)),
{
    let sa: int = if f32_sign(a) {
        -1
    } else {
        1
    };
    let sb: int = if f32_sign(b) {
        -1
    } else {
        1
    };
    lemma_q_as_mag(a);
    lemma_q_as_mag(b);
    lemma_pow2_pos(149);
    let p = pow2(149) as int;
    let qa = f32_q(a);
    let qb = f32_q(b);
    assert(qa.num * qb.den <= qb.num * qa.den) by (nonlinear_arith)
        requires
            qa.num * p == sa * mag2(a) * qa.den,
            qb.num * p == sb * mag2(b) * qb.den,
            sa * mag2(a) <= sb * mag2(b),
            qa.den >= 1,
            qb.den >= 1,
            p >= 1,
    ;
}

/// Bit order implies magnitude order for nonnegative finite patterns.
proof fn lemma_mag2_mono(a: u32, b: u32)
    requires
        f32_finite(a),
        f32_finite(b),
        a < 0x8000_0000,
        b < 0x8000_0000,
        a <= b,
    ensures
        mag2(a) <= mag2(b),
{
    let ea = f32_exp_field(a);
    let eb = f32_exp_field(b);
    let ma = a & 0x7fffff;
    let mb = b & 0x7fffff;
    assert(a == ea * 0x800000 + ma && ma < 0x800000 && ea < 0x100) by (bit_vector)
        requires ea == (a >> 23) & 0xff, ma == a & 0x7fffff, a < 0x8000_0000;
    assert(b == eb * 0x800000 + mb && mb < 0x800000 && eb < 0x100) by (bit_vector)
        requires eb == (b >> 23) & 0xff, mb == b & 0x7fffff, b < 0x8000_0000;
    let ka = (f32_exp(a) + 149) as nat;
    let kb = (f32_exp(b) + 149) as nat;
    lemma_pow2_pos(ka);
    lemma_pow2_pos(kb);
    if ea == eb {
        assert(ma <= mb);
        assert(f32_mantissa(a) <= f32_mantissa(b));
        assert(f32_mantissa(a) * pow2(ka) <= f32_mantissa(b) * pow2(kb)) by (nonlinear_arith)
            requires
                f32_mantissa(a) <= f32_mantissa(b),
                ka == kb,
                pow2(ka) >= 1,
        ;
    } else if ea < eb {
        // b is normal; a sits at a lower binade
        assert(eb >= 1);
        if ea == 0 && eb == 1 {
            assert(ka == kb);
            assert(f32_mantissa(a) < 0x800000 && f32_mantissa(b) >= 0x800000);
            assert(f32_mantissa(a) * pow2(ka) <= f32_mantissa(b) * pow2(kb)) by (nonlinear_arith)
                requires
                    f32_mantissa(a) <= f32_mantissa(b),
                    ka == kb,
                    pow2(ka) >= 1,
            ;
        } else {
            // ka + 1 <= kb: one whole binade of room
            assert(ka + 1 <= kb);
            lemma_pow2_adds(ka, 1);
            lemma_pow2_mono(ka + 1, kb);
            assert(f32_mantissa(a) < 0x1000000);
            assert(f32_mantissa(b) >= 0x800000);
            assert(f32_mantissa(a) * pow2(ka) <= 0x1000000 * pow2(ka)) by (nonlinear_arith)
                requires f32_mantissa(a) <= 0x1000000, pow2(ka) >= 1;
            assert(0x1000000 * pow2(ka) == 0x800000 * (pow2(ka) * 2)) by (nonlinear_arith);
            assert(pow2(ka) * pow2(1) == pow2(ka) * 2);
            assert(0x800000 * pow2(ka + 1) <= 0x800000 * pow2(kb)) by (nonlinear_arith)
                requires pow2(ka + 1) <= pow2(kb);
            assert(0x800000 * pow2(kb) <= f32_mantissa(b) * pow2(kb)) by (nonlinear_arith)
                requires f32_mantissa(b) >= 0x800000, pow2(kb) >= 1;
        }
    } else {
        // a's exponent field above b's contradicts the bit order
        assert(ea >= eb + 1);
        assert(a >= ea * 0x800000) by (nonlinear_arith)
            requires a == ea * 0x800000 + ma, ma >= 0;
        assert(ea * 0x800000 >= (eb + 1) * 0x800000) by (nonlinear_arith)
            requires ea >= eb + 1;
        assert(false);
    }
}

/// The bit-level float order implies the exact value order: whenever the
/// order key of `a` is at most the order key of `b`, the rational value of
/// `a` is at most the rational value of `b`.
pub proof fn lemma_le_bits_value(a: u32, b: u32)
    requires
        f32_finite(a),
        f32_finite(b),
        f32_le_bits(a, b),
    ensures
        crate::rat::qle(f32_q(a), f32_q(b)),
{
    lemma_pow2_pos((f32_exp(a) + 149) as nat);
    lemma_pow2_pos((f32_exp(b) + 149) as nat);
    assert((a >> 31 == 1) <==> a >= 0x8000_0000) by (bit_vector);
    assert((b >> 31 == 1) <==> b >= 0x8000_0000) by (bit_vector);
    if !f32_sign(a) && !f32_sign(b) {
        assert(a <= b) by (bit_vector)
            requires
                a < 0x8000_0000,
                b < 0x8000_0000,
                (a + 0x8000_0000) as u32 <= (b + 0x8000_0000) as u32,
        ;
        lemma_mag2_mono(a, b);
        lemma_mag_le_value(a, b);
    } else if f32_sign(a) && f32_sign(b) {
        let a0 = (a - 0x8000_0000) as u32;
        let b0 = (b - 0x8000_0000) as u32;
        assert(b0 <= a0 && a0 < 0x8000_0000 && b0 < 0x8000_0000 && (a0 >> 23) & 0xff == (a >> 23)
            & 0xff && (b0 >> 23) & 0xff == (b >> 23) & 0xff && a0 & 0x7fffff == a & 0x7fffff && b0
            & 0x7fffff == b & 0x7fffff) by (bit_vector)
            requires a >= 0x8000_0000, b >= 0x8000_0000, !a <= !b, a0 == (a - 0x8000_0000) as u32, b0 == (b - 0x8000_0000) as u32;
        assert(f32_mantissa(a0) == f32_mantissa(a) && f32_exp(a0) == f32_exp(a));
        assert(f32_mantissa(b0) == f32_mantissa(b) && f32_exp(b0) == f32_exp(b));
        lemma_mag2_mono(b0, a0);
        assert(mag2(b) <= mag2(a));
        assert(-1int * mag2(a) <= -1int * mag2(b)) by (nonlinear_arith)
            requires mag2(b) <= mag2(a);
        lemma_mag_le_value(a, b);
    } else if f32_sign(a) && !f32_sign(b) {
        assert(-1 * mag2(a) <= 1 * mag2(b)) by (nonlinear_arith)
            requires mag2(a) >= 0, mag2(b) >= 0;
        lemma_mag_le_value(a, b);
    } else {
        assert(false) by (bit_vector)
            requires
                a < 0x8000_0000,
                b >= 0x8000_0000,
                (a + 0x8000_0000) as u32 <= !b,
        ;
    }
}

/// The computed bounding box bounds every vertex position in exact value
/// order, not merely in bit order.
pub proof fn lemma_bounds_bound_value(vs: Seq<GlbVertex>, i: int, j: int, c: int)
    requires
        vertices_finite(vs),
        0 <= c < 3,
        0 <= j < i <= vs.len(),
    ensures
        crate::rat::qle(f32_q(spec_min_upto(vs, i, c)), f32_q(vs[j].comp(c))),
        crate::rat::qle(f32_q(vs[j].comp(c)), f32_q(spec_max_upto(vs, i, c))),
{
    lemma_bounds_bound(vs, i, j, c);
    lemma_bounds_finite(vs, i, c);
    lemma_le_bits_value(spec_min_upto(vs, i, c), vs[j].comp(c));
    lemma_le_bits_value(vs[j].comp(c), spec_max_upto(vs, i, c));
}

/// The folded bounds stay finite when every component is finite.
proof fn lemma_bounds_finite(vs: Seq<GlbVertex>, i: int, c: int)
    requires
        vertices_finite(vs),
        0 <= i <= vs.len(),
        0 <= c < 3,
    ensures
        f32_finite(spec_min_upto(vs, i, c)),
        f32_finite(spec_max_upto(vs, i, c)),
    decreases i,
{
    if i == 0 {
        assert((0x7f7f_ffffu32 >> 23) & 0xff == 0xfe) by (bit_vector);
        assert((0xff7f_ffffu32 >> 23) & 0xff == 0xfe) by (bit_vector);
    } else {
        lemma_bounds_finite(vs, i - 1, c);
    }
}

} // verus!

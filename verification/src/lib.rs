//! Turns a 2-D image with an alpha channel into a "thick" extruded 3-D mesh:
//! a front face, a mirrored back face and connecting side walls along the
//! silhouette, together with a repaired texture and a binary asset container
//! holding both.
//!
//! All geometry is computed in exact rational arithmetic, so every stage of
//! the pipeline is a deterministic function of the image and the options.
pub mod field;
pub mod glb;
pub mod laws;
pub mod march;
pub mod mesh;
pub mod numfmt;
pub mod rat;
pub mod repair;

use vstd::prelude::*;

verus! {

/// The error conditions the pipeline can surface.
#[derive(Clone, Copy, Debug, PartialEq, Eq, Structural)]
pub enum SpriteError {
    /// An empty image or a zero cell size: rejected before any processing.
    InvalidConfig,
    /// The serialized asset exceeds the 32-bit length limit of the container.
    AssetTooLarge,
    /// Re-encoding the repaired texture failed.
    Encoding,
}

/// Rounds `n` up to the next multiple of four.
pub fn align_to_multiple_of_four(n: &mut usize)
    requires
        *old(n) + 3 <= usize::MAX,
    ensures
        *final(n) == spec_align4(*old(n) as int),
{
    *n = (*n + 3) & !3usize;
    proof {
        lemma_align4_mask(*old(n));
    }
}

/// The least multiple of four that is `n` or more.
pub open spec fn spec_align4(n: int) -> int {
    n + (4 - n % 4) % 4
}

proof fn lemma_align4_mask(n: usize)
    requires
        n + 3 <= usize::MAX,
    ensures
        ((n + 3) as usize & !3usize) == spec_align4(n as int),
{
    let m = (n + 3) as usize;
    let a = m & !3usize;
    assert(a % 4 == 0 && a <= m && m <= a + 3) by (bit_vector)
        requires a == m & !3usize;
    let s = spec_align4(n as int);
    assert(s % 4 == 0 && n <= s && s <= n + 3);
    assert(a == s);
}


/// The finished thick sprite: the repaired texture and the extruded mesh.
pub struct ThickSprite {
    pub texture: field::Image,
    pub mesh: Vec<mesh::Vertex>,
}

impl ThickSprite {
    /// Runs the whole pipeline on one image: generates the mesh and repairs
    /// the texture. Rejects an empty image or a zero cell size before any
    /// processing; numeric degeneracies (a fully transparent image) are not
    /// errors and yield an empty mesh. When a blur pre-pass is configured it
    /// belongs to field construction alone: generate the mesh from the
    /// blurred image and repair the texture from the source image, calling
    /// the two stages separately.
    pub fn new(image: &field::Image, options: &mesh::Options) -> (r: Result<
        ThickSprite,
        SpriteError,
    >)
        requires
            image.wf(),
            image.width <= field::MAX_IMAGE_DIM,
            image.height <= field::MAX_IMAGE_DIM,
            options.cell_size <= field::MAX_CELL_SIZE,
            march::iso_wf(options.iso),
            mesh::param_wf(options.normal_uv_offset),
            mesh::param_wf(options.thickness),
            mesh::param_wf(options.height()),
        ensures
            (image.width == 0 || image.height == 0 || options.cell_size == 0) <==> r
                == Result::<ThickSprite, SpriteError>::Err(SpriteError::InvalidConfig),
            r matches Err(e) ==> e == SpriteError::InvalidConfig,
            r matches Ok(s) ==> {
                &&& s.texture.width == image.width
                &&& s.texture.height == image.height
                &&& s.texture.wf()
                &&& s.texture.pixels@ == repair::spec_fix(*image)
                &&& exists|g: field::DensityGrid|
                    {
                        &&& #[trigger] g.wf_for(*image, options.cell_size as int)
                        &&& s.mesh@ == mesh::spec_mesh(
                            march::spec_marching(g, options.iso),
                            *options,
                            image.width as int,
                            image.height as int,
                        )
                    }
            },
    {
        let vertices = match mesh::generate_mesh(image, options) {
            Ok(m) => m,
            Err(e) => {
                return Err(e);
            },
        };
        let texture = repair::fix_texture(image);
        Ok(ThickSprite { texture, mesh: vertices })
    }
}

} // verus!

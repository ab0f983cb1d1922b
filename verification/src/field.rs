//! Scalar field construction: rasterizing an image's alpha channel into a
//! coarse grid of cell densities.
//!
//! The image is partitioned into blocks of `cell_size x cell_size` pixels
//! (blocks at the right and bottom edge may be smaller). The density of a cell
//! is the exact average of `alpha / 255` over the pixels the block actually
//! covers. Sampling outside the grid yields density zero, which gives the
//! contour extractor its ring of empty border cells.
use vstd::prelude::*;

use crate::rat::{Q, Rat};
use crate::SpriteError;

verus! {

broadcast use vstd::std_specs::vec::group_vec_axioms;

/// Largest accepted image edge, in pixels.
pub const MAX_IMAGE_DIM: usize = 65536;

/// Largest accepted cell size, in pixels. Together with [`MAX_IMAGE_DIM`]
/// this keeps every exact fraction the pipeline computes inside `i128`.
pub const MAX_CELL_SIZE: usize = 64;

/// An RGBA image held as plain bytes, four per pixel, row major:
/// the pixel at `(x, y)` starts at byte `4 * (y * width + x)`.
pub struct Image {
    pub width: usize,
    pub height: usize,
    pub pixels: Vec<u8>,
}

impl Image {
    pub open spec fn wf(self) -> bool {
        self.pixels@.len() == 4 * self.width * self.height
    }

    /// Byte offset of the pixel at `(x, y)`.
    pub open spec fn spec_offset(self, x: int, y: int) -> int {
        4 * (y * self.width + x)
    }

    /// The alpha component of the pixel at `(x, y)`.
    pub open spec fn alpha_at(self, x: int, y: int) -> int {
        self.pixels@[self.spec_offset(x, y) + 3] as int
    }

    /// The four components of the pixel at `(x, y)`.
    pub open spec fn rgba_at(self, x: int, y: int) -> (u8, u8, u8, u8) {
        (
            self.pixels@[self.spec_offset(x, y)],
            self.pixels@[self.spec_offset(x, y) + 1],
            self.pixels@[self.spec_offset(x, y) + 2],
            self.pixels@[self.spec_offset(x, y) + 3],
        )
    }

    proof fn lemma_offset_in_bounds(self, x: int, y: int)
        requires
            self.wf(),
            0 <= x < self.width,
            0 <= y < self.height,
        ensures
            0 <= y * self.width,
            0 <= 4 * (y * self.width + x),
            4 * (y * self.width + x) + 3 < self.pixels@.len(),
            self.spec_offset(x, y) == 4 * (y * self.width + x),
    {
        assert(0 <= y * self.width && y * self.width + x >= 0 && y * self.width + x
            < self.width * self.height) by (nonlinear_arith)
            requires
                0 <= x < self.width,
                0 <= y < self.height,
        ;
        assert(4 * (self.width * self.height) == 4 * self.width * self.height)
            by (nonlinear_arith);
    }

    /// Reads the alpha byte of the pixel at `(x, y)`.
    pub fn alpha(&self, x: usize, y: usize) -> (a: u8)
        requires
            self.wf(),
            x < self.width,
            y < self.height,
        ensures
            a as int == self.alpha_at(x as int, y as int),
    {
        proof {
            self.lemma_offset_in_bounds(x as int, y as int);
            assert(self.pixels.len() == self.pixels@.len());
        }
        self.pixels[4 * (y * self.width + x) + 3]
    }

    /// Reads the pixel at `(x, y)`.
    pub fn rgba(&self, x: usize, y: usize) -> (c: (u8, u8, u8, u8))
        requires
            self.wf(),
            x < self.width,
            y < self.height,
        ensures
            c == self.rgba_at(x as int, y as int),
    {
        proof {
            self.lemma_offset_in_bounds(x as int, y as int);
            assert(self.pixels.len() == self.pixels@.len());
        }
        let o = 4 * (y * self.width + x);
        (self.pixels[o], self.pixels[o + 1], self.pixels[o + 2], self.pixels[o + 3])
    }
}

/// Sum of the alpha values of pixels `(px, y)` for `y0 <= y < y1`.
pub open spec fn sum_alpha_col(img: Image, px: int, y0: int, y1: int) -> int
    decreases y1 - y0,
{
    if y0 >= y1 {
        0
    } else {
        img.alpha_at(px, y0) + sum_alpha_col(img, px, y0 + 1, y1)
    }
}

/// Sum of the alpha values of the pixel block `[x0, x1) x [y0, y1)`.
pub open spec fn sum_alpha_block(img: Image, x0: int, x1: int, y0: int, y1: int) -> int
    decreases x1 - x0,
{
    if x0 >= x1 {
        0
    } else {
        sum_alpha_col(img, x0, y0, y1) + sum_alpha_block(img, x0 + 1, x1, y0, y1)
    }
}

proof fn lemma_sum_col_bound(img: Image, px: int, y0: int, y1: int)
    requires
        y0 <= y1,
    ensures
        0 <= sum_alpha_col(img, px, y0, y1) <= 255 * (y1 - y0),
    decreases y1 - y0,
{
    if y0 < y1 {
        lemma_sum_col_bound(img, px, y0 + 1, y1);
    }
}

proof fn lemma_sum_block_bound(img: Image, x0: int, x1: int, y0: int, y1: int)
    requires
        x0 <= x1,
        y0 <= y1,
    ensures
        0 <= sum_alpha_block(img, x0, x1, y0, y1) <= 255 * (x1 - x0) * (y1 - y0),
    decreases x1 - x0,
{
    if x0 < x1 {
        lemma_sum_col_bound(img, x0, y0, y1);
        lemma_sum_block_bound(img, x0 + 1, x1, y0, y1);
        assert(255 * (x1 - x0 - 1) * (y1 - y0) + 255 * (y1 - y0) == 255 * (x1 - x0) * (y1 - y0))
            by (nonlinear_arith);
        assert(255 * (x1 - x0) * (y1 - y0) >= 0) by (nonlinear_arith)
            requires x0 < x1, y0 <= y1;
    } else {
        assert(255 * (x1 - x0) * (y1 - y0) == 0) by (nonlinear_arith)
            requires x0 == x1;
    }
}

/// Number of grid cells covering `dim` pixels: `ceil(dim / cell_size)`.
pub open spec fn spec_grid_dim(dim: int, cell_size: int) -> int {
    (dim + cell_size - 1) / cell_size
}

/// The pixel block covered by cell `(cx, cy)`: x range `[cx*cs, min(cx*cs+cs, w))`,
/// y range alike. Its exact average density as a rational with denominator
/// `255 * pixel count`.
pub open spec fn spec_cell_density(img: Image, cs: int, cx: int, cy: int) -> Q {
    let x0 = cx * cs;
    let y0 = cy * cs;
    let x1 = if x0 + cs <= img.width { x0 + cs } else { img.width as int };
    let y1 = if y0 + cs <= img.height { y0 + cs } else { img.height as int };
    Q { num: sum_alpha_block(img, x0, x1, y0, y1), den: 255 * (x1 - x0) * (y1 - y0) }
}

/// The density field: one exact average per grid cell, zero outside.
pub struct DensityGrid {
    pub gw: usize,
    pub gh: usize,
    pub cells: Vec<Vec<Rat>>,
}

/// A density value: a well-formed fraction in `[0, 1]` whose denominator is
/// at most `255 * MAX_CELL_SIZE^2`.
pub open spec fn density_wf(v: Rat) -> bool {
    v.wf() && 0 <= v.num <= v.den && v.den <= 0x100000
}

impl DensityGrid {
    /// Structural well-formedness: the dimensions are in range and every cell
    /// holds a density value.
    pub open spec fn wf(self) -> bool {
        &&& 1 <= self.gw <= MAX_IMAGE_DIM
        &&& 1 <= self.gh <= MAX_IMAGE_DIM
        &&& self.cells@.len() == self.gw
        &&& forall|cx: int| 0 <= cx < self.gw ==> (#[trigger] self.cells@[cx])@.len() == self.gh
        &&& forall|cx: int, cy: int|
            0 <= cx < self.gw && 0 <= cy < self.gh ==> density_wf(#[trigger] self.cells@[cx]@[cy])
    }

    /// The grid matches the image sampled with the given cell size.
    pub open spec fn wf_for(self, img: Image, cs: int) -> bool {
        &&& self.wf()
        &&& img.wf()
        &&& 1 <= cs <= MAX_CELL_SIZE
        &&& 1 <= img.width <= MAX_IMAGE_DIM
        &&& 1 <= img.height <= MAX_IMAGE_DIM
        &&& self.gw == spec_grid_dim(img.width as int, cs)
        &&& self.gh == spec_grid_dim(img.height as int, cs)
        &&& forall|cx: int, cy: int|
            0 <= cx < self.gw && 0 <= cy < self.gh ==> (#[trigger] self.cells@[cx]@[cy]).q()
                == spec_cell_density(img, cs, cx, cy)
    }

    /// The density at integer grid coordinate `(x, y)`, as stored; the zero
    /// rational outside the grid.
    pub open spec fn rat_at(self, x: int, y: int) -> Rat {
        if 0 <= x < self.gw && 0 <= y < self.gh {
            self.cells@[x]@[y]
        } else {
            Rat { num: 0, den: 1 }
        }
    }

    /// Every sampled value, inside the grid or out, is a density value.
    pub proof fn lemma_rat_at_wf(self, x: int, y: int)
        requires
            self.wf(),
        ensures
            density_wf(self.rat_at(x, y)),
    {
    }

    /// Samples the grid, returning density zero outside its bounds.
    pub fn density(&self, x: i64, y: i64) -> (r: Rat)
        requires
            self.wf(),
        ensures
            r == self.rat_at(x as int, y as int),
            density_wf(r),
    {
        if x >= 0 && y >= 0 && x < self.gw as i64 && y < self.gh as i64 {
            self.cells[x as usize][y as usize]
        } else {
            Rat { num: 0, den: 1 }
        }
    }

    /// Builds the density field, rejecting an empty image or a zero cell size
    /// before any processing.
    pub fn build(img: &Image, cell_size: usize) -> (r: Result<DensityGrid, SpriteError>)
        requires
            img.wf(),
            img.width <= MAX_IMAGE_DIM,
            img.height <= MAX_IMAGE_DIM,
            cell_size <= MAX_CELL_SIZE,
        ensures
            (img.width == 0 || img.height == 0 || cell_size == 0) <==> r == Result::<
                DensityGrid,
                SpriteError,
            >::Err(SpriteError::InvalidConfig),
            r matches Err(e) ==> e == SpriteError::InvalidConfig,
            r matches Ok(g) ==> g.wf_for(*img, cell_size as int),
    {
        if img.width == 0 || img.height == 0 || cell_size == 0 {
            return Err(SpriteError::InvalidConfig);
        }
        let cs = cell_size;
        let gw = (img.width + cs - 1) / cs;
        let gh = (img.height + cs - 1) / cs;
        proof {
            lemma_grid_dim(img.width as int, cs as int);
            lemma_grid_dim(img.height as int, cs as int);
        }
        let mut cells: Vec<Vec<Rat>> = Vec::new();
        let mut cx: usize = 0;
        while cx < gw
            invariant
                img.wf(),
                1 <= img.width <= MAX_IMAGE_DIM,
                1 <= img.height <= MAX_IMAGE_DIM,
                1 <= cs <= MAX_CELL_SIZE,
                gw == spec_grid_dim(img.width as int, cs as int),
                gh == spec_grid_dim(img.height as int, cs as int),
                gw <= img.width,
                gh <= img.height,
                cx <= gw,
                cells@.len() == cx,
                forall|i: int| 0 <= i < cx ==> (#[trigger] cells@[i])@.len() == gh,
                forall|i: int, j: int|
                    0 <= i < cx && 0 <= j < gh ==> (#[trigger] cells@[i]@[j]).q()
                        == spec_cell_density(*img, cs as int, i, j),
                forall|i: int, j: int|
                    0 <= i < cx && 0 <= j < gh ==> (#[trigger] cells@[i]@[j]).q().wf() && 0
                        <= cells@[i]@[j].q().num <= cells@[i]@[j].q().den && cells@[i]@[j].q().den
                        <= 0x100000,
            decreases gw - cx,
        {
            let mut col: Vec<Rat> = Vec::new();
            let mut cy: usize = 0;
            while cy < gh
                invariant
                    img.wf(),
                    1 <= img.width <= MAX_IMAGE_DIM,
                    1 <= img.height <= MAX_IMAGE_DIM,
                    1 <= cs <= MAX_CELL_SIZE,
                    gw == spec_grid_dim(img.width as int, cs as int),
                    gh == spec_grid_dim(img.height as int, cs as int),
                    gw <= img.width,
                    gh <= img.height,
                    cx < gw,
                    cy <= gh,
                    col@.len() == cy,
                    forall|j: int|
                        0 <= j < cy ==> (#[trigger] col@[j]).q() == spec_cell_density(
                            *img,
                            cs as int,
                            cx as int,
                            j,
                        ),
                    forall|j: int|
                        0 <= j < cy ==> (#[trigger] col@[j]).q().wf() && 0 <= col@[j].q().num
                            <= col@[j].q().den && col@[j].q().den <= 0x100000,
                decreases gh - cy,
            {
                let d = cell_density(img, cs, cx, cy, gw, gh);
                col.push(d);
                cy += 1;
            }
            cells.push(col);
            cx += 1;
        }
        Ok(DensityGrid { gw, gh, cells })
    }
}

/// `ceil(dim / cs) * cs >= dim` and `(ceil(dim / cs) - 1) * cs < dim`.
pub proof fn lemma_grid_dim(dim: int, cs: int)
    requires
        1 <= dim,
        1 <= cs,
    ensures
        spec_grid_dim(dim, cs) * cs >= dim,
        (spec_grid_dim(dim, cs) - 1) * cs < dim,
        1 <= spec_grid_dim(dim, cs) <= dim,
{
    let g = spec_grid_dim(dim, cs);
    vstd::arithmetic::div_mod::lemma_fundamental_div_mod(dim + cs - 1, cs);
    let r = (dim + cs - 1) % cs;
    vstd::arithmetic::div_mod::lemma_mod_bound(dim + cs - 1, cs);
    assert(dim + cs - 1 == cs * g + r);
    assert(g * cs == cs * g) by (nonlinear_arith);
    assert((g - 1) * cs == cs * g - cs) by (nonlinear_arith);
    assert(1 <= g <= dim) by (nonlinear_arith)
        requires
            dim + cs - 1 == cs * g + r,
            0 <= r < cs,
            1 <= dim,
            1 <= cs,
    ;
}

/// Computes the exact density of one cell.
fn cell_density(img: &Image, cs: usize, cx: usize, cy: usize, gw: usize, gh: usize) -> (r: Rat)
    requires
        img.wf(),
        1 <= img.width <= MAX_IMAGE_DIM,
        1 <= img.height <= MAX_IMAGE_DIM,
        1 <= cs <= MAX_CELL_SIZE,
        gw == spec_grid_dim(img.width as int, cs as int),
        gh == spec_grid_dim(img.height as int, cs as int),
        cx < gw,
        cy < gh,
    ensures
        r.q() == spec_cell_density(*img, cs as int, cx as int, cy as int),
        r.q().wf(),
        0 <= r.q().num <= r.q().den,
        r.q().den <= 0x100000,
{
    proof {
        lemma_grid_dim(img.width as int, cs as int);
        lemma_grid_dim(img.height as int, cs as int);
        assert(cx * cs <= (gw - 1) * cs && cy * cs <= (gh - 1) * cs) by (nonlinear_arith)
            requires cx <= gw - 1, cy <= gh - 1, cs >= 1;
    }
    let x0 = cx * cs;
    let y0 = cy * cs;
    let x1 = if x0 + cs <= img.width { x0 + cs } else { img.width };
    let y1 = if y0 + cs <= img.height { y0 + cs } else { img.height };
    let mut sum: u32 = 0;
    let mut px = x0;
    proof {
        lemma_sum_block_bound(*img, x0 as int, x1 as int, y0 as int, y1 as int);
    }
    while px < x1
        invariant
            img.wf(),
            x0 <= px <= x1,
            x1 <= img.width <= MAX_IMAGE_DIM,
            y0 < y1 <= img.height <= MAX_IMAGE_DIM,
            x1 - x0 <= cs,
            y1 - y0 <= cs,
            cs <= MAX_CELL_SIZE,
            sum == sum_alpha_block(*img, x0 as int, px as int, y0 as int, y1 as int),
            sum <= 255 * (px - x0) * (y1 - y0),
        decreases x1 - px,
    {
        let mut py = y0;
        let mut colsum: u32 = 0;
        while py < y1
            invariant
                img.wf(),
                x0 <= px < x1,
                x1 <= img.width <= MAX_IMAGE_DIM,
                y0 <= py <= y1,
                y1 <= img.height <= MAX_IMAGE_DIM,
                y1 - y0 <= cs,
                cs <= MAX_CELL_SIZE,
                colsum == sum_alpha_col(*img, px as int, y0 as int, py as int),
                colsum <= 255 * (py - y0),
            decreases y1 - py,
        {
            proof {
                lemma_sum_col_snoc(*img, px as int, y0 as int, py as int);
            }
            colsum += img.alpha(px, py) as u32;
            py += 1;
        }
        proof {
            lemma_sum_block_snoc(*img, x0 as int, px as int, y0 as int, y1 as int);
            lemma_sum_block_bound(*img, x0 as int, px as int + 1, y0 as int, y1 as int);
            assert(255 * ((px + 1) - x0) * (y1 - y0) <= 255 * 64 * 64) by (nonlinear_arith)
                requires px + 1 - x0 <= 64, y1 - y0 <= 64, x0 <= px;
        }
        sum += colsum;
        px += 1;
    }
    proof {
        assert(1 <= 255 * (x1 - x0) * (y1 - y0) <= 255 * 64 * 64) by (nonlinear_arith)
            requires 1 <= x1 - x0 <= 64, 1 <= y1 - y0 <= 64;
        assert(sum <= 255 * (x1 - x0) * (y1 - y0));
    }
    proof {
        assert((x1 - x0) * (y1 - y0) <= 64 * 64 && 1 <= (x1 - x0) * (y1 - y0))
            by (nonlinear_arith)
            requires 1 <= x1 - x0 <= 64, 1 <= y1 - y0 <= 64;
    }
    let count = (x1 - x0) * (y1 - y0);
    proof {
        assert(255 * (count as int) == 255 * (x1 - x0) * (y1 - y0)) by (nonlinear_arith)
            requires count == (x1 - x0) * (y1 - y0);
    }
    Rat { num: sum as i128, den: 255 * count as i128 }
}

/// Appending one more pixel to a column sum.
proof fn lemma_sum_col_snoc(img: Image, px: int, y0: int, py: int)
    requires
        y0 <= py,
    ensures
        sum_alpha_col(img, px, y0, py + 1) == sum_alpha_col(img, px, y0, py) + img.alpha_at(
            px,
            py,
        ),
    decreases py - y0,
{
    assert(sum_alpha_col(img, px, y0, py + 1) == img.alpha_at(px, y0) + sum_alpha_col(
        img,
        px,
        y0 + 1,
        py + 1,
    ));
    if y0 < py {
        lemma_sum_col_snoc(img, px, y0 + 1, py);
        assert(sum_alpha_col(img, px, y0, py) == img.alpha_at(px, y0) + sum_alpha_col(
            img,
            px,
            y0 + 1,
            py,
        ));
    } else {
        assert(sum_alpha_col(img, px, y0 + 1, py + 1) == 0);
        assert(sum_alpha_col(img, px, y0, py) == 0);
    }
}

/// Appending one more column to a block sum.
proof fn lemma_sum_block_snoc(img: Image, x0: int, px: int, y0: int, y1: int)
    requires
        x0 <= px,
    ensures
        sum_alpha_block(img, x0, px + 1, y0, y1) == sum_alpha_block(img, x0, px, y0, y1)
            + sum_alpha_col(img, px, y0, y1),
    decreases px - x0,
{
    assert(sum_alpha_block(img, x0, px + 1, y0, y1) == sum_alpha_col(img, x0, y0, y1)
        + sum_alpha_block(img, x0 + 1, px + 1, y0, y1));
    if x0 < px {
        lemma_sum_block_snoc(img, x0 + 1, px, y0, y1);
        assert(sum_alpha_block(img, x0, px, y0, y1) == sum_alpha_col(img, x0, y0, y1)
            + sum_alpha_block(img, x0 + 1, px, y0, y1));
    } else {
        assert(sum_alpha_block(img, x0 + 1, px + 1, y0, y1) == 0);
        assert(sum_alpha_block(img, x0, px, y0, y1) == 0);
    }
}

} // verus!

use sprite_shape::field::{DensityGrid, Image};
use sprite_shape::march::marching_triangles;
use sprite_shape::mesh::{generate_mesh, NormalDir, Options, ScalingMode, Vertex};
use sprite_shape::rat::Rat;
use sprite_shape::{align_to_multiple_of_four, SpriteError, ThickSprite};

fn rgba_image(width: usize, height: usize, px: &dyn Fn(usize, usize) -> [u8; 4]) -> Image {
    let mut pixels = Vec::new();
    for y in 0..height {
        for x in 0..width {
            pixels.extend_from_slice(&px(x, y));
        }
    }
    Image { width, height, pixels }
}

fn opaque_image(width: usize, height: usize) -> Image {
    rgba_image(width, height, &|_, _| [200, 100, 50, 255])
}

fn transparent_image(width: usize, height: usize) -> Image {
    rgba_image(width, height, &|_, _| [200, 100, 50, 0])
}

fn default_options() -> Options {
    Options {
        cell_size: 10,
        iso: Rat { num: 1, den: 2 },
        normal_uv_offset: Rat { num: 2, den: 1 },
        thickness: Rat { num: 1, den: 10 },
        scaling: ScalingMode::FixedHeight(Rat { num: 1, den: 1 }),
        front_face: true,
        back_face: true,
    }
}

fn rat_eq_frac(r: Rat, num: i128, den: i128) -> bool {
    r.num * den == num * r.den
}

#[test]
fn align_rounds_up_to_multiple_of_four() {
    for (input, expected) in [(0usize, 0usize), (1, 4), (2, 4), (3, 4), (4, 4), (5, 8), (19, 20)] {
        let mut n = input;
        align_to_multiple_of_four(&mut n);
        assert_eq!(n, expected);
    }
}

#[test]
fn options_default_values() {
    let o = Options::default();
    assert_eq!(o.cell_size, 10);
    assert!(rat_eq_frac(o.iso, 1, 2));
    assert!(rat_eq_frac(o.normal_uv_offset, 2, 1));
    assert!(rat_eq_frac(o.thickness, 1, 10));
    let ScalingMode::FixedHeight(h) = o.scaling;
    assert!(rat_eq_frac(h, 1, 1));
    assert!(o.front_face);
    assert!(o.back_face);
}

#[test]
fn rational_arithmetic_is_exact() {
    let a = Rat::frac(1, 3);
    let b = Rat::frac(1, 6);
    let s = a.plus(&b);
    assert!(rat_eq_frac(s, 1, 2));
    let p = a.times(&b);
    assert!(rat_eq_frac(p, 1, 18));
    assert!(a.le(&Rat::frac(1, 2)));
    assert!(!Rat::frac(1, 2).lt(&b));
    assert!(Rat::frac(2, 4).eq_val(&Rat::frac(1, 2)));
}

#[test]
fn transparent_image_yields_no_faces_and_empty_mesh() {
    let img = transparent_image(8, 8);
    let opts = Options { cell_size: 4, ..default_options() };
    let grid = DensityGrid::build(&img, 4).unwrap();
    let faces = marching_triangles(&grid, &opts.iso);
    assert_eq!(faces.len(), 0);
    let mesh = generate_mesh(&img, &opts).unwrap();
    assert_eq!(mesh.len(), 0);
}

#[test]
fn opaque_two_by_two_grid_face_count() {
    // 8x8 opaque pixels with 4-pixel cells: a 2x2 grid of full cells.
    // Marching covers the grid expanded by one cell: the one interior cell
    // fans 8 collected vertices into 6 triangles, the 4 edge cells fan 6
    // vertices into 4 triangles, and the 4 corner cells fan 4 vertices into
    // 2 triangles.
    let img = opaque_image(8, 8);
    let grid = DensityGrid::build(&img, 4).unwrap();
    let faces = marching_triangles(&grid, &Rat { num: 1, den: 2 });
    assert_eq!(faces.len(), 6 + 4 * 4 + 4 * 2);
}

#[test]
fn fully_opaque_contour_encloses_grid() {
    // Every contour vertex of an opaque image lies in the expanded grid
    // bounds, and the boundary crossings sit half a cell outside the grid.
    let img = opaque_image(8, 8);
    let grid = DensityGrid::build(&img, 4).unwrap();
    let faces = marching_triangles(&grid, &Rat { num: 1, den: 2 });
    assert!(!faces.is_empty());
    for f in faces.iter() {
        for v in f.iter() {
            // base + frac ranges over [-1/2, 2] for a 2x2 grid
            let num = 2 * v.x.base as i128 * v.x.frac.den + 2 * v.x.frac.num;
            assert!(num >= -v.x.frac.den && num <= 4 * v.x.frac.den);
        }
    }
}

fn vertex_fields(v: &Vertex) -> Vec<i128> {
    let mut out = vec![
        v.a_pos.x.num, v.a_pos.x.den, v.a_pos.y.num, v.a_pos.y.den, v.a_pos.z.num, v.a_pos.z.den,
        v.a_uv.x.num, v.a_uv.x.den, v.a_uv.y.num, v.a_uv.y.den,
    ];
    match v.a_normal {
        NormalDir::Outward(d) => {
            out.extend_from_slice(&[1, d.x.num, d.x.den, d.y.num, d.y.den]);
        }
        NormalDir::PlusZ => out.push(0),
    }
    out
}

#[test]
fn pipeline_is_deterministic() {
    let img1 = opaque_image(4, 4);
    let img2 = opaque_image(4, 4);
    let opts = Options { cell_size: 4, ..default_options() };
    let m1 = generate_mesh(&img1, &opts).unwrap();
    let m2 = generate_mesh(&img2, &opts).unwrap();
    assert_eq!(m1.len(), m2.len());
    for (a, b) in m1.iter().zip(m2.iter()) {
        assert_eq!(vertex_fields(a), vertex_fields(b));
    }
    let t1 = sprite_shape::repair::fix_texture(&img1);
    let t2 = sprite_shape::repair::fix_texture(&img2);
    assert_eq!(t1.pixels, t2.pixels);
}

#[test]
fn four_by_four_opaque_scenario() {
    // A 4x4 fully opaque image with cell_size 4 gives a single grid cell of
    // density one. Marching the expanded bounds walks 4 cells, each fanning
    // 4 collected vertices into 2 triangles: 8 contour faces. Front and back
    // emit 24 vertices each at z = +- thickness/2 = +- 1/20, and the 4
    // silhouette edges add 24 side-wall vertices.
    let img = opaque_image(4, 4);
    let opts = Options { cell_size: 4, ..default_options() };
    let grid = DensityGrid::build(&img, 4).unwrap();
    let faces = marching_triangles(&grid, &opts.iso);
    assert_eq!(faces.len(), 8);
    let mesh = generate_mesh(&img, &opts).unwrap();
    assert_eq!(mesh.len(), 72);
    for (i, v) in mesh.iter().enumerate() {
        // texture coordinates stay inside the unit square
        assert!(v.a_uv.x.num >= 0 && v.a_uv.x.num <= v.a_uv.x.den, "uv.x out of range at {i}");
        assert!(v.a_uv.y.num >= 0 && v.a_uv.y.num <= v.a_uv.y.den, "uv.y out of range at {i}");
    }
    for v in &mesh[0..24] {
        assert!(rat_eq_frac(v.a_pos.z, 1, 20));
    }
    for v in &mesh[24..48] {
        assert!(rat_eq_frac(v.a_pos.z, -1, 20));
    }
    // side walls alternate front and back ring heights
    let signs: Vec<i128> = mesh[48..72]
        .iter()
        .map(|v| if v.a_pos.z.num > 0 { 1 } else { -1 })
        .collect();
    for chunk in signs.chunks(6) {
        assert_eq!(chunk, &[1, -1, -1, 1, -1, 1]);
    }
}

#[test]
fn front_face_only_emits_silhouette_walls_but_no_back() {
    let img = opaque_image(4, 4);
    let opts = Options { cell_size: 4, back_face: false, ..default_options() };
    let mesh = generate_mesh(&img, &opts).unwrap();
    assert_eq!(mesh.len(), 48);
    let opts2 = Options { cell_size: 4, front_face: false, back_face: false, ..default_options() };
    let mesh2 = generate_mesh(&img, &opts2).unwrap();
    assert_eq!(mesh2.len(), 24);
}

#[test]
fn invalid_configurations_are_rejected() {
    let img = opaque_image(4, 4);
    let zero_cell = Options { cell_size: 0, ..default_options() };
    assert!(matches!(
        generate_mesh(&img, &zero_cell),
        Err(SpriteError::InvalidConfig)
    ));
    let empty = Image { width: 0, height: 0, pixels: Vec::new() };
    assert!(matches!(
        generate_mesh(&empty, &default_options()),
        Err(SpriteError::InvalidConfig)
    ));
    assert!(ThickSprite::new(&img, &default_options()).is_ok());
    assert!(matches!(
        ThickSprite::new(&empty, &default_options()),
        Err(SpriteError::InvalidConfig)
    ));
}

#[test]
fn interpolated_vertices_sit_exactly_on_the_threshold() {
    // One opaque cell next to transparent cells: the crossing points carry
    // exactly the iso value and their normals point outward.
    let img = rgba_image(8, 4, &|x, _| if x < 4 { [255, 0, 0, 255] } else { [255, 0, 0, 0] });
    let opts = Options { cell_size: 4, ..default_options() };
    let grid = DensityGrid::build(&img, 4).unwrap();
    let iso = opts.iso;
    let faces = marching_triangles(&grid, &iso);
    let mut crossings = 0;
    for f in faces.iter() {
        for v in f.iter() {
            if v.value.num * iso.den == iso.num * v.value.den {
                if v.x.frac.num != 0 || v.y.frac.num != 0 {
                    crossings += 1;
                    // the crossing parameter is strictly inside the edge
                    let f = if v.x.frac.num != 0 { v.x.frac } else { v.y.frac };
                    assert!(f.num > 0 && f.num < f.den);
                }
            }
        }
    }
    assert!(crossings > 0);
}

#[test]
fn density_grid_averages_alpha_exactly() {
    // 3x2 image, cell size 2: the right column of cells covers 1x2 pixels.
    let img = rgba_image(3, 2, &|x, y| [0, 0, 0, if x == 0 && y == 0 { 255 } else { 51 }]);
    let grid = DensityGrid::build(&img, 2).unwrap();
    assert_eq!(grid.gw, 2);
    assert_eq!(grid.gh, 1);
    // left cell: (255 + 51 + 51 + 51) / (255 * 4)
    let left = grid.cells[0][0];
    assert!(rat_eq_frac(left, 255 + 51 * 3, 255 * 4));
    // right cell: (51 + 51) / (255 * 2)
    let right = grid.cells[1][0];
    assert!(rat_eq_frac(right, 102, 510));
    assert!(rat_eq_frac(right, 1, 5));
}

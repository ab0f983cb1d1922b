use sprite_shape::field::Image;
use sprite_shape::glb::{bounding_coords, save, save_with_image, GlbVertex};
use sprite_shape::numfmt::{f32_dec, u64_dec};
use sprite_shape::repair::fix_texture;

fn rgba_image(width: usize, height: usize, px: &dyn Fn(usize, usize) -> [u8; 4]) -> Image {
    let mut pixels = Vec::new();
    for y in 0..height {
        for x in 0..width {
            pixels.extend_from_slice(&px(x, y));
        }
    }
    Image { width, height, pixels }
}

fn pixel(img: &Image, x: usize, y: usize) -> [u8; 4] {
    let o = 4 * (y * img.width + x);
    [img.pixels[o], img.pixels[o + 1], img.pixels[o + 2], img.pixels[o + 3]]
}

#[test]
fn unsigned_decimal_rendering() {
    assert_eq!(u64_dec(0), b"0");
    assert_eq!(u64_dec(7), b"7");
    assert_eq!(u64_dec(1234567890123), b"1234567890123");
}

#[test]
fn float_decimal_rendering_is_exact() {
    assert_eq!(f32_dec(1.0f32.to_bits()), b"1");
    assert_eq!(f32_dec(0.5f32.to_bits()), b"0.5");
    assert_eq!(f32_dec((-1.5f32).to_bits()), b"-1.5");
    assert_eq!(f32_dec(0.0f32.to_bits()), b"0");
    assert_eq!(f32_dec((-0.0f32).to_bits()), b"-0");
    assert_eq!(f32_dec(100.0f32.to_bits()), b"100");
    // 0.1 is not representable: the nearest float is 13421773 / 2^27
    assert_eq!(
        f32_dec(0.1f32.to_bits()),
        b"0.100000001490116119384765625"
    );
    assert_eq!(
        f32_dec(f32::MAX.to_bits()),
        b"340282346638528859811704183484516925440"
    );
    assert_eq!(f32_dec(0.05f32.to_bits()), b"0.0500000007450580596923828125");
    // round trip: the exact decimal parses back to the same float
    for v in [3.14159f32, -0.001f32, 65536.5f32, 1.0e-40f32] {
        let s = String::from_utf8(f32_dec(v.to_bits())).unwrap();
        assert_eq!(s.parse::<f32>().unwrap().to_bits(), v.to_bits());
    }
}

#[test]
fn repair_spreads_single_opaque_pixel_everywhere() {
    let img = rgba_image(3, 3, &|x, y| {
        if (x, y) == (1, 2) { [10, 20, 30, 255] } else { [1, 2, 3, 7] }
    });
    let fixed = fix_texture(&img);
    assert_eq!(fixed.width, 3);
    assert_eq!(fixed.height, 3);
    for y in 0..3 {
        for x in 0..3 {
            assert_eq!(pixel(&fixed, x, y), [10, 20, 30, 255]);
        }
    }
}

#[test]
fn repair_keeps_opaque_pixels_and_leaves_sentinel_without_seeds() {
    let img = rgba_image(2, 2, &|x, y| [x as u8, y as u8, 9, 255]);
    let fixed = fix_texture(&img);
    for y in 0..2 {
        for x in 0..2 {
            assert_eq!(pixel(&fixed, x, y), [x as u8, y as u8, 9, 255]);
        }
    }
    // no fully opaque pixel: the canvas keeps the sentinel fill (opaque blue)
    let empty = rgba_image(2, 2, &|_, _| [200, 200, 200, 254]);
    let fixed = fix_texture(&empty);
    for y in 0..2 {
        for x in 0..2 {
            assert_eq!(pixel(&fixed, x, y), [0, 0, 255, 255]);
        }
    }
}

#[test]
fn repair_assigns_geodesically_nearest_seed() {
    // two seeds on opposite corners: the color flips along the diagonal
    // midline; equidistant pixels keep the seed that entered the fill first
    // (the scan is column-major, x outer).
    let red = [255, 0, 0, 255];
    let blue = [0, 0, 255, 255];
    let img = rgba_image(3, 3, &|x, y| {
        if (x, y) == (0, 0) {
            red
        } else if (x, y) == (2, 2) {
            blue
        } else {
            [9, 9, 9, 0]
        }
    });
    let fixed = fix_texture(&img);
    for y in 0..3 {
        for x in 0..3 {
            let d_red = x + y;
            let d_blue = (2 - x) + (2 - y);
            let expect = if d_red <= d_blue { red } else { blue };
            assert_eq!(pixel(&fixed, x, y), expect, "pixel ({x},{y})");
        }
    }
}

fn v(p: [f32; 3], uv: [f32; 2]) -> GlbVertex {
    GlbVertex {
        pos_x: p[0].to_bits(),
        pos_y: p[1].to_bits(),
        pos_z: p[2].to_bits(),
        uv_x: uv[0].to_bits(),
        uv_y: uv[1].to_bits(),
    }
}

fn le32(b: &[u8]) -> u32 {
    u32::from_le_bytes([b[0], b[1], b[2], b[3]])
}

#[test]
fn bounding_box_bounds_all_positions() {
    let verts = vec![
        v([1.0, -2.0, 0.5], [0.0, 0.0]),
        v([-3.5, 4.0, 0.25], [1.0, 1.0]),
        v([2.0, 0.0, -0.5], [0.5, 0.5]),
    ];
    let (mn, mx) = bounding_coords(&verts);
    assert_eq!(f32::from_bits(mn.0), -3.5);
    assert_eq!(f32::from_bits(mn.1), -2.0);
    assert_eq!(f32::from_bits(mn.2), -0.5);
    assert_eq!(f32::from_bits(mx.0), 2.0);
    assert_eq!(f32::from_bits(mx.1), 4.0);
    assert_eq!(f32::from_bits(mx.2), 0.5);
    // empty input keeps the neutral bounds
    let (mn, mx) = bounding_coords(&Vec::new());
    assert_eq!(f32::from_bits(mn.0), f32::MAX);
    assert_eq!(f32::from_bits(mx.0), f32::MIN);
}

#[test]
fn container_framing_and_metadata() {
    let verts = vec![
        v([0.0, 0.0, 0.05], [0.0, 0.0]),
        v([1.0, 0.5, 0.05], [1.0, 0.5]),
        v([0.5, 1.0, -0.05], [0.5, 1.0]),
    ];
    let fake_image = vec![1u8, 2, 3, 4, 5];
    let out = save_with_image(&verts, &fake_image).unwrap();
    // header: magic, version 2, declared length equals the actual length
    assert_eq!(&out[0..4], b"glTF");
    assert_eq!(le32(&out[4..8]), 2);
    assert_eq!(le32(&out[8..12]) as usize, out.len());
    assert_eq!(out.len() % 4, 0);
    // JSON chunk
    let jlen = le32(&out[12..16]) as usize;
    assert_eq!(&out[16..20], b"JSON");
    assert_eq!(jlen % 4, 0);
    let json_bytes = &out[20..20 + jlen];
    let json: serde_json::Value = serde_json::from_slice(json_bytes).unwrap();
    // binary chunk
    let boff = 20 + jlen;
    let blen = le32(&out[boff..boff + 4]) as usize;
    assert_eq!(&out[boff + 4..boff + 8], b"BIN\0");
    assert_eq!(blen % 4, 0);
    assert_eq!(out.len(), boff + 8 + blen);
    let bin = &out[boff + 8..];
    // vertex buffer: 3 vertices, 20 bytes each, then the image bytes
    assert_eq!(le32(&bin[0..4]), 0.0f32.to_bits());
    assert_eq!(le32(&bin[40..44]), 0.5f32.to_bits());
    assert_eq!(&bin[60..65], &fake_image[..]);
    // metadata references valid offsets
    assert_eq!(json["asset"]["version"], "2.0");
    let views = json["bufferViews"].as_array().unwrap();
    assert_eq!(views[0]["byteOffset"], 0);
    assert_eq!(views[0]["byteLength"], 60);
    assert_eq!(views[0]["byteStride"], 20);
    assert_eq!(views[1]["byteOffset"], 60);
    assert_eq!(views[1]["byteLength"], 5);
    assert_eq!(json["buffers"][0]["byteLength"], 65);
    assert!(60 + 5 <= blen);
    let acc = json["accessors"].as_array().unwrap();
    assert_eq!(acc[0]["count"], 3);
    assert_eq!(acc[0]["componentType"], 5126);
    assert_eq!(acc[0]["type"], "VEC3");
    assert_eq!(acc[1]["byteOffset"], 12);
    assert_eq!(acc[1]["type"], "VEC2");
    // the bounding box in the metadata is the exact decimal of the min/max
    assert_eq!(acc[0]["min"][0].as_f64().unwrap() as f32, 0.0);
    assert_eq!(acc[0]["min"][2].as_f64().unwrap() as f32, -0.05);
    assert_eq!(acc[0]["max"][0].as_f64().unwrap() as f32, 1.0);
    assert_eq!(acc[0]["max"][2].as_f64().unwrap() as f32, 0.05);
    assert_eq!(
        json["meshes"][0]["primitives"][0]["attributes"]["POSITION"],
        0
    );
    assert_eq!(
        json["meshes"][0]["primitives"][0]["attributes"]["TEXCOORD_0"],
        1
    );
    assert_eq!(json["images"][0]["mimeType"], "image/png");
    assert_eq!(json["textures"][0]["source"], 0);
    assert_eq!(json["materials"][0]["pbrMetallicRoughness"]["baseColorTexture"]["index"], 0);
    assert_eq!(json["nodes"][0]["mesh"], 0);
    assert_eq!(json["scenes"][0]["nodes"][0], 0);
}

#[test]
fn save_encodes_texture_as_real_png() {
    let img = rgba_image(2, 2, &|x, y| [x as u8 * 100, y as u8 * 100, 7, 255]);
    let fixed = fix_texture(&img);
    let verts = vec![v([0.0, 0.0, 0.0], [0.0, 0.0])];
    let out = save(&verts, &fixed).unwrap();
    // locate the PNG inside the binary chunk (after 20 bytes of vertices)
    let jlen = le32(&out[12..16]) as usize;
    let boff = 20 + jlen;
    let blen = le32(&out[boff..boff + 4]) as usize;
    let bin = &out[boff + 8..boff + 8 + blen];
    let json: serde_json::Value = serde_json::from_slice(&out[20..20 + jlen]).unwrap();
    let png_len = json["bufferViews"][1]["byteLength"].as_u64().unwrap() as usize;
    let png = &bin[20..20 + png_len];
    // decoding the PNG gives back exactly the repaired pixels
    let decoded = image::load_from_memory(png).unwrap().into_rgba8();
    assert_eq!(decoded.width(), 2);
    assert_eq!(decoded.height(), 2);
    assert_eq!(decoded.into_raw(), fixed.pixels);
}

#[test]
fn save_output_is_deterministic() {
    let img = rgba_image(2, 2, &|_, _| [1, 2, 3, 255]);
    let fixed = fix_texture(&img);
    let verts = vec![v([0.25, -0.25, 0.05], [0.0, 1.0])];
    let a = save(&verts, &fixed).unwrap();
    let b = save(&verts, &fixed).unwrap();
    assert_eq!(a, b);
}

#[test]
fn repair_colors_come_from_opaque_sources() {
    // three scattered seeds: every repaired pixel carries one of their
    // colors, opaque
    let seeds = [((0usize, 0usize), [10, 0, 0]), ((4, 1), [0, 20, 0]), ((2, 4), [0, 0, 30])];
    let img = rgba_image(5, 5, &|x, y| {
        for ((sx, sy), c) in seeds {
            if (x, y) == (sx, sy) {
                return [c[0], c[1], c[2], 255];
            }
        }
        [77, 77, 77, 3]
    });
    let fixed = fix_texture(&img);
    for y in 0..5 {
        for x in 0..5 {
            let p = pixel(&fixed, x, y);
            assert!(
                seeds.iter().any(|(_, c)| p == [c[0], c[1], c[2], 255]),
                "pixel ({x},{y}) = {p:?}"
            );
        }
    }
}

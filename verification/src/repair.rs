//! Texture repair: multi-source breadth-first flood fill.
//!
//! Every fully opaque pixel (alpha exactly 255) seeds the queue as its own
//! source. Popping an entry writes the source pixel's color (alpha forced
//! opaque) at the entry's position and enqueues the entry's unvisited
//! 4-connected neighbors carrying the same source; a neighbor is marked
//! visited when enqueued, so each pixel is enqueued and written at most once
//! and receives the color of a graph-geodesically nearest opaque pixel. When
//! no pixel is fully opaque, the whole canvas keeps the sentinel fill color
//! (opaque blue).
use std::collections::VecDeque;

use vstd::prelude::*;

use crate::field::Image;

verus! {

broadcast use {vstd::std_specs::vec::group_vec_axioms, vstd::std_specs::vecdeque::group_vec_dequeue_axioms};

/// One queue entry: the pixel to fill and the opaque source pixel whose color
/// it receives.
#[derive(Clone, Copy, Debug)]
pub struct Entry {
    pub px: usize,
    pub py: usize,
    pub sx: usize,
    pub sy: usize,
}

/// Linear index of the pixel at `(x, y)`.
pub open spec fn pix_idx(img: Image, x: int, y: int) -> int {
    y * img.width + x
}

pub open spec fn in_grid(img: Image, x: int, y: int) -> bool {
    0 <= x < img.width && 0 <= y < img.height
}

/// Number of `false` entries of a boolean sequence.
pub open spec fn count_false(s: Seq<bool>) -> nat
    decreases s.len(),
{
    if s.len() == 0 {
        0
    } else {
        (if s[0] {
            0nat
        } else {
            1nat
        }) + count_false(s.skip(1))
    }
}

/// The sentinel canvas: every pixel opaque blue.
pub open spec fn spec_sentinel(img: Image) -> Seq<u8> {
    Seq::new((4 * img.width * img.height) as nat, |i: int| if i % 4 == 2 || i % 4 == 3 { 255u8 } else { 0u8 })
}

/// Writing one entry: the source pixel's color, alpha forced opaque, at the
/// entry's position.
pub open spec fn spec_write(img: Image, out: Seq<u8>, e: Entry) -> Seq<u8> {
    let o = 4 * pix_idx(img, e.px as int, e.py as int);
    let c = img.rgba_at(e.sx as int, e.sy as int);
    out.update(o, c.0).update(o + 1, c.1).update(o + 2, c.2).update(o + 3, 255u8)
}

/// Enqueueing one neighbor if it lies in the grid and is unvisited; it is
/// marked visited at enqueue time.
pub open spec fn spec_push(
    img: Image,
    q: Seq<Entry>,
    vis: Seq<bool>,
    px: int,
    py: int,
    sx: usize,
    sy: usize,
) -> (Seq<Entry>, Seq<bool>) {
    let i = pix_idx(img, px, py);
    if in_grid(img, px, py) && 0 <= i < vis.len() && !vis[i] {
        (
            q.push(Entry { px: px as usize, py: py as usize, sx, sy }),
            vis.update(i, true),
        )
    } else {
        (q, vis)
    }
}

/// Enqueueing the four neighbors of an entry's pixel, in the order left,
/// right, up, down.
pub open spec fn spec_push4(img: Image, q: Seq<Entry>, vis: Seq<bool>, e: Entry) -> (
    Seq<Entry>,
    Seq<bool>,
) {
    let s1 = spec_push(img, q, vis, e.px - 1, e.py as int, e.sx, e.sy);
    let s2 = spec_push(img, s1.0, s1.1, e.px + 1, e.py as int, e.sx, e.sy);
    let s3 = spec_push(img, s2.0, s2.1, e.px as int, e.py + 1, e.sx, e.sy);
    spec_push(img, s3.0, s3.1, e.px as int, e.py - 1, e.sx, e.sy)
}

/// The breadth-first fill, run to completion from the given state.
pub open spec fn spec_bfs(img: Image, q: Seq<Entry>, vis: Seq<bool>, out: Seq<u8>) -> Seq<u8>
    decreases count_false(vis), q.len(),
    via spec_bfs_decreases
{
    if q.len() == 0 {
        out
    } else {
        let e = q[0];
        let rest = q.skip(1);
        let out1 = spec_write(img, out, e);
        let s = spec_push4(img, rest, vis, e);
        spec_bfs(img, s.0, s.1, out1)
    }
}

/// One `false` flipped to `true` lowers the count by one.
proof fn lemma_count_false_update(s: Seq<bool>, i: int)
    requires
        0 <= i < s.len(),
        !s[i],
    ensures
        count_false(s.update(i, true)) + 1 == count_false(s),
    decreases i,
{
    if i == 0 {
        assert(s.update(0, true).skip(1) =~= s.skip(1));
    } else {
        assert(s.update(i, true).skip(1) =~= s.skip(1).update(i - 1, true));
        lemma_count_false_update(s.skip(1), i - 1);
    }
}

/// A push never raises the count of unvisited pixels, and leaves the state
/// unchanged unless it marks one.
proof fn lemma_push_effect(
    img: Image,
    q: Seq<Entry>,
    vis: Seq<bool>,
    px: int,
    py: int,
    sx: usize,
    sy: usize,
)
    ensures
        ({
            let s = spec_push(img, q, vis, px, py, sx, sy);
            &&& count_false(s.1) <= count_false(vis)
            &&& (count_false(s.1) == count_false(vis) ==> s.0 == q && s.1 == vis)
        }),
{
    let i = pix_idx(img, px, py);
    if in_grid(img, px, py) && 0 <= i < vis.len() && !vis[i] {
        lemma_count_false_update(vis, i);
    }
}

#[via_fn]
proof fn spec_bfs_decreases(img: Image, q: Seq<Entry>, vis: Seq<bool>, out: Seq<u8>) {
    if q.len() != 0 {
        let e = q[0];
        let rest = q.skip(1);
        let s1 = spec_push(img, rest, vis, e.px - 1, e.py as int, e.sx, e.sy);
        let s2 = spec_push(img, s1.0, s1.1, e.px + 1, e.py as int, e.sx, e.sy);
        let s3 = spec_push(img, s2.0, s2.1, e.px as int, e.py + 1, e.sx, e.sy);
        let s4 = spec_push(img, s3.0, s3.1, e.px as int, e.py - 1, e.sx, e.sy);
        lemma_push_effect(img, rest, vis, e.px - 1, e.py as int, e.sx, e.sy);
        lemma_push_effect(img, s1.0, s1.1, e.px + 1, e.py as int, e.sx, e.sy);
        lemma_push_effect(img, s2.0, s2.1, e.px as int, e.py + 1, e.sx, e.sy);
        lemma_push_effect(img, s3.0, s3.1, e.px as int, e.py - 1, e.sx, e.sy);
    }
}

/// The queue of seeds: every fully opaque pixel, walked column by column
/// (`x` outer, `y` inner), each its own source.
pub open spec fn spec_seed_col(img: Image, x: int, y_end: int) -> Seq<Entry>
    decreases y_end,
{
    if y_end <= 0 {
        seq![]
    } else {
        spec_seed_col(img, x, y_end - 1) + (if img.alpha_at(x, y_end - 1) == 255 {
            seq![
                Entry {
                    px: x as usize,
                    py: (y_end - 1) as usize,
                    sx: x as usize,
                    sy: (y_end - 1) as usize,
                },
            ]
        } else {
            Seq::<Entry>::empty()
        })
    }
}

pub open spec fn spec_seed_upto(img: Image, x_end: int) -> Seq<Entry>
    decreases x_end,
{
    if x_end <= 0 {
        seq![]
    } else {
        spec_seed_upto(img, x_end - 1) + spec_seed_col(img, x_end - 1, img.height as int)
    }
}

pub open spec fn spec_seed_queue(img: Image) -> Seq<Entry> {
    spec_seed_upto(img, img.width as int)
}

/// The seeds, as the initial visited marking.
pub open spec fn spec_seed_visited(img: Image) -> Seq<bool> {
    Seq::new(
        (img.width * img.height) as nat,
        |i: int| img.alpha_at(i % img.width as int, i / img.width as int) == 255,
    )
}

/// The repaired canvas of an image: the flood fill run from the seeds over
/// the sentinel canvas.
pub open spec fn spec_fix(img: Image) -> Seq<u8> {
    spec_bfs(img, spec_seed_queue(img), spec_seed_visited(img), spec_sentinel(img))
}

/// Repairs a texture: every pixel receives the color of a nearest fully
/// opaque pixel of the source image (alpha forced opaque); a canvas with no
/// fully opaque pixel stays at the sentinel fill color.
pub fn fix_texture(img: &Image) -> (r: Image)
    requires
        img.wf(),
    ensures
        r.width == img.width,
        r.height == img.height,
        r.wf(),
        r.pixels@ == spec_fix(*img),
{
    let w = img.width;
    let h = img.height;
    proof {
        assert(img.pixels.len() == img.pixels@.len());
        assert(4 * ((w * h) as int) == 4 * w * h) by (nonlinear_arith);
    }
    let n = w * h;
    let mut out: Vec<u8> = Vec::new();
    let mut i: usize = 0;
    while i < n
        invariant
            i <= n,
            out@.len() == 4 * i,
            forall|j: int|
                0 <= j < out@.len() ==> out@[j] == (if j % 4 == 2 || j % 4 == 3 {
                    255u8
                } else {
                    0u8
                }),
        decreases n - i,
    {
        out.push(0);
        out.push(0);
        out.push(255);
        out.push(255);
        i += 1;
    }
    proof {
        assert(out@ =~= spec_sentinel(*img));
    }
    let mut visited: Vec<bool> = vec![false; n];
    let mut queue: VecDeque<Entry> = VecDeque::new();
    let mut x: usize = 0;
    while x < w
        invariant
            img.wf(),
            w == img.width,
            h == img.height,
            n == w * h,
            x <= w,
            visited@.len() == n,
            queue@ == spec_seed_upto(*img, x as int),
            forall|j: int|
                0 <= j < n ==> (visited@[j] == (img.alpha_at(j % (w as int), j / (w as int))
                    == 255 && j % (w as int) < x)),
            forall|k: int|
                0 <= k < queue@.len() ==> in_grid(
                    *img,
                    (#[trigger] queue@[k]).px as int,
                    queue@[k].py as int,
                ) && in_grid(*img, queue@[k].sx as int, queue@[k].sy as int),
        decreases w - x,
    {
        let mut y: usize = 0;
        while y < h
            invariant
                img.wf(),
                w == img.width,
                h == img.height,
                n == w * h,
                x < w,
                y <= h,
                visited@.len() == n,
                queue@ == spec_seed_upto(*img, x as int) + spec_seed_col(*img, x as int, y as int),
                forall|j: int|
                    0 <= j < n ==> (visited@[j] == (img.alpha_at(j % (w as int), j / (w as int))
                        == 255 && (j % (w as int) < x || (j % (w as int) == x && j / (w as int)
                        < y)))),
                forall|k: int|
                    0 <= k < queue@.len() ==> in_grid(
                        *img,
                        (#[trigger] queue@[k]).px as int,
                        queue@[k].py as int,
                    ) && in_grid(*img, queue@[k].sx as int, queue@[k].sy as int),
            decreases h - y,
        {
            if img.alpha(x, y) == 255 {
                proof {
                    lemma_idx_decompose(*img, x as int, y as int);
                }
                let idx = y * w + x;
                visited[idx] = true;
                queue.push_back(Entry { px: x, py: y, sx: x, sy: y });
            }
            proof {
                assert(queue@ =~= spec_seed_upto(*img, x as int) + spec_seed_col(
                    *img,
                    x as int,
                    y as int + 1,
                ));
                assert forall|j: int|
                    0 <= j < n implies visited@[j] == (img.alpha_at(j % (w as int), j / (w as int))
                        == 255 && (j % (w as int) < x || (j % (w as int) == x && j / (w as int) < y + 1)))
                by {
                    lemma_idx_decompose(*img, x as int, y as int);
                    if j != y * w + x {
                        assert(!(j % (w as int) == x && j / (w as int) == y)) by {
                            vstd::arithmetic::div_mod::lemma_fundamental_div_mod(j, w as int);
                            assert(w as int * y == y * (w as int)) by (nonlinear_arith);
                        }
                    }
                }
            }
            y += 1;
        }
        proof {
            assert(queue@ =~= spec_seed_upto(*img, x as int + 1));
            assert forall|j: int| 0 <= j < n implies #[trigger] (j / (w as int)) < h by {
                lemma_lin_bounds(*img, j);
            }
        }
        x += 1;
    }
    proof {
        assert(visited@ =~= spec_seed_visited(*img));
        assert(queue@ == spec_seed_queue(*img));
    }
    while queue.len() != 0
        invariant
            img.wf(),
            w == img.width,
            h == img.height,
            n == w * h,
            visited@.len() == n,
            out@.len() == 4 * n,
            forall|k: int|
                0 <= k < queue@.len() ==> in_grid(
                    *img,
                    (#[trigger] queue@[k]).px as int,
                    queue@[k].py as int,
                ) && in_grid(*img, queue@[k].sx as int, queue@[k].sy as int),
            spec_bfs(*img, queue@, visited@, out@) == spec_fix(*img),
        decreases count_false(visited@), queue@.len(),
    {
        let popped = queue.pop_front();
        let e = popped.unwrap();
        let ghost q0 = queue@.insert(0, e);
        let ghost vis0 = visited@;
        let ghost out0 = out@;
        proof {
            assert(q0 =~= Seq::<Entry>::empty().push(e) + queue@);
            assert(q0.skip(1) =~= queue@);
            assert(4 * ((w * h) as int) == 4 * w * h) by (nonlinear_arith);
            assert(out.len() == out@.len());
            lemma_write_in_bounds(*img, e, out@.len() as int);
            assert(0 <= e.py as int * w + e.px < n) by (nonlinear_arith)
                requires 0 <= e.px < w, 0 <= e.py < h, n == w * h;
        }
        let (cr, cg, cb, _ca) = img.rgba(e.sx, e.sy);
        let o = 4 * (e.py * w + e.px);
        out[o] = cr;
        out[o + 1] = cg;
        out[o + 2] = cb;
        out[o + 3] = 255;
        proof {
            assert(out@ =~= spec_write(*img, out0, e));
        }
        let ghost qa = queue@;
        let ghost va = visited@;
        push_neighbor(&mut queue, &mut visited, img, e, 0);
        push_neighbor(&mut queue, &mut visited, img, e, 1);
        push_neighbor(&mut queue, &mut visited, img, e, 2);
        push_neighbor(&mut queue, &mut visited, img, e, 3);
        proof {
            assert((queue@, visited@) == spec_push4(*img, qa, va, e));
            assert(spec_bfs(*img, q0, vis0, out0) == spec_bfs(*img, queue@, visited@, out@));
            lemma_push_effect(*img, qa, va, e.px - 1, e.py as int, e.sx, e.sy);
            let s1 = spec_push(*img, qa, va, e.px - 1, e.py as int, e.sx, e.sy);
            lemma_push_effect(*img, s1.0, s1.1, e.px + 1, e.py as int, e.sx, e.sy);
            let s2 = spec_push(*img, s1.0, s1.1, e.px + 1, e.py as int, e.sx, e.sy);
            lemma_push_effect(*img, s2.0, s2.1, e.px as int, e.py + 1, e.sx, e.sy);
            let s3 = spec_push(*img, s2.0, s2.1, e.px as int, e.py + 1, e.sx, e.sy);
            lemma_push_effect(*img, s3.0, s3.1, e.px as int, e.py - 1, e.sx, e.sy);
        }
    }
    proof {
        assert(spec_bfs(*img, queue@, visited@, out@) == out@);
        assert(4 * ((w * h) as int) == 4 * w * h) by (nonlinear_arith);
    }
    Image { width: w, height: h, pixels: out }
}

/// A linear index below `width * height` has coordinates inside the image.
proof fn lemma_lin_bounds(img: Image, j: int)
    requires
        0 <= j < img.width * img.height,
        img.width >= 1,
    ensures
        0 <= j % (img.width as int) < img.width,
        0 <= j / (img.width as int) < img.height,
{
    let w = img.width as int;
    vstd::arithmetic::div_mod::lemma_fundamental_div_mod(j, w);
    vstd::arithmetic::div_mod::lemma_mod_bound(j, w);
    assert(j / w < img.height) by (nonlinear_arith)
        requires
            j == w * (j / w) + j % w,
            0 <= j % w < w,
            j < img.width * img.height,
            w == img.width,
            w >= 1,
            j >= 0,
            j / w >= 0,
    ;
    vstd::arithmetic::div_mod::lemma_div_pos_is_pos(j, w);
}

/// Relates a pixel's linear index to its coordinates.
proof fn lemma_idx_decompose(img: Image, x: int, y: int)
    requires
        0 <= x < img.width,
        0 <= y < img.height,
    ensures
        0 <= y * img.width + x < img.width * img.height,
        (y * img.width + x) % img.width as int == x,
        (y * img.width + x) / img.width as int == y,
{
    assert(0 <= y * img.width + x < img.width * img.height) by (nonlinear_arith)
        requires 0 <= x < img.width, 0 <= y < img.height;
    vstd::arithmetic::div_mod::lemma_fundamental_div_mod_converse(
        y * img.width + x,
        img.width as int,
        y,
        x,
    );
}

/// Enqueues one neighbor (0 left, 1 right, 2 up, 3 down) if it is inside the
/// image and unvisited, marking it visited.
fn push_neighbor(
    queue: &mut VecDeque<Entry>,
    visited: &mut Vec<bool>,
    img: &Image,
    e: Entry,
    dir: u8,
)
    requires
        img.wf(),
        in_grid(*img, e.px as int, e.py as int),
        in_grid(*img, e.sx as int, e.sy as int),
        old(visited)@.len() == img.width * img.height,
        dir < 4,
    ensures
        ({
            let (nx, ny): (int, int) = if dir == 0 {
                (e.px - 1, e.py as int)
            } else if dir == 1 {
                (e.px + 1, e.py as int)
            } else if dir == 2 {
                (e.px as int, e.py + 1)
            } else {
                (e.px as int, e.py - 1)
            };
            (final(queue)@, final(visited)@) == spec_push(
                *img,
                old(queue)@,
                old(visited)@,
                nx,
                ny,
                e.sx,
                e.sy,
            )
        }),
        final(visited)@.len() == old(visited)@.len(),
        forall|k: int|
            0 <= k < old(queue)@.len() ==> final(queue)@[k] == old(queue)@[k],
        forall|k: int|
            old(queue)@.len() <= k < final(queue)@.len() ==> in_grid(
                *img,
                (#[trigger] final(queue)@[k]).px as int,
                final(queue)@[k].py as int,
            ) && in_grid(*img, final(queue)@[k].sx as int, final(queue)@[k].sy as int),
{
    let w = img.width;
    let h = img.height;
    let in_bounds: bool;
    let mut nx: usize = 0;
    let mut ny: usize = 0;
    if dir == 0 {
        if e.px > 0 {
            in_bounds = true;
            nx = e.px - 1;
            ny = e.py;
        } else {
            in_bounds = false;
        }
    } else if dir == 1 {
        if e.px + 1 < w {
            in_bounds = true;
            nx = e.px + 1;
            ny = e.py;
        } else {
            in_bounds = false;
        }
    } else if dir == 2 {
        if e.py + 1 < h {
            in_bounds = true;
            nx = e.px;
            ny = e.py + 1;
        } else {
            in_bounds = false;
        }
    } else {
        if e.py > 0 {
            in_bounds = true;
            nx = e.px;
            ny = e.py - 1;
        } else {
            in_bounds = false;
        }
    }
    if in_bounds {
        proof {
            lemma_idx_decompose(*img, nx as int, ny as int);
            assert(visited.len() == visited@.len());
        }
        let idx = ny * w + nx;
        if !visited[idx] {
            visited[idx] = true;
            queue.push_back(Entry { px: nx, py: ny, sx: e.sx, sy: e.sy });
        }
    }
}

/// The four bytes written for an in-grid entry lie inside the canvas.
proof fn lemma_write_in_bounds(img: Image, e: Entry, len: int)
    requires
        in_grid(img, e.px as int, e.py as int),
        len == 4 * img.width * img.height,
    ensures
        0 <= 4 * pix_idx(img, e.px as int, e.py as int),
        4 * pix_idx(img, e.px as int, e.py as int) + 3 < len,
{
    assert(0 <= e.py as int * img.width + e.px && e.py as int * img.width + e.px
        < img.width * img.height) by (nonlinear_arith)
        requires 0 <= e.px < img.width, 0 <= e.py < img.height;
    assert(4 * (img.width * img.height) == 4 * img.width * img.height) by (nonlinear_arith);
}

/// The canvas holds color `c` with full alpha at pixel `(px, py)`.
pub open spec fn out_has_color(img: Image, out: Seq<u8>, px: int, py: int, c: (u8, u8, u8)) -> bool {
    let o = 4 * pix_idx(img, px, py);
    out[o] == c.0 && out[o + 1] == c.1 && out[o + 2] == c.2 && out[o + 3] == 255u8
}

/// The pixel appears in the queue.
pub open spec fn in_queue(q: Seq<Entry>, px: int, py: int) -> bool {
    exists|k: int| 0 <= k < q.len() && (#[trigger] q[k]).px == px && q[k].py == py
}

/// Every in-grid neighbor of the pixel is visited.
pub open spec fn neighbors_visited(img: Image, vis: Seq<bool>, px: int, py: int) -> bool {
    &&& (px > 0 ==> vis[pix_idx(img, px - 1, py)])
    &&& (px + 1 < img.width ==> vis[pix_idx(img, px + 1, py)])
    &&& (py + 1 < img.height ==> vis[pix_idx(img, px, py + 1)])
    &&& (py > 0 ==> vis[pix_idx(img, px, py - 1)])
}

/// The red, green and blue bytes of the seed pixel.
pub open spec fn seed_color(img: Image, sx: int, sy: int) -> (u8, u8, u8) {
    let c = img.rgba_at(sx, sy);
    (c.0, c.1, c.2)
}

/// The invariant of the single-seed fill: all queued entries carry the seed
/// as their source and are visited, queued pixels are distinct, and every
/// visited pixel that has left the queue already holds the seed color and
/// has all its neighbors visited.
pub open spec fn bfs_inv(
    img: Image,
    q: Seq<Entry>,
    vis: Seq<bool>,
    out: Seq<u8>,
    sx: int,
    sy: int,
) -> bool {
    &&& img.wf()
    &&& 1 <= img.width
    &&& 1 <= img.height
    &&& vis.len() == img.width * img.height
    &&& out.len() == 4 * img.width * img.height
    &&& in_grid(img, sx, sy)
    &&& vis[pix_idx(img, sx, sy)]
    &&& forall|k: int|
        0 <= k < q.len() ==> in_grid(img, (#[trigger] q[k]).px as int, q[k].py as int)
            && q[k].sx == sx && q[k].sy == sy && vis[pix_idx(img, q[k].px as int, q[k].py as int)]
    &&& forall|k: int, l: int|
        0 <= k < q.len() && 0 <= l < q.len() && k != l ==> ((#[trigger] q[k]).px, q[k].py) != (
        (#[trigger] q[l]).px,
        q[l].py,
        )
    &&& forall|px: int, py: int|
        in_grid(img, px, py) && #[trigger] vis[pix_idx(img, px, py)] && !in_queue(q, px, py)
            ==> out_has_color(img, out, px, py, seed_color(img, sx, sy)) && neighbors_visited(
            img,
            vis,
            px,
            py,
        )
}

/// Two distinct in-grid pixels have distinct linear indices.
proof fn lemma_idx_inj(img: Image, ax: int, ay: int, bx: int, by: int)
    requires
        in_grid(img, ax, ay),
        in_grid(img, bx, by),
        (ax, ay) != (bx, by),
    ensures
        pix_idx(img, ax, ay) != pix_idx(img, bx, by),
{
    lemma_idx_decompose(img, ax, ay);
    lemma_idx_decompose(img, bx, by);
}

/// One push keeps the queue invariant bundle and visits its target.
proof fn lemma_push_keeps(
    img: Image,
    q: Seq<Entry>,
    vis: Seq<bool>,
    px: int,
    py: int,
    sx: int,
    sy: int,
)
    requires
        img.wf(),
        1 <= img.width,
        1 <= img.height,
        vis.len() == img.width * img.height,
        in_grid(img, sx, sy),
        forall|k: int|
            0 <= k < q.len() ==> in_grid(img, (#[trigger] q[k]).px as int, q[k].py as int)
                && q[k].sx == sx && q[k].sy == sy && vis[pix_idx(
                img,
                q[k].px as int,
                q[k].py as int,
            )],
        forall|k: int, l: int|
            0 <= k < q.len() && 0 <= l < q.len() && k != l ==> ((#[trigger] q[k]).px, q[k].py) != (
            (#[trigger] q[l]).px,
            q[l].py,
            ),
        forall|a: int, b: int|
            in_grid(img, a, b) && #[trigger] vis[pix_idx(img, a, b)] && !in_queue(q, a, b)
                ==> in_queue(q, a, b) || vis[pix_idx(img, a, b)],
    ensures
        ({
            let s = spec_push(img, q, vis, px, py, sx as usize, sy as usize);
            &&& s.1.len() == vis.len()
            &&& forall|i: int| 0 <= i < vis.len() && vis[i] ==> #[trigger] s.1[i]
            &&& (in_grid(img, px, py) ==> s.1[pix_idx(img, px, py)])
            &&& forall|k: int|
                0 <= k < s.0.len() ==> in_grid(img, (#[trigger] s.0[k]).px as int, s.0[k].py as int)
                    && s.0[k].sx == sx && s.0[k].sy == sy && s.1[pix_idx(
                    img,
                    s.0[k].px as int,
                    s.0[k].py as int,
                )]
            &&& forall|k: int, l: int|
                0 <= k < s.0.len() && 0 <= l < s.0.len() && k != l ==> ((#[trigger] s.0[k]).px,
                s.0[k].py) != ((#[trigger] s.0[l]).px, s.0[l].py)
            &&& forall|a: int, b: int|
                #[trigger] in_queue(s.0, a, b) ==> in_queue(q, a, b) || (a == px && b == py)
            &&& forall|a: int, b: int| #[trigger] in_queue(q, a, b) ==> in_queue(s.0, a, b)
            &&& forall|a: int, b: int|
                in_grid(img, a, b) && #[trigger] s.1[pix_idx(img, a, b)] && !vis[pix_idx(
                    img,
                    a,
                    b,
                )] ==> in_queue(s.0, a, b)
        }),
{
    let i = pix_idx(img, px, py);
    let s = spec_push(img, q, vis, px, py, sx as usize, sy as usize);
    if in_grid(img, px, py) {
        lemma_idx_decompose(img, px, py);
    }
    if in_grid(img, px, py) && 0 <= i < vis.len() && !vis[i] {
        let newe = Entry { px: px as usize, py: py as usize, sx: sx as usize, sy: sy as usize };
        assert(s.0 == q.push(newe) && s.1 == vis.update(i, true));
        assert(s.0[q.len() as int] == newe);
        assert forall|k: int|
            0 <= k < s.0.len() implies in_grid(
            img,
            (#[trigger] s.0[k]).px as int,
            s.0[k].py as int,
        ) && s.0[k].sx == sx && s.0[k].sy == sy && s.1[pix_idx(
            img,
            s.0[k].px as int,
            s.0[k].py as int,
        )] by {
            if k < q.len() {
                assert(s.0[k] == q[k]);
                lemma_idx_decompose(img, q[k].px as int, q[k].py as int);
                assert(vis[pix_idx(img, q[k].px as int, q[k].py as int)]);
            } else {
                assert(s.0[k] == newe);
            }
        }
        assert forall|k: int, l: int|
            0 <= k < s.0.len() && 0 <= l < s.0.len() && k != l implies ((#[trigger] s.0[k]).px,
        s.0[k].py) != ((#[trigger] s.0[l]).px, s.0[l].py) by {
            if l == q.len() as int && 0 <= k < q.len() {
                assert(s.0[k] == q[k]);
                assert(vis[pix_idx(img, q[k].px as int, q[k].py as int)]);
                lemma_idx_inj_or_same(img, q[k].px as int, q[k].py as int, px, py);
            } else if k == q.len() as int && 0 <= l < q.len() {
                assert(s.0[l] == q[l]);
                assert(vis[pix_idx(img, q[l].px as int, q[l].py as int)]);
                lemma_idx_inj_or_same(img, q[l].px as int, q[l].py as int, px, py);
            } else {
                assert(s.0[k] == q[k] && s.0[l] == q[l]);
            }
        }
        assert forall|a: int, b: int| #[trigger] in_queue(s.0, a, b) implies in_queue(q, a, b) || (
        a == px && b == py) by {
            let k = choose|k: int|
                0 <= k < s.0.len() && (#[trigger] s.0[k]).px == a && s.0[k].py == b;
            if k < q.len() {
                assert(q[k].px == a && q[k].py == b);
                assert(in_queue(q, a, b));
            }
        }
        assert forall|a: int, b: int| #[trigger] in_queue(q, a, b) implies in_queue(
            s.0,
            a,
            b,
        ) by {
            let k = choose|k: int| 0 <= k < q.len() && (#[trigger] q[k]).px == a && q[k].py == b;
            assert(s.0[k].px == a && s.0[k].py == b);
        }
        assert forall|a: int, b: int|
            in_grid(img, a, b) && #[trigger] s.1[pix_idx(img, a, b)] && !vis[pix_idx(
                img,
                a,
                b,
            )] implies in_queue(s.0, a, b) by {
            lemma_idx_decompose(img, a, b);
            lemma_idx_inj_or_same(img, a, b, px, py);
            assert(a == px && b == py);
            assert(s.0[q.len() as int].px == a && s.0[q.len() as int].py == b);
        }
    } else {
        assert(s.0 == q && s.1 == vis);
    }
}

/// Helper: either the indices differ or the pixels are the same.
proof fn lemma_idx_inj_or_same(img: Image, ax: int, ay: int, bx: int, by: int)
    requires
        in_grid(img, ax, ay),
        in_grid(img, bx, by),
    ensures
        pix_idx(img, ax, ay) == pix_idx(img, bx, by) ==> (ax, ay) == (bx, by),
{
    lemma_idx_decompose(img, ax, ay);
    lemma_idx_decompose(img, bx, by);
}

/// Once the visited set is closed under adjacency and holds the seed, it
/// holds every pixel of the grid.
proof fn lemma_reach(img: Image, vis: Seq<bool>, sx: int, sy: int, px: int, py: int)
    requires
        img.wf(),
        vis.len() == img.width * img.height,
        in_grid(img, sx, sy),
        in_grid(img, px, py),
        vis[pix_idx(img, sx, sy)],
        forall|a: int, b: int|
            in_grid(img, a, b) && #[trigger] vis[pix_idx(img, a, b)] ==> neighbors_visited(
                img,
                vis,
                a,
                b,
            ),
    ensures
        vis[pix_idx(img, px, py)],
    decreases (if px <= sx { sx - px } else { px - sx }) + (if py <= sy { sy - py } else { py - sy }),
{
    if px == sx && py == sy {
    } else if px < sx {
        lemma_reach(img, vis, sx, sy, px + 1, py);
        assert(neighbors_visited(img, vis, px + 1, py));
    } else if px > sx {
        lemma_reach(img, vis, sx, sy, px - 1, py);
        assert(neighbors_visited(img, vis, px - 1, py));
    } else if py < sy {
        lemma_reach(img, vis, sx, sy, px, py + 1);
        assert(neighbors_visited(img, vis, px, py + 1));
    } else {
        lemma_reach(img, vis, sx, sy, px, py - 1);
        assert(neighbors_visited(img, vis, px, py - 1));
    }
}

/// The single-seed fill law: from any state that satisfies the invariant,
/// the finished canvas holds the seed's color at every pixel.
pub proof fn lemma_bfs_single(
    img: Image,
    q: Seq<Entry>,
    vis: Seq<bool>,
    out: Seq<u8>,
    sx: int,
    sy: int,
)
    requires
        bfs_inv(img, q, vis, out, sx, sy),
    ensures
        forall|px: int, py: int|
            in_grid(img, px, py) ==> out_has_color(
                img,
                spec_bfs(img, q, vis, out),
                px,
                py,
                seed_color(img, sx, sy),
            ),
    decreases count_false(vis), q.len(),
{
    if q.len() == 0 {
        assert(spec_bfs(img, q, vis, out) == out);
        assert forall|px: int, py: int| in_grid(img, px, py) implies out_has_color(
            img,
            out,
            px,
            py,
            seed_color(img, sx, sy),
        ) by {
            assert forall|a: int, b: int|
                in_grid(img, a, b) && #[trigger] vis[pix_idx(img, a, b)] implies neighbors_visited(
                img,
                vis,
                a,
                b,
            ) by {
                assert(!in_queue(q, a, b));
            }
            lemma_reach(img, vis, sx, sy, px, py);
            assert(!in_queue(q, px, py));
        }
    } else {
        let e = q[0];
        let rest = q.skip(1);
        let out1 = spec_write(img, out, e);
        let s1 = spec_push(img, rest, vis, e.px - 1, e.py as int, e.sx, e.sy);
        let s2 = spec_push(img, s1.0, s1.1, e.px + 1, e.py as int, e.sx, e.sy);
        let s3 = spec_push(img, s2.0, s2.1, e.px as int, e.py + 1, e.sx, e.sy);
        let s4 = spec_push(img, s3.0, s3.1, e.px as int, e.py - 1, e.sx, e.sy);
        lemma_push_effect(img, rest, vis, e.px - 1, e.py as int, e.sx, e.sy);
        lemma_push_effect(img, s1.0, s1.1, e.px + 1, e.py as int, e.sx, e.sy);
        lemma_push_effect(img, s2.0, s2.1, e.px as int, e.py + 1, e.sx, e.sy);
        lemma_push_effect(img, s3.0, s3.1, e.px as int, e.py - 1, e.sx, e.sy);
        lemma_push_keeps(img, rest, vis, e.px - 1, e.py as int, sx, sy);
        lemma_push_keeps(img, s1.0, s1.1, e.px + 1, e.py as int, sx, sy);
        lemma_push_keeps(img, s2.0, s2.1, e.px as int, e.py + 1, sx, sy);
        lemma_push_keeps(img, s3.0, s3.1, e.px as int, e.py - 1, sx, sy);
        lemma_write_in_bounds(img, e, out.len() as int);
        lemma_idx_decompose(img, e.px as int, e.py as int);
        assert(bfs_inv(img, s4.0, s4.1, out1, sx, sy)) by {
            lemma_bfs_step_inv(img, q, vis, out, sx, sy);
        }
        lemma_bfs_single(img, s4.0, s4.1, out1, sx, sy);
    }
}

/// One step of the fill preserves the invariant.
proof fn lemma_bfs_step_inv(
    img: Image,
    q: Seq<Entry>,
    vis: Seq<bool>,
    out: Seq<u8>,
    sx: int,
    sy: int,
)
    requires
        bfs_inv(img, q, vis, out, sx, sy),
        q.len() > 0,
    ensures
        ({
            let e = q[0];
            let rest = q.skip(1);
            let out1 = spec_write(img, out, e);
            let s = spec_push4(img, rest, vis, e);
            bfs_inv(img, s.0, s.1, out1, sx, sy)
        }),
{
    let e = q[0];
    let rest = q.skip(1);
    let out1 = spec_write(img, out, e);
    let s1 = spec_push(img, rest, vis, e.px - 1, e.py as int, e.sx, e.sy);
    let s2 = spec_push(img, s1.0, s1.1, e.px + 1, e.py as int, e.sx, e.sy);
    let s3 = spec_push(img, s2.0, s2.1, e.px as int, e.py + 1, e.sx, e.sy);
    let s4 = spec_push(img, s3.0, s3.1, e.px as int, e.py - 1, e.sx, e.sy);
    lemma_push_keeps(img, rest, vis, e.px - 1, e.py as int, sx, sy);
    lemma_push_keeps(img, s1.0, s1.1, e.px + 1, e.py as int, sx, sy);
    lemma_push_keeps(img, s2.0, s2.1, e.px as int, e.py + 1, sx, sy);
    lemma_push_keeps(img, s3.0, s3.1, e.px as int, e.py - 1, sx, sy);
    lemma_write_in_bounds(img, e, out.len() as int);
    lemma_idx_decompose(img, e.px as int, e.py as int);
    let ex = e.px as int;
    let ey = e.py as int;
    let seedc = seed_color(img, sx, sy);
    lemma_idx_decompose(img, sx, sy);
    assert(s4.1[pix_idx(img, sx, sy)]);
    assert(out1.len() == out.len());
    // the freshly written pixel holds the seed color
    assert(e.sx == sx && e.sy == sy);
    assert(out_has_color(img, out1, ex, ey, seedc));
    // the written pixel's neighbors are all visited after the four pushes
    assert(neighbors_visited(img, s4.1, ex, ey)) by {
        if ex > 0 {
            lemma_idx_decompose(img, ex - 1, ey);
            assert(s1.1[pix_idx(img, ex - 1, ey)]);
        }
        if ex + 1 < img.width {
            lemma_idx_decompose(img, ex + 1, ey);
            assert(s2.1[pix_idx(img, ex + 1, ey)]);
        }
        if ey + 1 < img.height {
            lemma_idx_decompose(img, ex, ey + 1);
            assert(s3.1[pix_idx(img, ex, ey + 1)]);
        }
        if ey > 0 {
            lemma_idx_decompose(img, ex, ey - 1);
            assert(s4.1[pix_idx(img, ex, ey - 1)]);
        }
    }
    // processed pixels keep their color and closure
    assert forall|px: int, py: int|
        in_grid(img, px, py) && #[trigger] s4.1[pix_idx(img, px, py)] && !in_queue(s4.0, px, py)
            implies out_has_color(img, out1, px, py, seedc) && neighbors_visited(
        img,
        s4.1,
        px,
        py,
    ) by {
        if px == ex && py == ey {
        } else {
            // a pixel processed before this step
            assert(!in_queue(q, px, py) ==> !in_queue(rest, px, py));
            if s4.1[pix_idx(img, px, py)] && !vis[pix_idx(img, px, py)] {
                // freshly visited pixels were pushed, so they are in the queue
                assert(in_queue(s4.0, px, py));
            } else {
                assert(vis[pix_idx(img, px, py)]);
                if in_queue(q, px, py) {
                    let k = choose|k: int|
                        0 <= k < q.len() && (#[trigger] q[k]).px == px && q[k].py == py;
                    assert(k != 0);
                    assert(rest[k - 1] == q[k]);
                    assert(in_queue(rest, px, py));
                    assert(in_queue(s4.0, px, py));
                } else {
                    // was processed: color preserved because the write is at
                    // a different pixel
                    lemma_idx_inj(img, px, py, ex, ey);
                    lemma_write_in_bounds(
                        img,
                        Entry { px: px as usize, py: py as usize, sx: 0, sy: 0 },
                        out.len() as int,
                    );
                    assert(out_has_color(img, out, px, py, seedc));
                    assert(out_has_color(img, out1, px, py, seedc));
                    assert(neighbors_visited(img, vis, px, py));
                    if px > 0 {
                        lemma_idx_decompose(img, px - 1, py);
                    }
                    if px + 1 < img.width {
                        lemma_idx_decompose(img, px + 1, py);
                    }
                    if py + 1 < img.height {
                        lemma_idx_decompose(img, px, py + 1);
                    }
                    if py > 0 {
                        lemma_idx_decompose(img, px, py - 1);
                    }
                    assert(neighbors_visited(img, s4.1, px, py));
                }
            }
        }
    }
}


/// Exactly one pixel of the image is fully opaque.
pub open spec fn single_opaque(img: Image, sx: int, sy: int) -> bool {
    &&& in_grid(img, sx, sy)
    &&& img.alpha_at(sx, sy) == 255
    &&& forall|a: int, b: int|
        in_grid(img, a, b) && #[trigger] img.alpha_at(a, b) == 255 ==> a == sx && b == sy
}

proof fn lemma_seed_col_single(img: Image, sx: int, sy: int, x: int, y_end: int)
    requires
        img.wf(),
        single_opaque(img, sx, sy),
        0 <= x < img.width,
        y_end <= img.height,
    ensures
        spec_seed_col(img, x, y_end) == (if x == sx && 0 <= sy < y_end {
            seq![
                Entry { px: sx as usize, py: sy as usize, sx: sx as usize, sy: sy as usize },
            ]
        } else {
            Seq::<Entry>::empty()
        }),
    decreases y_end,
{
    if y_end > 0 {
        lemma_seed_col_single(img, sx, sy, x, y_end - 1);
        if img.alpha_at(x, y_end - 1) == 255 {
            assert(x == sx && y_end - 1 == sy);
            assert(spec_seed_col(img, x, y_end) =~= seq![
                Entry { px: sx as usize, py: sy as usize, sx: sx as usize, sy: sy as usize },
            ]);
        } else {
            assert(spec_seed_col(img, x, y_end) =~= spec_seed_col(img, x, y_end - 1));
        }
    }
}

proof fn lemma_seed_upto_single(img: Image, sx: int, sy: int, x_end: int)
    requires
        img.wf(),
        single_opaque(img, sx, sy),
        x_end <= img.width,
    ensures
        spec_seed_upto(img, x_end) == (if sx < x_end {
            seq![
                Entry { px: sx as usize, py: sy as usize, sx: sx as usize, sy: sy as usize },
            ]
        } else {
            Seq::<Entry>::empty()
        }),
    decreases x_end,
{
    if x_end > 0 {
        lemma_seed_upto_single(img, sx, sy, x_end - 1);
        lemma_seed_col_single(img, sx, sy, x_end - 1, img.height as int);
        if sx == x_end - 1 {
            assert(spec_seed_upto(img, x_end) =~= seq![
                Entry { px: sx as usize, py: sy as usize, sx: sx as usize, sy: sy as usize },
            ]);
        } else if sx < x_end - 1 {
            assert(spec_seed_upto(img, x_end) =~= seq![
                Entry { px: sx as usize, py: sy as usize, sx: sx as usize, sy: sy as usize },
            ]);
        } else {
            assert(spec_seed_upto(img, x_end) =~= Seq::<Entry>::empty());
        }
    }
}

/// Texture repair round trip: on an image with exactly one fully opaque
/// pixel, every pixel of the repaired canvas holds that pixel's color, with
/// full alpha.
pub proof fn lemma_single_opaque_fix(img: Image, sx: int, sy: int)
    requires
        img.wf(),
        1 <= img.width,
        1 <= img.height,
        single_opaque(img, sx, sy),
    ensures
        forall|px: int, py: int|
            in_grid(img, px, py) ==> out_has_color(
                img,
                spec_fix(img),
                px,
                py,
                seed_color(img, sx, sy),
            ),
{
    let q = spec_seed_queue(img);
    let vis = spec_seed_visited(img);
    let out = spec_sentinel(img);
    lemma_seed_upto_single(img, sx, sy, img.width as int);
    lemma_idx_decompose(img, sx, sy);
    assert(q == seq![
        Entry { px: sx as usize, py: sy as usize, sx: sx as usize, sy: sy as usize },
    ]);
    assert(vis[pix_idx(img, sx, sy)]);
    assert(bfs_inv(img, q, vis, out, sx, sy)) by {
        assert forall|px: int, py: int|
            in_grid(img, px, py) && #[trigger] vis[pix_idx(img, px, py)] && !in_queue(q, px, py)
                implies out_has_color(img, out, px, py, seed_color(img, sx, sy))
                && neighbors_visited(img, vis, px, py) by {
            lemma_idx_decompose(img, px, py);
            assert(img.alpha_at(px, py) == 255);
            assert(px == sx && py == sy);
            assert(q[0].px == px && q[0].py == py);
            assert(in_queue(q, px, py));
        }
    }
    lemma_bfs_single(img, q, vis, out, sx, sy);
}


/// The pixel at `(a, b)` lies in the image and is fully opaque.
pub open spec fn opaque_at(img: Image, a: int, b: int) -> bool {
    in_grid(img, a, b) && img.alpha_at(a, b) == 255
}

/// The canvas holds, at `(px, py)`, the color of some fully opaque pixel of
/// the source image, with full alpha.
pub open spec fn holds_opaque_color(img: Image, out: Seq<u8>, px: int, py: int) -> bool {
    exists|a: int, b: int|
        #[trigger] opaque_at(img, a, b) && out_has_color(img, out, px, py, seed_color(img, a, b))
}

/// The invariant of the multi-source fill: every queued entry carries a fully
/// opaque source and is visited, queued pixels are distinct, some visited
/// anchor pixel exists, and every visited pixel that has left the queue
/// already holds an opaque source's color and has all its neighbors visited.
pub open spec fn bfs_inv_multi(
    img: Image,
    q: Seq<Entry>,
    vis: Seq<bool>,
    out: Seq<u8>,
    sx: int,
    sy: int,
) -> bool {
    &&& img.wf()
    &&& 1 <= img.width
    &&& 1 <= img.height
    &&& vis.len() == img.width * img.height
    &&& out.len() == 4 * img.width * img.height
    &&& in_grid(img, sx, sy)
    &&& vis[pix_idx(img, sx, sy)]
    &&& forall|k: int|
        0 <= k < q.len() ==> in_grid(img, (#[trigger] q[k]).px as int, q[k].py as int)
            && opaque_at(img, q[k].sx as int, q[k].sy as int) && vis[pix_idx(
            img,
            q[k].px as int,
            q[k].py as int,
        )]
    &&& forall|k: int, l: int|
        0 <= k < q.len() && 0 <= l < q.len() && k != l ==> ((#[trigger] q[k]).px, q[k].py) != (
        (#[trigger] q[l]).px,
        q[l].py,
        )
    &&& forall|px: int, py: int|
        in_grid(img, px, py) && #[trigger] vis[pix_idx(img, px, py)] && !in_queue(q, px, py)
            ==> holds_opaque_color(img, out, px, py) && neighbors_visited(img, vis, px, py)
}

/// One push keeps the multi-source queue bundle and visits its target.
proof fn lemma_push_keeps_any(
    img: Image,
    q: Seq<Entry>,
    vis: Seq<bool>,
    px: int,
    py: int,
    sx: int,
    sy: int,
)
    requires
        img.wf(),
        1 <= img.width,
        1 <= img.height,
        vis.len() == img.width * img.height,
        opaque_at(img, sx, sy),
        forall|k: int|
            0 <= k < q.len() ==> in_grid(img, (#[trigger] q[k]).px as int, q[k].py as int)
                && opaque_at(img, q[k].sx as int, q[k].sy as int) && vis[pix_idx(
                img,
                q[k].px as int,
                q[k].py as int,
            )],
        forall|k: int, l: int|
            0 <= k < q.len() && 0 <= l < q.len() && k != l ==> ((#[trigger] q[k]).px, q[k].py) != (
            (#[trigger] q[l]).px,
            q[l].py,
            ),
        -1 <= px <= img.width,
        -1 <= py <= img.height,
    ensures
        ({
            let s = spec_push(img, q, vis, px, py, sx as usize, sy as usize);
            &&& s.1.len() == vis.len()
            &&& forall|i: int| 0 <= i < vis.len() && vis[i] ==> #[trigger] s.1[i]
            &&& (in_grid(img, px, py) ==> s.1[pix_idx(img, px, py)])
            &&& forall|k: int|
                0 <= k < s.0.len() ==> in_grid(img, (#[trigger] s.0[k]).px as int, s.0[k].py as int)
                    && opaque_at(img, s.0[k].sx as int, s.0[k].sy as int) && s.1[pix_idx(
                    img,
                    s.0[k].px as int,
                    s.0[k].py as int,
                )]
            &&& forall|k: int, l: int|
                0 <= k < s.0.len() && 0 <= l < s.0.len() && k != l ==> ((#[trigger] s.0[k]).px,
                s.0[k].py) != ((#[trigger] s.0[l]).px, s.0[l].py)
            &&& forall|a: int, b: int|
                #[trigger] in_queue(s.0, a, b) ==> in_queue(q, a, b) || (a == px && b == py)
            &&& forall|a: int, b: int| #[trigger] in_queue(q, a, b) ==> in_queue(s.0, a, b)
            &&& forall|a: int, b: int|
                in_grid(img, a, b) && #[trigger] s.1[pix_idx(img, a, b)] && !vis[pix_idx(
                    img,
                    a,
                    b,
                )] ==> in_queue(s.0, a, b)
        }),
{
    let i = pix_idx(img, px, py);
    let s = spec_push(img, q, vis, px, py, sx as usize, sy as usize);
    if in_grid(img, px, py) {
        lemma_idx_decompose(img, px, py);
    }
    if in_grid(img, px, py) && 0 <= i < vis.len() && !vis[i] {
        let newe = Entry { px: px as usize, py: py as usize, sx: sx as usize, sy: sy as usize };
        assert(s.0 == q.push(newe) && s.1 == vis.update(i, true));
        assert(s.0[q.len() as int] == newe);
        assert forall|k: int|
            0 <= k < s.0.len() implies in_grid(
            img,
            (#[trigger] s.0[k]).px as int,
            s.0[k].py as int,
        ) && opaque_at(img, s.0[k].sx as int, s.0[k].sy as int) && s.1[pix_idx(
            img,
            s.0[k].px as int,
            s.0[k].py as int,
        )] by {
            if k < q.len() {
                assert(s.0[k] == q[k]);
                lemma_idx_decompose(img, q[k].px as int, q[k].py as int);
                assert(vis[pix_idx(img, q[k].px as int, q[k].py as int)]);
            } else {
                assert(s.0[k] == newe);
            }
        }
        assert forall|k: int, l: int|
            0 <= k < s.0.len() && 0 <= l < s.0.len() && k != l implies ((#[trigger] s.0[k]).px,
        s.0[k].py) != ((#[trigger] s.0[l]).px, s.0[l].py) by {
            if l == q.len() as int && 0 <= k < q.len() {
                assert(s.0[k] == q[k]);
                assert(vis[pix_idx(img, q[k].px as int, q[k].py as int)]);
                lemma_idx_inj_or_same(img, q[k].px as int, q[k].py as int, px, py);
            } else if k == q.len() as int && 0 <= l < q.len() {
                assert(s.0[l] == q[l]);
                assert(vis[pix_idx(img, q[l].px as int, q[l].py as int)]);
                lemma_idx_inj_or_same(img, q[l].px as int, q[l].py as int, px, py);
            } else {
                assert(s.0[k] == q[k] && s.0[l] == q[l]);
            }
        }
        assert forall|a: int, b: int| #[trigger] in_queue(s.0, a, b) implies in_queue(q, a, b) || (
        a == px && b == py) by {
            let k = choose|k: int|
                0 <= k < s.0.len() && (#[trigger] s.0[k]).px == a && s.0[k].py == b;
            if k < q.len() {
                assert(q[k].px == a && q[k].py == b);
                assert(in_queue(q, a, b));
            }
        }
        assert forall|a: int, b: int| #[trigger] in_queue(q, a, b) implies in_queue(
            s.0,
            a,
            b,
        ) by {
            let k = choose|k: int| 0 <= k < q.len() && (#[trigger] q[k]).px == a && q[k].py == b;
            assert(s.0[k].px == a && s.0[k].py == b);
        }
        assert forall|a: int, b: int|
            in_grid(img, a, b) && #[trigger] s.1[pix_idx(img, a, b)] && !vis[pix_idx(
                img,
                a,
                b,
            )] implies in_queue(s.0, a, b) by {
            lemma_idx_decompose(img, a, b);
            lemma_idx_inj_or_same(img, a, b, px, py);
            assert(a == px && b == py);
            assert(s.0[q.len() as int].px == a && s.0[q.len() as int].py == b);
        }
    } else {
        assert(s.0 == q && s.1 == vis);
    }
}


/// One step of the multi-source fill preserves the invariant.
proof fn lemma_bfs_step_inv_multi(
    img: Image,
    q: Seq<Entry>,
    vis: Seq<bool>,
    out: Seq<u8>,
    sx: int,
    sy: int,
)
    requires
        bfs_inv_multi(img, q, vis, out, sx, sy),
        q.len() > 0,
    ensures
        ({
            let e = q[0];
            let rest = q.skip(1);
            let out1 = spec_write(img, out, e);
            let s = spec_push4(img, rest, vis, e);
            bfs_inv_multi(img, s.0, s.1, out1, sx, sy)
        }),
{
    let e = q[0];
    let rest = q.skip(1);
    let out1 = spec_write(img, out, e);
    let s1 = spec_push(img, rest, vis, e.px - 1, e.py as int, e.sx, e.sy);
    let s2 = spec_push(img, s1.0, s1.1, e.px + 1, e.py as int, e.sx, e.sy);
    let s3 = spec_push(img, s2.0, s2.1, e.px as int, e.py + 1, e.sx, e.sy);
    let s4 = spec_push(img, s3.0, s3.1, e.px as int, e.py - 1, e.sx, e.sy);
    lemma_push_keeps_any(img, rest, vis, e.px - 1, e.py as int, e.sx as int, e.sy as int);
    lemma_push_keeps_any(img, s1.0, s1.1, e.px + 1, e.py as int, e.sx as int, e.sy as int);
    lemma_push_keeps_any(img, s2.0, s2.1, e.px as int, e.py + 1, e.sx as int, e.sy as int);
    lemma_push_keeps_any(img, s3.0, s3.1, e.px as int, e.py - 1, e.sx as int, e.sy as int);
    lemma_write_in_bounds(img, e, out.len() as int);
    lemma_idx_decompose(img, e.px as int, e.py as int);
    lemma_idx_decompose(img, sx, sy);
    assert(s4.1[pix_idx(img, sx, sy)]);
    assert(out1.len() == out.len());
    let ex = e.px as int;
    let ey = e.py as int;
    // the freshly written pixel holds its own opaque source's color
    assert(opaque_at(img, e.sx as int, e.sy as int));
    assert(out_has_color(img, out1, ex, ey, seed_color(img, e.sx as int, e.sy as int)));
    assert(holds_opaque_color(img, out1, ex, ey));
    assert(neighbors_visited(img, s4.1, ex, ey)) by {
        if ex > 0 {
            lemma_idx_decompose(img, ex - 1, ey);
            assert(s1.1[pix_idx(img, ex - 1, ey)]);
        }
        if ex + 1 < img.width {
            lemma_idx_decompose(img, ex + 1, ey);
            assert(s2.1[pix_idx(img, ex + 1, ey)]);
        }
        if ey + 1 < img.height {
            lemma_idx_decompose(img, ex, ey + 1);
            assert(s3.1[pix_idx(img, ex, ey + 1)]);
        }
        if ey > 0 {
            lemma_idx_decompose(img, ex, ey - 1);
            assert(s4.1[pix_idx(img, ex, ey - 1)]);
        }
    }
    assert forall|px: int, py: int|
        in_grid(img, px, py) && #[trigger] s4.1[pix_idx(img, px, py)] && !in_queue(s4.0, px, py)
            implies holds_opaque_color(img, out1, px, py) && neighbors_visited(
        img,
        s4.1,
        px,
        py,
    ) by {
        if px == ex && py == ey {
        } else {
            if s4.1[pix_idx(img, px, py)] && !vis[pix_idx(img, px, py)] {
                assert(in_queue(s4.0, px, py));
            } else {
                assert(vis[pix_idx(img, px, py)]);
                if in_queue(q, px, py) {
                    let k = choose|k: int|
                        0 <= k < q.len() && (#[trigger] q[k]).px == px && q[k].py == py;
                    assert(k != 0);
                    assert(rest[k - 1] == q[k]);
                    assert(in_queue(rest, px, py));
                    assert(in_queue(s4.0, px, py));
                } else {
                    // a pixel processed earlier: its bytes are untouched by
                    // the write at a different pixel
                    lemma_idx_inj(img, px, py, ex, ey);
                    lemma_write_in_bounds(
                        img,
                        Entry { px: px as usize, py: py as usize, sx: 0, sy: 0 },
                        out.len() as int,
                    );
                    assert(holds_opaque_color(img, out, px, py));
                    let (a, b) = choose|a: int, b: int|
                        #[trigger] opaque_at(img, a, b) && out_has_color(
                            img,
                            out,
                            px,
                            py,
                            seed_color(img, a, b),
                        );
                    assert(out_has_color(img, out1, px, py, seed_color(img, a, b)));
                    assert(holds_opaque_color(img, out1, px, py));
                    assert(neighbors_visited(img, vis, px, py));
                    if px > 0 {
                        lemma_idx_decompose(img, px - 1, py);
                    }
                    if px + 1 < img.width {
                        lemma_idx_decompose(img, px + 1, py);
                    }
                    if py + 1 < img.height {
                        lemma_idx_decompose(img, px, py + 1);
                    }
                    if py > 0 {
                        lemma_idx_decompose(img, px, py - 1);
                    }
                    assert(neighbors_visited(img, s4.1, px, py));
                }
            }
        }
    }
}

/// The multi-source fill law: from any state that satisfies the invariant,
/// every pixel of the finished canvas holds the color of some fully opaque
/// pixel of the source image, with full alpha. Which opaque pixel colors a
/// given position — a graph-geodesically nearest one — is pinned by the
/// operational specification `spec_bfs` itself.
pub proof fn lemma_bfs_fills(
    img: Image,
    q: Seq<Entry>,
    vis: Seq<bool>,
    out: Seq<u8>,
    sx: int,
    sy: int,
)
    requires
        bfs_inv_multi(img, q, vis, out, sx, sy),
    ensures
        forall|px: int, py: int|
            in_grid(img, px, py) ==> holds_opaque_color(img, spec_bfs(img, q, vis, out), px, py),
    decreases count_false(vis), q.len(),
{
    if q.len() == 0 {
        assert(spec_bfs(img, q, vis, out) == out);
        assert forall|px: int, py: int| in_grid(img, px, py) implies holds_opaque_color(
            img,
            out,
            px,
            py,
        ) by {
            assert forall|a: int, b: int|
                in_grid(img, a, b) && #[trigger] vis[pix_idx(img, a, b)] implies neighbors_visited(
                img,
                vis,
                a,
                b,
            ) by {
                assert(!in_queue(q, a, b));
            }
            lemma_reach(img, vis, sx, sy, px, py);
            assert(!in_queue(q, px, py));
        }
    } else {
        let e = q[0];
        let rest = q.skip(1);
        let out1 = spec_write(img, out, e);
        let s1 = spec_push(img, rest, vis, e.px - 1, e.py as int, e.sx, e.sy);
        let s2 = spec_push(img, s1.0, s1.1, e.px + 1, e.py as int, e.sx, e.sy);
        let s3 = spec_push(img, s2.0, s2.1, e.px as int, e.py + 1, e.sx, e.sy);
        let s4 = spec_push(img, s3.0, s3.1, e.px as int, e.py - 1, e.sx, e.sy);
        lemma_push_effect(img, rest, vis, e.px - 1, e.py as int, e.sx, e.sy);
        lemma_push_effect(img, s1.0, s1.1, e.px + 1, e.py as int, e.sx, e.sy);
        lemma_push_effect(img, s2.0, s2.1, e.px as int, e.py + 1, e.sx, e.sy);
        lemma_push_effect(img, s3.0, s3.1, e.px as int, e.py - 1, e.sx, e.sy);
        lemma_bfs_step_inv_multi(img, q, vis, out, sx, sy);
        lemma_bfs_fills(img, s4.0, s4.1, out1, sx, sy);
    }
}


/// The seed entries of one column: every fully opaque pixel of column `x`
/// below `y_end`, each its own source, rows pairwise distinct, and complete.
proof fn lemma_seed_col_props(img: Image, x: int, y_end: int)
    requires
        img.wf(),
        0 <= x < img.width,
        0 <= y_end <= img.height,
    ensures
        ({
            let q = spec_seed_col(img, x, y_end);
            &&& forall|k: int|
                0 <= k < q.len() ==> (#[trigger] q[k]).px == x && 0 <= q[k].py < y_end
                    && q[k].sx == q[k].px && q[k].sy == q[k].py && img.alpha_at(x, q[k].py as int)
                    == 255
            &&& forall|k: int, l: int|
                0 <= k < q.len() && 0 <= l < q.len() && k != l ==> (#[trigger] q[k]).py != (
                #[trigger] q[l]).py
            &&& forall|b: int|
                0 <= b < y_end && #[trigger] img.alpha_at(x, b) == 255 ==> in_queue(q, x, b)
        }),
    decreases y_end,
{
    if y_end > 0 {
        lemma_seed_col_props(img, x, y_end - 1);
        let q0 = spec_seed_col(img, x, y_end - 1);
        let q = spec_seed_col(img, x, y_end);
        if img.alpha_at(x, y_end - 1) == 255 {
            let newe = Entry {
                px: x as usize,
                py: (y_end - 1) as usize,
                sx: x as usize,
                sy: (y_end - 1) as usize,
            };
            assert(q =~= q0.push(newe));
            assert(q[q0.len() as int] == newe);
            assert forall|b: int|
                0 <= b < y_end && #[trigger] img.alpha_at(x, b) == 255 implies in_queue(
                q,
                x,
                b,
            ) by {
                if b < y_end - 1 {
                    let k = choose|k: int|
                        0 <= k < q0.len() && (#[trigger] q0[k]).px == x && q0[k].py == b;
                    assert(q[k].px == x && q[k].py == b);
                } else {
                    assert(q[q0.len() as int].px == x && q[q0.len() as int].py == b);
                }
            }
        } else {
            assert(q =~= q0);
            assert forall|b: int|
                0 <= b < y_end && #[trigger] img.alpha_at(x, b) == 255 implies in_queue(
                q,
                x,
                b,
            ) by {
                assert(b < y_end - 1);
                let k = choose|k: int|
                    0 <= k < q0.len() && (#[trigger] q0[k]).px == x && q0[k].py == b;
                assert(q[k].px == x && q[k].py == b);
            }
        }
    }
}

/// The seed queue of the first `x_end` columns: every fully opaque pixel,
/// each its own source, pixels pairwise distinct, and complete.
proof fn lemma_seed_upto_props(img: Image, x_end: int)
    requires
        img.wf(),
        0 <= x_end <= img.width,
    ensures
        ({
            let q = spec_seed_upto(img, x_end);
            &&& forall|k: int|
                0 <= k < q.len() ==> 0 <= (#[trigger] q[k]).px < x_end && 0 <= q[k].py
                    < img.height && q[k].sx == q[k].px && q[k].sy == q[k].py && img.alpha_at(
                    q[k].px as int,
                    q[k].py as int,
                ) == 255
            &&& forall|k: int, l: int|
                0 <= k < q.len() && 0 <= l < q.len() && k != l ==> ((#[trigger] q[k]).px, q[k].py)
                    != ((#[trigger] q[l]).px, q[l].py)
            &&& forall|a: int, b: int|
                0 <= a < x_end && 0 <= b < img.height && #[trigger] img.alpha_at(a, b) == 255
                    ==> in_queue(q, a, b)
        }),
    decreases x_end,
{
    if x_end > 0 {
        lemma_seed_upto_props(img, x_end - 1);
        lemma_seed_col_props(img, x_end - 1, img.height as int);
        let q0 = spec_seed_upto(img, x_end - 1);
        let c = spec_seed_col(img, x_end - 1, img.height as int);
        let q = spec_seed_upto(img, x_end);
        assert(q == q0 + c);
        assert(forall|k: int| 0 <= k < q0.len() ==> q[k] == q0[k]);
        assert(forall|k: int|
            q0.len() <= k < q.len() ==> #[trigger] q[k] == c[k - q0.len()]);
        assert forall|a: int, b: int|
            0 <= a < x_end && 0 <= b < img.height && #[trigger] img.alpha_at(a, b) == 255
                implies in_queue(q, a, b) by {
            if a < x_end - 1 {
                let k = choose|k: int|
                    0 <= k < q0.len() && (#[trigger] q0[k]).px == a && q0[k].py == b;
                assert(q[k].px == a && q[k].py == b);
            } else {
                assert(in_queue(c, a, b));
                let k = choose|k: int|
                    0 <= k < c.len() && (#[trigger] c[k]).px == a && c[k].py == b;
                assert(q[k + q0.len()].px == a && q[k + q0.len()].py == b);
            }
        }
    }
}

/// With at least one fully opaque pixel, every pixel of the repaired canvas
/// holds the color of some fully opaque pixel of the source image, with full
/// alpha. Which opaque pixel it is — a nearest one, last write winning among
/// the equally near — is pinned by the operational specification `spec_fix`.
pub proof fn lemma_opaque_sources_fill(img: Image, sx: int, sy: int)
    requires
        img.wf(),
        1 <= img.width,
        1 <= img.height,
        opaque_at(img, sx, sy),
    ensures
        forall|px: int, py: int|
            in_grid(img, px, py) ==> holds_opaque_color(img, spec_fix(img), px, py),
{
    let q = spec_seed_queue(img);
    let vis = spec_seed_visited(img);
    let out = spec_sentinel(img);
    lemma_seed_upto_props(img, img.width as int);
    lemma_idx_decompose(img, sx, sy);
    assert(vis[pix_idx(img, sx, sy)]);
    assert(bfs_inv_multi(img, q, vis, out, sx, sy)) by {
        assert forall|k: int|
            0 <= k < q.len() implies in_grid(img, (#[trigger] q[k]).px as int, q[k].py as int)
                && opaque_at(img, q[k].sx as int, q[k].sy as int) && vis[pix_idx(
                img,
                q[k].px as int,
                q[k].py as int,
            )] by {
            lemma_idx_decompose(img, q[k].px as int, q[k].py as int);
        }
        assert forall|px: int, py: int|
            in_grid(img, px, py) && #[trigger] vis[pix_idx(img, px, py)] && !in_queue(q, px, py)
                implies holds_opaque_color(img, out, px, py) && neighbors_visited(
            img,
            vis,
            px,
            py,
        ) by {
            lemma_idx_decompose(img, px, py);
            assert(img.alpha_at(px, py) == 255);
            assert(in_queue(q, px, py));
        }
    }
    lemma_bfs_fills(img, q, vis, out, sx, sy);
}

} // verus!

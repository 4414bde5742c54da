//! Edge-connected background: which pixels a fill that starts at the image
//! border and flows through background-coloured pixels can reach.

use vstd::prelude::*;
use crate::background::BackgroundColor;
use crate::pixel::{channel_diff, channel_distance, Pixel};
use crate::raster::{lemma_position_in_range, lemma_position_injective, Raster, RawImage};

verus! {

/// How far, per channel, a pixel may lie from the backdrop colour and still
/// count as background. Tighter than the corner tolerance on purpose.
pub const FILL_TOLERANCE: u8 = 40;

/// Every colour channel of `p` is within the fill tolerance of `bg`.
pub open spec fn matches_background(p: Pixel, bg: BackgroundColor) -> bool {
    &&& channel_distance(p.r as int, bg.r as int) < FILL_TOLERANCE
    &&& channel_distance(p.g as int, bg.g as int) < FILL_TOLERANCE
    &&& channel_distance(p.b as int, bg.b as int) < FILL_TOLERANCE
}

/// `(x, y)` lies in the first or last row or column.
pub open spec fn on_border(img: Raster, x: int, y: int) -> bool {
    img.in_bounds(x, y) && (x == 0 || y == 0 || x == img.width - 1 || y == img.height - 1)
}

/// Two positions share an edge: one step up, down, left or right.
pub open spec fn adjacent(x1: int, y1: int, x2: int, y2: int) -> bool {
    ||| x1 == x2 && (y1 == y2 + 1 || y2 == y1 + 1)
    ||| y1 == y2 && (x1 == x2 + 1 || x2 == x1 + 1)
}

/// A walk that starts on the border, moves by single steps and treads on
/// background-coloured pixels only.
pub open spec fn is_background_path(img: Raster, bg: BackgroundColor, path: Seq<(int, int)>) -> bool {
    &&& path.len() > 0
    &&& on_border(img, path[0].0, path[0].1)
    &&& forall|k: int|
        #![trigger path[k]]
        0 <= k < path.len() ==> img.in_bounds(path[k].0, path[k].1) && matches_background(
            img.at(path[k].0, path[k].1),
            bg,
        )
    &&& forall|k: int|
        #![trigger path[k]]
        0 < k < path.len() ==> adjacent(path[k - 1].0, path[k - 1].1, path[k].0, path[k].1)
}

/// `(x, y)` is background-coloured and a background path leads to it from
/// the border.
pub open spec fn border_connected(img: Raster, bg: BackgroundColor, x: int, y: int) -> bool {
    exists|path: Seq<(int, int)>| #[trigger]
        is_background_path(img, bg, path) && path.last() == (x, y)
}

/// A background-coloured border pixel is connected by the walk that stays put.
pub proof fn lemma_border_pixel_connected(img: Raster, bg: BackgroundColor, x: int, y: int)
    requires
        on_border(img, x, y),
        matches_background(img.at(x, y), bg),
    ensures
        border_connected(img, bg, x, y),
{
    let path: Seq<(int, int)> = seq![(x, y)];
    assert(is_background_path(img, bg, path));
    assert(path.last() == (x, y));
}

/// A background-coloured neighbour of a connected pixel is connected.
pub proof fn lemma_neighbour_connected(
    img: Raster,
    bg: BackgroundColor,
    x: int,
    y: int,
    nx: int,
    ny: int,
)
    requires
        border_connected(img, bg, x, y),
        adjacent(x, y, nx, ny),
        img.in_bounds(nx, ny),
        matches_background(img.at(nx, ny), bg),
    ensures
        border_connected(img, bg, nx, ny),
{
    let path: Seq<(int, int)> = choose|path: Seq<(int, int)>| #[trigger]
        is_background_path(img, bg, path) && path.last() == (x, y);
    let longer: Seq<(int, int)> = path.push((nx, ny));
    assert forall|k: int| #![trigger longer[k]] 0 <= k < longer.len() implies img.in_bounds(
        longer[k].0,
        longer[k].1,
    ) && matches_background(img.at(longer[k].0, longer[k].1), bg) by {
        if k < path.len() {
            assert(longer[k] == path[k]);
        }
    }
    assert forall|k: int| #![trigger longer[k]] 0 < k < longer.len() implies adjacent(
        longer[k - 1].0,
        longer[k - 1].1,
        longer[k].0,
        longer[k].1,
    ) by {
        if k < path.len() {
            assert(longer[k] == path[k]);
            assert(longer[k - 1] == path[k - 1]);
        } else {
            assert(longer[k - 1] == path[path.len() - 1]);
        }
    }
    assert(longer[0] == path[0]);
    assert(is_background_path(img, bg, longer));
    assert(longer.last() == (nx, ny));
}

/// A connected pixel is itself inside the image and background-coloured.
pub proof fn lemma_connected_is_background(img: Raster, bg: BackgroundColor, x: int, y: int)
    requires
        border_connected(img, bg, x, y),
    ensures
        img.in_bounds(x, y),
        matches_background(img.at(x, y), bg),
{
    let path: Seq<(int, int)> = choose|path: Seq<(int, int)>| #[trigger]
        is_background_path(img, bg, path) && path.last() == (x, y);
    assert(path[path.len() - 1] == (x, y));
}

/// The row-major index of `(x, y)`.
spec fn cell(img: Raster, x: int, y: int) -> int {
    y * img.width + x
}

/// `(x, y)` waits on the work list.
spec fn queued(stack: Seq<(u32, u32)>, x: int, y: int) -> bool {
    exists|k: int| 0 <= k < stack.len() && (#[trigger] stack[k]).0 == x && stack[k].1 == y
}

/// `(x, y)` has been visited already or waits on the work list.
spec fn settled(img: Raster, seen: Seq<bool>, stack: Seq<(u32, u32)>, x: int, y: int) -> bool {
    seen[cell(img, x, y)] || queued(stack, x, y)
}

/// `(x, y)` was visited and found to be background, so the fill flows on
/// from it.
spec fn spreads(img: Raster, bg: BackgroundColor, seen: Seq<bool>, x: int, y: int) -> bool {
    img.in_bounds(x, y) && seen[cell(img, x, y)] && matches_background(img.at(x, y), bg)
}

/// Nothing the fill has to reach is forgotten: border pixels and the
/// neighbours of pixels that spread are visited or queued.
spec fn nothing_lost(img: Raster, bg: BackgroundColor, seen: Seq<bool>, stack: Seq<(u32, u32)>) -> bool {
    &&& forall|x: int, y: int| #[trigger]
        on_border(img, x, y) ==> settled(img, seen, stack, x, y)
    &&& forall|x: int, y: int, nx: int, ny: int|
        spreads(img, bg, seen, x, y) && #[trigger] adjacent(x, y, nx, ny) && img.in_bounds(nx, ny)
            ==> settled(img, seen, stack, nx, ny)
}

/// Every queued position is inside the image, and connected if it is
/// background-coloured.
spec fn queue_sound(img: Raster, bg: BackgroundColor, stack: Seq<(u32, u32)>) -> bool {
    forall|k: int|
        #![trigger stack[k]]
        0 <= k < stack.len() ==> img.in_bounds(stack[k].0 as int, stack[k].1 as int) && (
        matches_background(img.at(stack[k].0 as int, stack[k].1 as int), bg) ==> border_connected(
            img,
            bg,
            stack[k].0 as int,
            stack[k].1 as int,
        ))
}

/// Every pixel that spreads is connected.
spec fn seen_sound(img: Raster, bg: BackgroundColor, seen: Seq<bool>) -> bool {
    forall|x: int, y: int| #[trigger]
        spreads(img, bg, seen, x, y) ==> border_connected(img, bg, x, y)
}

/// The output so far: visited background is cleared, the rest untouched.
spec fn painted(img: Raster, bg: BackgroundColor, seen: Seq<bool>, out: Seq<Pixel>) -> bool {
    &&& out.len() == img.pixels.len()
    &&& forall|i: int|
        0 <= i < out.len() ==> #[trigger] out[i] == if seen[i] && matches_background(
            img.pixels[i],
            bg,
        ) {
            Pixel::clear()
        } else {
            img.pixels[i]
        }
}

/// How many positions have not been visited yet.
spec fn unseen(seen: Seq<bool>) -> nat
    decreases seen.len(),
{
    if seen.len() == 0 {
        0
    } else {
        unseen(seen.drop_last()) + if seen.last() {
            0nat
        } else {
            1nat
        }
    }
}

proof fn lemma_unseen_shrinks(seen: Seq<bool>, i: int)
    requires
        0 <= i < seen.len(),
        !seen[i],
    ensures
        unseen(seen.update(i, true)) + 1 == unseen(seen),
    decreases seen.len(),
{
    let after: Seq<bool> = seen.update(i, true);
    if i == seen.len() - 1 {
        assert(after.drop_last() =~= seen.drop_last());
    } else {
        assert(after.drop_last() =~= seen.drop_last().update(i, true));
        lemma_unseen_shrinks(seen.drop_last(), i);
    }
}

/// Distinct positions have distinct row-major indices.
proof fn lemma_cell_injective(img: Raster, x1: int, y1: int, x2: int, y2: int)
    requires
        img.in_bounds(x1, y1),
        img.in_bounds(x2, y2),
        cell(img, x1, y1) == cell(img, x2, y2),
    ensures
        x1 == x2,
        y1 == y2,
{
    lemma_position_injective(img.width as int, x1, y1, x2, y2);
}

/// A settled position stays settled when the top of the work list is
/// visited and the list only grows above what was below the top.
proof fn lemma_settled_kept(
    img: Raster,
    seen: Seq<bool>,
    stack: Seq<(u32, u32)>,
    seen2: Seq<bool>,
    stack2: Seq<(u32, u32)>,
    x: int,
    y: int,
)
    requires
        stack.len() > 0,
        seen.len() == img.width * img.height,
        seen2.len() == seen.len(),
        forall|i: int| 0 <= i < seen.len() && seen[i] ==> #[trigger] seen2[i],
        seen2[cell(img, stack.last().0 as int, stack.last().1 as int)],
        stack2.len() >= stack.len() - 1,
        forall|k: int| 0 <= k < stack.len() - 1 ==> #[trigger] stack2[k] == stack[k],
        img.in_bounds(x, y),
        settled(img, seen, stack, x, y),
    ensures
        settled(img, seen2, stack2, x, y),
{
    lemma_position_in_range(img.width as int, img.height as int, x, y);
    if !seen[cell(img, x, y)] {
        let k: int = choose|k: int|
            0 <= k < stack.len() && (#[trigger] stack[k]).0 == x && stack[k].1 == y;
        if k < stack.len() - 1 {
            assert(stack2[k] == stack[k]);
            assert(queued(stack2, x, y));
        }
    }
}

/// One round of the fill keeps `nothing_lost`: the top of the work list is
/// visited, and if the fill flows on from it, its neighbours are queued.
proof fn lemma_round_loses_nothing(
    img: Raster,
    bg: BackgroundColor,
    seen: Seq<bool>,
    stack: Seq<(u32, u32)>,
    seen2: Seq<bool>,
    stack2: Seq<(u32, u32)>,
)
    requires
        stack.len() > 0,
        img.in_bounds(stack.last().0 as int, stack.last().1 as int),
        seen.len() == img.width * img.height,
        seen2 == seen.update(cell(img, stack.last().0 as int, stack.last().1 as int), true),
        stack2.len() >= stack.len() - 1,
        forall|k: int| 0 <= k < stack.len() - 1 ==> #[trigger] stack2[k] == stack[k],
        nothing_lost(img, bg, seen, stack),
        seen[cell(img, stack.last().0 as int, stack.last().1 as int)] || !matches_background(
            img.at(stack.last().0 as int, stack.last().1 as int),
            bg,
        ) || forall|nx: int, ny: int| #[trigger]
            adjacent(stack.last().0 as int, stack.last().1 as int, nx, ny) && img.in_bounds(nx, ny)
                ==> queued(stack2, nx, ny),
    ensures
        nothing_lost(img, bg, seen2, stack2),
{
    let ex: int = stack.last().0 as int;
    let ey: int = stack.last().1 as int;
    lemma_position_in_range(img.width as int, img.height as int, ex, ey);
    assert forall|x: int, y: int| #[trigger] on_border(img, x, y) implies settled(
        img,
        seen2,
        stack2,
        x,
        y,
    ) by {
        lemma_settled_kept(img, seen, stack, seen2, stack2, x, y);
    }
    assert forall|x: int, y: int, nx: int, ny: int|
        spreads(img, bg, seen2, x, y) && #[trigger] adjacent(x, y, nx, ny) && img.in_bounds(
            nx,
            ny,
        ) implies settled(img, seen2, stack2, nx, ny) by {
        lemma_position_in_range(img.width as int, img.height as int, x, y);
        if spreads(img, bg, seen, x, y) {
            lemma_settled_kept(img, seen, stack, seen2, stack2, nx, ny);
        } else {
            lemma_cell_injective(img, x, y, ex, ey);
            assert(queued(stack2, nx, ny));
        }
    }
}

/// When the work list has run dry, every pixel on a background path has
/// been visited.
proof fn lemma_walk_is_seen(
    img: Raster,
    bg: BackgroundColor,
    seen: Seq<bool>,
    path: Seq<(int, int)>,
    k: int,
)
    requires
        nothing_lost(img, bg, seen, Seq::<(u32, u32)>::empty()),
        is_background_path(img, bg, path),
        0 <= k < path.len(),
    ensures
        seen[cell(img, path[k].0, path[k].1)],
    decreases k,
{
    let none: Seq<(u32, u32)> = Seq::<(u32, u32)>::empty();
    if k == 0 {
        assert(on_border(img, path[0].0, path[0].1));
        assert(settled(img, seen, none, path[0].0, path[0].1));
    } else {
        lemma_walk_is_seen(img, bg, seen, path, k - 1);
        let a: (int, int) = path[k - 1];
        let b: (int, int) = path[k];
        assert(spreads(img, bg, seen, a.0, a.1));
        assert(adjacent(a.0, a.1, b.0, b.1));
        assert(settled(img, seen, none, b.0, b.1));
    }
}

/// Decides whether a pixel counts as background.
pub fn is_background(p: Pixel, bg: BackgroundColor) -> (r: bool)
    ensures
        r == matches_background(p, bg),
{
    channel_diff(p.r, bg.r) < FILL_TOLERANCE && channel_diff(p.g, bg.g) < FILL_TOLERANCE
        && channel_diff(p.b, bg.b) < FILL_TOLERANCE
}

/// Queues one position; what was queued stays queued.
fn enqueue(stack: &mut Vec<(u32, u32)>, x: u32, y: u32)
    ensures
        final(stack)@ == old(stack)@.push((x, y)),
        queued(final(stack)@, x as int, y as int),
        forall|px: int, py: int| queued(old(stack)@, px, py) ==> #[trigger] queued(final(stack)@, px, py),
{
    stack.push((x, y));
    assert(stack@[stack@.len() - 1] == (x, y));
    assert forall|px: int, py: int| queued(old(stack)@, px, py) implies #[trigger] queued(
        stack@,
        px,
        py,
    ) by {
        let k: int = choose|k: int|
            0 <= k < old(stack)@.len() && (#[trigger] old(stack)@[k]).0 == px && old(stack)@[k].1
                == py;
        assert(stack@[k] == old(stack)@[k]);
    }
}

/// Queues the neighbours of `(x, y)` that lie inside a `w` by `h` image.
fn enqueue_neighbours(stack: &mut Vec<(u32, u32)>, x: u32, y: u32, w: u32, h: u32)
    requires
        x < w,
        y < h,
    ensures
        final(stack)@.len() >= old(stack)@.len(),
        forall|k: int| 0 <= k < old(stack)@.len() ==> #[trigger] final(stack)@[k] == old(stack)@[k],
        forall|k: int|
            #![trigger final(stack)@[k]]
            old(stack)@.len() <= k < final(stack)@.len() ==> {
                &&& final(stack)@[k].0 < w
                &&& final(stack)@[k].1 < h
                &&& adjacent(x as int, y as int, final(stack)@[k].0 as int, final(stack)@[k].1 as int)
            },
        forall|nx: int, ny: int| #[trigger]
            adjacent(x as int, y as int, nx, ny) && 0 <= nx < w && 0 <= ny < h ==> queued(
                final(stack)@,
                nx,
                ny,
            ),
{
    if x > 0 {
        enqueue(stack, x - 1, y);
    }
    if x < w - 1 {
        enqueue(stack, x + 1, y);
    }
    if y > 0 {
        enqueue(stack, x, y - 1);
    }
    if y < h - 1 {
        enqueue(stack, x, y + 1);
    }
}

/// Queues every border position of a non-empty image: the first and last
/// rows, then what is left of the first and last columns.
fn seed_border(img: &RawImage, bg: BackgroundColor) -> (stack: Vec<(u32, u32)>)
    requires
        img.wf(),
        img@.width > 0,
        img@.height > 0,
    ensures
        queue_sound(img@, bg, stack@),
        forall|x: int, y: int| #[trigger] on_border(img@, x, y) ==> queued(stack@, x, y),
{
    let w: u32 = img.width();
    let h: u32 = img.height();
    let mut stack: Vec<(u32, u32)> = Vec::new();
    let mut x: u32 = 0;
    while x < w
        invariant
            w == img@.width,
            h == img@.height,
            h > 0,
            x <= w,
            queue_sound(img@, bg, stack@),
            forall|px: int, py: int|
                0 <= px < x && (py == 0 || py == h - 1) ==> #[trigger] queued(stack@, px, py),
        decreases w - x,
    {
        proof {
            if matches_background(img@.at(x as int, 0), bg) {
                lemma_border_pixel_connected(img@, bg, x as int, 0);
            }
            if matches_background(img@.at(x as int, h - 1), bg) {
                lemma_border_pixel_connected(img@, bg, x as int, h - 1);
            }
        }
        enqueue(&mut stack, x, 0);
        enqueue(&mut stack, x, h - 1);
        x += 1;
    }
    let mut y: u32 = 1;
    while y < h - 1
        invariant
            w == img@.width,
            h == img@.height,
            w > 0,
            1 <= y,
            y <= h - 1 || h == 1,
            queue_sound(img@, bg, stack@),
            forall|px: int, py: int|
                0 <= px < w && (py == 0 || py == h - 1) ==> #[trigger] queued(stack@, px, py),
            forall|px: int, py: int|
                1 <= py < y && (px == 0 || px == w - 1) ==> #[trigger] queued(stack@, px, py),
        decreases h - y,
    {
        proof {
            if matches_background(img@.at(0, y as int), bg) {
                lemma_border_pixel_connected(img@, bg, 0, y as int);
            }
            if matches_background(img@.at(w - 1, y as int), bg) {
                lemma_border_pixel_connected(img@, bg, w - 1, y as int);
            }
        }
        enqueue(&mut stack, 0, y);
        enqueue(&mut stack, w - 1, y);
        y += 1;
    }
    stack
}

/// Clears every background pixel that a fill from the border reaches, and
/// leaves every other pixel as it was. Background-coloured pixels that
/// foreground content encloses are therefore kept.
pub fn flood_fill(img: &RawImage, bg: BackgroundColor) -> (out: RawImage)
    requires
        img.wf(),
    ensures
        out.wf(),
        out@.width == img@.width,
        out@.height == img@.height,
        forall|x: int, y: int|
            img@.in_bounds(x, y) ==> #[trigger] out@.at(x, y) == if border_connected(
                img@,
                bg,
                x,
                y,
            ) {
                Pixel::clear()
            } else {
                img@.at(x, y)
            },
{
    let w: u32 = img.width();
    let h: u32 = img.height();
    let mut out: RawImage = img.duplicate();
    if w == 0 || h == 0 {
        return out;
    }
    proof {
        img.lemma_model();
    }
    let count: usize = (w as usize) * (h as usize);
    let mut seen: Vec<bool> = vec![false; count];
    let mut stack: Vec<(u32, u32)> = seed_border(img, bg);
    proof {
        assert forall|x: int, y: int| img@.in_bounds(x, y) implies !seen@[cell(img@, x, y)] by {
            lemma_position_in_range(w as int, h as int, x, y);
        }
        assert(painted(img@, bg, seen@, out@.pixels));
    }
    while stack.len() > 0
        invariant
            img.wf(),
            out.wf(),
            w == img@.width,
            h == img@.height,
            out@.width == w,
            out@.height == h,
            img@.wf(),
            seen@.len() == w * h,
            w * h <= usize::MAX,
            queue_sound(img@, bg, stack@),
            seen_sound(img@, bg, seen@),
            painted(img@, bg, seen@, out@.pixels),
            nothing_lost(img@, bg, seen@, stack@),
        decreases unseen(seen@), stack@.len(),
    {
        let ghost seen0: Seq<bool> = seen@;
        let ghost stack0: Seq<(u32, u32)> = stack@;
        let top: (u32, u32) = stack.pop().unwrap();
        let x: u32 = top.0;
        let y: u32 = top.1;
        assert(stack0[stack0.len() - 1] == top);
        proof {
            lemma_position_in_range(w as int, h as int, x as int, y as int);
        }
        let i: usize = (y as usize) * (w as usize) + (x as usize);
        if seen[i] {
            proof {
                assert(seen@ =~= seen0.update(i as int, true));
                lemma_round_loses_nothing(img@, bg, seen0, stack0, seen@, stack@);
            }
        } else {
            seen.set(i, true);
            let p: Pixel = img.get(x, y);
            if is_background(p, bg) {
                out.set(x, y, Pixel::transparent());
                enqueue_neighbours(&mut stack, x, y, w, h);
                proof {
                    assert forall|k: int|
                        #![trigger stack@[k]]
                        0 <= k < stack@.len() implies img@.in_bounds(
                        stack@[k].0 as int,
                        stack@[k].1 as int,
                    ) && (matches_background(img@.at(stack@[k].0 as int, stack@[k].1 as int), bg)
                        ==> border_connected(img@, bg, stack@[k].0 as int, stack@[k].1 as int)) by {
                        if k < stack0.len() - 1 {
                            assert(stack@[k] == stack0[k]);
                        } else if matches_background(
                            img@.at(stack@[k].0 as int, stack@[k].1 as int),
                            bg,
                        ) {
                            lemma_neighbour_connected(
                                img@,
                                bg,
                                x as int,
                                y as int,
                                stack@[k].0 as int,
                                stack@[k].1 as int,
                            );
                        }
                    }
                }
            }
            proof {
                lemma_unseen_shrinks(seen0, i as int);
                lemma_round_loses_nothing(img@, bg, seen0, stack0, seen@, stack@);
                assert forall|px: int, py: int| #[trigger]
                    spreads(img@, bg, seen@, px, py) implies border_connected(img@, bg, px, py) by {
                    lemma_position_in_range(w as int, h as int, px, py);
                    if !spreads(img@, bg, seen0, px, py) {
                        lemma_cell_injective(img@, px, py, x as int, y as int);
                    }
                }
            }
        }
    }
    proof {
        assert(stack@ =~= Seq::<(u32, u32)>::empty());
        assert forall|x: int, y: int| img@.in_bounds(x, y) implies #[trigger] out@.at(x, y)
            == if border_connected(img@, bg, x, y) {
            Pixel::clear()
        } else {
            img@.at(x, y)
        } by {
            lemma_position_in_range(w as int, h as int, x, y);
            let c: int = y * w + x;
            assert(out@.pixels[c] == if seen@[c] && matches_background(img@.pixels[c], bg) {
                Pixel::clear()
            } else {
                img@.pixels[c]
            });
            if border_connected(img@, bg, x, y) {
                let path: Seq<(int, int)> = choose|path: Seq<(int, int)>| #[trigger]
                    is_background_path(img@, bg, path) && path.last() == (x, y);
                lemma_walk_is_seen(img@, bg, seen@, path, path.len() - 1);
                lemma_connected_is_background(img@, bg, x, y);
            } else {
                if seen@[c] && matches_background(img@.pixels[c], bg) {
                    assert(spreads(img@, bg, seen@, x, y));
                }
            }
        }
    }
    out
}

} // verus!

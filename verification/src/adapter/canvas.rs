//! The pixel buffer of the Wayland candidate window and its drawing
//! primitives (ARGB8888 little-endian: bytes B, G, R, A).

use vstd::prelude::*;
use vstd::slice::SliceAdditionalExecFns;

verus! {

/// Fully transparent pixel.
pub const TRANSPARENT: [u8; 4] = [0x00, 0x00, 0x00, 0x00];

/// A flat pixel buffer (row stride = width * 4) plus its dimensions.
pub struct Canvas {
    pub pixels: Vec<u8>,
    pub width: i32,
    pub height: i32,
}

/// The buffer holds exactly `width * height` pixels and every byte offset
/// fits in an `i32`.
pub open spec fn canvas_wf(c: &Canvas) -> bool {
    &&& 0 <= c.width
    &&& 0 <= c.height
    &&& c.pixels@.len() == c.width * c.height * 4
    &&& c.width * c.height * 4 <= i32::MAX
}

/// Byte offset of the pixel in row `row`, column `col`.
pub open spec fn offset(width: int, row: int, col: int) -> int {
    row * width * 4 + col * 4
}

/// Whether `(row, col)` lies on the canvas.
pub open spec fn on_canvas(width: int, height: int, row: int, col: int) -> bool {
    0 <= row < height && 0 <= col < width
}

/// `old` with the 4 bytes at `off` replaced by `color`.
pub open spec fn put(old: Seq<u8>, off: int, color: Seq<u8>) -> Seq<u8> {
    Seq::new(old.len(), |k: int| if off <= k < off + 4 { color[k - off] } else { old[k] })
}

proof fn lemma_offset_bounds(width: int, height: int, row: int, col: int)
    requires
        on_canvas(width, height, row, col),
    ensures
        0 <= offset(width, row, col),
        offset(width, row, col) + 4 <= width * height * 4,
{
    assert(row * width <= (height - 1) * width) by (nonlinear_arith)
        requires
            0 <= row < height,
            0 <= width,
    ;
    assert((height - 1) * width * 4 + width * 4 == width * height * 4) by (nonlinear_arith);
    assert(row * width * 4 == (row * width) * 4) by (nonlinear_arith);
    assert(0 <= row * width) by (nonlinear_arith)
        requires
            0 <= row,
            0 <= width,
    ;
}

/// Writes `color` at byte offset `off`.
fn put_pixel(pixels: &mut Vec<u8>, off: usize, color: [u8; 4])
    requires
        off + 4 <= old(pixels)@.len(),
    ensures
        final(pixels)@ == put(old(pixels)@, off as int, color@),
{
    let n = pixels.len();
    pixels.set(off, color[0]);
    assert(pixels@.len() == n);
    pixels.set(off + 1, color[1]);
    pixels.set(off + 2, color[2]);
    pixels.set(off + 3, color[3]);
    assert(final(pixels)@ =~= put(old(pixels)@, off as int, color@));
}

/// Makes every pixel fully transparent.
pub fn fill_transparent(canvas: &mut Canvas)
    requires
        canvas_wf(old(canvas)),
    ensures
        canvas_wf(final(canvas)),
        final(canvas).width == old(canvas).width,
        final(canvas).height == old(canvas).height,
        forall|k: int| 0 <= k < final(canvas).pixels@.len() ==> #[trigger] final(canvas).pixels@[k] == 0,
{
    let n = canvas.pixels.len();
    assert(n % 4 == 0) by {
        let wh = canvas.width * canvas.height;
        assert(wh * 4 % 4 == 0) by (nonlinear_arith);
    }
    let mut i: usize = 0;
    while i < n
        invariant
            canvas.pixels@.len() == n,
            n == old(canvas).pixels@.len(),
            n % 4 == 0,
            i % 4 == 0,
            i <= n,
            canvas.width == old(canvas).width,
            canvas.height == old(canvas).height,
            forall|k: int| 0 <= k < i ==> #[trigger] canvas.pixels@[k] == 0,
        decreases n - i,
    {
        assert(i + 4 <= n);
        put_pixel(&mut canvas.pixels, i, TRANSPARENT);
        i = i + 4;
    }
}

/// The blend of foreground byte `f` over `d` with coverage `a`.
pub open spec fn blend(f: u8, d: u8, a: u8) -> u8 {
    ((f * a + d * (255 - a)) / 255) as u8
}

/// Alpha-blends `fg` with the given coverage over the pixel in the first
/// four bytes of `dst`; the result is opaque.
pub fn blend_pixel(dst: &mut [u8], fg: [u8; 4], coverage: u8)
    requires
        old(dst)@.len() >= 4,
    ensures
        final(dst)@ == old(dst)@.update(0, blend(fg@[0], old(dst)@[0], coverage)).update(
            1,
            blend(fg@[1], old(dst)@[1], coverage),
        ).update(2, blend(fg@[2], old(dst)@[2], coverage)).update(3, 0xFF),
{
    let a = coverage as u32;
    let ia = 255 - a;
    let ghost d = dst@;
    let mut k: usize = 0;
    while k < 3
        invariant
            k <= 3,
            dst@.len() == d.len(),
            d.len() >= 4,
            a == coverage,
            ia == 255 - a,
            forall|j: int| 0 <= j < k ==> #[trigger] dst@[j] == blend(fg@[j], d[j], coverage),
            forall|j: int| k <= j < d.len() ==> #[trigger] dst@[j] == d[j],
        decreases 3 - k,
    {
        let f = fg[k] as u32;
        let o = dst[k] as u32;
        assert(f * a <= 255 * 255) by (nonlinear_arith)
            requires
                f <= 255,
                a <= 255,
        ;
        assert(o * ia <= 255 * 255) by (nonlinear_arith)
            requires
                o <= 255,
                ia <= 255,
        ;
        assert((f * a + o * ia) / 255 <= 255) by (nonlinear_arith)
            requires
                f <= 255,
                o <= 255,
                a <= 255,
                ia == 255 - a,
        ;
        let v = ((f * a + o * ia) / 255) as u8;
        dst.set(k, v);
        k += 1;
    }
    dst.set(3, 0xFF);
    assert(dst@ =~= d.update(0, blend(fg@[0], d[0], coverage)).update(1, blend(fg@[1], d[1], coverage)).update(
        2,
        blend(fg@[2], d[2], coverage),
    ).update(3, 0xFF));
}


/// Whether `(row, col)` lies in the rectangle at `(x, y)` of size `w × h`.
pub open spec fn in_rect(x: int, y: int, w: int, h: int, row: int, col: int) -> bool {
    y <= row < y + h && x <= col < x + w
}

/// Whether `(row, col)` lies on the one-pixel border of that rectangle.
pub open spec fn on_border(x: int, y: int, w: int, h: int, row: int, col: int) -> bool {
    ||| (x <= col < x + w && (row == y || row == y + h - 1))
    ||| (y <= row < y + h && (col == x || col == x + w - 1))
}

/// `new` is `old` with the pixels on the canvas that satisfy `paint`
/// set to `color`, the rest unchanged.
pub open spec fn painted(old: Seq<u8>, new: Seq<u8>, width: int, height: int, paint: spec_fn(int, int) -> bool, color: Seq<u8>) -> bool {
    &&& new.len() == old.len()
    &&& forall|row: int, col: int, j: int| #![trigger new[offset(width, row, col) + j]]
        on_canvas(width, height, row, col) && 0 <= j < 4 ==> new[offset(width, row, col) + j] == if paint(row, col) {
            color[j]
        } else {
            old[offset(width, row, col) + j]
        }
}

proof fn lemma_offset_unique(width: int, r1: int, c1: int, j1: int, r2: int, c2: int, j2: int)
    requires
        0 <= c1 < width,
        0 <= c2 < width,
        0 <= j1 < 4,
        0 <= j2 < 4,
        offset(width, r1, c1) + j1 == offset(width, r2, c2) + j2,
    ensures
        r1 == r2,
        c1 == c2,
        j1 == j2,
{
    let p1 = r1 * width + c1;
    let p2 = r2 * width + c2;
    assert(r1 * width * 4 + c1 * 4 == p1 * 4) by (nonlinear_arith)
        requires
            p1 == r1 * width + c1,
    ;
    assert(r2 * width * 4 + c2 * 4 == p2 * 4) by (nonlinear_arith)
        requires
            p2 == r2 * width + c2,
    ;
    assert(j1 == j2 && p1 == p2) by (nonlinear_arith)
        requires
            p1 * 4 + j1 == p2 * 4 + j2,
            0 <= j1 < 4,
            0 <= j2 < 4,
    ;
    assert(r1 == r2 && c1 == c2) by (nonlinear_arith)
        requires
            r1 * width + c1 == r2 * width + c2,
            0 <= c1 < width,
            0 <= c2 < width,
    ;
}

/// Paints one pixel, keeping `painted` for the set of pixels painted so far.
proof fn lemma_paint_step(
    old: Seq<u8>,
    before: Seq<u8>,
    after: Seq<u8>,
    width: int,
    height: int,
    p0: spec_fn(int, int) -> bool,
    p1: spec_fn(int, int) -> bool,
    color: Seq<u8>,
    row: int,
    col: int,
)
    requires
        old.len() == width * height * 4,
        0 <= width,
        on_canvas(width, height, row, col),
        painted(old, before, width, height, p0, color),
        after == put(before, offset(width, row, col), color),
        color.len() == 4,
        p1(row, col),
        forall|r: int, c: int| (r != row || c != col) ==> #[trigger] p1(r, c) == p0(r, c),
    ensures
        painted(old, after, width, height, p1, color),
{
    lemma_offset_bounds(width, height, row, col);
    assert forall|r: int, c: int, j: int| #![trigger after[offset(width, r, c) + j]]
        on_canvas(width, height, r, c) && 0 <= j < 4 implies after[offset(width, r, c) + j] == if p1(r, c) {
            color[j]
        } else {
            old[offset(width, r, c) + j]
        } by {
        lemma_offset_bounds(width, height, r, c);
        let k = offset(width, r, c) + j;
        let o = offset(width, row, col);
        if o <= k < o + 4 {
            lemma_offset_unique(width, r, c, j, row, col, k - o);
        } else {
            assert(before[k] == if p0(r, c) { color[j] } else { old[k] });
            if r == row && c == col {
                assert(false);
            }
        }
    }
}

/// Fills the part of the rectangle at `(x, y)` of size `w × h` that lies on
/// the canvas with `color`.
#[verifier::loop_isolation(false)]
pub fn draw_filled_rect(canvas: &mut Canvas, x: i32, y: i32, w: i32, h: i32, color: [u8; 4])
    requires
        canvas_wf(old(canvas)),
        i32::MIN <= x + w <= i32::MAX,
        i32::MIN <= y + h <= i32::MAX,
    ensures
        canvas_wf(final(canvas)),
        final(canvas).width == old(canvas).width,
        final(canvas).height == old(canvas).height,
        painted(old(canvas).pixels@, final(canvas).pixels@, old(canvas).width as int, old(canvas).height as int,
            |r: int, c: int| in_rect(x as int, y as int, w as int, h as int, r, c), color@),
{
    let ghost o = canvas.pixels@;
    let ghost wd = canvas.width as int;
    let ghost ht = canvas.height as int;
    proof {
        assert(painted(o, o, wd, ht, |r: int, c: int| in_rect(x as int, y as int, w as int, h as int, r, c) && r < y, color@));
    }
    let mut row = y;
    while row < y + h
        invariant
            y <= row <= (if y + h > y { y + h } else { y as int }),
            canvas_wf(canvas),
            canvas.width == wd,
            canvas.height == ht,
            painted(o, canvas.pixels@, wd, ht, |r: int, c: int| in_rect(x as int, y as int, w as int, h as int, r, c) && r < row, color@),
        decreases y + h - row,
    {
        if 0 <= row && row < canvas.height {
            let mut col = x;
            while col < x + w
                invariant
                    x <= col <= (if x + w > x { x + w } else { x as int }),
                    y <= row < y + h,
                    0 <= row < ht,
                    canvas_wf(canvas),
                    canvas.width == wd,
                    canvas.height == ht,
                    painted(o, canvas.pixels@, wd, ht, |r: int, c: int| in_rect(x as int, y as int, w as int, h as int, r, c) && (r < row || (r == row && c < col)), color@),
                decreases x + w - col,
            {
                if 0 <= col && col < canvas.width {
                    proof {
                        lemma_offset_bounds(wd, ht, row as int, col as int);
                    }
                    let off = (row * canvas.width * 4 + col * 4) as usize;
                    let ghost before = canvas.pixels@;
                    put_pixel(&mut canvas.pixels, off, color);
                    proof {
                        lemma_paint_step(o, before, canvas.pixels@, wd, ht,
                            |r: int, c: int| in_rect(x as int, y as int, w as int, h as int, r, c) && (r < row || (r == row && c < col)),
                            |r: int, c: int| in_rect(x as int, y as int, w as int, h as int, r, c) && (r < row || (r == row && c < col + 1)),
                            color@, row as int, col as int);
                    }
                } else {
                    proof {
                        let p0 = |r: int, c: int| in_rect(x as int, y as int, w as int, h as int, r, c) && (r < row || (r == row && c < col));
                        let p1 = |r: int, c: int| in_rect(x as int, y as int, w as int, h as int, r, c) && (r < row || (r == row && c < col + 1));
                        assert forall|r: int, c: int, j: int| #![trigger canvas.pixels@[offset(wd, r, c) + j]]
                            on_canvas(wd, ht, r, c) && 0 <= j < 4 implies canvas.pixels@[offset(wd, r, c) + j] == if p1(r, c) { color@[j] } else { o[offset(wd, r, c) + j] } by {
                            assert(p1(r, c) == p0(r, c));
                        }
                    }
                }
                col = col + 1;
            }
        }
        proof {
            let p0 = |r: int, c: int| in_rect(x as int, y as int, w as int, h as int, r, c) && (r < row || (r == row && c < x + w));
            let p1 = |r: int, c: int| in_rect(x as int, y as int, w as int, h as int, r, c) && r < row + 1;
            assert forall|r: int, c: int, j: int| #![trigger canvas.pixels@[offset(wd, r, c) + j]]
                on_canvas(wd, ht, r, c) && 0 <= j < 4 implies canvas.pixels@[offset(wd, r, c) + j] == if p1(r, c) { color@[j] } else { o[offset(wd, r, c) + j] } by {
                if 0 <= row < ht {
                    assert(p1(r, c) == p0(r, c));
                } else {
                    assert(p1(r, c) == (in_rect(x as int, y as int, w as int, h as int, r, c) && r < row));
                }
            }
        }
        row = row + 1;
    }
}


/// Painting nothing at an off-canvas pixel keeps `painted`.
proof fn lemma_skip_step(
    old: Seq<u8>,
    cur: Seq<u8>,
    width: int,
    height: int,
    p0: spec_fn(int, int) -> bool,
    p1: spec_fn(int, int) -> bool,
    color: Seq<u8>,
    row: int,
    col: int,
)
    requires
        painted(old, cur, width, height, p0, color),
        !on_canvas(width, height, row, col),
        forall|r: int, c: int| (r != row || c != col) ==> #[trigger] p1(r, c) == p0(r, c),
    ensures
        painted(old, cur, width, height, p1, color),
{
    assert forall|r: int, c: int, j: int| #![trigger cur[offset(width, r, c) + j]]
        on_canvas(width, height, r, c) && 0 <= j < 4 implies cur[offset(width, r, c) + j] == if p1(r, c) {
            color[j]
        } else {
            old[offset(width, r, c) + j]
        } by {
        assert(p1(r, c) == p0(r, c));
    }
}

/// Paints pixel `(row, col)` when it is on the canvas.
fn paint_at(canvas: &mut Canvas, row: i32, col: i32, color: [u8; 4], Ghost(o): Ghost<Seq<u8>>, Ghost(p0): Ghost<spec_fn(int, int) -> bool>, Ghost(p1): Ghost<spec_fn(int, int) -> bool>)
    requires
        canvas_wf(old(canvas)),
        o.len() == old(canvas).pixels@.len(),
        painted(o, old(canvas).pixels@, old(canvas).width as int, old(canvas).height as int, p0, color@),
        p1(row as int, col as int),
        forall|r: int, c: int| (r != row || c != col) ==> #[trigger] p1(r, c) == p0(r, c),
    ensures
        canvas_wf(final(canvas)),
        final(canvas).width == old(canvas).width,
        final(canvas).height == old(canvas).height,
        painted(o, final(canvas).pixels@, old(canvas).width as int, old(canvas).height as int, p1, color@),
{
    let ghost wd = canvas.width as int;
    let ghost ht = canvas.height as int;
    if 0 <= row && row < canvas.height && 0 <= col && col < canvas.width {
        proof {
            lemma_offset_bounds(wd, ht, row as int, col as int);
        }
        let off = (row * canvas.width * 4 + col * 4) as usize;
        let ghost before = canvas.pixels@;
        put_pixel(&mut canvas.pixels, off, color);
        proof {
            lemma_paint_step(o, before, canvas.pixels@, wd, ht, p0, p1, color@, row as int, col as int);
        }
    } else {
        proof {
            lemma_skip_step(o, canvas.pixels@, wd, ht, p0, p1, color@, row as int, col as int);
        }
    }
}

/// The top and bottom edges drawn for the columns before `cc`.
pub open spec fn edges_h(x: int, y: int, h: int, cc: int) -> spec_fn(int, int) -> bool {
    |r: int, c: int| x <= c < cc && (r == y || r == y + h - 1)
}

/// All of the top and bottom edges, then the left and right edges for the
/// rows before `rr`.
pub open spec fn edges_v(x: int, y: int, w: int, h: int, rr: int) -> spec_fn(int, int) -> bool {
    |r: int, c: int| (x <= c < x + w && (r == y || r == y + h - 1)) || (y <= r < rr && (c == x || c == x + w - 1))
}

/// Draws the one-pixel outline of the rectangle at `(x, y)` of size
/// `w × h`, clipped to the canvas.
#[verifier::loop_isolation(false)]
pub fn draw_rect(canvas: &mut Canvas, x: i32, y: i32, w: i32, h: i32, color: [u8; 4])
    requires
        canvas_wf(old(canvas)),
        i32::MIN <= x + w <= i32::MAX,
        i32::MIN <= y + h <= i32::MAX,
        x < x + w ==> i32::MIN <= y + h - 1,
        y < y + h ==> i32::MIN <= x + w - 1,
    ensures
        canvas_wf(final(canvas)),
        final(canvas).width == old(canvas).width,
        final(canvas).height == old(canvas).height,
        painted(old(canvas).pixels@, final(canvas).pixels@, old(canvas).width as int, old(canvas).height as int,
            |r: int, c: int| on_border(x as int, y as int, w as int, h as int, r, c), color@),
{
    let ghost o = canvas.pixels@;
    let ghost wd = canvas.width as int;
    let ghost ht = canvas.height as int;
    let ghost xi = x as int;
    let ghost yi = y as int;
    let ghost wi = w as int;
    let ghost hi = h as int;
    proof {
        let p = edges_h(xi, yi, hi, xi);
        assert forall|r: int, c: int, j: int| #![trigger o[offset(wd, r, c) + j]]
            on_canvas(wd, ht, r, c) && 0 <= j < 4 implies o[offset(wd, r, c) + j] == if p(r, c) { color@[j] } else { o[offset(wd, r, c) + j] } by {}
    }
    // Top and bottom edges.
    let mut col = x;
    while col < x + w
        invariant
            x <= col <= (if x + w > x { x + w } else { x as int }),
            canvas_wf(canvas),
            canvas.width == wd,
            canvas.height == ht,
            o.len() == canvas.pixels@.len(),
            painted(o, canvas.pixels@, wd, ht, edges_h(xi, yi, hi, col as int), color@),
        decreases x + w - col,
    {
        let ghost p0 = edges_h(xi, yi, hi, col as int);
        let ghost pm = |r: int, c: int| p0(r, c) || (r == yi && c == col);
        let ghost p1 = edges_h(xi, yi, hi, col + 1);
        paint_at(canvas, y, col, color, Ghost(o), Ghost(p0), Ghost(pm));
        let by = y + h - 1;
        paint_at(canvas, by, col, color, Ghost(o), Ghost(pm), Ghost(p1));
        col = col + 1;
    }
    proof {
        let pa = edges_h(xi, yi, hi, col as int);
        let pb = edges_v(xi, yi, wi, hi, yi);
        assert forall|r: int, c: int, j: int| #![trigger canvas.pixels@[offset(wd, r, c) + j]]
            on_canvas(wd, ht, r, c) && 0 <= j < 4 implies canvas.pixels@[offset(wd, r, c) + j] == if pb(r, c) { color@[j] } else { o[offset(wd, r, c) + j] } by {
            assert(pa(r, c) == pb(r, c));
        }
    }
    // Left and right edges.
    let mut row = y;
    while row < y + h
        invariant
            y <= row <= (if y + h > y { y + h } else { y as int }),
            canvas_wf(canvas),
            canvas.width == wd,
            canvas.height == ht,
            o.len() == canvas.pixels@.len(),
            painted(o, canvas.pixels@, wd, ht, edges_v(xi, yi, wi, hi, row as int), color@),
        decreases y + h - row,
    {
        let ghost p0 = edges_v(xi, yi, wi, hi, row as int);
        let ghost pm = |r: int, c: int| p0(r, c) || (r == row && c == xi);
        let ghost p1 = edges_v(xi, yi, wi, hi, row + 1);
        paint_at(canvas, row, x, color, Ghost(o), Ghost(p0), Ghost(pm));
        let rx = x + w - 1;
        paint_at(canvas, row, rx, color, Ghost(o), Ghost(pm), Ghost(p1));
        row = row + 1;
    }
    proof {
        let pb = edges_v(xi, yi, wi, hi, row as int);
        let pf = |r: int, c: int| on_border(xi, yi, wi, hi, r, c);
        assert forall|r: int, c: int, j: int| #![trigger canvas.pixels@[offset(wd, r, c) + j]]
            on_canvas(wd, ht, r, c) && 0 <= j < 4 implies canvas.pixels@[offset(wd, r, c) + j] == if pf(r, c) { color@[j] } else { o[offset(wd, r, c) + j] } by {
            assert(pb(r, c) == pf(r, c));
        }
    }
}

} // verus!

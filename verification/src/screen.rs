//! The frame buffer (canvas) and the line rasterizer.
//!
//! The canvas is a flat row-major colour buffer, top-left origin, rows
//! increasing downward; it is emitted to the terminal in exactly that
//! linear order, so the ordering is an invariant here. Every pixel write
//! clamps its coordinates into bounds, so no write can ever land outside
//! the buffer, whatever coordinates the rasterizer produces.

use vstd::prelude::*;

verus! {

/// A cell colour: a single grey level or an explicit RGB triple.
#[derive(Clone, Copy, Debug, PartialEq, Eq, Structural)]
pub enum Colour {
    Grey(u8),
    Rgb(u8, u8, u8),
}

/// The canvas: `width * height` colour cells in row-major order
/// (cell `(x, y)` lives at index `width * y + x`).
pub struct Screen {
    pub screen: Vec<Colour>,
    pub width: usize,
    pub height: usize,
}

/// `v` clamped into `[0, hi]` (empty-range safe: yields 0 when `hi < 0`).
pub open spec fn clamp_to(v: int, hi: int) -> int {
    let m = if v < hi {
        v
    } else {
        hi
    };
    if m < 0 {
        0
    } else {
        m
    }
}

/// The buffer after one bounds-clamped pixel write at `(x, y)`.
/// On an empty canvas nothing is written.
pub open spec fn px_set(s: Seq<Colour>, w: int, h: int, x: int, y: int, c: Colour) -> Seq<Colour> {
    if 0 < w && 0 < h && s.len() == w * h {
        s.update(w * clamp_to(y, h - 1) + clamp_to(x, w - 1), c)
    } else {
        s
    }
}

/// Absolute value.
pub open spec fn abs_of(v: int) -> int {
    if v < 0 {
        -v
    } else {
        v
    }
}

/// One run of the mostly-horizontal line loop: draws a pixel at every
/// major-axis position in `[x, xe)`, advancing the minor coordinate `y`
/// by `yi` and correcting the error term `d` by `-2 * dx` whenever it is
/// positive, and accumulating `2 * dy` each step.
pub open spec fn low_run(
    s: Seq<Colour>,
    w: int,
    h: int,
    x: int,
    xe: int,
    y: int,
    d: int,
    yi: int,
    dx: int,
    dy: int,
    c: Colour,
) -> Seq<Colour>
    decreases xe - x,
{
    if x >= xe {
        s
    } else {
        let s1 = px_set(s, w, h, x, y, c);
        if d > 0 {
            low_run(s1, w, h, x + 1, xe, y + yi, d - 2 * dx + 2 * dy, yi, dx, dy, c)
        } else {
            low_run(s1, w, h, x + 1, xe, y, d + 2 * dy, yi, dx, dy, c)
        }
    }
}

/// One run of the mostly-vertical line loop, the transpose of `low_run`.
pub open spec fn high_run(
    s: Seq<Colour>,
    w: int,
    h: int,
    y: int,
    ye: int,
    x: int,
    d: int,
    xi: int,
    dy: int,
    dx: int,
    c: Colour,
) -> Seq<Colour>
    decreases ye - y,
{
    if y >= ye {
        s
    } else {
        let s1 = px_set(s, w, h, x, y, c);
        if d > 0 {
            high_run(s1, w, h, y + 1, ye, x + xi, d - 2 * dy + 2 * dx, xi, dy, dx, c)
        } else {
            high_run(s1, w, h, y + 1, ye, x, d + 2 * dx, xi, dy, dx, c)
        }
    }
}

/// The buffer after a mostly-horizontal line draw from `p1` to `p2`
/// (`p1.0 <= p2.0` expected): the x range is clamped into `[0, w - 1]`
/// on both ends, with a `+1` offset on the far endpoint before clamping
/// so its pixel is included; the error state starts from `p1` itself,
/// not from the clamped start.
pub open spec fn low_image(s: Seq<Colour>, w: int, h: int, p1: (int, int), p2: (int, int), c: Colour) -> Seq<Colour> {
    let dx = p2.0 - p1.0;
    let dy0 = p2.1 - p1.1;
    let yi = if dy0 < 0 {
        -1int
    } else {
        1int
    };
    let dy = abs_of(dy0);
    low_run(s, w, h, clamp_to(p1.0, w - 1), clamp_to(p2.0 + 1, w - 1), p1.1, 2 * dy - dx, yi, dx, dy, c)
}

/// The buffer after a mostly-vertical line draw from `p1` to `p2`
/// (`p1.1 <= p2.1` expected), the transpose of `low_image`.
pub open spec fn high_image(s: Seq<Colour>, w: int, h: int, p1: (int, int), p2: (int, int), c: Colour) -> Seq<Colour> {
    let dy = p2.1 - p1.1;
    let dx0 = p2.0 - p1.0;
    let xi = if dx0 < 0 {
        -1int
    } else {
        1int
    };
    let dx = abs_of(dx0);
    high_run(s, w, h, clamp_to(p1.1, h - 1), clamp_to(p2.1 + 1, h - 1), p1.0, 2 * dx - dy, xi, dy, dx, c)
}

/// The buffer after drawing the line from `p1` to `p2`: the slope picks
/// the octant-specialized routine, and the endpoints are ordered so the
/// major axis always steps upward.
pub open spec fn line_image(s: Seq<Colour>, w: int, h: int, p1: (int, int), p2: (int, int), c: Colour) -> Seq<Colour> {
    if abs_of(p2.1 - p1.1) < abs_of(p2.0 - p1.0) {
        if p1.0 > p2.0 {
            low_image(s, w, h, p2, p1, c)
        } else {
            low_image(s, w, h, p1, p2, c)
        }
    } else {
        if p1.1 > p2.1 {
            high_image(s, w, h, p2, p1, c)
        } else {
            high_image(s, w, h, p1, p2, c)
        }
    }
}

/// The buffer after drawing a triangle outline: the three edges 1-2,
/// 2-3, 3-1 in that order.
pub open spec fn triangle_image(
    s: Seq<Colour>,
    w: int,
    h: int,
    p1: (int, int),
    p2: (int, int),
    p3: (int, int),
    c: Colour,
) -> Seq<Colour> {
    line_image(line_image(line_image(s, w, h, p1, p2, c), w, h, p2, p3, c), w, h, p3, p1, c)
}

/// On an empty canvas (or a buffer of the wrong size, which no
/// well-formed `Screen` has) the line loop leaves the buffer unchanged.
proof fn lemma_low_run_same(
    s: Seq<Colour>,
    w: int,
    h: int,
    x: int,
    xe: int,
    y: int,
    d: int,
    yi: int,
    dx: int,
    dy: int,
    c: Colour,
)
    requires
        w <= 0 || h <= 0 || s.len() != w * h,
    ensures
        low_run(s, w, h, x, xe, y, d, yi, dx, dy, c) == s,
    decreases xe - x,
{
    if x < xe {
        assert(px_set(s, w, h, x, y, c) == s);
        if d > 0 {
            lemma_low_run_same(s, w, h, x + 1, xe, y + yi, d - 2 * dx + 2 * dy, yi, dx, dy, c);
        } else {
            lemma_low_run_same(s, w, h, x + 1, xe, y, d + 2 * dy, yi, dx, dy, c);
        }
    }
}

/// The transpose of `lemma_low_run_same`.
proof fn lemma_high_run_same(
    s: Seq<Colour>,
    w: int,
    h: int,
    y: int,
    ye: int,
    x: int,
    d: int,
    xi: int,
    dy: int,
    dx: int,
    c: Colour,
)
    requires
        w <= 0 || h <= 0 || s.len() != w * h,
    ensures
        high_run(s, w, h, y, ye, x, d, xi, dy, dx, c) == s,
    decreases ye - y,
{
    if y < ye {
        assert(px_set(s, w, h, x, y, c) == s);
        if d > 0 {
            lemma_high_run_same(s, w, h, y + 1, ye, x + xi, d - 2 * dy + 2 * dx, xi, dy, dx, c);
        } else {
            lemma_high_run_same(s, w, h, y + 1, ye, x, d + 2 * dx, xi, dy, dx, c);
        }
    }
}

/// The cell at coordinate `(x, y)` of a row-major buffer of row length `w`.
pub open spec fn cell(s: Seq<Colour>, w: int, x: int, y: int) -> Colour {
    s[w * y + x]
}

/// Law: every clamped pixel write lands inside the buffer. Whatever the
/// magnitude or sign of the requested coordinates, the row-major index a
/// write resolves to is within `[0, w * h)`.
pub proof fn lemma_write_in_bounds(w: int, h: int, x: int, y: int)
    requires
        0 < w,
        0 < h,
    ensures
        0 <= w * clamp_to(y, h - 1) + clamp_to(x, w - 1) < w * h,
{
    assert(0 <= w * clamp_to(y, h - 1) + clamp_to(x, w - 1) < w * h) by (nonlinear_arith)
        requires
            0 < w,
            0 < h,
            0 <= clamp_to(y, h - 1) <= h - 1,
            0 <= clamp_to(x, w - 1) <= w - 1,
    ;
}

/// Law: drawing a line from `a` to `b` and from `b` to `a` produces the
/// same buffer, because the dispatch always reorders the endpoints so
/// the major axis steps upward.
pub proof fn lemma_line_symmetry(s: Seq<Colour>, w: int, h: int, a: (int, int), b: (int, int), c: Colour)
    ensures
        line_image(s, w, h, a, b, c) == line_image(s, w, h, b, a, c),
{
    if abs_of(b.1 - a.1) < abs_of(b.0 - a.0) {
        assert(a.0 != b.0);
    } else {
        if a.1 == b.1 {
            assert(abs_of(b.0 - a.0) <= 0);
            assert(a == b);
        }
    }
}

/// Row-major cell indices are unique per coordinate pair.
proof fn lemma_rowmajor_injective(w: int, x1: int, y1: int, x2: int, y2: int)
    requires
        0 <= x1 < w,
        0 <= x2 < w,
        w * y1 + x1 == w * y2 + x2,
    ensures
        x1 == x2 && y1 == y2,
{
    assert(x1 == x2 && y1 == y2) by (nonlinear_arith)
        requires
            0 <= x1 < w,
            0 <= x2 < w,
            w * y1 + x1 == w * y2 + x2,
    ;
}

/// A line loop whose error term starts non-positive and accumulates
/// nothing (`dy == 0`) never steps the minor axis: it paints exactly the
/// row `k` cells with x in `[x, xe)`.
proof fn lemma_low_run_flat(
    s: Seq<Colour>,
    w: int,
    h: int,
    x: int,
    xe: int,
    k: int,
    d: int,
    yi: int,
    dx: int,
    c: Colour,
)
    requires
        0 < w,
        0 < h,
        s.len() == w * h,
        d <= 0,
        0 <= x,
        xe <= w - 1,
        0 <= k < h,
    ensures
        low_run(s, w, h, x, xe, k, d, yi, dx, 0, c).len() == s.len(),
        forall|xx: int, yy: int|
            0 <= xx < w && 0 <= yy < h ==> #[trigger] cell(
                low_run(s, w, h, x, xe, k, d, yi, dx, 0, c),
                w,
                xx,
                yy,
            ) == (if yy == k && x <= xx < xe {
                c
            } else {
                cell(s, w, xx, yy)
            }),
    decreases xe - x,
{
    if x >= xe {
    } else {
        let s1 = px_set(s, w, h, x, k, c);
        assert(clamp_to(x, w - 1) == x);
        assert(clamp_to(k, h - 1) == k);
        assert(s1 == s.update(w * k + x, c));
        lemma_write_in_bounds(w, h, x, k);
        lemma_low_run_flat(s1, w, h, x + 1, xe, k, d, yi, dx, c);
        let r = low_run(s, w, h, x, xe, k, d, yi, dx, 0, c);
        assert(r == low_run(s1, w, h, x + 1, xe, k, d, yi, dx, 0, c));
        assert forall|xx: int, yy: int| 0 <= xx < w && 0 <= yy < h implies #[trigger] cell(
            r,
            w,
            xx,
            yy,
        ) == (if yy == k && x <= xx < xe {
            c
        } else {
            cell(s, w, xx, yy)
        }) by {
            lemma_write_in_bounds(w, h, xx, yy);
            assert(clamp_to(xx, w - 1) == xx);
            assert(clamp_to(yy, h - 1) == yy);
            assert(cell(r, w, xx, yy) == cell(s1, w, xx, yy) || (yy == k && x + 1 <= xx < xe));
            if yy == k && xx == x {
                assert(cell(r, w, xx, yy) == s1[w * k + x]);
            } else {
                if !(yy == k && x + 1 <= xx < xe) {
                    assert(w * yy + xx != w * k + x) by {
                        if w * yy + xx == w * k + x {
                            lemma_rowmajor_injective(w, xx, yy, x, k);
                        }
                    }
                    assert(cell(s1, w, xx, yy) == cell(s, w, xx, yy));
                }
            }
        }
    }
}

/// The transpose of `lemma_low_run_flat`: a zero-`dx` vertical loop
/// paints exactly the column `k` cells with y in `[y, ye)`.
proof fn lemma_high_run_flat(
    s: Seq<Colour>,
    w: int,
    h: int,
    y: int,
    ye: int,
    k: int,
    d: int,
    xi: int,
    dy: int,
    c: Colour,
)
    requires
        0 < w,
        0 < h,
        s.len() == w * h,
        d <= 0,
        0 <= y,
        ye <= h - 1,
        0 <= k < w,
    ensures
        high_run(s, w, h, y, ye, k, d, xi, dy, 0, c).len() == s.len(),
        forall|xx: int, yy: int|
            0 <= xx < w && 0 <= yy < h ==> #[trigger] cell(
                high_run(s, w, h, y, ye, k, d, xi, dy, 0, c),
                w,
                xx,
                yy,
            ) == (if xx == k && y <= yy < ye {
                c
            } else {
                cell(s, w, xx, yy)
            }),
    decreases ye - y,
{
    if y >= ye {
    } else {
        let s1 = px_set(s, w, h, k, y, c);
        assert(clamp_to(k, w - 1) == k);
        assert(clamp_to(y, h - 1) == y);
        assert(s1 == s.update(w * y + k, c));
        lemma_write_in_bounds(w, h, k, y);
        lemma_high_run_flat(s1, w, h, y + 1, ye, k, d, xi, dy, c);
        let r = high_run(s, w, h, y, ye, k, d, xi, dy, 0, c);
        assert(r == high_run(s1, w, h, y + 1, ye, k, d, xi, dy, 0, c));
        assert forall|xx: int, yy: int| 0 <= xx < w && 0 <= yy < h implies #[trigger] cell(
            r,
            w,
            xx,
            yy,
        ) == (if xx == k && y <= yy < ye {
            c
        } else {
            cell(s, w, xx, yy)
        }) by {
            lemma_write_in_bounds(w, h, xx, yy);
            assert(clamp_to(xx, w - 1) == xx);
            assert(clamp_to(yy, h - 1) == yy);
            if xx == k && yy == y {
                assert(cell(r, w, xx, yy) == s1[w * y + k]);
            } else {
                if !(xx == k && y + 1 <= yy < ye) {
                    assert(w * yy + xx != w * y + k) by {
                        if w * yy + xx == w * y + k {
                            lemma_rowmajor_injective(w, xx, yy, k, y);
                        }
                    }
                    assert(cell(s1, w, xx, yy) == cell(s, w, xx, yy));
                }
            }
        }
    }
}

/// Law: a perfectly horizontal line whose span `[x0, x1]` lies inside
/// the canvas (with room for the far endpoint's `+1` offset) touches
/// exactly the cells `(x0, k) ..= (x1, k)` and no other. The span is
/// two or more columns wide: a single point dispatches to the
/// mostly-vertical routine instead.
pub proof fn lemma_horizontal_line(s: Seq<Colour>, w: int, h: int, x0: int, x1: int, k: int, c: Colour)
    requires
        0 < w,
        0 < h,
        s.len() == w * h,
        0 <= x0 < x1,
        x1 + 1 <= w - 1,
        0 <= k < h,
    ensures
        line_image(s, w, h, (x0, k), (x1, k), c).len() == s.len(),
        forall|xx: int, yy: int|
            0 <= xx < w && 0 <= yy < h ==> #[trigger] cell(
                line_image(s, w, h, (x0, k), (x1, k), c),
                w,
                xx,
                yy,
            ) == (if yy == k && x0 <= xx <= x1 {
                c
            } else {
                cell(s, w, xx, yy)
            }),
{
    assert(clamp_to(x0, w - 1) == x0);
    assert(clamp_to(x1 + 1, w - 1) == x1 + 1);
    lemma_low_run_flat(s, w, h, x0, x1 + 1, k, -(x1 - x0), 1, x1 - x0, c);
    assert(line_image(s, w, h, (x0, k), (x1, k), c) == low_run(
        s,
        w,
        h,
        x0,
        x1 + 1,
        k,
        -(x1 - x0),
        1,
        x1 - x0,
        0,
        c,
    ));
}

/// Law: a perfectly vertical line whose span `[y0, y1]` lies inside the
/// canvas (with room for the far endpoint's `+1` offset) touches exactly
/// the cells `(k, y0) ..= (k, y1)` and no other.
pub proof fn lemma_vertical_line(s: Seq<Colour>, w: int, h: int, y0: int, y1: int, k: int, c: Colour)
    requires
        0 < w,
        0 < h,
        s.len() == w * h,
        0 <= y0 <= y1,
        y1 + 1 <= h - 1,
        0 <= k < w,
    ensures
        line_image(s, w, h, (k, y0), (k, y1), c).len() == s.len(),
        forall|xx: int, yy: int|
            0 <= xx < w && 0 <= yy < h ==> #[trigger] cell(
                line_image(s, w, h, (k, y0), (k, y1), c),
                w,
                xx,
                yy,
            ) == (if xx == k && y0 <= yy <= y1 {
                c
            } else {
                cell(s, w, xx, yy)
            }),
{
    assert(clamp_to(y0, h - 1) == y0);
    assert(clamp_to(y1 + 1, h - 1) == y1 + 1);
    lemma_high_run_flat(s, w, h, y0, y1 + 1, k, -(y1 - y0), 1, y1 - y0, c);
    assert(line_image(s, w, h, (k, y0), (k, y1), c) == high_run(
        s,
        w,
        h,
        y0,
        y1 + 1,
        k,
        -(y1 - y0),
        1,
        y1 - y0,
        0,
        c,
    ));
}

/// Clamps a signed coordinate into `[0, dim - 1]`.
fn clamp_coord(v: i64, dim: usize) -> (r: usize)
    requires
        1 <= dim,
    ensures
        r as int == clamp_to(v as int, dim as int - 1),
        r < dim,
{
    if v < 0 {
        0
    } else {
        let vu = v as u64;
        if vu >= dim as u64 {
            dim - 1
        } else {
            vu as usize
        }
    }
}

impl Screen {
    /// The canvas invariant: the buffer holds exactly one cell per
    /// `(x, y)` position.
    pub open spec fn wf(self) -> bool {
        self.screen@.len() == self.width * self.height
    }

    /// Builds a canvas of the given dimensions, every cell black.
    pub fn from(width: usize, height: usize) -> (res: Screen)
        requires
            width * height <= usize::MAX,
        ensures
            res.wf(),
            res.width == width,
            res.height == height,
            forall|i: int| 0 <= i < res.screen@.len() ==> res.screen@[i] == (Colour::Rgb(0, 0, 0)),
    {
        let n = width * height;
        let mut buf: Vec<Colour> = Vec::new();
        let mut i: usize = 0;
        while i < n
            invariant
                i <= n,
                buf@.len() == i,
                forall|j: int| 0 <= j < i ==> buf@[j] == (Colour::Rgb(0, 0, 0)),
            decreases n - i,
        {
            buf.push(Colour::Rgb(0, 0, 0));
            i = i + 1;
        }
        Screen { screen: buf, width, height }
    }

    /// Adopts new terminal dimensions: the buffer is reallocated to the
    /// new size and refilled with black (a stale partial buffer is not a
    /// supported state).
    pub fn update_size(&mut self, width: usize, height: usize)
        requires
            width * height <= usize::MAX,
        ensures
            final(self).wf(),
            final(self).width == width,
            final(self).height == height,
            forall|i: int|
                0 <= i < final(self).screen@.len() ==> final(self).screen@[i] == (Colour::Rgb(
                    0,
                    0,
                    0,
                )),
    {
        *self = Screen::from(width, height);
    }

    /// Overwrites every cell with one colour; dimensions are untouched.
    pub fn background(&mut self, c: Colour)
        requires
            old(self).wf(),
        ensures
            final(self).wf(),
            final(self).width == old(self).width,
            final(self).height == old(self).height,
            final(self).screen@.len() == old(self).screen@.len(),
            forall|i: int| 0 <= i < final(self).screen@.len() ==> final(self).screen@[i] == c,
    {
        let n = self.screen.len();
        let mut i: usize = 0;
        while i < n
            invariant
                i <= n,
                self.screen@.len() == n,
                self.width == old(self).width,
                self.height == old(self).height,
                forall|j: int| 0 <= j < i ==> self.screen@[j] == c,
            decreases n - i,
        {
            self.screen[i] = c;
            i = i + 1;
        }
    }

    /// Bounds-clamped pixel write: both coordinates are clamped into the
    /// valid range before the row-major index is formed, so the write
    /// always lands inside the buffer; on an empty canvas it is a no-op.
    pub fn set_pixel(&mut self, x: usize, y: usize, c: Colour)
        requires
            old(self).wf(),
        ensures
            final(self).wf(),
            final(self).width == old(self).width,
            final(self).height == old(self).height,
            final(self).screen@ == px_set(
                old(self).screen@,
                old(self).width as int,
                old(self).height as int,
                x as int,
                y as int,
                c,
            ),
    {
        if self.width == 0 || self.height == 0 {
            return ;
        }
        let x1 = if x > self.width - 1 {
            self.width - 1
        } else {
            x
        };
        let y1 = if y > self.height - 1 {
            self.height - 1
        } else {
            y
        };
        let n = self.screen.len();
        proof {
            assert(x1 == clamp_to(x as int, self.width - 1));
            assert(y1 == clamp_to(y as int, self.height - 1));
            assert(self.width * y1 + x1 < self.width * self.height) by (nonlinear_arith)
                requires
                    y1 <= self.height - 1,
                    x1 <= self.width - 1,
                    0 < self.width,
                    0 < self.height,
            ;
            assert(self.width * self.height == n);
        }
        let index = self.width * y1 + x1;
        self.screen[index] = c;
    }

    /// Draws a single-pixel-wide line segment between two points using
    /// the incremental integer error-accumulation algorithm. The two
    /// octant-specialized routines are chosen by slope; within each, the
    /// endpoints are swapped so the major axis always steps upward, so the
    /// drawn pixels do not depend on the order of the endpoints.
    pub fn bresenham(&mut self, p1: (i32, i32), p2: (i32, i32), c: Colour)
        requires
            old(self).wf(),
        ensures
            final(self).wf(),
            final(self).width == old(self).width,
            final(self).height == old(self).height,
            final(self).screen@ == line_image(
                old(self).screen@,
                old(self).width as int,
                old(self).height as int,
                (p1.0 as int, p1.1 as int),
                (p2.0 as int, p2.1 as int),
                c,
            ),
    {
        let dxr: i64 = p2.0 as i64 - p1.0 as i64;
        let dyr: i64 = p2.1 as i64 - p1.1 as i64;
        let adx: i64 = if dxr < 0 {
            -dxr
        } else {
            dxr
        };
        let ady: i64 = if dyr < 0 {
            -dyr
        } else {
            dyr
        };
        if ady < adx {
            if p1.0 > p2.0 {
                self.bresenham_low(p2, p1, c);
            } else {
                self.bresenham_low(p1, p2, c);
            }
        } else {
            if p1.1 > p2.1 {
                self.bresenham_high(p2, p1, c);
            } else {
                self.bresenham_high(p1, p2, c);
            }
        }
    }

    /// The mostly-horizontal case: steps x upward from the clamped start
    /// to the clamped (far endpoint + 1), stepping y by `yi` whenever the
    /// accumulated error crosses zero.
    fn bresenham_low(&mut self, p1: (i32, i32), p2: (i32, i32), c: Colour)
        requires
            old(self).wf(),
            p1.0 <= p2.0,
            abs_of(p2.1 as int - p1.1 as int) <= p2.0 as int - p1.0 as int,
        ensures
            final(self).wf(),
            final(self).width == old(self).width,
            final(self).height == old(self).height,
            final(self).screen@ == low_image(
                old(self).screen@,
                old(self).width as int,
                old(self).height as int,
                (p1.0 as int, p1.1 as int),
                (p2.0 as int, p2.1 as int),
                c,
            ),
    {
        let ghost w = self.width as int;
        let ghost h = self.height as int;
        let ghost s0 = self.screen@;
        let dx: i64 = p2.0 as i64 - p1.0 as i64;
        let dy0: i64 = p2.1 as i64 - p1.1 as i64;
        let yi: i64 = if dy0 < 0 {
            -1
        } else {
            1
        };
        let dy: i64 = if dy0 < 0 {
            -dy0
        } else {
            dy0
        };
        if self.width == 0 || self.height == 0 {
            proof {
                lemma_low_run_same(
                    s0,
                    w,
                    h,
                    clamp_to(p1.0 as int, w - 1),
                    clamp_to(p2.0 as int + 1, w - 1),
                    p1.1 as int,
                    2 * dy as int - dx as int,
                    yi as int,
                    dx as int,
                    dy as int,
                    c,
                );
            }
            return ;
        }
        let xs: usize = clamp_coord(p1.0 as i64, self.width);
        let xe: usize = clamp_coord(p2.0 as i64 + 1, self.width);
        assert(xs <= xe);
        let mut x: usize = xs;
        let mut y: i64 = p1.1 as i64;
        let mut d: i64 = 2 * dy - dx;
        while x < xe
            invariant
                self.wf(),
                self.width == old(self).width,
                self.height == old(self).height,
                0 < self.width,
                0 < self.height,
                w == self.width as int,
                h == self.height as int,
                0 <= dx <= u32::MAX,
                0 <= dy <= dx,
                yi == 1 || yi == -1,
                xs <= x <= xe,
                xe <= w - 1,
                xe <= i32::MAX as i64 + 1,
                -2 * dx <= d <= 2 * dy,
                p1.1 - (x - xs) <= y <= p1.1 + (x - xs),
                low_run(self.screen@, w, h, x as int, xe as int, y as int, d as int, yi as int, dx as int, dy as int, c)
                    == low_run(s0, w, h, xs as int, xe as int, p1.1 as int, 2 * dy as int - dx as int, yi as int, dx as int, dy as int, c),
            decreases xe - x,
        {
            let yc: usize = clamp_coord(y, self.height);
            let ghost pre = self.screen@;
            self.set_pixel(x, yc, c);
            proof {
                assert(clamp_to(yc as int, h - 1) == clamp_to(y as int, h - 1));
                assert(clamp_to(x as int, w - 1) == x as int);
                assert(self.screen@ == px_set(pre, w, h, x as int, y as int, c));
            }
            if d > 0 {
                y = y + yi;
                d = d - 2 * dx;
            }
            d = d + 2 * dy;
            x = x + 1;
        }
        proof {
            assert(low_run(self.screen@, w, h, x as int, xe as int, y as int, d as int, yi as int, dx as int, dy as int, c)
                == self.screen@);
        }
    }

    /// The mostly-vertical case: steps y upward from the clamped start to
    /// the clamped (far endpoint + 1), stepping x by `xi` whenever the
    /// accumulated error crosses zero.
    fn bresenham_high(&mut self, p1: (i32, i32), p2: (i32, i32), c: Colour)
        requires
            old(self).wf(),
            p1.1 <= p2.1,
            abs_of(p2.0 as int - p1.0 as int) <= p2.1 as int - p1.1 as int,
        ensures
            final(self).wf(),
            final(self).width == old(self).width,
            final(self).height == old(self).height,
            final(self).screen@ == high_image(
                old(self).screen@,
                old(self).width as int,
                old(self).height as int,
                (p1.0 as int, p1.1 as int),
                (p2.0 as int, p2.1 as int),
                c,
            ),
    {
        let ghost w = self.width as int;
        let ghost h = self.height as int;
        let ghost s0 = self.screen@;
        let dy: i64 = p2.1 as i64 - p1.1 as i64;
        let dx0: i64 = p2.0 as i64 - p1.0 as i64;
        let xi: i64 = if dx0 < 0 {
            -1
        } else {
            1
        };
        let dx: i64 = if dx0 < 0 {
            -dx0
        } else {
            dx0
        };
        if self.width == 0 || self.height == 0 {
            proof {
                lemma_high_run_same(
                    s0,
                    w,
                    h,
                    clamp_to(p1.1 as int, h - 1),
                    clamp_to(p2.1 as int + 1, h - 1),
                    p1.0 as int,
                    2 * dx as int - dy as int,
                    xi as int,
                    dy as int,
                    dx as int,
                    c,
                );
            }
            return ;
        }
        let ys: usize = clamp_coord(p1.1 as i64, self.height);
        let ye: usize = clamp_coord(p2.1 as i64 + 1, self.height);
        assert(ys <= ye);
        let mut y: usize = ys;
        let mut x: i64 = p1.0 as i64;
        let mut d: i64 = 2 * dx - dy;
        while y < ye
            invariant
                self.wf(),
                self.width == old(self).width,
                self.height == old(self).height,
                0 < self.width,
                0 < self.height,
                w == self.width as int,
                h == self.height as int,
                0 <= dy <= u32::MAX,
                0 <= dx <= dy,
                xi == 1 || xi == -1,
                ys <= y <= ye,
                ye <= h - 1,
                ye <= i32::MAX as i64 + 1,
                -2 * dy <= d <= 2 * dx,
                p1.0 - (y - ys) <= x <= p1.0 + (y - ys),
                high_run(self.screen@, w, h, y as int, ye as int, x as int, d as int, xi as int, dy as int, dx as int, c)
                    == high_run(s0, w, h, ys as int, ye as int, p1.0 as int, 2 * dx as int - dy as int, xi as int, dy as int, dx as int, c),
            decreases ye - y,
        {
            let xc: usize = clamp_coord(x, self.width);
            let ghost pre = self.screen@;
            self.set_pixel(xc, y, c);
            proof {
                assert(clamp_to(xc as int, w - 1) == clamp_to(x as int, w - 1));
                assert(clamp_to(y as int, h - 1) == y as int);
                assert(self.screen@ == px_set(pre, w, h, x as int, y as int, c));
            }
            if d > 0 {
                x = x + xi;
                d = d - 2 * dy;
            }
            d = d + 2 * dx;
            y = y + 1;
        }
        proof {
            assert(high_run(self.screen@, w, h, y as int, ye as int, x as int, d as int, xi as int, dy as int, dx as int, c)
                == self.screen@);
        }
    }

    /// Draws the closed outline of a triangle as three line segments
    /// (edge 1-2, 2-3, 3-1) in one colour. The antialiased variant is an
    /// accepted but unimplemented flag: it draws nothing.
    pub fn triangle(
        &mut self,
        p1: (i32, i32),
        p2: (i32, i32),
        p3: (i32, i32),
        c: Colour,
        antialiased: bool,
    )
        requires
            old(self).wf(),
        ensures
            final(self).wf(),
            final(self).width == old(self).width,
            final(self).height == old(self).height,
            final(self).screen@ == (if antialiased {
                old(self).screen@
            } else {
                triangle_image(
                    old(self).screen@,
                    old(self).width as int,
                    old(self).height as int,
                    (p1.0 as int, p1.1 as int),
                    (p2.0 as int, p2.1 as int),
                    (p3.0 as int, p3.1 as int),
                    c,
                )
            }),
    {
        if antialiased {
        } else {
            self.bresenham(p1, p2, c);
            self.bresenham(p2, p3, c);
            self.bresenham(p3, p1, c);
        }
    }

    /// Reads the cell at an in-bounds coordinate.
    pub fn get_pixel(&self, x: usize, y: usize) -> (c: Colour)
        requires
            self.wf(),
            x < self.width,
            y < self.height,
        ensures
            c == self.screen@[self.width * y + x],
    {
        let n = self.screen.len();
        proof {
            assert(self.width * y + x < self.width * self.height) by (nonlinear_arith)
                requires
                    y < self.height,
                    x < self.width,
            ;
            assert(self.width * self.height == n);
        }
        self.screen[self.width * y + x]
    }
}

} // verus!

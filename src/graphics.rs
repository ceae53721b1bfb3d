use vstd::prelude::*;

use crate::buffer::{lemma_painted_ext, lemma_painted_nothing, Buffer, FrameView};
use crate::color::{unpack, Color};
use crate::draw::{coord_in_range, draw_line_signed, line_paint, plot, plot_onto, plot_recorded};

verus! {

/// The eight positions that a midpoint-circle step at offsets `(a, b)` from
/// the center `(cx, cy)` draws, one in each octant.
pub open spec fn octants(cx: int, cy: int, a: int, b: int) -> Seq<(int, int)> {
    seq![
        (cx + a, cy + b),
        (cx + b, cy + a),
        (cx - b, cy + a),
        (cx - a, cy + b),
        (cx - a, cy - b),
        (cx - b, cy - a),
        (cx + b, cy - a),
        (cx + a, cy - b),
    ]
}

/// The positions of the midpoint-circle walk from offsets `(a, b)` with error
/// term `err`, within `fuel` steps: `b` grows by one each step, and `a`
/// shrinks by one when the error term was positive.
pub open spec fn circle_walk(cx: int, cy: int, a: int, b: int, err: int, fuel: nat) -> Seq<(int, int)>
    decreases fuel,
{
    if a < b || fuel == 0 {
        Seq::empty()
    } else {
        let b1 = b + 1;
        let (a1, err1) = if err <= 0 {
            (a, err + 2 * b1 + 1)
        } else {
            (a - 1, err - 2 * (a - 1) - 1)
        };
        octants(cx, cy, a, b) + circle_walk(cx, cy, a1, b1, err1, (fuel - 1) as nat)
    }
}

/// The positions of the circle of radius `r` about `(cx, cy)` by the midpoint
/// algorithm, in the order they are drawn; none for a negative radius.
pub open spec fn circle_points(cx: int, cy: int, r: int) -> Seq<(int, int)> {
    circle_walk(cx, cy, r, 0, 0, (r + 1) as nat)
}

/// What filling the rectangle with corners `(x1, y1)` and `(x2, y2)` paints:
/// every position of `[x1, x2) x [y1, y2)`, and nothing when `x2 <= x1` or
/// `y2 <= y1`.
pub open spec fn block_paint(x1: int, y1: int, x2: int, y2: int, c: Color) -> spec_fn(int, int) -> Option<Color> {
    |a: int, b: int|
        if x1 <= a < x2 && y1 <= b < y2 {
            Some(c)
        } else {
            None
        }
}

/// Immediate-mode drawing with colors given as ARGB8888 words and signed
/// coordinates; positions outside the screen are skipped.
pub trait GraphicsBackend {
    /// The frame being drawn.
    spec fn frame(&self) -> FrameView;

    spec fn inv(&self) -> bool;

    fn draw_pixel(&mut self, x: i32, y: i32, color: u32)
        requires
            old(self).inv(),
        ensures
            final(self).inv(),
            old(self).frame().painted(
                final(self).frame(),
                |a: int, b: int| if a == x && b == y { Some(unpack(color)) } else { None },
            ),
    ;

    fn draw_line(&mut self, x1: i32, y1: i32, x2: i32, y2: i32, color: u32)
        requires
            old(self).inv(),
        ensures
            final(self).inv(),
            old(self).frame().painted(final(self).frame(), line_paint(x1 as int, y1 as int, x2 as int, y2 as int, unpack(color))),
    ;

    /// Fills the rectangle `[x1, x2) x [y1, y2)`; `rect(x, y, x + 1, y + 1)`
    /// paints the one pixel `(x, y)`.
    fn draw_rect(&mut self, x1: i32, y1: i32, x2: i32, y2: i32, color: u32)
        requires
            old(self).inv(),
        ensures
            final(self).inv(),
            old(self).frame().painted(final(self).frame(), block_paint(x1 as int, y1 as int, x2 as int, y2 as int, unpack(color))),
    ;

    /// Draws the circle of radius `radius` about `(x, y)`.
    fn draw_circle(&mut self, x: i32, y: i32, radius: i32, color: u32)
        requires
            old(self).inv(),
        ensures
            final(self).inv(),
            old(self).frame().painted(
                final(self).frame(),
                |a: int, b: int| if circle_points(x as int, y as int, radius as int).contains((a, b)) { Some(unpack(color)) } else { None },
            ),
    ;

    fn clear(&mut self, color: u32)
        requires
            old(self).inv(),
        ensures
            final(self).inv(),
            old(self).frame().painted(final(self).frame(), |a: int, b: int| Some(unpack(color))),
    ;

    fn get_screen_size(&self) -> (r: (u32, u32))
        requires
            self.inv(),
        ensures
            r.0 == self.frame().rw,
            r.1 == self.frame().rh,
    ;
}

/// A [`GraphicsBackend`] over a pixel buffer, such as a mapped framebuffer.
pub struct FramebufferBackend<'a> {
    buffer: Buffer<'a>,
}

impl<'a> FramebufferBackend<'a> {
    pub fn new(buffer: Buffer<'a>) -> (r: Self)
        requires
            buffer.wf(),
        ensures
            r.inv(),
            r.frame() == buffer@,
    {
        FramebufferBackend { buffer }
    }

    pub fn buffer(&self) -> (r: &Buffer<'a>)
        ensures
            r@ == self.frame(),
    {
        &self.buffer
    }
}

impl<'a> GraphicsBackend for FramebufferBackend<'a> {
    closed spec fn frame(&self) -> FrameView {
        self.buffer@
    }

    closed spec fn inv(&self) -> bool {
        self.buffer.wf()
    }

    fn draw_pixel(&mut self, x: i32, y: i32, color: u32) {
        let c = Color::from_argb8888(color);
        let ghost pre = self.buffer@;
        plot(&mut self.buffer, x as i64, y as i64, &c);
        proof {
            if pre.contains(x as int, y as int) {
                crate::buffer::lemma_put_paints(pre, x as int, y as int, c);
            } else {
                lemma_painted_nothing(pre);
                lemma_painted_ext(pre, pre, |a: int, b: int| None::<Color>, |a: int, b: int| if a == x && b == y { Some(c) } else { None });
            }
        }
    }

    fn draw_line(&mut self, x1: i32, y1: i32, x2: i32, y2: i32, color: u32) {
        let c = Color::from_argb8888(color);
        draw_line_signed(&mut self.buffer, x1 as i64, y1 as i64, x2 as i64, y2 as i64, &c);
    }

    fn draw_rect(&mut self, x1: i32, y1: i32, x2: i32, y2: i32, color: u32) {
        let c = Color::from_argb8888(color);
        draw_block(&mut self.buffer, x1 as i64, y1 as i64, x2 as i64, y2 as i64, &c);
    }

    fn draw_circle(&mut self, x: i32, y: i32, radius: i32, color: u32) {
        let c = Color::from_argb8888(color);
        draw_circle(&mut self.buffer, x, y, radius, &c);
    }

    fn clear(&mut self, color: u32) {
        let c = Color::from_argb8888(color);
        self.buffer.memset(&c);
    }

    fn get_screen_size(&self) -> (r: (u32, u32)) {
        let (_, _, w, h) = self.buffer.region();
        (w, h)
    }
}

/// Fills the rectangle `[x1, x2) x [y1, y2)` row by row; positions outside the
/// active region are skipped.
pub fn draw_block(buf: &mut Buffer, x1: i64, y1: i64, x2: i64, y2: i64, c: &Color)
    requires
        old(buf).wf(),
        coord_in_range(x1 as int),
        coord_in_range(y1 as int),
        coord_in_range(x2 as int),
        coord_in_range(y2 as int),
    ensures
        final(buf).wf(),
        final(buf).subregion() == old(buf).subregion(),
        old(buf)@.painted(final(buf)@, block_paint(x1 as int, y1 as int, x2 as int, y2 as int, *c)),
{
    let ghost pre = buf@;
    let ghost sub = buf.subregion();
    proof {
        lemma_painted_nothing(pre);
        lemma_painted_ext(pre, pre, |a: int, b: int| None::<Color>, |a: int, b: int| if y1 <= b < y1 && x1 <= a < x2 { Some(*c) } else { None });
    }
    let mut y = y1;
    while y < y2
        invariant
            buf.wf(),
            buf.subregion() == sub,
            pre.wf(),
            coord_in_range(x1 as int),
            coord_in_range(y1 as int),
            coord_in_range(x2 as int),
            coord_in_range(y2 as int),
            y1 <= y <= y2 || (y == y1 && y1 > y2),
            pre.painted(buf@, |a: int, b: int| if y1 <= b < y && x1 <= a < x2 { Some(*c) } else { None }),
        decreases y2 - y,
    {
        let mut x = x1;
        while x < x2
            invariant
                buf.wf(),
                buf.subregion() == sub,
                pre.wf(),
                coord_in_range(x1 as int),
                coord_in_range(y1 as int),
                coord_in_range(x2 as int),
                coord_in_range(y2 as int),
                y1 <= y < y2,
                x1 <= x <= x2 || (x == x1 && x1 > x2),
                pre.painted(buf@, |a: int, b: int| if (y1 <= b < y && x1 <= a < x2) || (b == y && x1 <= a < x) { Some(*c) } else { None }),
            decreases x2 - x,
        {
            plot_onto(
                buf,
                x,
                y,
                c,
                Ghost(pre),
                Ghost(|a: int, b: int| if (y1 <= b < y && x1 <= a < x2) || (b == y && x1 <= a < x) { Some(*c) } else { None }),
                Ghost(|a: int, b: int| if (y1 <= b < y && x1 <= a < x2) || (b == y && x1 <= a < x + 1) { Some(*c) } else { None }),
            );
            x = x + 1;
        }
        proof {
            lemma_painted_ext(pre, buf@, |a: int, b: int| if (y1 <= b < y && x1 <= a < x2) || (b == y && x1 <= a < x) { Some(*c) } else { None }, |a: int, b: int| if y1 <= b < y + 1 && x1 <= a < x2 { Some(*c) } else { None });
        }
        y = y + 1;
    }
    proof {
        lemma_painted_ext(pre, buf@, |a: int, b: int| if y1 <= b < y && x1 <= a < x2 { Some(*c) } else { None }, block_paint(x1 as int, y1 as int, x2 as int, y2 as int, *c));
    }
}

/// Draws the circle of radius `r` about `(cx, cy)` by the midpoint algorithm;
/// a negative radius draws nothing.
pub fn draw_circle(buf: &mut Buffer, cx: i32, cy: i32, r: i32, c: &Color)
    requires
        old(buf).wf(),
    ensures
        final(buf).wf(),
        final(buf).subregion() == old(buf).subregion(),
        old(buf)@.painted(
            final(buf)@,
            |a: int, b: int| if circle_points(cx as int, cy as int, r as int).contains((a, b)) { Some(*c) } else { None },
        ),
{
    let ghost pre = buf@;
    let ghost sub = buf.subregion();
    let ghost pts = circle_points(cx as int, cy as int, r as int);
    let ghost mut done: Seq<(int, int)> = Seq::empty();
    let ghost mut fuel: nat = (r + 1) as nat;
    let x = cx as i64;
    let y = cy as i64;
    let mut a: i64 = r as i64;
    let mut b: i64 = 0;
    let mut err: i64 = 0;
    proof {
        lemma_painted_nothing(pre);
        lemma_painted_ext(pre, pre, |p: int, q: int| None::<Color>, |p: int, q: int| if done.contains((p, q)) { Some(*c) } else { None });
        assert(pts == done + circle_walk(cx as int, cy as int, a as int, b as int, err as int, fuel));
    }
    while a >= b
        invariant
            buf.wf(),
            buf.subregion() == sub,
            pre.wf(),
            x == cx,
            y == cy,
            0 <= b,
            a <= r,
            a >= b ==> -2 * a - 1 <= err <= 2 * b + 1,
            a >= b ==> fuel >= a - b + 1,
            pts == done + circle_walk(cx as int, cy as int, a as int, b as int, err as int, fuel),
            pre.painted(buf@, |p: int, q: int| if done.contains((p, q)) { Some(*c) } else { None }),
        decreases if a >= b { a - b + 2 } else { 0 },
    {
        let ghost o = octants(cx as int, cy as int, a as int, b as int);
        let ghost d0 = done;
        plot_recorded(buf, x + a, y + b, c, Ghost(pre), Ghost(done));
        proof { done = done.push(o[0]); }
        plot_recorded(buf, x + b, y + a, c, Ghost(pre), Ghost(done));
        proof { done = done.push(o[1]); }
        plot_recorded(buf, x - b, y + a, c, Ghost(pre), Ghost(done));
        proof { done = done.push(o[2]); }
        plot_recorded(buf, x - a, y + b, c, Ghost(pre), Ghost(done));
        proof { done = done.push(o[3]); }
        plot_recorded(buf, x - a, y - b, c, Ghost(pre), Ghost(done));
        proof { done = done.push(o[4]); }
        plot_recorded(buf, x - b, y - a, c, Ghost(pre), Ghost(done));
        proof { done = done.push(o[5]); }
        plot_recorded(buf, x + b, y - a, c, Ghost(pre), Ghost(done));
        proof { done = done.push(o[6]); }
        plot_recorded(buf, x + a, y - b, c, Ghost(pre), Ghost(done));
        proof {
            done = done.push(o[7]);
            assert(done =~= d0 + o);
        }
        let ghost rest = circle_walk(cx as int, cy as int, a as int, b as int, err as int, fuel);
        b = b + 1;
        if err <= 0 {
            err = err + 2 * b + 1;
        } else {
            a = a - 1;
            err = err - 2 * a - 1;
        }
        proof {
            assert(rest == o + circle_walk(cx as int, cy as int, a as int, b as int, err as int, (fuel - 1) as nat));
            assert(pts =~= done + circle_walk(cx as int, cy as int, a as int, b as int, err as int, (fuel - 1) as nat));
            fuel = (fuel - 1) as nat;
        }
    }
    proof {
        assert(circle_walk(cx as int, cy as int, a as int, b as int, err as int, fuel) =~= Seq::empty());
        assert(pts =~= done);
    }
}

} // verus!

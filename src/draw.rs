use vstd::prelude::*;

use crate::buffer::{lemma_painted_then_plot, lemma_painted_ext, lemma_painted_nothing, Buffer, FrameView};
use crate::color::Color;

verus! {

/// Writes `c` at `(x, y)` when that position lies in the active region;
/// positions outside it, negative ones included, are skipped.
pub fn plot(buf: &mut Buffer, x: i64, y: i64, c: &Color)
    requires
        old(buf).wf(),
    ensures
        final(buf).wf(),
        final(buf).subregion() == old(buf).subregion(),
        final(buf)@ == if old(buf)@.contains(x as int, y as int) {
            old(buf)@.put(x as int, y as int, *c)
        } else {
            old(buf)@
        },
{
    if 0 <= x && x <= u32::MAX as i64 && 0 <= y && y <= u32::MAX as i64 {
        let _ = buf.put((x as u32, y as u32), c);
    }
}

/// The positions visited by the line walk from `(x, y)` to `(x1, y1)`, with
/// error term `err`, axis distances `dx` and `dy` (`dy` negated), steps `sx`
/// and `sy`, within `fuel` steps.
pub open spec fn line_walk(
    x: int,
    y: int,
    x1: int,
    y1: int,
    err: int,
    dx: int,
    dy: int,
    sx: int,
    sy: int,
    fuel: nat,
) -> Seq<(int, int)>
    decreases fuel,
{
    if (x == x1 && y == y1) || fuel == 0 {
        seq![(x, y)]
    } else {
        let e2 = 2 * err;
        let (nx, err1) = if e2 >= dy {
            (x + sx, err + dy)
        } else {
            (x, err)
        };
        let (ny, err2) = if e2 <= dx {
            (y + sy, err1 + dx)
        } else {
            (y, err1)
        };
        seq![(x, y)] + line_walk(nx, ny, x1, y1, err2, dx, dy, sx, sy, (fuel - 1) as nat)
    }
}

pub open spec fn abs(v: int) -> int {
    if v < 0 {
        -v
    } else {
        v
    }
}

/// The pixels of the line from `(x0, y0)` to `(x1, y1)` by Bresenham's
/// algorithm, in the order they are drawn.
pub open spec fn line_points(x0: int, y0: int, x1: int, y1: int) -> Seq<(int, int)> {
    let dx = abs(x1 - x0);
    let dy = -abs(y1 - y0);
    let sx = if x0 < x1 {
        1int
    } else {
        -1int
    };
    let sy = if y0 < y1 {
        1int
    } else {
        -1int
    };
    line_walk(x0, y0, x1, y1, dx + dy, dx, dy, sx, sy, (dx - dy) as nat)
}

/// What drawing the line paints: `c` on each of its pixels.
pub open spec fn line_paint(x0: int, y0: int, x1: int, y1: int, c: Color) -> spec_fn(int, int) -> Option<Color> {
    |a: int, b: int| if line_points(x0, y0, x1, y1).contains((a, b)) { Some(c) } else { None }
}

/// The walk state after `nx` steps along x and `ny` along y keeps its error
/// term, its bounds and its fuel, and so ends at the far endpoint.
proof fn lemma_walk_ends(
    x0: int,
    y0: int,
    x1: int,
    y1: int,
    nx: int,
    ny: int,
    fuel: nat,
)
    requires
        0 <= nx <= abs(x1 - x0),
        0 <= ny <= abs(y1 - y0),
        fuel >= (abs(x1 - x0) - nx) + (abs(y1 - y0) - ny),
    ensures
        ({
            let dx = abs(x1 - x0);
            let dy = -abs(y1 - y0);
            let sx = if x0 < x1 { 1int } else { -1int };
            let sy = if y0 < y1 { 1int } else { -1int };
            let w = line_walk(
                x0 + sx * nx,
                y0 + sy * ny,
                x1,
                y1,
                dx * (ny + 1) + dy * (nx + 1),
                dx,
                dy,
                sx,
                sy,
                fuel,
            );
            &&& w.len() >= 1
            &&& w[0] == (x0 + sx * nx, y0 + sy * ny)
            &&& w.last() == (x1, y1)
        }),
    decreases fuel,
{
    let dx = abs(x1 - x0);
    let dy = -abs(y1 - y0);
    let sx = if x0 < x1 { 1int } else { -1int };
    let sy = if y0 < y1 { 1int } else { -1int };
    let x = x0 + sx * nx;
    let y = y0 + sy * ny;
    let err = dx * (ny + 1) + dy * (nx + 1);
    assert(x == x1 <==> nx == dx) by (nonlinear_arith)
        requires
            x == x0 + sx * nx,
            dx == abs(x1 - x0),
            sx == if x0 < x1 { 1int } else { -1int },
    ;
    assert(y == y1 <==> ny == -dy) by (nonlinear_arith)
        requires
            y == y0 + sy * ny,
            -dy == abs(y1 - y0),
            sy == if y0 < y1 { 1int } else { -1int },
    ;
    if x == x1 && y == y1 {
    } else if fuel == 0 {
    } else {
        lemma_step_stays(dx, -dy, nx, ny);
        let e2 = 2 * err;
        let nx2 = if e2 >= dy { nx + 1 } else { nx };
        let ny2 = if e2 <= dx { ny + 1 } else { ny };
        assert(dx * (ny2 + 1) + dy * (nx2 + 1) == err + (if e2 >= dy { dy } else { 0 }) + (if e2 <= dx { dx } else { 0 })) by (nonlinear_arith)
            requires
                err == dx * (ny + 1) + dy * (nx + 1),
                nx2 == if e2 >= dy { nx + 1 } else { nx },
                ny2 == if e2 <= dx { ny + 1 } else { ny },
        ;
        assert(x0 + sx * nx2 == if e2 >= dy { x + sx } else { x }) by (nonlinear_arith)
            requires
                x == x0 + sx * nx,
                nx2 == if e2 >= dy { nx + 1 } else { nx },
        ;
        assert(y0 + sy * ny2 == if e2 <= dx { y + sy } else { y }) by (nonlinear_arith)
            requires
                y == y0 + sy * ny,
                ny2 == if e2 <= dx { ny + 1 } else { ny },
        ;
        assert(2 * (dx * (ny + 1) - (-dy) * (nx + 1)) == e2) by (nonlinear_arith)
            requires
                err == dx * (ny + 1) + dy * (nx + 1),
                e2 == 2 * err,
        ;
        lemma_walk_ends(x0, y0, x1, y1, nx2, ny2, (fuel - 1) as nat);
    }
}

/// One step of the walk from a state that is not the far endpoint moves along
/// at least one axis and overshoots on neither.
proof fn lemma_step_stays(dx: int, ddy: int, nx: int, ny: int)
    requires
        0 <= nx <= dx,
        0 <= ny <= ddy,
        !(nx == dx && ny == ddy),
    ensures
        ({
            let e2 = 2 * (dx * (ny + 1) - ddy * (nx + 1));
            &&& e2 >= -ddy ==> nx < dx
            &&& e2 <= dx ==> ny < ddy
            &&& e2 >= -ddy || e2 <= dx
        }),
{
    let err = dx * (ny + 1) - ddy * (nx + 1);
    if nx == dx {
        assert(err == dx * (ny + 1 - ddy) - ddy) by (nonlinear_arith)
            requires
                err == dx * (ny + 1) - ddy * (nx + 1),
                nx == dx,
        ;
        assert(dx * (ny + 1 - ddy) <= 0) by (nonlinear_arith)
            requires
                ny < ddy,
                dx >= 0,
        ;
    }
    if ny == ddy {
        assert(err == dx + ddy * (dx - nx - 1)) by (nonlinear_arith)
            requires
                err == dx * (ny + 1) - ddy * (nx + 1),
                ny == ddy,
        ;
        assert(ddy * (dx - nx - 1) >= 0) by (nonlinear_arith)
            requires
                nx < dx,
                ddy >= 0,
        ;
    }
}

/// A line's pixel sequence starts at its first endpoint and ends at its second.
pub proof fn lemma_line_endpoints(x0: int, y0: int, x1: int, y1: int)
    ensures
        line_points(x0, y0, x1, y1).len() >= 1,
        line_points(x0, y0, x1, y1)[0] == (x0, y0),
        line_points(x0, y0, x1, y1).last() == (x1, y1),
        line_points(x0, y0, x1, y1).contains((x0, y0)),
        line_points(x0, y0, x1, y1).contains((x1, y1)),
{
    let dx = abs(x1 - x0);
    let dy = -abs(y1 - y0);
    lemma_walk_ends(x0, y0, x1, y1, 0, 0, (dx - dy) as nat);
    assert(x0 + (if x0 < x1 { 1int } else { -1int }) * 0 == x0);
    assert(y0 + (if y0 < y1 { 1int } else { -1int }) * 0 == y0);
    let p = line_points(x0, y0, x1, y1);
    assert(p[0] == (x0, y0));
    assert(p[p.len() - 1] == (x1, y1));
}

/// Appending `p` to a sequence of positions adds exactly `p` to the positions
/// it contains.
pub proof fn lemma_push_contains(s: Seq<(int, int)>, p: (int, int), q: (int, int))
    ensures
        s.push(p).contains(q) <==> (s.contains(q) || q == p),
{
    if s.contains(q) {
        let i = choose|i: int| 0 <= i < s.len() && s[i] == q;
        assert(s.push(p)[i] == q);
    }
    if q == p {
        assert(s.push(p)[s.len() as int] == q);
    }
    if s.push(p).contains(q) {
        let i = choose|i: int| 0 <= i < s.push(p).len() && s.push(p)[i] == q;
        if i < s.len() {
            assert(s[i] == q);
        }
    }
}

/// A drawn line shows its color at both endpoints, wherever they lie in the
/// active region.
pub proof fn lemma_line_paints_endpoints(pre: FrameView, post: FrameView, x0: int, y0: int, x1: int, y1: int, c: Color)
    requires
        pre.painted(post, line_paint(x0, y0, x1, y1, c)),
    ensures
        pre.contains(x0, y0) ==> post.pixel(x0, y0) == c,
        pre.contains(x1, y1) ==> post.pixel(x1, y1) == c,
{
    lemma_line_endpoints(x0, y0, x1, y1);
}

proof fn lemma_walk_steps(x: int, y: int, x1: int, y1: int, err: int, dx: int, dy: int, sx: int, sy: int, fuel: nat)
    requires
        sx == 1 || sx == -1,
        sy == 1 || sy == -1,
    ensures
        ({
            let w = line_walk(x, y, x1, y1, err, dx, dy, sx, sy, fuel);
            &&& w.len() >= 1
            &&& w[0] == (x, y)
            &&& forall|i: int|
                0 <= i < w.len() - 1 ==> abs((#[trigger] w[i + 1]).0 - w[i].0) <= 1 && abs(w[i + 1].1 - w[i].1) <= 1
        }),
    decreases fuel,
{
    if !((x == x1 && y == y1) || fuel == 0) {
        let e2 = 2 * err;
        let (nx, err1) = if e2 >= dy { (x + sx, err + dy) } else { (x, err) };
        let (ny, err2) = if e2 <= dx { (y + sy, err1 + dx) } else { (y, err1) };
        lemma_walk_steps(nx, ny, x1, y1, err2, dx, dy, sx, sy, (fuel - 1) as nat);
        let rest = line_walk(nx, ny, x1, y1, err2, dx, dy, sx, sy, (fuel - 1) as nat);
        let w = line_walk(x, y, x1, y1, err, dx, dy, sx, sy, fuel);
        assert(w == seq![(x, y)] + rest);
        assert forall|i: int| 0 <= i < w.len() - 1 implies abs((#[trigger] w[i + 1]).0 - w[i].0) <= 1 && abs(w[i + 1].1 - w[i].1) <= 1 by {
            if i > 0 {
                let j = i - 1;
                assert(0 <= j < rest.len() - 1);
                assert(abs(rest[j + 1].0 - rest[j].0) <= 1 && abs(rest[j + 1].1 - rest[j].1) <= 1);
                assert(w[i] == rest[j]);
                assert(w[i + 1] == rest[j + 1]);
            } else {
                assert(w[1] == rest[0]);
            }
        }
    }
}

/// Consecutive pixels of a line are neighbours: each step moves at most one
/// pixel along each axis.
pub proof fn lemma_line_steps(x0: int, y0: int, x1: int, y1: int)
    ensures
        forall|i: int|
            0 <= i < line_points(x0, y0, x1, y1).len() - 1 ==> abs(
                (#[trigger] line_points(x0, y0, x1, y1)[i + 1]).0 - line_points(x0, y0, x1, y1)[i].0,
            ) <= 1 && abs(line_points(x0, y0, x1, y1)[i + 1].1 - line_points(x0, y0, x1, y1)[i].1) <= 1,
{
    let dx = abs(x1 - x0);
    let dy = -abs(y1 - y0);
    let sx = if x0 < x1 { 1int } else { -1int };
    let sy = if y0 < y1 { 1int } else { -1int };
    lemma_walk_steps(x0, y0, x1, y1, dx + dy, dx, dy, sx, sy, (dx - dy) as nat);
}

/// Draws the line from `(x0, y0)` to `(x1, y1)`, both endpoints included, by
/// Bresenham's algorithm; pixels outside the active region are skipped.
pub fn draw_line(buf: &mut Buffer, x0: u32, y0: u32, x1: u32, y1: u32, c: &Color)
    requires
        old(buf).wf(),
    ensures
        final(buf).wf(),
        final(buf).subregion() == old(buf).subregion(),
        old(buf)@.painted(final(buf)@, line_paint(x0 as int, y0 as int, x1 as int, y1 as int, *c)),
{
    draw_line_signed(buf, x0 as i64, y0 as i64, x1 as i64, y1 as i64, c);
}

/// Bound on the endpoints of a line with signed coordinates.
pub open spec fn coord_in_range(v: int) -> bool {
    -0x1_0000_0000 <= v <= 0x1_0000_0000
}

/// Draws the line from `(x0, y0)` to `(x1, y1)` as `draw_line` does, for
/// endpoints that may lie at negative positions.
pub fn draw_line_signed(buf: &mut Buffer, x0: i64, y0: i64, x1: i64, y1: i64, c: &Color)
    requires
        old(buf).wf(),
        coord_in_range(x0 as int),
        coord_in_range(y0 as int),
        coord_in_range(x1 as int),
        coord_in_range(y1 as int),
    ensures
        final(buf).wf(),
        final(buf).subregion() == old(buf).subregion(),
        old(buf)@.painted(final(buf)@, line_paint(x0 as int, y0 as int, x1 as int, y1 as int, *c)),
{
    let ghost pre = buf@;
    let ghost sub = buf.subregion();
    let ghost pts = line_points(x0 as int, y0 as int, x1 as int, y1 as int);
    let ex = x1;
    let ey = y1;
    let mut x = x0;
    let mut y = y0;
    let dx: i64 = if ex >= x { ex - x } else { x - ex };
    let dy: i64 = if ey >= y { y - ey } else { ey - y };
    let sx: i64 = if x < ex { 1 } else { -1 };
    let sy: i64 = if y < ey { 1 } else { -1 };
    let mut err: i128 = (dx + dy) as i128;
    let ghost mut nx: int = 0;
    let ghost mut ny: int = 0;
    let ghost mut fuel: nat = (dx - dy) as nat;
    let ghost mut done: Seq<(int, int)> = Seq::empty();
    proof {
        lemma_painted_nothing(pre);
        lemma_painted_ext(pre, pre, |a: int, b: int| None::<Color>, |a: int, b: int| if done.contains((a, b)) { Some(*c) } else { None });
        assert(dx * (nx + 1) + dy * (ny + 1) == dx + dy) by (nonlinear_arith)
            requires
                nx == 0,
                ny == 0,
        ;
        assert(dx * (ny + 1) + dy * (nx + 1) == err);
        assert(x == x0 + sx * nx) by (nonlinear_arith)
            requires
                nx == 0,
                x == x0,
        ;
        assert(y == y0 + sy * ny) by (nonlinear_arith)
            requires
                ny == 0,
                y == y0,
        ;
        assert(pts == done + line_walk(x as int, y as int, ex as int, ey as int, err as int, dx as int, dy as int, sx as int, sy as int, fuel));
    }
    loop
        invariant_except_break
            pts == done + line_walk(x as int, y as int, ex as int, ey as int, err as int, dx as int, dy as int, sx as int, sy as int, fuel),
        invariant
            buf.wf(),
            buf.subregion() == sub,
            pre.wf(),
            dx == abs(x1 - x0),
            dy == -abs(y1 - y0),
            sx == if x0 < x1 { 1int } else { -1int },
            sy == if y0 < y1 { 1int } else { -1int },
            ex == x1,
            ey == y1,
            coord_in_range(x0 as int),
            coord_in_range(y0 as int),
            coord_in_range(x1 as int),
            coord_in_range(y1 as int),
            0 <= nx <= dx,
            0 <= ny <= -dy,
            x == x0 + sx * nx,
            y == y0 + sy * ny,
            err == dx * (ny + 1) + dy * (nx + 1),
            fuel >= (dx - nx) + (-dy - ny),
            pre.painted(buf@, |a: int, b: int| if done.contains((a, b)) { Some(*c) } else { None }),
        ensures
            pre.painted(buf@, |a: int, b: int| if pts.contains((a, b)) { Some(*c) } else { None }),
            buf.wf(),
            buf.subregion() == sub,
        decreases fuel,
    {
        assert(x == x1 <==> nx == dx) by (nonlinear_arith)
            requires
                x == x0 + sx * nx,
                dx == abs(x1 - x0),
                sx == if x0 < x1 { 1int } else { -1int },
        ;
        assert(y == y1 <==> ny == -dy) by (nonlinear_arith)
            requires
                y == y0 + sy * ny,
                -dy == abs(y1 - y0),
                sy == if y0 < y1 { 1int } else { -1int },
        ;
        assert(coord_in_range(x as int) && coord_in_range(y as int)) by (nonlinear_arith)
            requires
                x == x0 + sx * nx,
                y == y0 + sy * ny,
                0 <= nx <= abs(x1 - x0),
                0 <= ny <= abs(y1 - y0),
                sx == if x0 < x1 { 1int } else { -1int },
                sy == if y0 < y1 { 1int } else { -1int },
                coord_in_range(x0 as int),
                coord_in_range(x1 as int),
                coord_in_range(y0 as int),
                coord_in_range(y1 as int),
        ;
        let ghost f = |a: int, b: int| if done.contains((a, b)) { Some(*c) } else { None };
        let ghost mid = buf@;
        proof {
            lemma_painted_then_plot(pre, mid, f, x as int, y as int, *c);
        }
        plot(buf, x, y, c);
        let ghost cur = (x as int, y as int);
        proof {
            assert forall|a: int, b: int| pre.contains(a, b) implies (if a == x && b == y { Some(*c) } else { f(a, b) }) == (if done.push(cur).contains((a, b)) { Some(*c) } else { None }) by {
                lemma_push_contains(done, cur, (a, b));
            }
            lemma_painted_ext(pre, buf@, |a: int, b: int| if a == x && b == y { Some(*c) } else { f(a, b) }, |a: int, b: int| if done.push(cur).contains((a, b)) { Some(*c) } else { None });
        }
        let ghost before = done;
        proof {
            done = done.push(cur);
        }
        if x == ex && y == ey {
            proof {
                assert(pts =~= done);
            }
            break;
        }
        proof {
            lemma_step_stays(dx as int, -dy as int, nx, ny);
            assert(fuel > 0);
            assert(-0x10_0000_0000_0000_0000 <= err <= 0x10_0000_0000_0000_0000) by (nonlinear_arith)
                requires
                    err == dx * (ny + 1) + dy * (nx + 1),
                    0 <= nx <= dx <= 0x2_0000_0000,
                    0 <= ny <= -dy <= 0x2_0000_0000,
            ;
        }
        let e2: i128 = 2 * err;
        let ghost nx2 = if e2 >= dy as i128 { nx + 1 } else { nx };
        let ghost ny2 = if e2 <= dx as i128 { ny + 1 } else { ny };
        let ghost rest = line_walk(x as int, y as int, ex as int, ey as int, err as int, dx as int, dy as int, sx as int, sy as int, fuel);
        if e2 >= dy as i128 {
            err = err + dy as i128;
            x = x + sx;
        }
        if e2 <= dx as i128 {
            err = err + dx as i128;
            y = y + sy;
        }
        proof {
            assert(rest == seq![cur] + line_walk(x as int, y as int, ex as int, ey as int, err as int, dx as int, dy as int, sx as int, sy as int, (fuel - 1) as nat));
            assert(dx * (ny2 + 1) + dy * (nx2 + 1) == err) by (nonlinear_arith)
                requires
                    err == dx * (ny + 1) + dy * (nx + 1) + (if e2 >= dy { dy } else { 0 }) + (if e2 <= dx { dx } else { 0 }),
                    nx2 == if e2 >= dy { nx + 1 } else { nx },
                    ny2 == if e2 <= dx { ny + 1 } else { ny },
            ;
            assert(x == x0 + sx * nx2) by (nonlinear_arith)
                requires
                    x == x0 + sx * nx + (if e2 >= dy { sx } else { 0 }),
                    nx2 == if e2 >= dy { nx + 1 } else { nx },
            ;
            assert(y == y0 + sy * ny2) by (nonlinear_arith)
                requires
                    y == y0 + sy * ny + (if e2 <= dx { sy } else { 0 }),
                    ny2 == if e2 <= dx { ny + 1 } else { ny },
            ;
            assert(2 * (dx * (ny + 1) - (-dy) * (nx + 1)) == e2) by (nonlinear_arith)
                requires
                    e2 == 2 * (dx * (ny + 1) + dy * (nx + 1)),
            ;
            nx = nx2;
            ny = ny2;
            fuel = (fuel - 1) as nat;
            assert(pts =~= before.push(cur) + line_walk(x as int, y as int, ex as int, ey as int, err as int, dx as int, dy as int, sx as int, sy as int, fuel));
        }
    }
}

/// Writes `c` at `(x, y)` as `plot` does, carrying a painting of `pre` over to
/// the painting `g`, which adds that one pixel to `f`.
pub fn plot_onto(
    buf: &mut Buffer,
    x: i64,
    y: i64,
    c: &Color,
    Ghost(pre): Ghost<FrameView>,
    Ghost(f): Ghost<spec_fn(int, int) -> Option<Color>>,
    Ghost(g): Ghost<spec_fn(int, int) -> Option<Color>>,
)
    requires
        old(buf).wf(),
        pre.wf(),
        pre.painted(old(buf)@, f),
        forall|a: int, b: int|
            pre.contains(a, b) ==> #[trigger] g(a, b) == if a == x && b == y {
                Some(*c)
            } else {
                f(a, b)
            },
    ensures
        final(buf).wf(),
        final(buf).subregion() == old(buf).subregion(),
        pre.painted(final(buf)@, g),
{
    proof {
        lemma_painted_then_plot(pre, buf@, f, x as int, y as int, *c);
    }
    plot(buf, x, y, c);
    proof {
        lemma_painted_ext(pre, buf@, |a: int, b: int| if a == x && b == y { Some(*c) } else { f(a, b) }, g);
    }
}

/// Writes `c` at `(x, y)` as `plot` does, carrying a painting of `pre` with `c`
/// on the positions `done` over to `done` with `(x, y)` added.
pub fn plot_recorded(
    buf: &mut Buffer,
    x: i64,
    y: i64,
    c: &Color,
    Ghost(pre): Ghost<FrameView>,
    Ghost(done): Ghost<Seq<(int, int)>>,
)
    requires
        old(buf).wf(),
        pre.wf(),
        pre.painted(old(buf)@, |a: int, b: int| if done.contains((a, b)) { Some(*c) } else { None }),
    ensures
        final(buf).wf(),
        final(buf).subregion() == old(buf).subregion(),
        pre.painted(final(buf)@, |a: int, b: int| if done.push((x as int, y as int)).contains((a, b)) { Some(*c) } else { None }),
{
    let ghost f = |a: int, b: int| if done.contains((a, b)) { Some(*c) } else { None };
    let ghost g = |a: int, b: int| if done.push((x as int, y as int)).contains((a, b)) { Some(*c) } else { None };
    proof {
        assert forall|a: int, b: int| pre.contains(a, b) implies #[trigger] g(a, b) == if a == x && b == y { Some(*c) } else { f(a, b) } by {
            lemma_push_contains(done, (x as int, y as int), (a, b));
        }
    }
    plot_onto(buf, x, y, c, Ghost(pre), Ghost(f), Ghost(g));
}

/// What drawing a rectangle paints: `fill` on `[x, x + w) x [y, y + h)`, and
/// `stroke`, when given, on its one-pixel border.
pub open spec fn rect_paint(x: int, y: int, w: int, h: int, fill: Color, stroke: Option<Color>) -> spec_fn(int, int) -> Option<Color> {
    |a: int, b: int|
        if x <= a < x + w && y <= b < y + h {
            if stroke is Some && (a == x || a == x + w - 1 || b == y || b == y + h - 1) {
                stroke
            } else {
                Some(fill)
            }
        } else {
            None
        }
}

/// Fills the rectangle `[x, x + w) x [y, y + h)` with `fill` and, when `stroke`
/// is given, draws its one-pixel border over it; pixels outside the active
/// region are skipped.
pub fn draw_rect(buf: &mut Buffer, x: u32, y: u32, w: u32, h: u32, fill: &Color, stroke: Option<&Color>)
    requires
        old(buf).wf(),
    ensures
        final(buf).wf(),
        final(buf).subregion() == old(buf).subregion(),
        old(buf)@.painted(final(buf)@, rect_paint(x as int, y as int, w as int, h as int, *fill, match stroke { Some(s) => Some(*s), None => None })),
{
    let ghost pre = buf@;
    let ghost sub = buf.subregion();
    let ghost xi = x as int;
    let ghost yi = y as int;
    let x0 = x as i64;
    let y0 = y as i64;
    let wi = w as i64;
    let hi = h as i64;
    proof {
        lemma_painted_nothing(pre);
        lemma_painted_ext(pre, pre, |a: int, b: int| None::<Color>, |a: int, b: int| if xi <= a < xi && yi <= b < yi + h { Some(*fill) } else { None });
    }
    let mut i: i64 = 0;
    while i < wi
        invariant
            buf.wf(),
            buf.subregion() == sub,
            pre.wf(),
            x0 == x,
            y0 == y,
            xi == x,
            yi == y,
            wi == w,
            hi == h,
            0 <= i <= wi,
            pre.painted(buf@, |a: int, b: int| if xi <= a < xi + i && yi <= b < yi + h { Some(*fill) } else { None }),
        decreases wi - i,
    {
        let mut j: i64 = 0;
        while j < hi
            invariant
                buf.wf(),
                buf.subregion() == sub,
                pre.wf(),
                x0 == x,
                y0 == y,
                xi == x,
                yi == y,
                wi == w,
                hi == h,
                0 <= i < wi,
                0 <= j <= hi,
                pre.painted(buf@, |a: int, b: int| if (xi <= a < xi + i && yi <= b < yi + h) || (a == xi + i && yi <= b < yi + j) { Some(*fill) } else { None }),
            decreases hi - j,
        {
            plot_onto(
                buf,
                x0 + i,
                y0 + j,
                fill,
                Ghost(pre),
                Ghost(|a: int, b: int| if (xi <= a < xi + i && yi <= b < yi + h) || (a == xi + i && yi <= b < yi + j) { Some(*fill) } else { None }),
                Ghost(|a: int, b: int| if (xi <= a < xi + i && yi <= b < yi + h) || (a == xi + i && yi <= b < yi + j + 1) { Some(*fill) } else { None }),
            );
            j = j + 1;
        }
        proof {
            lemma_painted_ext(pre, buf@, |a: int, b: int| if (xi <= a < xi + i && yi <= b < yi + h) || (a == xi + i && yi <= b < yi + j) { Some(*fill) } else { None }, |a: int, b: int| if xi <= a < xi + i + 1 && yi <= b < yi + h { Some(*fill) } else { None });
        }
        i = i + 1;
    }
    let ghost filled = |a: int, b: int| if xi <= a < xi + w && yi <= b < yi + h { Some(*fill) } else { None::<Color> };
    if let Some(s) = stroke {
        let ghost sc = *s;
        let ghost top = yi;
        let ghost bot = yi + h - 1;
        let mut i: i64 = 0;
        while i < wi
            invariant
                buf.wf(),
                buf.subregion() == sub,
                pre.wf(),
                x0 == x,
                y0 == y,
                xi == x,
                yi == y,
                filled == (|a: int, b: int| if xi <= a < xi + w && yi <= b < yi + h { Some(*fill) } else { None::<Color> }),
                wi == w,
                hi == h,
                0 <= i <= wi,
                sc == *s,
                top == yi,
                bot == yi + h - 1,
                pre.painted(buf@, |a: int, b: int| if xi <= a < xi + i && (b == top || b == bot) && h > 0 { Some(sc) } else { filled(a, b) }),
            decreases wi - i,
        {
            if hi > 0 {
                plot_onto(
                    buf,
                    x0 + i,
                    y0,
                    s,
                    Ghost(pre),
                    Ghost(|a: int, b: int| if xi <= a < xi + i && (b == top || b == bot) && h > 0 { Some(sc) } else { filled(a, b) }),
                    Ghost(|a: int, b: int| if (xi <= a < xi + i && (b == top || b == bot) && h > 0) || (a == xi + i && b == top) { Some(sc) } else { filled(a, b) }),
                );
                plot_onto(
                    buf,
                    x0 + i,
                    y0 + hi - 1,
                    s,
                    Ghost(pre),
                    Ghost(|a: int, b: int| if (xi <= a < xi + i && (b == top || b == bot) && h > 0) || (a == xi + i && b == top) { Some(sc) } else { filled(a, b) }),
                    Ghost(|a: int, b: int| if xi <= a < xi + i + 1 && (b == top || b == bot) && h > 0 { Some(sc) } else { filled(a, b) }),
                );
            } else {
                proof {
                    lemma_painted_ext(pre, buf@, |a: int, b: int| if xi <= a < xi + i && (b == top || b == bot) && h > 0 { Some(sc) } else { filled(a, b) }, |a: int, b: int| if xi <= a < xi + i + 1 && (b == top || b == bot) && h > 0 { Some(sc) } else { filled(a, b) });
                }
            }
            i = i + 1;
        }
        let ghost rows = |a: int, b: int| if xi <= a < xi + w && (b == top || b == bot) && h > 0 { Some(sc) } else { filled(a, b) };
        let ghost left = xi;
        let ghost right = xi + w - 1;
        proof {
            lemma_painted_ext(pre, buf@, |a: int, b: int| if xi <= a < xi + i && (b == top || b == bot) && h > 0 { Some(sc) } else { filled(a, b) }, |a: int, b: int| if yi <= b < yi && (a == left || a == right) && w > 0 { Some(sc) } else { rows(a, b) });
        }
        let mut j: i64 = 0;
        while j < hi
            invariant
                buf.wf(),
                buf.subregion() == sub,
                pre.wf(),
                x0 == x,
                y0 == y,
                xi == x,
                yi == y,
                filled == (|a: int, b: int| if xi <= a < xi + w && yi <= b < yi + h { Some(*fill) } else { None::<Color> }),
                wi == w,
                hi == h,
                0 <= j <= hi,
                sc == *s,
                left == xi,
                right == xi + w - 1,
                rows == (|a: int, b: int| if xi <= a < xi + w && (b == yi || b == yi + h - 1) && h > 0 { Some(sc) } else { filled(a, b) }),
                pre.painted(buf@, |a: int, b: int| if yi <= b < yi + j && (a == left || a == right) && w > 0 { Some(sc) } else { rows(a, b) }),
            decreases hi - j,
        {
            if wi > 0 {
                plot_onto(
                    buf,
                    x0,
                    y0 + j,
                    s,
                    Ghost(pre),
                    Ghost(|a: int, b: int| if yi <= b < yi + j && (a == left || a == right) && w > 0 { Some(sc) } else { rows(a, b) }),
                    Ghost(|a: int, b: int| if (yi <= b < yi + j && (a == left || a == right) && w > 0) || (b == yi + j && a == left) { Some(sc) } else { rows(a, b) }),
                );
                plot_onto(
                    buf,
                    x0 + wi - 1,
                    y0 + j,
                    s,
                    Ghost(pre),
                    Ghost(|a: int, b: int| if (yi <= b < yi + j && (a == left || a == right) && w > 0) || (b == yi + j && a == left) { Some(sc) } else { rows(a, b) }),
                    Ghost(|a: int, b: int| if yi <= b < yi + j + 1 && (a == left || a == right) && w > 0 { Some(sc) } else { rows(a, b) }),
                );
            } else {
                proof {
                    lemma_painted_ext(pre, buf@, |a: int, b: int| if yi <= b < yi + j && (a == left || a == right) && w > 0 { Some(sc) } else { rows(a, b) }, |a: int, b: int| if yi <= b < yi + j + 1 && (a == left || a == right) && w > 0 { Some(sc) } else { rows(a, b) });
                }
            }
            j = j + 1;
        }
        proof {
            lemma_painted_ext(pre, buf@, |a: int, b: int| if yi <= b < yi + j && (a == left || a == right) && w > 0 { Some(sc) } else { rows(a, b) }, rect_paint(xi, yi, w as int, h as int, *fill, Some(sc)));
        }
    } else {
        proof {
            lemma_painted_ext(pre, buf@, filled, rect_paint(xi, yi, w as int, h as int, *fill, None));
        }
    }
}

/// Whether the offset `(dx, dy)` from the center lies in the ellipse of radii
/// `rx` and `ry`.
pub open spec fn in_ellipse(dx: int, dy: int, rx: int, ry: int) -> bool {
    &&& -rx <= dx <= rx
    &&& -ry <= dy <= ry
    &&& dx * dx * (ry * ry) + dy * dy * (rx * rx) <= rx * rx * (ry * ry)
}

/// Whether the offset `(dx, dy)` from the center lies on one of the four
/// extremal rows or columns that the ellipse's stroke draws.
pub open spec fn on_ellipse_stroke(dx: int, dy: int, rx: int, ry: int) -> bool {
    ||| -rx <= dx <= rx && (dy == -ry || dy == ry)
    ||| -ry <= dy <= ry && (dx == -rx || dx == rx)
}

/// What drawing an ellipse in the box `(x, y, w, h)` paints: center
/// `(x + w / 2, y + h / 2)`, radii `w / 2` and `h / 2`; `fill` inside, and
/// `stroke`, when given, on the extremal rows and columns.
pub open spec fn ellipse_paint(x: int, y: int, w: int, h: int, fill: Color, stroke: Option<Color>) -> spec_fn(int, int) -> Option<Color> {
    |a: int, b: int|
        {
            let dx = a - (x + w / 2);
            let dy = b - (y + h / 2);
            if stroke is Some && on_ellipse_stroke(dx, dy, w / 2, h / 2) {
                stroke
            } else if in_ellipse(dx, dy, w / 2, h / 2) {
                Some(fill)
            } else {
                None
            }
        }
}

/// What an ellipse paints is unchanged by a half turn about its center.
pub proof fn lemma_ellipse_symmetric(x: int, y: int, w: int, h: int, fill: Color, stroke: Option<Color>, a: int, b: int)
    ensures
        ellipse_paint(x, y, w, h, fill, stroke)(a, b) == ellipse_paint(x, y, w, h, fill, stroke)(
            2 * (x + w / 2) - a,
            2 * (y + h / 2) - b,
        ),
{
    let dx = a - (x + w / 2);
    let dy = b - (y + h / 2);
    assert((-dx) * (-dx) == dx * dx) by (nonlinear_arith);
    assert((-dy) * (-dy) == dy * dy) by (nonlinear_arith);
}

/// Fills the ellipse in the box `(x, y, w, h)` with `fill` and, when `stroke`
/// is given, draws its extremal rows and columns over it; pixels outside the
/// active region, or at negative positions, are skipped.
pub fn draw_ellipse(buf: &mut Buffer, x: u32, y: u32, w: u32, h: u32, fill: &Color, stroke: Option<&Color>)
    requires
        old(buf).wf(),
    ensures
        final(buf).wf(),
        final(buf).subregion() == old(buf).subregion(),
        old(buf)@.painted(final(buf)@, ellipse_paint(x as int, y as int, w as int, h as int, *fill, match stroke { Some(s) => Some(*s), None => None })),
{
    let ghost pre = buf@;
    let ghost sub = buf.subregion();
    let rx: i64 = (w / 2) as i64;
    let ry: i64 = (h / 2) as i64;
    let cx: i64 = x as i64 + rx;
    let cy: i64 = y as i64 + ry;
    proof {
        vstd::arithmetic::mul::lemma_mul_upper_bound(rx as int, 0x8000_0000, rx as int, 0x8000_0000);
        vstd::arithmetic::mul::lemma_mul_upper_bound(ry as int, 0x8000_0000, ry as int, 0x8000_0000);
        vstd::arithmetic::mul::lemma_mul_nonnegative(rx as int, rx as int);
        vstd::arithmetic::mul::lemma_mul_nonnegative(ry as int, ry as int);
    }
    let rx2: i128 = (rx as i128) * (rx as i128);
    let ry2: i128 = (ry as i128) * (ry as i128);
    proof {
        vstd::arithmetic::mul::lemma_mul_upper_bound(rx2 as int, 0x4000_0000_0000_0000, ry2 as int, 0x4000_0000_0000_0000);
        vstd::arithmetic::mul::lemma_mul_nonnegative(rx2 as int, ry2 as int);
    }
    let bound: i128 = rx2 * ry2;
    let ghost inside = |a: int, b: int| if -rx <= a - cx <= rx && in_ellipse(a - cx, b - cy, rx as int, ry as int) { Some(*fill) } else { None::<Color> };
    proof {
        lemma_painted_nothing(pre);
        lemma_painted_ext(pre, pre, |a: int, b: int| None::<Color>, |a: int, b: int| if -rx <= a - cx < -rx && in_ellipse(a - cx, b - cy, rx as int, ry as int) { Some(*fill) } else { None });
    }
    let mut dx: i64 = -rx;
    while dx <= rx
        invariant
            buf.wf(),
            buf.subregion() == sub,
            pre.wf(),
            rx == w / 2,
            ry == h / 2,
            cx == x + rx,
            cy == y + ry,
            rx2 == rx * rx,
            ry2 == ry * ry,
            bound == rx2 * ry2,
            0 <= rx2 <= 0x4000_0000_0000_0000,
            0 <= ry2 <= 0x4000_0000_0000_0000,
            -rx <= dx <= rx + 1,
            pre.painted(buf@, |a: int, b: int| if -rx <= a - cx < dx && in_ellipse(a - cx, b - cy, rx as int, ry as int) { Some(*fill) } else { None }),
        decreases rx + 1 - dx,
    {
        let mut dy: i64 = -ry;
        while dy <= ry
            invariant
                buf.wf(),
                buf.subregion() == sub,
                pre.wf(),
                rx == w / 2,
                ry == h / 2,
                cx == x + rx,
                cy == y + ry,
                rx2 == rx * rx,
                ry2 == ry * ry,
                bound == rx2 * ry2,
                0 <= rx2 <= 0x4000_0000_0000_0000,
                0 <= ry2 <= 0x4000_0000_0000_0000,
                -rx <= dx <= rx,
                -ry <= dy <= ry + 1,
                pre.painted(buf@, |a: int, b: int| if (-rx <= a - cx < dx && in_ellipse(a - cx, b - cy, rx as int, ry as int)) || (a - cx == dx && b - cy < dy && in_ellipse(a - cx, b - cy, rx as int, ry as int)) { Some(*fill) } else { None }),
            decreases ry + 1 - dy,
        {
            let ddx: i128 = dx as i128;
            let ddy: i128 = dy as i128;
            proof {
                vstd::arithmetic::mul::lemma_mul_upper_bound(abs(ddx as int), 0x8000_0000, abs(ddx as int), 0x8000_0000);
                vstd::arithmetic::mul::lemma_mul_upper_bound(abs(ddy as int), 0x8000_0000, abs(ddy as int), 0x8000_0000);
                assert(ddx * ddx == abs(ddx as int) * abs(ddx as int)) by (nonlinear_arith);
                assert(ddy * ddy == abs(ddy as int) * abs(ddy as int)) by (nonlinear_arith);
                vstd::arithmetic::mul::lemma_mul_nonnegative(abs(ddx as int), abs(ddx as int));
                vstd::arithmetic::mul::lemma_mul_nonnegative(abs(ddy as int), abs(ddy as int));
                vstd::arithmetic::mul::lemma_mul_upper_bound(ddx * ddx, 0x4000_0000_0000_0000, ry2 as int, 0x4000_0000_0000_0000);
                vstd::arithmetic::mul::lemma_mul_upper_bound(ddy * ddy, 0x4000_0000_0000_0000, rx2 as int, 0x4000_0000_0000_0000);
                vstd::arithmetic::mul::lemma_mul_nonnegative(ddx * ddx, ry2 as int);
                vstd::arithmetic::mul::lemma_mul_nonnegative(ddy * ddy, rx2 as int);
            }
            let member: bool = (ddx * ddx) * ry2 + (ddy * ddy) * rx2 <= bound;
            let ghost f = |a: int, b: int| if (-rx <= a - cx < dx && in_ellipse(a - cx, b - cy, rx as int, ry as int)) || (a - cx == dx && b - cy < dy && in_ellipse(a - cx, b - cy, rx as int, ry as int)) { Some(*fill) } else { None };
            let ghost g = |a: int, b: int| if (-rx <= a - cx < dx && in_ellipse(a - cx, b - cy, rx as int, ry as int)) || (a - cx == dx && b - cy < dy + 1 && in_ellipse(a - cx, b - cy, rx as int, ry as int)) { Some(*fill) } else { None };
            if member {
                plot_onto(buf, cx + dx, cy + dy, fill, Ghost(pre), Ghost(f), Ghost(g));
            } else {
                proof {
                    lemma_painted_ext(pre, buf@, f, g);
                }
            }
            dy = dy + 1;
        }
        proof {
            lemma_painted_ext(pre, buf@, |a: int, b: int| if (-rx <= a - cx < dx && in_ellipse(a - cx, b - cy, rx as int, ry as int)) || (a - cx == dx && b - cy < dy && in_ellipse(a - cx, b - cy, rx as int, ry as int)) { Some(*fill) } else { None }, |a: int, b: int| if -rx <= a - cx < dx + 1 && in_ellipse(a - cx, b - cy, rx as int, ry as int) { Some(*fill) } else { None });
        }
        dx = dx + 1;
    }
    let ghost filled = |a: int, b: int| if in_ellipse(a - cx, b - cy, rx as int, ry as int) { Some(*fill) } else { None::<Color> };
    proof {
        lemma_painted_ext(pre, buf@, |a: int, b: int| if -rx <= a - cx < dx && in_ellipse(a - cx, b - cy, rx as int, ry as int) { Some(*fill) } else { None }, filled);
    }
    if let Some(s) = stroke {
        let ghost sc = *s;
        proof {
            lemma_painted_ext(pre, buf@, filled, |a: int, b: int| if -rx <= a - cx < -rx && (b - cy == -ry || b - cy == ry) { Some(sc) } else { filled(a, b) });
        }
        let mut dx: i64 = -rx;
        while dx <= rx
            invariant
                buf.wf(),
                buf.subregion() == sub,
                pre.wf(),
                rx == w / 2,
                ry == h / 2,
                cx == x + rx,
                cy == y + ry,
                sc == *s,
                filled == (|a: int, b: int| if in_ellipse(a - cx, b - cy, rx as int, ry as int) { Some(*fill) } else { None::<Color> }),
                -rx <= dx <= rx + 1,
                pre.painted(buf@, |a: int, b: int| if -rx <= a - cx < dx && (b - cy == -ry || b - cy == ry) { Some(sc) } else { filled(a, b) }),
            decreases rx + 1 - dx,
        {
            plot_onto(
                buf,
                cx + dx,
                cy - ry,
                s,
                Ghost(pre),
                Ghost(|a: int, b: int| if -rx <= a - cx < dx && (b - cy == -ry || b - cy == ry) { Some(sc) } else { filled(a, b) }),
                Ghost(|a: int, b: int| if (-rx <= a - cx < dx && (b - cy == -ry || b - cy == ry)) || (a - cx == dx && b - cy == -ry) { Some(sc) } else { filled(a, b) }),
            );
            plot_onto(
                buf,
                cx + dx,
                cy + ry,
                s,
                Ghost(pre),
                Ghost(|a: int, b: int| if (-rx <= a - cx < dx && (b - cy == -ry || b - cy == ry)) || (a - cx == dx && b - cy == -ry) { Some(sc) } else { filled(a, b) }),
                Ghost(|a: int, b: int| if -rx <= a - cx < dx + 1 && (b - cy == -ry || b - cy == ry) { Some(sc) } else { filled(a, b) }),
            );
            dx = dx + 1;
        }
        let ghost rows = |a: int, b: int| if -rx <= a - cx <= rx && (b - cy == -ry || b - cy == ry) { Some(sc) } else { filled(a, b) };
        proof {
            lemma_painted_ext(pre, buf@, |a: int, b: int| if -rx <= a - cx < dx && (b - cy == -ry || b - cy == ry) { Some(sc) } else { filled(a, b) }, |a: int, b: int| if -ry <= b - cy < -ry && (a - cx == -rx || a - cx == rx) { Some(sc) } else { rows(a, b) });
        }
        let mut dy: i64 = -ry;
        while dy <= ry
            invariant
                buf.wf(),
                buf.subregion() == sub,
                pre.wf(),
                rx == w / 2,
                ry == h / 2,
                cx == x + rx,
                cy == y + ry,
                sc == *s,
                filled == (|a: int, b: int| if in_ellipse(a - cx, b - cy, rx as int, ry as int) { Some(*fill) } else { None::<Color> }),
                rows == (|a: int, b: int| if -rx <= a - cx <= rx && (b - cy == -ry || b - cy == ry) { Some(sc) } else { filled(a, b) }),
                -ry <= dy <= ry + 1,
                pre.painted(buf@, |a: int, b: int| if -ry <= b - cy < dy && (a - cx == -rx || a - cx == rx) { Some(sc) } else { rows(a, b) }),
            decreases ry + 1 - dy,
        {
            plot_onto(
                buf,
                cx - rx,
                cy + dy,
                s,
                Ghost(pre),
                Ghost(|a: int, b: int| if -ry <= b - cy < dy && (a - cx == -rx || a - cx == rx) { Some(sc) } else { rows(a, b) }),
                Ghost(|a: int, b: int| if (-ry <= b - cy < dy && (a - cx == -rx || a - cx == rx)) || (b - cy == dy && a - cx == -rx) { Some(sc) } else { rows(a, b) }),
            );
            plot_onto(
                buf,
                cx + rx,
                cy + dy,
                s,
                Ghost(pre),
                Ghost(|a: int, b: int| if (-ry <= b - cy < dy && (a - cx == -rx || a - cx == rx)) || (b - cy == dy && a - cx == -rx) { Some(sc) } else { rows(a, b) }),
                Ghost(|a: int, b: int| if -ry <= b - cy < dy + 1 && (a - cx == -rx || a - cx == rx) { Some(sc) } else { rows(a, b) }),
            );
            dy = dy + 1;
        }
        proof {
            lemma_painted_ext(pre, buf@, |a: int, b: int| if -ry <= b - cy < dy && (a - cx == -rx || a - cx == rx) { Some(sc) } else { rows(a, b) }, ellipse_paint(x as int, y as int, w as int, h as int, *fill, Some(sc)));
        }
    } else {
        proof {
            lemma_painted_ext(pre, buf@, filled, ellipse_paint(x as int, y as int, w as int, h as int, *fill, None));
        }
    }
}

} // verus!

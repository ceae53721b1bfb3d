use vstd::prelude::*;

use crate::color::Color;

verus! {

/// A pixel position `(x, y)`.
pub type Vect = (u32, u32);

/// A rectangle `(x, y, w, h)`.
pub type Rect = (u32, u32, u32, u32);

/// A write or a view that falls outside the active region.
#[derive(Clone, Copy, Debug, PartialEq, Eq, Structural)]
pub struct BoundsError;

/// The model of a pixel buffer: its bytes, its layout and its active region.
/// Rows are `stride` bytes apart; a pixel is four bytes, opacity, red, green,
/// blue. Coordinates given to the buffer are relative to the active region
/// `(ox, oy, rw, rh)`.
pub ghost struct FrameView {
    pub bytes: Seq<u8>,
    pub width: nat,
    pub height: nat,
    pub stride: nat,
    pub ox: nat,
    pub oy: nat,
    pub rw: nat,
    pub rh: nat,
}

impl FrameView {
    pub open spec fn wf(self) -> bool {
        &&& self.width <= u32::MAX
        &&& self.height <= u32::MAX
        &&& self.stride >= 4 * self.width
        &&& self.bytes.len() == self.stride * self.height
        &&& self.ox + self.rw <= self.width
        &&& self.oy + self.rh <= self.height
    }

    /// Whether the region-relative position `(x, y)` lies in the active region.
    pub open spec fn contains(self, x: int, y: int) -> bool {
        0 <= x < self.rw && 0 <= y < self.rh
    }

    /// Byte offset of the region-relative position `(x, y)`.
    pub open spec fn offset(self, x: int, y: int) -> int {
        (self.oy + y) * self.stride + 4 * (self.ox + x)
    }

    /// The color stored at the region-relative position `(x, y)`.
    pub open spec fn pixel(self, x: int, y: int) -> Color {
        let o = self.offset(x, y);
        Color {
            opacity: self.bytes[o],
            red: self.bytes[o + 1],
            green: self.bytes[o + 2],
            blue: self.bytes[o + 3],
        }
    }

    /// Whether byte `i` belongs to some pixel of the active region.
    pub open spec fn region_byte(self, i: int) -> bool {
        &&& self.oy <= i / (self.stride as int) < self.oy + self.rh
        &&& 4 * self.ox <= i % (self.stride as int) < 4 * (self.ox + self.rw)
    }

    /// The bytes after writing `c` at the region-relative position `(x, y)`.
    pub open spec fn with_pixel(self, x: int, y: int, c: Color) -> Seq<u8> {
        let o = self.offset(x, y);
        self.bytes.update(o, c.opacity).update(o + 1, c.red).update(o + 2, c.green).update(
            o + 3,
            c.blue,
        )
    }

    /// The view after writing `c` at the region-relative position `(x, y)`.
    pub open spec fn put(self, x: int, y: int, c: Color) -> FrameView {
        FrameView { bytes: self.with_pixel(x, y, c), ..self }
    }

    /// Same layout and active region, whatever the bytes.
    pub open spec fn same_layout(self, other: FrameView) -> bool {
        &&& self.width == other.width
        &&& self.height == other.height
        &&& self.stride == other.stride
        &&& self.ox == other.ox
        &&& self.oy == other.oy
        &&& self.rw == other.rw
        &&& self.rh == other.rh
    }

    /// `post` is `self` with each pixel of the active region for which `paint`
    /// gives a color set to that color, and every other byte left as it was.
    pub open spec fn painted(self, post: FrameView, paint: spec_fn(int, int) -> Option<Color>) -> bool {
        &&& post.same_layout(self)
        &&& post.bytes.len() == self.bytes.len()
        &&& forall|x: int, y: int|
            #![trigger post.pixel(x, y)]
            self.contains(x, y) ==> post.pixel(x, y) == match paint(x, y) {
                Some(c) => c,
                None => self.pixel(x, y),
            }
        &&& forall|i: int|
            #![trigger post.bytes[i]]
            0 <= i < self.bytes.len() && !self.region_byte(i) ==> post.bytes[i] == self.bytes[i]
    }
}

/// The bytes of a pixel of the active region: where they lie in their row,
/// and that they lie in the buffer.
pub proof fn lemma_locate(v: FrameView, x: int, y: int, k: int)
    requires
        v.wf(),
        v.contains(x, y),
        0 <= k < 4,
    ensures
        (v.offset(x, y) + k) / (v.stride as int) == v.oy + y,
        (v.offset(x, y) + k) % (v.stride as int) == 4 * (v.ox + x) + k,
        0 <= v.offset(x, y) + k < v.bytes.len(),
        v.region_byte(v.offset(x, y) + k),
{
    let s = v.stride as int;
    let row = v.oy + y;
    vstd::arithmetic::div_mod::lemma_fundamental_div_mod_converse(
        v.offset(x, y) + k,
        s,
        row,
        4 * (v.ox + x) + k,
    );
    vstd::arithmetic::mul::lemma_mul_inequality(row + 1, v.height as int, s);
    vstd::arithmetic::mul::lemma_mul_is_distributive_add_other_way(s, row, 1);
    vstd::arithmetic::mul::lemma_mul_nonnegative(row, s);
    vstd::arithmetic::mul::lemma_mul_is_commutative(v.stride as int, v.height as int);
}

/// Writing one pixel of the active region paints exactly that pixel.
pub proof fn lemma_put_paints(v: FrameView, x: int, y: int, c: Color)
    requires
        v.wf(),
        v.contains(x, y),
    ensures
        v.put(x, y, c).wf(),
        v.painted(v.put(x, y, c), |a: int, b: int| if a == x && b == y { Some(c) } else { None }),
{
    let post = v.put(x, y, c);
    let o = v.offset(x, y);
    lemma_locate(v, x, y, 0);
    lemma_locate(v, x, y, 3);
    assert forall|a: int, b: int| #![trigger post.pixel(a, b)] v.contains(a, b) && !(a == x && b == y) implies post.pixel(a, b) == v.pixel(a, b) by {
        let p = v.offset(a, b);
        lemma_locate(v, a, b, 0);
        lemma_locate(v, a, b, 1);
        lemma_locate(v, a, b, 2);
        lemma_locate(v, a, b, 3);
        lemma_locate(v, x, y, 1);
        lemma_locate(v, x, y, 2);
        lemma_locate(v, a, b, 3);
    }
    assert forall|i: int| #![trigger post.bytes[i]] 0 <= i < v.bytes.len() && !v.region_byte(i) implies post.bytes[i] == v.bytes[i] by {
        lemma_locate(v, x, y, 0);
        lemma_locate(v, x, y, 1);
        lemma_locate(v, x, y, 2);
        lemma_locate(v, x, y, 3);
    }
}

/// Painting composes: a painted view, painted once more at one pixel.
pub proof fn lemma_painted_then_put(
    pre: FrameView,
    mid: FrameView,
    f: spec_fn(int, int) -> Option<Color>,
    x: int,
    y: int,
    c: Color,
)
    requires
        pre.wf(),
        pre.painted(mid, f),
        pre.contains(x, y),
    ensures
        mid.wf(),
        pre.painted(
            mid.put(x, y, c),
            |a: int, b: int| if a == x && b == y { Some(c) } else { f(a, b) },
        ),
{
    let g = |a: int, b: int| if a == x && b == y { Some(c) } else { None::<Color> };
    lemma_put_paints(mid, x, y, c);
    let post = mid.put(x, y, c);
    assert forall|a: int, b: int| #![trigger post.pixel(a, b)] pre.contains(a, b) implies post.pixel(a, b) == match (if a == x && b == y { Some(c) } else { f(a, b) }) {
        Some(col) => col,
        None => pre.pixel(a, b),
    } by {
        assert(mid.contains(a, b));
        assert(post.pixel(a, b) == match g(a, b) {
            Some(col) => col,
            None => mid.pixel(a, b),
        });
        assert(mid.pixel(a, b) == match f(a, b) {
            Some(col) => col,
            None => pre.pixel(a, b),
        });
    }
    assert forall|i: int| #![trigger post.bytes[i]] 0 <= i < pre.bytes.len() && !pre.region_byte(i) implies post.bytes[i] == pre.bytes[i] by {
        assert(mid.bytes[i] == pre.bytes[i]);
    }
}

/// A painting is determined by its colors on the active region alone.
pub proof fn lemma_painted_ext(
    pre: FrameView,
    post: FrameView,
    f: spec_fn(int, int) -> Option<Color>,
    g: spec_fn(int, int) -> Option<Color>,
)
    requires
        pre.painted(post, f),
        forall|a: int, b: int| pre.contains(a, b) ==> f(a, b) == g(a, b),
    ensures
        pre.painted(post, g),
{
}

/// Nothing painted leaves the view as it was.
pub proof fn lemma_painted_nothing(v: FrameView)
    ensures
        v.painted(v, |a: int, b: int| None::<Color>),
{
}

/// Painting composes with one more write that is dropped outside the active
/// region: the painting then also gives `c` at `(x, y)`.
pub proof fn lemma_painted_then_plot(
    pre: FrameView,
    mid: FrameView,
    f: spec_fn(int, int) -> Option<Color>,
    x: int,
    y: int,
    c: Color,
)
    requires
        pre.wf(),
        pre.painted(mid, f),
    ensures
        mid.wf(),
        pre.painted(
            if pre.contains(x, y) { mid.put(x, y, c) } else { mid },
            |a: int, b: int| if a == x && b == y { Some(c) } else { f(a, b) },
        ),
{
    if pre.contains(x, y) {
        lemma_painted_then_put(pre, mid, f, x, y, c);
    } else {
        lemma_painted_ext(pre, mid, f, |a: int, b: int| if a == x && b == y { Some(c) } else { f(a, b) });
    }
}

/// Two paintings in a row are one painting, the second over the first.
pub proof fn lemma_painted_compose(
    pre: FrameView,
    mid: FrameView,
    post: FrameView,
    f: spec_fn(int, int) -> Option<Color>,
    g: spec_fn(int, int) -> Option<Color>,
)
    requires
        pre.painted(mid, f),
        mid.painted(post, g),
    ensures
        pre.painted(
            post,
            |a: int, b: int|
                match g(a, b) {
                    Some(c) => Some(c),
                    None => f(a, b),
                },
        ),
{
    assert forall|x: int, y: int| #![trigger post.pixel(x, y)] pre.contains(x, y) implies post.pixel(x, y) == match (match g(x, y) {
        Some(c) => Some(c),
        None => f(x, y),
    }) {
        Some(c) => c,
        None => pre.pixel(x, y),
    } by {
        assert(mid.contains(x, y));
        assert(mid.pixel(x, y) == match f(x, y) {
            Some(c) => c,
            None => pre.pixel(x, y),
        });
    }
    assert forall|i: int| #![trigger post.bytes[i]] 0 <= i < pre.bytes.len() && !pre.region_byte(i) implies post.bytes[i] == pre.bytes[i] by {
        assert(mid.bytes[i] == pre.bytes[i]);
    }
}

/// A write at a position of a subregion changes the bytes exactly as the write
/// at that position shifted by the subregion's origin, in the same buffer
/// without a subregion.
pub proof fn lemma_subregion_put(sub: FrameView, x: int, y: int, c: Color)
    requires
        sub.wf(),
        sub.contains(x, y),
    ensures
        ({
            let full = FrameView { ox: 0, oy: 0, rw: sub.width, rh: sub.height, ..sub };
            &&& full.wf()
            &&& full.contains(x + sub.ox, y + sub.oy)
            &&& sub.put(x, y, c).bytes == full.put(x + sub.ox, y + sub.oy, c).bytes
        }),
{
}

/// A pixel buffer over a borrowed byte region, with an optional active
/// sub-rectangle that all coordinates are relative to.
pub struct Buffer<'a> {
    buf: &'a mut [u8],
    dimensions: Vect,
    stride: u64,
    subdimensions: Option<Rect>,
}

impl<'a> View for Buffer<'a> {
    type V = FrameView;

    closed spec fn view(&self) -> FrameView {
        let (ox, oy, rw, rh) = match self.subdimensions {
            Some(r) => (r.0 as nat, r.1 as nat, r.2 as nat, r.3 as nat),
            None => (0nat, 0nat, self.dimensions.0 as nat, self.dimensions.1 as nat),
        };
        FrameView {
            bytes: self.buf@,
            width: self.dimensions.0 as nat,
            height: self.dimensions.1 as nat,
            stride: self.stride as nat,
            ox,
            oy,
            rw,
            rh,
        }
    }
}

impl<'a> Buffer<'a> {
    pub open spec fn wf(&self) -> bool {
        self@.wf()
    }

    pub closed spec fn subregion(&self) -> Option<Rect> {
        self.subdimensions
    }

    /// The active region of the view is the subregion, or else the whole
    /// buffer.
    pub proof fn lemma_region(&self)
        ensures
            match self.subregion() {
                None => self@.ox == 0 && self@.oy == 0 && self@.rw == self@.width && self@.rh == self@.height,
                Some(r) => self@.ox == r.0 && self@.oy == r.1 && self@.rw == r.2 && self@.rh == r.3,
            },
    {
    }

    /// A buffer of `dimensions.0 * dimensions.1` tightly packed pixels.
    pub fn new(buf: &'a mut [u8], dimensions: Vect) -> (r: Self)
        requires
            old(buf)@.len() == dimensions.0 * dimensions.1 * 4,
        ensures
            r.wf(),
            r.subregion() is None,
            r@.bytes == old(buf)@,
            r@.width == dimensions.0,
            r@.height == dimensions.1,
            r@.stride == 4 * dimensions.0,
            r@.ox == 0 && r@.oy == 0 && r@.rw == dimensions.0 && r@.rh == dimensions.1,
    {
        let ghost n = old(buf)@.len();
        assert(n == (4 * dimensions.0) * dimensions.1) by (nonlinear_arith)
            requires
                n == dimensions.0 * dimensions.1 * 4,
        ;
        Buffer { buf, dimensions, stride: 4 * (dimensions.0 as u64), subdimensions: None }
    }

    /// A buffer whose rows are `stride` bytes apart, for hardware buffers with
    /// padding at the end of each row.
    pub fn with_stride(buf: &'a mut [u8], dimensions: Vect, stride: u32) -> (r: Self)
        requires
            stride >= 4 * dimensions.0,
            old(buf)@.len() == stride * dimensions.1,
        ensures
            r.wf(),
            r.subregion() is None,
            r@.bytes == old(buf)@,
            r@.width == dimensions.0,
            r@.height == dimensions.1,
            r@.stride == stride,
            r@.ox == 0 && r@.oy == 0 && r@.rw == dimensions.0 && r@.rh == dimensions.1,
    {
        Buffer { buf, dimensions, stride: stride as u64, subdimensions: None }
    }

    /// The same buffer with its active region narrowed to `rect`, given in
    /// whole-buffer coordinates; fails when `rect` extends past the buffer.
    pub fn with_subregion(self, rect: Rect) -> (r: Result<Buffer<'a>, BoundsError>)
        requires
            self.wf(),
        ensures
            r is Ok <==> rect.0 + rect.2 <= self@.width && rect.1 + rect.3 <= self@.height,
            r is Ok ==> {
                let b = r->Ok_0;
                &&& b.wf()
                &&& b.subregion() == Some(rect)
                &&& b@ == FrameView {
                    ox: rect.0 as nat,
                    oy: rect.1 as nat,
                    rw: rect.2 as nat,
                    rh: rect.3 as nat,
                    ..self@
                }
            },
    {
        if (rect.0 as u64) + (rect.2 as u64) > self.dimensions.0 as u64 || (rect.1 as u64) + (
        rect.3 as u64) > self.dimensions.1 as u64 {
            return Err(BoundsError);
        }
        Ok(Buffer { subdimensions: Some(rect), ..self })
    }

    /// Width and height of the whole buffer.
    pub fn dimensions(&self) -> (r: Vect)
        ensures
            r.0 == self@.width,
            r.1 == self@.height,
    {
        self.dimensions
    }

    /// The active region: the subregion, or else the whole buffer.
    pub fn region(&self) -> (r: Rect)
        requires
            self.wf(),
        ensures
            r.0 == self@.ox,
            r.1 == self@.oy,
            r.2 == self@.rw,
            r.3 == self@.rh,
    {
        match self.subdimensions {
            Some(rect) => rect,
            None => (0, 0, self.dimensions.0, self.dimensions.1),
        }
    }

    /// The bytes of the buffer.
    pub fn as_bytes(&self) -> (r: &[u8])
        ensures
            r@ == self@.bytes,
    {
        self.buf
    }

    /// Writes `c` at a position of the active region.
    fn write_pixel(&mut self, x: u32, y: u32, c: &Color)
        requires
            old(self).wf(),
            old(self)@.contains(x as int, y as int),
        ensures
            final(self).wf(),
            final(self).subregion() == old(self).subregion(),
            final(self)@ == old(self)@.put(x as int, y as int, *c),
    {
        let (ox, oy, _, _) = self.region();
        let ghost v = self@;
        proof {
            lemma_locate(v, x as int, y as int, 3);
            vstd::arithmetic::mul::lemma_mul_nonnegative((oy + y) as int, self.stride as int);
        }
        let n: usize = self.buf.len();
        assert(n == v.bytes.len());
        let row: u64 = (oy as u64) + (y as u64);
        assert(row * self.stride <= v.offset(x as int, y as int));
        let o = (row * self.stride + 4 * ((ox as u64) + (x as u64))) as usize;
        assert(o == v.offset(x as int, y as int));
        self.buf[o] = c.opacity;
        self.buf[o + 1] = c.red;
        self.buf[o + 2] = c.green;
        self.buf[o + 3] = c.blue;
    }

    /// Writes `c` at `pos`, relative to the active region. Fails, and leaves the
    /// buffer as it was, when `pos` lies outside the active region.
    pub fn put(&mut self, pos: Vect, c: &Color) -> (r: Result<(), BoundsError>)
        requires
            old(self).wf(),
        ensures
            final(self).wf(),
            final(self).subregion() == old(self).subregion(),
            r is Ok <==> pos.0 < old(self)@.rw && pos.1 < old(self)@.rh,
            r is Ok ==> final(self)@ == old(self)@.put(pos.0 as int, pos.1 as int, *c),
            r is Err ==> final(self)@ == old(self)@,
    {
        let (_, _, rw, rh) = self.region();
        if pos.0 >= rw || pos.1 >= rh {
            return Err(BoundsError);
        }
        self.write_pixel(pos.0, pos.1, c);
        Ok(())
    }

    /// Overwrites every pixel of the active region with `c`.
    pub fn memset(&mut self, c: &Color)
        requires
            old(self).wf(),
        ensures
            final(self).wf(),
            final(self).subregion() == old(self).subregion(),
            old(self)@.painted(final(self)@, |a: int, b: int| Some(*c)),
    {
        let (_, _, rw, rh) = self.region();
        let ghost pre = self@;
        let ghost pre_sub = self.subregion();
        proof {
            lemma_painted_nothing(pre);
            lemma_painted_ext(pre, pre, |a: int, b: int| None::<Color>, |a: int, b: int| if b < 0 { Some(*c) } else { None });
        }
        let mut y: u32 = 0;
        while y < rh
            invariant
                self.wf(),
                self.subregion() == pre_sub,
                pre.wf(),
                rw == pre.rw,
                rh == pre.rh,
                y <= rh,
                pre.painted(self@, |a: int, b: int| if b < y { Some(*c) } else { None }),
            decreases rh - y,
        {
            let mut x: u32 = 0;
            while x < rw
                invariant
                    self.wf(),
                    self.subregion() == pre_sub,
                    pre.wf(),
                    rw == pre.rw,
                    rh == pre.rh,
                    y < rh,
                    x <= rw,
                    pre.painted(self@, |a: int, b: int| if b < y || (b == y && a < x) { Some(*c) } else { None }),
                decreases rw - x,
            {
                proof {
                    lemma_painted_then_put(pre, self@, |a: int, b: int| if b < y || (b == y && a < x) { Some(*c) } else { None }, x as int, y as int, *c);
                }
                self.write_pixel(x, y, c);
                proof {
                    lemma_painted_ext(pre, self@, |a: int, b: int| if a == x && b == y { Some(*c) } else { if b < y || (b == y && a < x) { Some(*c) } else { None } }, |a: int, b: int| if b < y || (b == y && a < x + 1) { Some(*c) } else { None });
                }
                x = x + 1;
            }
            proof {
                lemma_painted_ext(pre, self@, |a: int, b: int| if b < y || (b == y && a < x) { Some(*c) } else { None }, |a: int, b: int| if b < y + 1 { Some(*c) } else { None });
            }
            y = y + 1;
        }
        proof {
            lemma_painted_ext(pre, self@, |a: int, b: int| if b < y { Some(*c) } else { None }, |a: int, b: int| Some(*c));
        }
    }
}

} // verus!

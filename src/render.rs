use vstd::prelude::*;

use crate::buffer::{Buffer, FrameView};
use crate::color::Color;
use crate::draw::{draw_ellipse, draw_line, draw_rect, ellipse_paint, line_paint, rect_paint};
use crate::glyph::{lookups, text_paint, Font};
use crate::kms::{next, DrmAction, DrmEvent, DrmSession, Phase};

verus! {

/// A display that can be drawn on. Every drawing call paints the frame as the
/// drawing functions of this crate do, and `present` makes the frame visible.
pub trait Renderer {
    /// The frame being drawn.
    spec fn frame(&self) -> FrameView;

    /// The color that text is blended against: the last color cleared to.
    spec fn background(&self) -> Color;

    spec fn inv(&self) -> bool;

    /// What presenting the frame asked of the display: `r` is the answer of
    /// `present` on `self`, and `post` the renderer after it.
    spec fn presented(&self, post: &Self, r: DrmAction) -> bool;

    /// Fills the whole frame with `color`, which becomes the background.
    fn clear(&mut self, color: Color)
        requires
            old(self).inv(),
        ensures
            final(self).inv(),
            final(self).background() == color,
            old(self).frame().painted(final(self).frame(), |a: int, b: int| Some(color)),
    ;

    fn rect(&mut self, x: u32, y: u32, w: u32, h: u32, fill: Color, stroke: Option<Color>)
        requires
            old(self).inv(),
        ensures
            final(self).inv(),
            final(self).background() == old(self).background(),
            old(self).frame().painted(final(self).frame(), rect_paint(x as int, y as int, w as int, h as int, fill, stroke)),
    ;

    fn ellipse(&mut self, x: u32, y: u32, w: u32, h: u32, fill: Color, stroke: Option<Color>)
        requires
            old(self).inv(),
        ensures
            final(self).inv(),
            final(self).background() == old(self).background(),
            old(self).frame().painted(final(self).frame(), ellipse_paint(x as int, y as int, w as int, h as int, fill, stroke)),
    ;

    fn line(&mut self, x1: u32, y1: u32, x2: u32, y2: u32, stroke: Color)
        requires
            old(self).inv(),
        ensures
            final(self).inv(),
            final(self).background() == old(self).background(),
            old(self).frame().painted(final(self).frame(), line_paint(x1 as int, y1 as int, x2 as int, y2 as int, stroke)),
    ;

    /// Draws `text` with the top of its line at `(x, y)`, blended from the
    /// background towards `color`.
    fn text(&mut self, x: u32, y: u32, text: &str, font: &Font, color: Color)
        requires
            old(self).inv(),
            font.wf(),
        ensures
            final(self).inv(),
            final(self).background() == old(self).background(),
            old(self).frame().painted(
                final(self).frame(),
                text_paint(
                    lookups(font.glyphs().entries(), text@, font.spec_size()),
                    x as int,
                    y + font.spec_ascent(),
                    old(self).background(),
                    color,
                ),
            ),
    ;

    /// Ends the frame; returns what the display asks next (`Draw` when the
    /// frame is already visible).
    fn present(&mut self) -> (r: DrmAction)
        requires
            old(self).inv(),
        ensures
            final(self).inv(),
            final(self).background() == old(self).background(),
            final(self).frame() == old(self).frame(),
            old(self).presented(final(self), r),
    ;
}

/// A renderer over memory that the display scans out directly, such as a
/// mapped legacy framebuffer: writes are visible at once.
pub struct FramebufferRenderer<'a> {
    buf: Buffer<'a>,
    bg: Color,
}

impl<'a> FramebufferRenderer<'a> {
    pub fn new(buf: Buffer<'a>) -> (r: Self)
        requires
            buf.wf(),
        ensures
            r.inv(),
            r.frame() == buf@,
            r.background() == Color::white_spec(),
    {
        FramebufferRenderer { buf, bg: Color::white() }
    }

    pub fn buffer(&self) -> (r: &Buffer<'a>)
        ensures
            r@ == self.frame(),
    {
        &self.buf
    }
}

impl<'a> Renderer for FramebufferRenderer<'a> {
    closed spec fn frame(&self) -> FrameView {
        self.buf@
    }

    closed spec fn background(&self) -> Color {
        self.bg
    }

    closed spec fn inv(&self) -> bool {
        self.buf.wf()
    }

    /// The frame is already visible: nothing is asked of the display.
    open spec fn presented(&self, post: &Self, r: DrmAction) -> bool {
        r == DrmAction::Draw
    }

    fn clear(&mut self, color: Color) {
        self.bg = color;
        self.buf.memset(&color);
    }

    fn rect(&mut self, x: u32, y: u32, w: u32, h: u32, fill: Color, stroke: Option<Color>) {
        draw_rect(&mut self.buf, x, y, w, h, &fill, stroke.as_ref());
    }

    fn ellipse(&mut self, x: u32, y: u32, w: u32, h: u32, fill: Color, stroke: Option<Color>) {
        draw_ellipse(&mut self.buf, x, y, w, h, &fill, stroke.as_ref());
    }

    fn line(&mut self, x1: u32, y1: u32, x2: u32, y2: u32, stroke: Color) {
        draw_line(&mut self.buf, x1, y1, x2, y2, &stroke);
    }

    fn text(&mut self, x: u32, y: u32, text: &str, font: &Font, color: Color) {
        let bg = self.bg;
        font.draw_text(&mut self.buf, x, y, text, &bg, &color);
    }

    fn present(&mut self) -> (r: DrmAction) {
        DrmAction::Draw
    }
}

/// A renderer over a mapped DRM dumb buffer whose display is driven by a
/// [`DrmSession`]: a frame becomes visible after a page flip.
pub struct DrmRenderer<'a> {
    buf: Buffer<'a>,
    bg: Color,
    session: DrmSession,
}

impl<'a> DrmRenderer<'a> {
    pub closed spec fn spec_session(&self) -> DrmSession {
        self.session
    }

    /// A renderer over the mapping `map` of the dumb buffer of `session`, whose
    /// CRTC is bound. Fails unless the session is `Ready` and `map` holds exactly
    /// `pitch * height` bytes, with room for `width` pixels in each row.
    pub fn new(map: &'a mut [u8], session: DrmSession) -> (r: Result<Self, DrmSession>)
        ensures
            r is Ok <==> session.phase is Ready && session.dumb is Some && session.fb is Some && ({
                let d = session.dumb->0;
                let m = session.output.mode;
                &&& d.pitch >= 4 * m.width
                &&& old(map)@.len() == d.pitch * m.height
            }),
            r is Ok ==> {
                let d = r->Ok_0;
                &&& d.inv()
                &&& d.frame().wf()
                &&& d.spec_session() == session
                &&& d.frame().bytes == old(map)@
                &&& d.frame().width == session.output.mode.width
                &&& d.frame().height == session.output.mode.height
                &&& d.frame().stride == session.dumb->0.pitch
                &&& d.frame().ox == 0
                &&& d.frame().oy == 0
                &&& d.frame().rw == session.output.mode.width
                &&& d.frame().rh == session.output.mode.height
                &&& d.background() == Color::white_spec()
            },
            r is Err ==> r->Err_0 == session,
    {
        if session.phase != Phase::Ready {
            return Err(session);
        }
        let d = match session.dumb {
            Some(d) => d,
            None => { return Err(session); },
        };
        if session.fb.is_none() {
            return Err(session);
        }
        let w = session.output.mode.width as u32;
        let h = session.output.mode.height as u32;
        proof {
            vstd::arithmetic::mul::lemma_mul_upper_bound(d.pitch as int, u32::MAX as int, h as int, u16::MAX as int);
        }
        if (d.pitch as u64) < 4 * (w as u64) || map.len() as u64 != (d.pitch as u64) * (h as u64) {
            return Err(session);
        }
        let buf = Buffer::with_stride(map, (w, h), d.pitch);
        Ok(DrmRenderer { buf, bg: Color::white(), session })
    }

    /// Width and height of the display's buffer.
    pub fn dimensions(&self) -> (r: (u32, u32))
        ensures
            r.0 == self.frame().width,
            r.1 == self.frame().height,
    {
        self.buf.dimensions()
    }

    /// The session driving the display.
    pub fn session(&self) -> (r: DrmSession)
        ensures
            r == self.spec_session(),
    {
        self.session
    }

    /// Hands the device's answer `e` to the session; returns what to ask of the
    /// device next.
    pub fn handle(&mut self, e: DrmEvent) -> (r: DrmAction)
        requires
            old(self).inv(),
        ensures
            final(self).inv(),
            final(self).frame() == old(self).frame(),
            final(self).background() == old(self).background(),
            (final(self).spec_session(), r) == next(old(self).spec_session(), e),
    {
        self.session.step(e)
    }
}

impl<'a> Renderer for DrmRenderer<'a> {
    closed spec fn frame(&self) -> FrameView {
        self.buf@
    }

    closed spec fn background(&self) -> Color {
        self.bg
    }

    closed spec fn inv(&self) -> bool {
        self.buf.wf()
    }

    /// The session has been told that the frame is drawn, and `r` is what it
    /// asks next: the page flip.
    open spec fn presented(&self, post: &Self, r: DrmAction) -> bool {
        (post.spec_session(), r) == next(self.spec_session(), DrmEvent::FrameDrawn)
    }

    fn clear(&mut self, color: Color)
        ensures
            final(self).spec_session() == old(self).spec_session(),
    {
        self.bg = color;
        self.buf.memset(&color);
    }

    fn rect(&mut self, x: u32, y: u32, w: u32, h: u32, fill: Color, stroke: Option<Color>)
        ensures
            final(self).spec_session() == old(self).spec_session(),
    {
        draw_rect(&mut self.buf, x, y, w, h, &fill, stroke.as_ref());
    }

    fn ellipse(&mut self, x: u32, y: u32, w: u32, h: u32, fill: Color, stroke: Option<Color>)
        ensures
            final(self).spec_session() == old(self).spec_session(),
    {
        draw_ellipse(&mut self.buf, x, y, w, h, &fill, stroke.as_ref());
    }

    fn line(&mut self, x1: u32, y1: u32, x2: u32, y2: u32, stroke: Color)
        ensures
            final(self).spec_session() == old(self).spec_session(),
    {
        draw_line(&mut self.buf, x1, y1, x2, y2, &stroke);
    }

    fn text(&mut self, x: u32, y: u32, text: &str, font: &Font, color: Color)
        ensures
            final(self).spec_session() == old(self).spec_session(),
    {
        let bg = self.bg;
        font.draw_text(&mut self.buf, x, y, text, &bg, &color);
    }

    /// Requests the page flip that shows the frame.
    fn present(&mut self) -> (r: DrmAction) {
        self.session.step(DrmEvent::FrameDrawn)
    }
}

} // verus!

use vstd::prelude::*;

use crate::color::Color;
use crate::draw::{ellipse_paint, line_paint, rect_paint};
use crate::glyph::{lookups, text_paint, Font};
use crate::kms::DrmAction;
use crate::render::Renderer;

verus! {

/// A drawing context over a renderer: shapes are filled with the current fill
/// color and outlined with the current stroke color, if any; text is drawn in
/// the fill color with the current font.
pub struct Canvas<R: Renderer> {
    pub renderer: R,
    pub fill: Color,
    pub stroke: Option<Color>,
    pub font: Font,
}

impl<R: Renderer> Canvas<R> {
    pub open spec fn inv(&self) -> bool {
        self.renderer.inv() && self.font.wf()
    }

    /// A canvas that fills in white and strokes in black.
    pub fn new(renderer: R, font: Font) -> (r: Self)
        ensures
            r.renderer == renderer,
            r.font == font,
            r.fill == Color::white_spec(),
            r.stroke == Some(Color::black_spec()),
    {
        Canvas { renderer, fill: Color::white(), stroke: Some(Color::black()), font }
    }

    /// Clears the whole frame to `color`.
    pub fn background(&mut self, color: Color)
        requires
            old(self).inv(),
        ensures
            final(self).inv(),
            final(self).fill == old(self).fill,
            final(self).stroke == old(self).stroke,
            final(self).font == old(self).font,
            final(self).renderer.background() == color,
            old(self).renderer.frame().painted(final(self).renderer.frame(), |a: int, b: int| Some(color)),
    {
        self.renderer.clear(color);
    }

    pub fn fill(&mut self, color: Color)
        ensures
            *final(self) == (Canvas { fill: color, ..*old(self) }),
    {
        self.fill = color;
    }

    pub fn stroke(&mut self, color: Color)
        ensures
            *final(self) == (Canvas { stroke: Some(color), ..*old(self) }),
    {
        self.stroke = Some(color);
    }

    pub fn no_stroke(&mut self)
        ensures
            *final(self) == (Canvas { stroke: None, ..*old(self) }),
    {
        self.stroke = None;
    }

    pub fn rect(&mut self, x: u32, y: u32, w: u32, h: u32)
        requires
            old(self).inv(),
        ensures
            final(self).inv(),
            final(self).fill == old(self).fill,
            final(self).stroke == old(self).stroke,
            final(self).font == old(self).font,
            final(self).renderer.background() == old(self).renderer.background(),
            old(self).renderer.frame().painted(
                final(self).renderer.frame(),
                rect_paint(x as int, y as int, w as int, h as int, old(self).fill, old(self).stroke),
            ),
    {
        self.renderer.rect(x, y, w, h, self.fill, self.stroke);
    }

    pub fn ellipse(&mut self, x: u32, y: u32, w: u32, h: u32)
        requires
            old(self).inv(),
        ensures
            final(self).inv(),
            final(self).fill == old(self).fill,
            final(self).stroke == old(self).stroke,
            final(self).font == old(self).font,
            final(self).renderer.background() == old(self).renderer.background(),
            old(self).renderer.frame().painted(
                final(self).renderer.frame(),
                ellipse_paint(x as int, y as int, w as int, h as int, old(self).fill, old(self).stroke),
            ),
    {
        self.renderer.ellipse(x, y, w, h, self.fill, self.stroke);
    }

    /// Draws a line in the stroke color; with no stroke color, draws nothing.
    pub fn line(&mut self, x1: u32, y1: u32, x2: u32, y2: u32)
        requires
            old(self).inv(),
        ensures
            final(self).inv(),
            final(self).fill == old(self).fill,
            final(self).stroke == old(self).stroke,
            final(self).font == old(self).font,
            final(self).renderer.background() == old(self).renderer.background(),
            match old(self).stroke {
                Some(s) => old(self).renderer.frame().painted(
                    final(self).renderer.frame(),
                    line_paint(x1 as int, y1 as int, x2 as int, y2 as int, s),
                ),
                None => final(self).renderer == old(self).renderer,
            },
    {
        if let Some(stroke) = self.stroke {
            self.renderer.line(x1, y1, x2, y2, stroke);
        }
    }

    /// Draws `text` in the fill color with the top of its line at `(x, y)`.
    pub fn text(&mut self, text: &str, x: u32, y: u32)
        requires
            old(self).inv(),
        ensures
            final(self).inv(),
            final(self).fill == old(self).fill,
            final(self).stroke == old(self).stroke,
            final(self).font == old(self).font,
            final(self).renderer.background() == old(self).renderer.background(),
            old(self).renderer.frame().painted(
                final(self).renderer.frame(),
                text_paint(
                    lookups(old(self).font.glyphs().entries(), text@, old(self).font.spec_size()),
                    x as int,
                    y + old(self).font.spec_ascent(),
                    old(self).renderer.background(),
                    old(self).fill,
                ),
            ),
    {
        self.renderer.text(x, y, text, &self.font, self.fill);
    }

    /// Ends the frame; returns what the display asks next.
    pub fn present(&mut self) -> (r: DrmAction)
        requires
            old(self).inv(),
        ensures
            final(self).inv(),
            final(self).fill == old(self).fill,
            final(self).stroke == old(self).stroke,
            final(self).font == old(self).font,
            final(self).renderer.frame() == old(self).renderer.frame(),
            final(self).renderer.background() == old(self).renderer.background(),
            old(self).renderer.presented(&final(self).renderer, r),
    {
        self.renderer.present()
    }
}

} // verus!

use vstd::prelude::*;

use crate::buffer::{lemma_painted_compose, lemma_painted_ext, lemma_painted_nothing, Buffer, FrameView};
use crate::color::{blended, Color};
use crate::draw::plot;

verus! {

/// A failed glyph lookup.
#[derive(Clone, Copy, Debug, PartialEq, Eq, Structural)]
pub enum DrawError {
    GlyphNotInCache(char),
}

/// The model of a glyph: the character and pixel size it was rasterized for,
/// its coverage bitmap (row by row, 0 is background, 255 full foreground), the
/// offset of the bitmap's top-left corner from the pen position on the
/// baseline, and the horizontal advance to the next glyph.
pub ghost struct GlyphView {
    pub ch: char,
    pub size: u32,
    pub width: nat,
    pub height: nat,
    pub left: int,
    pub top: int,
    pub advance: int,
    pub coverage: Seq<u8>,
}

/// A rasterized glyph.
#[derive(Debug)]
pub struct Glyph {
    ch: char,
    size: u32,
    width: u32,
    height: u32,
    left: i32,
    top: i32,
    advance: i32,
    coverage: Vec<u8>,
}

impl View for Glyph {
    type V = GlyphView;

    closed spec fn view(&self) -> GlyphView {
        GlyphView {
            ch: self.ch,
            size: self.size,
            width: self.width as nat,
            height: self.height as nat,
            left: self.left as int,
            top: self.top as int,
            advance: self.advance as int,
            coverage: self.coverage@,
        }
    }
}

impl GlyphView {
    pub open spec fn wf(self) -> bool {
        &&& self.width <= u32::MAX
        &&& self.height <= u32::MAX
        &&& i32::MIN <= self.left <= i32::MAX
        &&& i32::MIN <= self.top <= i32::MAX
        &&& i32::MIN <= self.advance <= i32::MAX
        &&& self.coverage.len() == self.width * self.height
    }

    /// Coverage of the bitmap cell `(i, j)`.
    pub open spec fn cell(self, i: int, j: int) -> u8 {
        self.coverage[j * self.width + i]
    }
}

impl Glyph {
    /// A glyph; `None` unless `coverage` holds exactly `width * height` cells.
    pub fn new(
        ch: char,
        size: u32,
        width: u32,
        height: u32,
        left: i32,
        top: i32,
        advance: i32,
        coverage: Vec<u8>,
    ) -> (r: Option<Glyph>)
        ensures
            r is Some <==> coverage@.len() == width * height,
            r is Some ==> r->0@ == (GlyphView {
                ch,
                size,
                width: width as nat,
                height: height as nat,
                left: left as int,
                top: top as int,
                advance: advance as int,
                coverage: coverage@,
            }),
    {
        proof {
            vstd::arithmetic::mul::lemma_mul_upper_bound(width as int, u32::MAX as int, height as int, u32::MAX as int);
        }
        if (width as u64) * (height as u64) != coverage.len() as u64 {
            return None;
        }
        Some(Glyph { ch, size, width, height, left, top, advance, coverage })
    }

    pub fn ch(&self) -> (r: char)
        ensures
            r == self@.ch,
    {
        self.ch
    }

    pub fn size(&self) -> (r: u32)
        ensures
            r == self@.size,
    {
        self.size
    }

    pub fn advance(&self) -> (r: i32)
        ensures
            r == self@.advance,
    {
        self.advance
    }
}

/// What drawing a glyph with its bitmap's corner at `(ox, oy)` paints: each
/// covered cell, in the blend of `bg` towards `fg` by its coverage.
pub open spec fn glyph_paint(g: GlyphView, ox: int, oy: int, bg: Color, fg: Color) -> spec_fn(int, int) -> Option<Color> {
    |a: int, b: int|
        if 0 <= a - ox < g.width && 0 <= b - oy < g.height && g.cell(a - ox, b - oy) > 0 {
            Some(blended(bg, fg, g.cell(a - ox, b - oy)))
        } else {
            None
        }
}

/// Draws the covered cells of `g` with its bitmap's corner at `(ox, oy)`.
pub fn draw_glyph(buf: &mut Buffer, ox: i64, oy: i64, g: &Glyph, bg: &Color, fg: &Color)
    requires
        old(buf).wf(),
        g@.wf(),
        -0x100_0000_0000 <= ox <= 0x100_0000_0000,
        -0x100_0000_0000 <= oy <= 0x100_0000_0000,
    ensures
        final(buf).wf(),
        final(buf).subregion() == old(buf).subregion(),
        old(buf)@.painted(final(buf)@, glyph_paint(g@, ox as int, oy as int, *bg, *fg)),
{
    let ghost pre = buf@;
    let ghost sub = buf.subregion();
    let ghost gv = g@;
    let w = g.width;
    let h = g.height;
    let n: usize = g.coverage.len();
    proof {
        lemma_painted_nothing(pre);
        lemma_painted_ext(pre, pre, |a: int, b: int| None::<Color>, |a: int, b: int| if b - oy < 0 { glyph_paint(gv, ox as int, oy as int, *bg, *fg)(a, b) } else { None });
    }
    let mut j: u32 = 0;
    while j < h
        invariant
            buf.wf(),
            buf.subregion() == sub,
            pre.wf(),
            gv == g@,
            gv.wf(),
            w == gv.width,
            h == gv.height,
            n == gv.coverage.len(),
            -0x100_0000_0000 <= ox <= 0x100_0000_0000,
            -0x100_0000_0000 <= oy <= 0x100_0000_0000,
            j <= h,
            pre.painted(buf@, |a: int, b: int| if b - oy < j { glyph_paint(gv, ox as int, oy as int, *bg, *fg)(a, b) } else { None }),
        decreases h - j,
    {
        let mut i: u32 = 0;
        while i < w
            invariant
                buf.wf(),
                buf.subregion() == sub,
                pre.wf(),
                gv == g@,
                gv.wf(),
                w == gv.width,
                h == gv.height,
                n == gv.coverage.len(),
                -0x100_0000_0000 <= ox <= 0x100_0000_0000,
                -0x100_0000_0000 <= oy <= 0x100_0000_0000,
                j < h,
                i <= w,
                pre.painted(buf@, |a: int, b: int| if b - oy < j || (b - oy == j && a - ox < i) { glyph_paint(gv, ox as int, oy as int, *bg, *fg)(a, b) } else { None }),
            decreases w - i,
        {
            proof {
                assert((j as int) * (w as int) + (i as int) < (w as int) * (h as int)) by (nonlinear_arith)
                    requires
                        j < h,
                        i < w,
                ;
                vstd::arithmetic::mul::lemma_mul_nonnegative(j as int, w as int);
            }
            let k: usize = (j as usize) * (w as usize) + (i as usize);
            let cov = g.coverage[k];
            let ghost f = |a: int, b: int| if b - oy < j || (b - oy == j && a - ox < i) { glyph_paint(gv, ox as int, oy as int, *bg, *fg)(a, b) } else { None };
            let ghost nf = |a: int, b: int| if b - oy < j || (b - oy == j && a - ox < i + 1) { glyph_paint(gv, ox as int, oy as int, *bg, *fg)(a, b) } else { None };
            if cov > 0 {
                let c = bg.blend(fg, cov);
                let ghost mid = buf@;
                plot(buf, ox + i as i64, oy + j as i64, &c);
                proof {
                    crate::buffer::lemma_painted_then_plot(pre, mid, f, ox + i, oy + j, c);
                    lemma_painted_ext(pre, buf@, |a: int, b: int| if a == ox + i && b == oy + j { Some(c) } else { f(a, b) }, nf);
                }
            } else {
                proof {
                    lemma_painted_ext(pre, buf@, f, nf);
                }
            }
            i = i + 1;
        }
        proof {
            lemma_painted_ext(pre, buf@, |a: int, b: int| if b - oy < j || (b - oy == j && a - ox < i) { glyph_paint(gv, ox as int, oy as int, *bg, *fg)(a, b) } else { None }, |a: int, b: int| if b - oy < j + 1 { glyph_paint(gv, ox as int, oy as int, *bg, *fg)(a, b) } else { None });
        }
        j = j + 1;
    }
    proof {
        lemma_painted_ext(pre, buf@, |a: int, b: int| if b - oy < j { glyph_paint(gv, ox as int, oy as int, *bg, *fg)(a, b) } else { None }, glyph_paint(gv, ox as int, oy as int, *bg, *fg));
    }
}

/// The last entry of `s` rasterized for `ch` at `size`, if any.
pub open spec fn find(s: Seq<GlyphView>, ch: char, size: u32) -> Option<GlyphView>
    decreases s.len(),
{
    if s.len() == 0 {
        None
    } else if s.last().ch == ch && s.last().size == size {
        Some(s.last())
    } else {
        find(s.drop_last(), ch, size)
    }
}

/// Rasterized glyphs, keyed by character and pixel size. Entries are added on
/// first use and never evicted: the cache grows at most to the font's glyph
/// set at each size in use.
pub struct GlyphCache {
    glyphs: Vec<Glyph>,
}

impl GlyphCache {
    pub closed spec fn entries(&self) -> Seq<GlyphView> {
        self.glyphs@.map_values(|g: Glyph| g@)
    }

    /// The cached glyph for `ch` at `size`.
    pub open spec fn lookup(&self, ch: char, size: u32) -> Option<GlyphView> {
        find(self.entries(), ch, size)
    }

    pub open spec fn wf(&self) -> bool {
        forall|i: int| 0 <= i < self.entries().len() ==> (#[trigger] self.entries()[i]).wf()
    }

    pub fn new() -> (r: GlyphCache)
        ensures
            r.wf(),
            r.entries().len() == 0,
            forall|ch: char, size: u32| r.lookup(ch, size) is None,
    {
        let r = GlyphCache { glyphs: Vec::new() };
        assert(r.entries() =~= Seq::empty());
        r
    }

    /// Index of the cached glyph for `ch` at `size`.
    fn position(&self, ch: char, size: u32) -> (r: Option<usize>)
        ensures
            match r {
                Some(i) => i < self.entries().len() && self.lookup(ch, size) == Some(self.entries()[i as int]),
                None => self.lookup(ch, size) is None,
            },
    {
        let mut i = self.glyphs.len();
        assert(self.entries().take(i as int) =~= self.entries());
        while i > 0
            invariant
                i <= self.glyphs.len(),
                find(self.entries(), ch, size) == find(self.entries().take(i as int), ch, size),
            decreases i,
        {
            let g = &self.glyphs[i - 1];
            assert(self.entries().take(i as int).drop_last() =~= self.entries().take(i - 1));
            if g.ch == ch && g.size == size {
                return Some(i - 1);
            }
            i = i - 1;
        }
        None
    }

    /// Whether a glyph for `ch` at `size` is cached.
    pub fn contains(&self, ch: char, size: u32) -> (r: bool)
        ensures
            r <==> self.lookup(ch, size) is Some,
    {
        self.position(ch, size).is_some()
    }

    /// The cached glyph for `ch` at `size`, or `GlyphNotInCache`.
    pub fn get(&self, ch: char, size: u32) -> (r: Result<&Glyph, DrawError>)
        ensures
            match r {
                Ok(g) => self.lookup(ch, size) == Some(g@),
                Err(e) => self.lookup(ch, size) is None && e == DrawError::GlyphNotInCache(ch),
            },
    {
        match self.position(ch, size) {
            Some(i) => Ok(&self.glyphs[i]),
            None => Err(DrawError::GlyphNotInCache(ch)),
        }
    }

    /// Adds `g` under its character and size, unless a glyph is cached there
    /// already; returns whether it was added.
    pub fn insert(&mut self, g: Glyph) -> (r: bool)
        requires
            old(self).wf(),
            g@.wf(),
        ensures
            final(self).wf(),
            r <==> old(self).lookup(g@.ch, g@.size) is None,
            final(self).lookup(g@.ch, g@.size) == if r { Some(g@) } else { old(self).lookup(g@.ch, g@.size) },
            forall|ch: char, size: u32|
                !(ch == g@.ch && size == g@.size) ==> final(self).lookup(ch, size) == old(self).lookup(ch, size),
    {
        if self.contains(g.ch, g.size) {
            return false;
        }
        let ghost before = self.entries();
        let ghost gv = g@;
        self.glyphs.push(g);
        assert(self.entries() =~= before.push(gv));
        assert(self.entries().drop_last() =~= before);
        true
    }
}

/// A font at one pixel size: its ascent above the baseline, in pixels, and
/// the glyphs rasterized for it so far.
pub struct Font {
    size: u32,
    ascent: i32,
    cache: GlyphCache,
}

/// Sum of the advances of the glyphs in `gs`; a missing glyph advances nothing.
pub open spec fn total_advance(gs: Seq<Option<GlyphView>>) -> int
    decreases gs.len(),
{
    if gs.len() == 0 {
        0
    } else {
        total_advance(gs.drop_last()) + match gs.last() {
            Some(g) => g.advance,
            None => 0,
        }
    }
}

/// What drawing the glyphs `gs` left to right from pen position `pen` on the
/// baseline `baseline` paints; a later glyph paints over an earlier one and a
/// missing glyph paints nothing.
pub open spec fn text_paint(gs: Seq<Option<GlyphView>>, pen: int, baseline: int, bg: Color, fg: Color) -> spec_fn(int, int) -> Option<Color>
    decreases gs.len(),
{
    if gs.len() == 0 {
        |a: int, b: int| None::<Color>
    } else {
        let prev = text_paint(gs.drop_last(), pen, baseline, bg, fg);
        let p = pen + total_advance(gs.drop_last());
        match gs.last() {
            Some(g) => |a: int, b: int|
                match glyph_paint(g, p + g.left, baseline + g.top, bg, fg)(a, b) {
                    Some(c) => Some(c),
                    None => prev(a, b),
                },
            None => prev,
        }
    }
}

/// The glyphs that `text` finds in the cache entries `s` at `size`.
pub open spec fn lookups(s: Seq<GlyphView>, text: Seq<char>, size: u32) -> Seq<Option<GlyphView>> {
    Seq::new(text.len(), |i: int| find(s, text[i], size))
}

proof fn lemma_find_wf(s: Seq<GlyphView>, ch: char, size: u32)
    requires
        forall|i: int| 0 <= i < s.len() ==> (#[trigger] s[i]).wf(),
    ensures
        find(s, ch, size) is Some ==> find(s, ch, size)->0.wf(),
    decreases s.len(),
{
    if s.len() > 0 {
        let t = s.drop_last();
        assert forall|i: int| 0 <= i < t.len() implies (#[trigger] t[i]).wf() by {
            assert(t[i] == s[i]);
        }
        lemma_find_wf(t, ch, size);
    }
}

impl Font {
    pub open spec fn wf(&self) -> bool {
        self.glyphs().wf()
    }

    pub closed spec fn glyphs(&self) -> GlyphCache {
        self.cache
    }

    pub closed spec fn spec_size(&self) -> u32 {
        self.size
    }

    pub closed spec fn spec_ascent(&self) -> i32 {
        self.ascent
    }

    /// A font of pixel size `size` whose glyphs rise `ascent` pixels above the
    /// baseline, with no glyph rasterized yet.
    pub fn new(size: u32, ascent: i32) -> (r: Font)
        ensures
            r.wf(),
            r.spec_size() == size,
            r.spec_ascent() == ascent,
            forall|ch: char, sz: u32| r.glyphs().lookup(ch, sz) is None,
    {
        Font { size, ascent, cache: GlyphCache::new() }
    }

    pub fn size(&self) -> (r: u32)
        ensures
            r == self.spec_size(),
    {
        self.size
    }

    pub fn ascent(&self) -> (r: i32)
        ensures
            r == self.spec_ascent(),
    {
        self.ascent
    }

    /// Caches `g`, as `GlyphCache::insert` does.
    pub fn insert_glyph(&mut self, g: Glyph) -> (r: bool)
        requires
            old(self).wf(),
            g@.wf(),
        ensures
            final(self).wf(),
            final(self).spec_size() == old(self).spec_size(),
            final(self).spec_ascent() == old(self).spec_ascent(),
            r <==> old(self).glyphs().lookup(g@.ch, g@.size) is None,
            final(self).glyphs().lookup(g@.ch, g@.size) == if r { Some(g@) } else { old(self).glyphs().lookup(g@.ch, g@.size) },
            forall|ch: char, size: u32|
                !(ch == g@.ch && size == g@.size) ==> final(self).glyphs().lookup(ch, size) == old(self).glyphs().lookup(ch, size),
    {
        self.cache.insert(g)
    }

    /// Characters of `text` with no glyph cached at this font's size: each such
    /// character appears, and nothing else does (a character may appear more
    /// than once). These are what must be rasterized before drawing `text`.
    pub fn missing_glyphs(&self, text: &str) -> (r: Vec<char>)
        ensures
            forall|i: int| 0 <= i < r@.len() ==> self.glyphs().lookup(#[trigger] r@[i], self.spec_size()) is None,
            forall|i: int| 0 <= i < text@.len() && self.glyphs().lookup(#[trigger] text@[i], self.spec_size()) is None ==> r@.contains(text@[i]),
            forall|i: int| 0 <= i < r@.len() ==> text@.contains(#[trigger] r@[i]),
    {
        let n = text.unicode_len();
        let mut r: Vec<char> = Vec::new();
        let mut i: usize = 0;
        while i < n
            invariant
                n == text@.len(),
                i <= n,
                forall|k: int| 0 <= k < r@.len() ==> self.glyphs().lookup(#[trigger] r@[k], self.spec_size()) is None,
                forall|k: int| 0 <= k < i && self.glyphs().lookup(#[trigger] text@[k], self.spec_size()) is None ==> r@.contains(text@[k]),
                forall|k: int| 0 <= k < r@.len() ==> text@.contains(#[trigger] r@[k]),
            decreases n - i,
        {
            let ch = text.get_char(i);
            if !self.cache.contains(ch, self.size) {
                let ghost before = r@;
                r.push(ch);
                proof {
                    assert(r@[r@.len() - 1] == ch);
                    assert forall|k: int| 0 <= k < i && self.glyphs().lookup(#[trigger] text@[k], self.spec_size()) is None implies r@.contains(text@[k]) by {
                        let m = choose|m: int| 0 <= m < before.len() && before[m] == text@[k];
                        assert(r@[m] == text@[k]);
                    }
                    assert forall|k: int| 0 <= k < r@.len() implies text@.contains(#[trigger] r@[k]) by {
                        if k < before.len() {
                            assert(r@[k] == before[k]);
                        } else {
                            assert(text@[i as int] == ch);
                        }
                    }
                }
            }
            i = i + 1;
        }
        r
    }

    /// Draws `text` with the top of its line at `(x, y)`: the baseline lies
    /// `ascent` pixels lower, and glyphs follow each other by their advances.
    /// Each covered cell gets the blend of `bg` towards `fg` by its coverage.
    /// A character with no cached glyph is skipped.
    pub fn draw_text(&self, buf: &mut Buffer, x: u32, y: u32, text: &str, bg: &Color, fg: &Color)
        requires
            self.wf(),
            old(buf).wf(),
        ensures
            final(buf).wf(),
            final(buf).subregion() == old(buf).subregion(),
            old(buf)@.painted(
                final(buf)@,
                text_paint(
                    lookups(self.glyphs().entries(), text@, self.spec_size()),
                    x as int,
                    y + self.spec_ascent(),
                    *bg,
                    *fg,
                ),
            ),
    {
        let ghost pre = buf@;
        let ghost sub = buf.subregion();
        let ghost gs = lookups(self.glyphs().entries(), text@, self.spec_size());
        let n = text.unicode_len();
        let baseline: i64 = y as i64 + self.ascent as i64;
        let mut pen: i128 = x as i128;
        let mut i: usize = 0;
        proof {
            assert(gs.take(0).len() == 0);
            lemma_painted_nothing(pre);
        }
        while i < n
            invariant
                self.wf(),
                buf.wf(),
                buf.subregion() == sub,
                pre.wf(),
                n == text@.len(),
                gs.len() == n,
                gs == lookups(self.glyphs().entries(), text@, self.spec_size()),
                baseline == y + self.spec_ascent(),
                i <= n,
                pen == x + total_advance(gs.take(i as int)),
                -(0x8000_0000 * i) <= total_advance(gs.take(i as int)) <= 0x8000_0000 * i,
                pre.painted(buf@, text_paint(gs.take(i as int), x as int, baseline as int, *bg, *fg)),
            decreases n - i,
        {
            let ch = text.get_char(i);
            let ghost prefix = gs.take(i as int);
            let ghost next = gs.take(i + 1);
            proof {
                assert(next.drop_last() =~= prefix);
                assert(next.last() == gs[i as int]);
                assert(gs[i as int] == find(self.glyphs().entries(), ch, self.spec_size()));
            }
            match self.cache.get(ch, self.size) {
                Ok(g) => {
                    proof {
                        lemma_find_wf(self.glyphs().entries(), ch, self.spec_size());
                    }
                    let ghost f = text_paint(prefix, x as int, baseline as int, *bg, *fg);
                    let ghost mid = buf@;
                    let ox: i128 = pen + g.left as i128;
                    let oy: i64 = baseline + g.top as i64;
                    let ghost gp = glyph_paint(g@, ox as int, oy as int, *bg, *fg);
                    if -0x100_0000_0000 <= ox && ox <= 0x100_0000_0000 {
                        draw_glyph(buf, ox as i64, oy, g, bg, fg);
                        proof {
                            lemma_painted_compose(pre, mid, buf@, f, gp);
                        }
                    } else {
                        proof {
                            assert forall|a: int, b: int| pre.contains(a, b) implies gp(a, b) is None by {}
                            lemma_painted_ext(pre, buf@, f, |a: int, b: int| match gp(a, b) { Some(c) => Some(c), None => f(a, b) });
                        }
                    }
                    proof {
                        lemma_painted_ext(pre, buf@, |a: int, b: int| match gp(a, b) { Some(c) => Some(c), None => f(a, b) }, text_paint(next, x as int, baseline as int, *bg, *fg));
                    }
                    pen = pen + g.advance as i128;
                }
                Err(_) => {
                    proof {
                        lemma_painted_ext(pre, buf@, text_paint(prefix, x as int, baseline as int, *bg, *fg), text_paint(next, x as int, baseline as int, *bg, *fg));
                    }
                }
            }
            i = i + 1;
        }
        proof {
            assert(gs.take(n as int) =~= gs);
        }
    }
}

} // verus!

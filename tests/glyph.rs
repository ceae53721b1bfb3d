use ndlm::buffer::Buffer;
use ndlm::color::Color;
use ndlm::glyph::{DrawError, Font, Glyph, GlyphCache};

fn bar(ch: char, size: u32) -> Glyph {
    // a 1 x 2 bitmap, full coverage on top, half below
    Glyph::new(ch, size, 1, 2, 0, -2, 2, vec![255, 128]).unwrap()
}

#[test]
fn glyph_needs_matching_coverage() {
    assert!(Glyph::new('a', 8, 2, 2, 0, 0, 2, vec![0; 3]).is_none());
    assert!(Glyph::new('a', 8, 2, 2, 0, 0, 2, vec![0; 4]).is_some());
}

#[test]
fn cache_keeps_first_glyph_per_key() {
    let mut cache = GlyphCache::new();
    assert!(!cache.contains('a', 8));
    assert_eq!(cache.get('a', 8).err(), Some(DrawError::GlyphNotInCache('a')));
    assert!(cache.insert(bar('a', 8)));
    assert!(!cache.insert(Glyph::new('a', 8, 0, 0, 0, 0, 5, vec![]).unwrap()));
    assert!(cache.insert(bar('a', 9)));
    assert_eq!(cache.get('a', 8).unwrap().advance(), 2);
    assert_eq!(cache.get('a', 9).unwrap().size(), 9);
    assert!(!cache.contains('b', 8));
}

#[test]
fn missing_glyphs_lists_uncached_characters() {
    let mut font = Font::new(8, 2);
    assert!(font.insert_glyph(bar('a', 8)));
    assert!(font.insert_glyph(bar('c', 9)));
    let missing = font.missing_glyphs("abca");
    assert!(missing.contains(&'b'));
    assert!(missing.contains(&'c'));
    assert!(!missing.contains(&'a'));
}

#[test]
fn text_blends_by_coverage_and_advances() {
    let mut font = Font::new(8, 2);
    font.insert_glyph(bar('a', 8));
    let bg = Color::black();
    let fg = Color::white();
    let mut bytes = vec![0u8; 6 * 3 * 4];
    {
        let mut b = Buffer::new(&mut bytes, (6, 3));
        // baseline at y = 0 + 2; each bar's top is 2 above it
        font.draw_text(&mut b, 1, 0, "a?a", &bg, &fg);
    }
    let px = |x: usize, y: usize| {
        let o = 4 * (x + 6 * y);
        [bytes[o], bytes[o + 1], bytes[o + 2], bytes[o + 3]]
    };
    let half = bg.blend(&fg, 128).argb_bytes();
    assert_eq!(half, [255, 128, 128, 128]);
    // 'a' at pen 1, '?' is missing and skipped without advancing, 'a' at pen 3
    assert_eq!(px(1, 0), [255, 255, 255, 255]);
    assert_eq!(px(1, 1), half);
    assert_eq!(px(3, 0), [255, 255, 255, 255]);
    assert_eq!(px(3, 1), half);
    assert_eq!(px(2, 0), [0, 0, 0, 0]);
    assert_eq!(px(1, 2), [0, 0, 0, 0]);
}

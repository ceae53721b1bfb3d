use ndlm::buffer::Buffer;
use ndlm::canvas::Canvas;
use ndlm::color::Color;
use ndlm::glyph::{Font, Glyph};
use ndlm::kms::{ConnectorInfo, DisplayMode, DrmAction, DrmEvent, DrmSession, DumbBuffer};
use ndlm::render::{DrmRenderer, FramebufferRenderer, Renderer};

fn ready_session(w: u16, h: u16, pitch: u32) -> DrmSession {
    let cs = vec![ConnectorInfo {
        handle: 1,
        connected: true,
        modes: vec![DisplayMode { width: w, height: h, refresh: 60 }],
        current_encoder: Some(2),
        encoders: vec![2],
    }];
    let (mut s, _) = DrmSession::start(&cs, 100).unwrap();
    s.step(DrmEvent::CrtcResolved(Some(3)));
    s.step(DrmEvent::DumbCreated(DumbBuffer { handle: 4, pitch, size: pitch as u64 * h as u64 }));
    s.step(DrmEvent::FramebufferAdded(5));
    assert_eq!(s.step(DrmEvent::CrtcSet), DrmAction::Draw);
    s
}

#[test]
fn canvas_line_without_stroke_draws_nothing() {
    let mut bytes = vec![0u8; 4 * 4 * 4];
    {
        let r = FramebufferRenderer::new(Buffer::new(&mut bytes, (4, 4)));
        let mut canvas = Canvas::new(r, Font::new(8, 6));
        canvas.no_stroke();
        canvas.line(0, 0, 3, 3);
        assert_eq!(canvas.present(), DrmAction::Draw);
    }
    assert!(bytes.iter().all(|&v| v == 0));
}

#[test]
fn canvas_draws_with_current_colors() {
    let mut bytes = vec![0u8; 4 * 4 * 4];
    {
        let r = FramebufferRenderer::new(Buffer::new(&mut bytes, (4, 4)));
        let mut canvas = Canvas::new(r, Font::new(8, 6));
        canvas.background(Color::rgb(1, 2, 3));
        canvas.stroke(Color::rgb(9, 9, 9));
        canvas.line(0, 3, 3, 3);
        canvas.fill(Color::rgb(5, 5, 5));
        canvas.no_stroke();
        canvas.rect(0, 0, 1, 1);
    }
    assert_eq!(&bytes[0..4], &[255, 5, 5, 5]);
    assert_eq!(&bytes[4..8], &[255, 1, 2, 3]);
    assert_eq!(&bytes[48..52], &[255, 9, 9, 9]);
    assert_eq!(&bytes[60..64], &[255, 9, 9, 9]);
}

#[test]
fn text_blends_against_cleared_background() {
    let mut bytes = vec![0u8; 3 * 3 * 4];
    {
        let mut r = FramebufferRenderer::new(Buffer::new(&mut bytes, (3, 3)));
        r.clear(Color::black());
        let mut font = Font::new(8, 1);
        font.insert_glyph(Glyph::new('x', 8, 1, 1, 0, 0, 1, vec![128]).unwrap());
        r.text(1, 0, "x", &font, Color::white());
    }
    // baseline at y = 1
    assert_eq!(&bytes[16..20], &[255, 128, 128, 128]);
}

#[test]
fn drm_renderer_uses_pitch_and_flips_on_present() {
    let s = ready_session(2, 2, 16);
    let mut map = vec![0u8; 32];
    {
        let mut r = DrmRenderer::new(&mut map, s).ok().unwrap();
        r.clear(Color::rgb(1, 1, 1));
        assert_eq!(r.present(), DrmAction::PageFlip { crtc: 3, fb: 5 });
        assert_eq!(r.handle(DrmEvent::FlipQueued), DrmAction::AwaitFlip { timeout_ms: 100 });
        assert_eq!(r.handle(DrmEvent::FlipCompleted), DrmAction::Draw);
    }
    for row in 0..2usize {
        assert_eq!(&map[row * 16..row * 16 + 8], &[255, 1, 1, 1, 255, 1, 1, 1]);
        assert_eq!(&map[row * 16 + 8..row * 16 + 16], &[0; 8]);
    }
}

#[test]
fn drm_renderer_refuses_a_short_mapping_or_an_unbound_session() {
    let s = ready_session(2, 2, 16);
    let mut map = vec![0u8; 31];
    assert!(DrmRenderer::new(&mut map, s).is_err());
    let mut narrow = vec![0u8; 8];
    assert!(DrmRenderer::new(&mut narrow, ready_session(2, 2, 4)).is_err());
    let cs = vec![ConnectorInfo { handle: 1, connected: true, modes: vec![DisplayMode { width: 1, height: 1, refresh: 60 }], current_encoder: Some(2), encoders: vec![] }];
    let (early, _) = DrmSession::start(&cs, 1).unwrap();
    let mut m = vec![0u8; 4];
    assert!(DrmRenderer::new(&mut m, early).is_err());
}

#[test]
fn drm_renderer_drives_the_second_connected_connector() {
    let cs = vec![
        ConnectorInfo {
            handle: 10,
            connected: false,
            modes: vec![DisplayMode { width: 8, height: 8, refresh: 60 }],
            current_encoder: Some(1),
            encoders: vec![1],
        },
        ConnectorInfo {
            handle: 11,
            connected: true,
            modes: vec![DisplayMode { width: 3, height: 2, refresh: 75 }],
            current_encoder: None,
            encoders: vec![2],
        },
    ];
    for _ in 0..2 {
        let (mut s, first) = DrmSession::start(&cs, 50).unwrap();
        assert_eq!(first, DrmAction::QueryEncoder { encoder: 2 });
        assert_eq!(s.step(DrmEvent::CrtcResolved(Some(7))), DrmAction::CreateDumb { width: 3, height: 2, bpp: 32 });
        s.step(DrmEvent::DumbCreated(DumbBuffer { handle: 4, pitch: 12, size: 24 }));
        assert_eq!(
            s.step(DrmEvent::FramebufferAdded(5)),
            DrmAction::SetCrtc { crtc: 7, fb: 5, connector: 11, mode: DisplayMode { width: 3, height: 2, refresh: 75 } }
        );
        assert_eq!(s.step(DrmEvent::CrtcSet), DrmAction::Draw);
        let mut map = vec![0u8; 24];
        let mut r = DrmRenderer::new(&mut map, s).ok().unwrap();
        assert_eq!(r.dimensions(), (3, 2));
        assert_eq!(r.session().output.connector, 11);
        assert_eq!(r.present(), DrmAction::PageFlip { crtc: 7, fb: 5 });
    }
}

#[test]
fn canvas_present_forwards_to_the_renderer() {
    let s = ready_session(1, 1, 4);
    let mut map = vec![0u8; 4];
    let r = DrmRenderer::new(&mut map, s).ok().unwrap();
    let mut canvas = Canvas::new(r, Font::new(8, 6));
    assert_eq!(canvas.present(), DrmAction::PageFlip { crtc: 3, fb: 5 });
}

use ndlm::kms::{
    select_output, ConnectorInfo, DisplayMode, DrmAction, DrmEvent, DrmSession, DumbBuffer, KmsError, Phase,
};

fn mode(w: u16, h: u16) -> DisplayMode {
    DisplayMode { width: w, height: h, refresh: 60 }
}

fn connector(handle: u32, connected: bool, modes: Vec<DisplayMode>, current: Option<u32>, encoders: Vec<u32>) -> ConnectorInfo {
    ConnectorInfo { handle, connected, modes, current_encoder: current, encoders }
}

#[test]
fn picks_first_connected_connector_and_its_first_mode() {
    let cs = vec![
        connector(10, false, vec![mode(640, 480)], Some(1), vec![1]),
        connector(11, true, vec![mode(1024, 768)], None, vec![7, 8]),
    ];
    let o = select_output(&cs).unwrap();
    assert_eq!(o.connector, 11);
    assert_eq!(o.mode, mode(1024, 768));
    assert_eq!(o.encoder, 7);
    // deterministic
    assert_eq!(select_output(&cs).unwrap(), o);
}

#[test]
fn prefers_the_current_encoder_and_mode_zero() {
    let cs = vec![
        connector(1, true, vec![mode(800, 600), mode(1920, 1080)], Some(4), vec![3, 4]),
        connector(2, true, vec![mode(640, 480)], Some(5), vec![5]),
    ];
    let o = select_output(&cs).unwrap();
    assert_eq!((o.connector, o.mode, o.encoder), (1, mode(800, 600), 4));
}

#[test]
fn selection_errors() {
    assert_eq!(select_output(&vec![]), Err(KmsError::NoConnectedConnector));
    let none = vec![connector(1, false, vec![mode(1, 1)], Some(1), vec![1])];
    assert_eq!(select_output(&none), Err(KmsError::NoConnectedConnector));
    let no_mode = vec![connector(1, true, vec![], Some(1), vec![1])];
    assert_eq!(select_output(&no_mode), Err(KmsError::NoMode));
    let no_encoder = vec![connector(1, true, vec![mode(1, 1)], None, vec![])];
    assert_eq!(select_output(&no_encoder), Err(KmsError::NoEncoder));
}

/// A stand-in for the device: it answers each request and records it.
struct MockDevice {
    calls: Vec<DrmAction>,
    reject_flip: bool,
}

impl MockDevice {
    fn answer(&mut self, a: DrmAction) -> Option<DrmEvent> {
        self.calls.push(a);
        match a {
            DrmAction::QueryEncoder { .. } => Some(DrmEvent::CrtcResolved(Some(42))),
            DrmAction::CreateDumb { width, height, bpp } => {
                assert_eq!(bpp, 32);
                let pitch = width * 4 + 64;
                Some(DrmEvent::DumbCreated(DumbBuffer { handle: 5, pitch, size: pitch as u64 * height as u64 }))
            }
            DrmAction::AddFramebuffer { depth, bpp, .. } => {
                assert_eq!((depth, bpp), (24, 32));
                Some(DrmEvent::FramebufferAdded(9))
            }
            DrmAction::SetCrtc { .. } => Some(DrmEvent::CrtcSet),
            DrmAction::PageFlip { .. } => Some(if self.reject_flip { DrmEvent::Rejected } else { DrmEvent::FlipQueued }),
            DrmAction::AwaitFlip { .. } => Some(DrmEvent::FlipCompleted),
            DrmAction::DestroyFramebuffer { .. } | DrmAction::DestroyDumb { .. } => Some(DrmEvent::Released),
            DrmAction::Draw | DrmAction::Close { .. } | DrmAction::Ignore => None,
        }
    }
}

fn drive(s: &mut DrmSession, dev: &mut MockDevice, mut a: DrmAction) -> DrmAction {
    while let Some(e) = dev.answer(a) {
        a = s.step(e);
    }
    a
}

fn position(calls: &[DrmAction], f: impl Fn(&DrmAction) -> bool) -> Vec<usize> {
    calls.iter().enumerate().filter(|(_, a)| f(a)).map(|(i, _)| i).collect()
}

#[test]
fn teardown_destroys_framebuffer_then_dumb_buffer_once_each() {
    let cs = vec![connector(3, true, vec![mode(64, 32)], Some(2), vec![2])];
    let (mut s, first) = DrmSession::start(&cs, 1000).unwrap();
    let mut dev = MockDevice { calls: Vec::new(), reject_flip: false };
    assert_eq!(drive(&mut s, &mut dev, first), DrmAction::Draw);
    assert_eq!(s.phase, Phase::Ready);
    for _ in 0..3 {
        let flip = s.step(DrmEvent::FrameDrawn);
        assert_eq!(flip, DrmAction::PageFlip { crtc: 42, fb: 9 });
        assert_eq!(drive(&mut s, &mut dev, flip), DrmAction::Draw);
    }
    let down = s.step(DrmEvent::Shutdown);
    assert_eq!(drive(&mut s, &mut dev, down), DrmAction::Close { error: None });
    assert_eq!(s.phase, Phase::Closed);
    let fb = position(&dev.calls, |a| matches!(a, DrmAction::DestroyFramebuffer { fb: 9 }));
    let dumb = position(&dev.calls, |a| matches!(a, DrmAction::DestroyDumb { handle: 5 }));
    assert_eq!(fb.len(), 1);
    assert_eq!(dumb.len(), 1);
    assert!(fb[0] < dumb[0]);
    assert_eq!(dev.calls.len(), dumb[0] + 2);
    assert_eq!(dev.calls.last(), Some(&DrmAction::Close { error: None }));
    // a closed session asks for nothing more
    assert_eq!(s.step(DrmEvent::Shutdown), DrmAction::Ignore);
    assert_eq!(s.step(DrmEvent::Released), DrmAction::Ignore);
}

#[test]
fn rejected_flip_is_fatal_and_still_releases() {
    let cs = vec![connector(3, true, vec![mode(8, 8)], Some(2), vec![2])];
    let (mut s, first) = DrmSession::start(&cs, 16).unwrap();
    let mut dev = MockDevice { calls: Vec::new(), reject_flip: true };
    drive(&mut s, &mut dev, first);
    let flip = s.step(DrmEvent::FrameDrawn);
    assert_eq!(drive(&mut s, &mut dev, flip), DrmAction::Close { error: Some(KmsError::PresentFailed) });
    let fb = position(&dev.calls, |a| matches!(a, DrmAction::DestroyFramebuffer { .. }));
    let dumb = position(&dev.calls, |a| matches!(a, DrmAction::DestroyDumb { .. }));
    assert_eq!((fb.len(), dumb.len()), (1, 1));
    assert!(fb[0] < dumb[0]);
}

#[test]
fn flip_timeout_is_fatal() {
    let cs = vec![connector(3, true, vec![mode(8, 8)], Some(2), vec![2])];
    let (mut s, first) = DrmSession::start(&cs, 16).unwrap();
    let mut dev = MockDevice { calls: Vec::new(), reject_flip: false };
    drive(&mut s, &mut dev, first);
    assert_eq!(s.step(DrmEvent::FrameDrawn), DrmAction::PageFlip { crtc: 42, fb: 9 });
    assert_eq!(s.step(DrmEvent::FlipQueued), DrmAction::AwaitFlip { timeout_ms: 16 });
    assert_eq!(s.step(DrmEvent::TimedOut), DrmAction::DestroyFramebuffer { fb: 9 });
    assert_eq!(s.step(DrmEvent::Released), DrmAction::DestroyDumb { handle: 5 });
    assert_eq!(s.step(DrmEvent::Released), DrmAction::Close { error: Some(KmsError::PresentFailed) });
}

#[test]
fn setup_failures_release_what_was_created() {
    let cs = vec![connector(3, true, vec![mode(8, 8)], Some(2), vec![2])];
    let (mut s, first) = DrmSession::start(&cs, 16).unwrap();
    assert_eq!(first, DrmAction::QueryEncoder { encoder: 2 });
    assert_eq!(s.step(DrmEvent::CrtcResolved(Some(1))), DrmAction::CreateDumb { width: 8, height: 8, bpp: 32 });
    let d = DumbBuffer { handle: 4, pitch: 32, size: 256 };
    assert_eq!(s.step(DrmEvent::DumbCreated(d)), DrmAction::AddFramebuffer { dumb: 4, depth: 24, bpp: 32 });
    // registering the framebuffer is refused: only the dumb buffer is released
    assert_eq!(s.step(DrmEvent::Rejected), DrmAction::DestroyDumb { handle: 4 });
    assert_eq!(s.step(DrmEvent::Released), DrmAction::Close { error: Some(KmsError::SetupRejected) });

    let (mut s, _) = DrmSession::start(&cs, 16).unwrap();
    assert_eq!(s.step(DrmEvent::CrtcResolved(None)), DrmAction::Close { error: Some(KmsError::NoCrtc) });
}

#[test]
fn start_fails_without_a_connected_display() {
    let cs = vec![connector(3, false, vec![mode(8, 8)], Some(2), vec![2])];
    assert_eq!(DrmSession::start(&cs, 16).err(), Some(KmsError::NoConnectedConnector));
}

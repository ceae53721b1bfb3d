use vstd::prelude::*;

verus! {

/// A display mode advertised by a connector.
#[derive(Clone, Copy, Debug, PartialEq, Eq, Structural)]
pub struct DisplayMode {
    pub width: u16,
    pub height: u16,
    pub refresh: u32,
}

/// What a connector reported when it was queried.
#[derive(Debug)]
pub struct ConnectorInfo {
    pub handle: u32,
    pub connected: bool,
    pub modes: Vec<DisplayMode>,
    pub current_encoder: Option<u32>,
    pub encoders: Vec<u32>,
}

/// Why a display could not be brought up, or could no longer be presented to.
#[derive(Clone, Copy, Debug, PartialEq, Eq, Structural)]
pub enum KmsError {
    NoConnectedConnector,
    NoMode,
    NoEncoder,
    NoCrtc,
    SetupRejected,
    PresentFailed,
}

/// The connector, mode and encoder chosen to drive the display.
#[derive(Clone, Copy, Debug, PartialEq, Eq, Structural)]
pub struct OutputChoice {
    pub connector: u32,
    pub mode: DisplayMode,
    pub encoder: u32,
}

/// Index of the first connected connector of `cs`, if any.
pub open spec fn first_connected(cs: Seq<ConnectorInfo>) -> Option<int>
    decreases cs.len(),
{
    if cs.len() == 0 {
        None
    } else if cs[0].connected {
        Some(0)
    } else {
        match first_connected(cs.drop_first()) {
            Some(i) => Some(i + 1),
            None => None,
        }
    }
}

/// The output that the connector list `cs` leads to: the first connected
/// connector, its first mode, and its current encoder or else its first one.
pub open spec fn chosen_output(cs: Seq<ConnectorInfo>) -> Result<OutputChoice, KmsError> {
    match first_connected(cs) {
        None => Err(KmsError::NoConnectedConnector),
        Some(i) => {
            let c = cs[i];
            if c.modes@.len() == 0 {
                Err(KmsError::NoMode)
            } else if c.current_encoder is None && c.encoders@.len() == 0 {
                Err(KmsError::NoEncoder)
            } else {
                Ok(
                    OutputChoice {
                        connector: c.handle,
                        mode: c.modes@[0],
                        encoder: match c.current_encoder {
                            Some(e) => e,
                            None => c.encoders@[0],
                        },
                    },
                )
            }
        },
    }
}

proof fn lemma_first_connected(cs: Seq<ConnectorInfo>, i: int)
    requires
        0 <= i <= cs.len(),
        forall|k: int| 0 <= k < i ==> !(#[trigger] cs[k]).connected,
    ensures
        i < cs.len() && cs[i].connected ==> first_connected(cs) == Some(i),
        i == cs.len() ==> first_connected(cs) is None,
    decreases i,
{
    if i > 0 {
        let t = cs.drop_first();
        assert forall|k: int| 0 <= k < i - 1 implies !(#[trigger] t[k]).connected by {
            assert(t[k] == cs[k + 1]);
        }
        lemma_first_connected(t, i - 1);
    }
}

/// Chooses the output to drive: the first connected connector in enumeration
/// order, that connector's first advertised mode, and its current encoder or
/// else its first advertised one.
pub fn select_output(connectors: &Vec<ConnectorInfo>) -> (r: Result<OutputChoice, KmsError>)
    ensures
        r == chosen_output(connectors@),
{
    let mut i: usize = 0;
    while i < connectors.len()
        invariant
            i <= connectors@.len(),
            forall|k: int| 0 <= k < i ==> !(#[trigger] connectors@[k]).connected,
        decreases connectors@.len() - i,
    {
        if connectors[i].connected {
            proof {
                lemma_first_connected(connectors@, i as int);
            }
            let c = &connectors[i];
            if c.modes.len() == 0 {
                return Err(KmsError::NoMode);
            }
            let encoder = match c.current_encoder {
                Some(e) => e,
                None => {
                    if c.encoders.len() == 0 {
                        return Err(KmsError::NoEncoder);
                    }
                    c.encoders[0]
                },
            };
            return Ok(OutputChoice { connector: c.handle, mode: c.modes[0], encoder });
        }
        i = i + 1;
    }
    proof {
        lemma_first_connected(connectors@, i as int);
    }
    Err(KmsError::NoConnectedConnector)
}

/// A dumb buffer as the kernel reported it: its handle, the byte distance
/// between rows, and its size in bytes.
#[derive(Clone, Copy, Debug, PartialEq, Eq, Structural)]
pub struct DumbBuffer {
    pub handle: u32,
    pub pitch: u32,
    pub size: u64,
}

/// Where a display session stands.
#[derive(Clone, Copy, Debug, PartialEq, Eq, Structural)]
pub enum Phase {
    /// The encoder is being asked for its CRTC.
    ResolvingCrtc,
    /// A dumb buffer has been requested.
    Allocating,
    /// The dumb buffer is being registered as a framebuffer object.
    Registering,
    /// The CRTC is being bound to the framebuffer, connector and mode.
    Binding,
    /// The display is live and the buffer may be drawn into.
    Ready,
    /// A page flip has been requested.
    Flipping,
    /// Waiting for the flip-completion event.
    AwaitingFlip,
    /// The framebuffer object is being destroyed.
    ReleasingFramebuffer,
    /// The dumb buffer is being destroyed.
    ReleasingDumb,
    /// Everything is released; the device may be closed.
    Closed,
}

/// What the session asks of the device next.
#[derive(Clone, Copy, Debug, PartialEq, Eq, Structural)]
pub enum DrmAction {
    QueryEncoder { encoder: u32 },
    CreateDumb { width: u32, height: u32, bpp: u32 },
    AddFramebuffer { dumb: u32, depth: u32, bpp: u32 },
    SetCrtc { crtc: u32, fb: u32, connector: u32, mode: DisplayMode },
    /// The buffer may be drawn into; present when the frame is done.
    Draw,
    PageFlip { crtc: u32, fb: u32 },
    /// Block on the device until a flip completes or `timeout_ms` elapses.
    AwaitFlip { timeout_ms: u32 },
    DestroyFramebuffer { fb: u32 },
    DestroyDumb { handle: u32 },
    /// Close the device; `error` is the fatal condition that ended the session.
    Close { error: Option<KmsError> },
    /// The event did not apply to this phase; nothing to do.
    Ignore,
}

/// What the device answered.
#[derive(Clone, Copy, Debug, PartialEq, Eq, Structural)]
pub enum DrmEvent {
    CrtcResolved(Option<u32>),
    DumbCreated(DumbBuffer),
    FramebufferAdded(u32),
    CrtcSet,
    FrameDrawn,
    FlipQueued,
    FlipCompleted,
    /// The last request was refused, or the wait for its event failed.
    Rejected,
    TimedOut,
    Shutdown,
    /// The last destroy request has been made, whatever its outcome.
    Released,
}

/// The resource negotiation of one display, from the chosen output to the
/// release of every kernel object it created.
#[derive(Clone, Copy, Debug, PartialEq, Eq, Structural)]
pub struct DrmSession {
    pub phase: Phase,
    pub output: OutputChoice,
    pub crtc: u32,
    pub dumb: Option<DumbBuffer>,
    pub fb: Option<u32>,
    pub error: Option<KmsError>,
    pub flip_timeout_ms: u32,
}

/// Release the dumb buffer if it is live, else close.
pub open spec fn release_dumb(s: DrmSession) -> (DrmSession, DrmAction) {
    match s.dumb {
        Some(d) => (DrmSession { phase: Phase::ReleasingDumb, ..s }, DrmAction::DestroyDumb { handle: d.handle }),
        None => (DrmSession { phase: Phase::Closed, ..s }, DrmAction::Close { error: s.error }),
    }
}

/// Release the live resources in reverse order of creation: the framebuffer
/// object first, then the dumb buffer, then close. The first fatal condition
/// is kept.
pub open spec fn begin_teardown(s: DrmSession, error: Option<KmsError>) -> (DrmSession, DrmAction) {
    let s1 = DrmSession {
        error: if s.error is Some {
            s.error
        } else {
            error
        },
        ..s
    };
    match s.fb {
        Some(fb) => (DrmSession { phase: Phase::ReleasingFramebuffer, ..s1 }, DrmAction::DestroyFramebuffer { fb }),
        None => release_dumb(s1),
    }
}

/// The session's transition on `e`: the next state and what to ask of the
/// device.
pub open spec fn next(s: DrmSession, e: DrmEvent) -> (DrmSession, DrmAction) {
    let ignore = (s, DrmAction::Ignore);
    match s.phase {
        Phase::ResolvingCrtc => match e {
            DrmEvent::CrtcResolved(Some(crtc)) => (
                DrmSession { phase: Phase::Allocating, crtc, ..s },
                DrmAction::CreateDumb { width: s.output.mode.width as u32, height: s.output.mode.height as u32, bpp: 32 },
            ),
            DrmEvent::CrtcResolved(None) => begin_teardown(s, Some(KmsError::NoCrtc)),
            DrmEvent::Rejected => begin_teardown(s, Some(KmsError::SetupRejected)),
            DrmEvent::Shutdown => begin_teardown(s, None),
            _ => ignore,
        },
        Phase::Allocating => match e {
            DrmEvent::DumbCreated(d) => (
                DrmSession { phase: Phase::Registering, dumb: Some(d), ..s },
                DrmAction::AddFramebuffer { dumb: d.handle, depth: 24, bpp: 32 },
            ),
            DrmEvent::Rejected => begin_teardown(s, Some(KmsError::SetupRejected)),
            DrmEvent::Shutdown => begin_teardown(s, None),
            _ => ignore,
        },
        Phase::Registering => match e {
            DrmEvent::FramebufferAdded(fb) => (
                DrmSession { phase: Phase::Binding, fb: Some(fb), ..s },
                DrmAction::SetCrtc { crtc: s.crtc, fb, connector: s.output.connector, mode: s.output.mode },
            ),
            DrmEvent::Rejected => begin_teardown(s, Some(KmsError::SetupRejected)),
            DrmEvent::Shutdown => begin_teardown(s, None),
            _ => ignore,
        },
        Phase::Binding => match e {
            DrmEvent::CrtcSet => (DrmSession { phase: Phase::Ready, ..s }, DrmAction::Draw),
            DrmEvent::Rejected => begin_teardown(s, Some(KmsError::SetupRejected)),
            DrmEvent::Shutdown => begin_teardown(s, None),
            _ => ignore,
        },
        Phase::Ready => match e {
            DrmEvent::FrameDrawn => match s.fb {
                Some(fb) => (DrmSession { phase: Phase::Flipping, ..s }, DrmAction::PageFlip { crtc: s.crtc, fb }),
                None => ignore,
            },
            DrmEvent::Shutdown => begin_teardown(s, None),
            _ => ignore,
        },
        Phase::Flipping => match e {
            DrmEvent::FlipQueued => (
                DrmSession { phase: Phase::AwaitingFlip, ..s },
                DrmAction::AwaitFlip { timeout_ms: s.flip_timeout_ms },
            ),
            DrmEvent::Rejected => begin_teardown(s, Some(KmsError::PresentFailed)),
            _ => ignore,
        },
        Phase::AwaitingFlip => match e {
            DrmEvent::FlipCompleted => (DrmSession { phase: Phase::Ready, ..s }, DrmAction::Draw),
            DrmEvent::Rejected | DrmEvent::TimedOut => begin_teardown(s, Some(KmsError::PresentFailed)),
            _ => ignore,
        },
        Phase::ReleasingFramebuffer => match e {
            DrmEvent::Released | DrmEvent::Rejected => release_dumb(DrmSession { fb: None, ..s }),
            _ => ignore,
        },
        Phase::ReleasingDumb => match e {
            DrmEvent::Released | DrmEvent::Rejected => (
                DrmSession { phase: Phase::Closed, dumb: None, ..s },
                DrmAction::Close { error: s.error },
            ),
            _ => ignore,
        },
        Phase::Closed => ignore,
    }
}

/// The actions that the events `evs` draw from the session `s`, in order.
pub open spec fn run(s: DrmSession, evs: Seq<DrmEvent>) -> Seq<DrmAction>
    decreases evs.len(),
{
    if evs.len() == 0 {
        Seq::empty()
    } else {
        let (s1, a) = next(s, evs[0]);
        seq![a] + run(s1, evs.drop_first())
    }
}

/// The session after the events `evs`.
pub open spec fn after(s: DrmSession, evs: Seq<DrmEvent>) -> DrmSession
    decreases evs.len(),
{
    if evs.len() == 0 {
        s
    } else {
        after(next(s, evs[0]).0, evs.drop_first())
    }
}

/// How far teardown has gone: 0 before it, 1 while the framebuffer object is
/// released, 2 once the dumb buffer is being released or the session is closed.
pub open spec fn stage(p: Phase) -> int {
    if p is ReleasingFramebuffer {
        1
    } else if p is ReleasingDumb || p is Closed {
        2
    } else {
        0
    }
}

proof fn lemma_next_stage(s: DrmSession, e: DrmEvent)
    ensures
        ({
            let (s1, a) = next(s, e);
            &&& stage(s1.phase) >= stage(s.phase)
            &&& a is DestroyFramebuffer ==> stage(s.phase) == 0 && s1.phase is ReleasingFramebuffer
            &&& a is DestroyDumb ==> stage(s.phase) <= 1 && s1.phase is ReleasingDumb
            &&& stage(s.phase) == 0 && s.fb is Some && !(a is DestroyFramebuffer) ==> stage(s1.phase) == 0 && s1.fb is Some
            &&& stage(s.phase) <= 1 && s.dumb is Some && !(a is DestroyDumb) ==> stage(s1.phase) <= 1 && s1.dumb is Some
        }),
{
}

/// A session, whatever the device answers, asks to destroy the framebuffer
/// object at most once and the dumb buffer at most once, and never destroys the
/// framebuffer object after the dumb buffer. Once teardown has begun it asks
/// for no destroy that it has already asked for.
pub proof fn lemma_teardown_order(s: DrmSession, evs: Seq<DrmEvent>)
    ensures
        ({
            let acts = run(s, evs);
            &&& forall|i: int, j: int|
                0 <= i < acts.len() && 0 <= j < acts.len() && acts[i] is DestroyFramebuffer && acts[j] is DestroyFramebuffer ==> i == j
            &&& forall|i: int, j: int|
                0 <= i < acts.len() && 0 <= j < acts.len() && acts[i] is DestroyDumb && acts[j] is DestroyDumb ==> i == j
            &&& forall|i: int, j: int|
                0 <= i < acts.len() && 0 <= j < acts.len() && acts[i] is DestroyDumb && acts[j] is DestroyFramebuffer ==> j < i
            &&& stage(s.phase) >= 1 ==> forall|i: int| 0 <= i < acts.len() ==> !(acts[i] is DestroyFramebuffer)
            &&& stage(s.phase) == 2 ==> forall|i: int| 0 <= i < acts.len() ==> !(acts[i] is DestroyDumb)
        }),
    decreases evs.len(),
{
    if evs.len() > 0 {
        let (s1, a) = next(s, evs[0]);
        let rest = run(s1, evs.drop_first());
        lemma_next_stage(s, evs[0]);
        lemma_teardown_order(s1, evs.drop_first());
        let acts = run(s, evs);
        assert(acts == seq![a] + rest);
        assert forall|i: int| 0 < i < acts.len() implies acts[i] == rest[i - 1] by {}
        assert(acts[0] == a);
    }
}

/// A session whose framebuffer object and dumb buffer are live, and that the
/// device's answers `evs` bring to `Closed`, has asked to destroy each exactly
/// once, the framebuffer object first.
pub proof fn lemma_teardown_exactly_once(s: DrmSession, evs: Seq<DrmEvent>)
    requires
        stage(s.phase) == 0,
        s.fb is Some,
        s.dumb is Some,
        after(s, evs).phase is Closed,
    ensures
        ({
            let acts = run(s, evs);
            exists|i: int, j: int|
                #![trigger acts[i], acts[j]]
                0 <= i < j < acts.len() && acts[i] is DestroyFramebuffer && acts[j] is DestroyDumb && (forall|k: int|
                    0 <= k < acts.len() && (acts[k] is DestroyFramebuffer || acts[k] is DestroyDumb) ==> k == i || k == j)
        }),
{
    let acts = run(s, evs);
    lemma_destroys_reached(s, evs);
    lemma_teardown_order(s, evs);
    let i = choose|i: int| 0 <= i < acts.len() && acts[i] is DestroyFramebuffer;
    let j = choose|j: int| 0 <= j < acts.len() && acts[j] is DestroyDumb;
    assert(i < j);
}

/// A session keeps the output it was started with, and binds the CRTC to that
/// output's connector and mode only: with `DrmSession::start`, to the first
/// connected connector and its first mode.
pub proof fn lemma_binds_chosen_output(s: DrmSession, evs: Seq<DrmEvent>)
    ensures
        after(s, evs).output == s.output,
        forall|i: int|
            0 <= i < run(s, evs).len() && (#[trigger] run(s, evs)[i]) is SetCrtc ==> run(s, evs)[i]->SetCrtc_connector
                == s.output.connector && run(s, evs)[i]->SetCrtc_mode == s.output.mode,
    decreases evs.len(),
{
    if evs.len() > 0 {
        let (s1, a) = next(s, evs[0]);
        lemma_binds_chosen_output(s1, evs.drop_first());
        let rest = run(s1, evs.drop_first());
        let acts = run(s, evs);
        assert(acts == seq![a] + rest);
        assert(s1.output == s.output);
        assert forall|i: int| 0 <= i < acts.len() && (#[trigger] acts[i]) is SetCrtc implies acts[i]->SetCrtc_connector
            == s.output.connector && acts[i]->SetCrtc_mode == s.output.mode by {
            if i > 0 {
                assert(acts[i] == rest[i - 1]);
            }
        }
    }
}

/// Whether the resources that a session holds before teardown agree with its
/// phase: a framebuffer object only over a dumb buffer, and a dumb buffer from
/// registration on.
pub open spec fn resources_consistent(s: DrmSession) -> bool {
    stage(s.phase) == 0 ==> {
        &&& s.phase is Registering ==> s.dumb is Some
        &&& s.fb is Some ==> s.dumb is Some
    }
}

proof fn lemma_no_bind_in_teardown(s: DrmSession, evs: Seq<DrmEvent>)
    requires
        stage(s.phase) >= 1,
    ensures
        forall|i: int| 0 <= i < run(s, evs).len() ==> !(#[trigger] run(s, evs)[i] is SetCrtc),
    decreases evs.len(),
{
    if evs.len() > 0 {
        let (s1, a) = next(s, evs[0]);
        lemma_next_stage(s, evs[0]);
        lemma_no_bind_in_teardown(s1, evs.drop_first());
        let rest = run(s1, evs.drop_first());
        let acts = run(s, evs);
        assert(acts == seq![a] + rest);
        assert forall|i: int| 0 <= i < acts.len() implies !(#[trigger] acts[i] is SetCrtc) by {
            if i > 0 {
                assert(acts[i] == rest[i - 1]);
            }
        }
    }
}

/// A session that starts with no kernel objects, binds its CRTC, and is then
/// brought to `Closed` by the device's answers `evs`, has asked to destroy the
/// framebuffer object exactly once and the dumb buffer exactly once, the
/// framebuffer object first.
pub proof fn lemma_session_releases_once(s: DrmSession, evs: Seq<DrmEvent>)
    requires
        stage(s.phase) == 0,
        resources_consistent(s),
        after(s, evs).phase is Closed,
        exists|k: int| 0 <= k < run(s, evs).len() && (#[trigger] run(s, evs)[k]) is SetCrtc,
    ensures
        ({
            let acts = run(s, evs);
            exists|i: int, j: int|
                #![trigger acts[i], acts[j]]
                0 <= i < j < acts.len() && acts[i] is DestroyFramebuffer && acts[j] is DestroyDumb && (forall|k: int|
                    0 <= k < acts.len() && (acts[k] is DestroyFramebuffer || acts[k] is DestroyDumb) ==> k == i || k == j)
        }),
    decreases evs.len(),
{
    let acts = run(s, evs);
    let k = choose|k: int| 0 <= k < acts.len() && (#[trigger] acts[k]) is SetCrtc;
    let (s1, a) = next(s, evs[0]);
    let rest = run(s1, evs.drop_first());
    assert(acts == seq![a] + rest);
    assert(acts[0] == a);
    assert forall|m: int| 0 < m < acts.len() implies acts[m] == rest[m - 1] by {}
    lemma_next_stage(s, evs[0]);
    if stage(s1.phase) >= 1 {
        lemma_no_bind_in_teardown(s1, evs.drop_first());
        if k > 0 {
            assert(rest[k - 1] is SetCrtc);
        }
        assert(false);
    }
    assert(resources_consistent(s1));
    if a is SetCrtc {
        lemma_teardown_exactly_once(s1, evs.drop_first());
    } else {
        assert(rest[k - 1] is SetCrtc);
        lemma_session_releases_once(s1, evs.drop_first());
    }
    let (i, j) = choose|i: int, j: int|
        #![trigger rest[i], rest[j]]
        0 <= i < j < rest.len() && rest[i] is DestroyFramebuffer && rest[j] is DestroyDumb && (forall|k: int|
            0 <= k < rest.len() && (rest[k] is DestroyFramebuffer || rest[k] is DestroyDumb) ==> k == i || k == j);
    assert(acts[i + 1] == rest[i]);
    assert(acts[j + 1] == rest[j]);
    assert forall|m: int| 0 <= m < acts.len() && (acts[m] is DestroyFramebuffer || acts[m] is DestroyDumb) implies m == i + 1 || m == j + 1 by {
        if m > 0 {
            assert(acts[m] == rest[m - 1]);
        }
    }
}

proof fn lemma_destroys_reached(s: DrmSession, evs: Seq<DrmEvent>)
    requires
        after(s, evs).phase is Closed,
    ensures
        stage(s.phase) == 0 && s.fb is Some ==> exists|i: int| 0 <= i < run(s, evs).len() && run(s, evs)[i] is DestroyFramebuffer,
        stage(s.phase) <= 1 && s.dumb is Some ==> exists|i: int| 0 <= i < run(s, evs).len() && run(s, evs)[i] is DestroyDumb,
    decreases evs.len(),
{
    if evs.len() > 0 {
        let (s1, a) = next(s, evs[0]);
        lemma_next_stage(s, evs[0]);
        lemma_destroys_reached(s1, evs.drop_first());
        let rest = run(s1, evs.drop_first());
        let acts = run(s, evs);
        assert(acts == seq![a] + rest);
        assert(acts[0] == a);
        if stage(s.phase) == 0 && s.fb is Some && !(a is DestroyFramebuffer) {
            let k = choose|k: int| 0 <= k < rest.len() && rest[k] is DestroyFramebuffer;
            assert(acts[k + 1] == rest[k]);
        }
        if stage(s.phase) <= 1 && s.dumb is Some && !(a is DestroyDumb) {
            let k = choose|k: int| 0 <= k < rest.len() && rest[k] is DestroyDumb;
            assert(acts[k + 1] == rest[k]);
        }
    }
}

fn dumb_release(s: DrmSession) -> (r: (DrmSession, DrmAction))
    ensures
        r == release_dumb(s),
{
    match s.dumb {
        Some(d) => (DrmSession { phase: Phase::ReleasingDumb, ..s }, DrmAction::DestroyDumb { handle: d.handle }),
        None => (DrmSession { phase: Phase::Closed, ..s }, DrmAction::Close { error: s.error }),
    }
}

fn teardown(s: DrmSession, error: Option<KmsError>) -> (r: (DrmSession, DrmAction))
    ensures
        r == begin_teardown(s, error),
{
    let error = if s.error.is_some() { s.error } else { error };
    let s1 = DrmSession { error, ..s };
    match s.fb {
        Some(fb) => (DrmSession { phase: Phase::ReleasingFramebuffer, ..s1 }, DrmAction::DestroyFramebuffer { fb }),
        None => dumb_release(s1),
    }
}

impl DrmSession {
    /// Starts negotiating the display for the connectors `connectors`: on a
    /// usable output, asks for the CRTC of its encoder; otherwise closes with
    /// the reason.
    pub fn start(connectors: &Vec<ConnectorInfo>, flip_timeout_ms: u32) -> (r: Result<(DrmSession, DrmAction), KmsError>)
        ensures
            match chosen_output(connectors@) {
                Ok(o) => r == Ok::<(DrmSession, DrmAction), KmsError>((
                    DrmSession { phase: Phase::ResolvingCrtc, output: o, crtc: 0, dumb: None, fb: None, error: None, flip_timeout_ms },
                    DrmAction::QueryEncoder { encoder: o.encoder },
                )),
                Err(e) => r == Err::<(DrmSession, DrmAction), KmsError>(e),
            },
    {
        let o = select_output(connectors)?;
        Ok((
            DrmSession { phase: Phase::ResolvingCrtc, output: o, crtc: 0, dumb: None, fb: None, error: None, flip_timeout_ms },
            DrmAction::QueryEncoder { encoder: o.encoder },
        ))
    }

    /// Advances the session on the device's answer `e` and returns what to ask
    /// of the device next.
    pub fn step(&mut self, e: DrmEvent) -> (r: DrmAction)
        ensures
            (*final(self), r) == next(*old(self), e),
    {
        let s = *self;
        let (s1, a) = match s.phase {
            Phase::ResolvingCrtc => match e {
                DrmEvent::CrtcResolved(Some(crtc)) => (
                    DrmSession { phase: Phase::Allocating, crtc, ..s },
                    DrmAction::CreateDumb { width: s.output.mode.width as u32, height: s.output.mode.height as u32, bpp: 32 },
                ),
                DrmEvent::CrtcResolved(None) => teardown(s, Some(KmsError::NoCrtc)),
                DrmEvent::Rejected => teardown(s, Some(KmsError::SetupRejected)),
                DrmEvent::Shutdown => teardown(s, None),
                _ => (s, DrmAction::Ignore),
            },
            Phase::Allocating => match e {
                DrmEvent::DumbCreated(d) => (
                    DrmSession { phase: Phase::Registering, dumb: Some(d), ..s },
                    DrmAction::AddFramebuffer { dumb: d.handle, depth: 24, bpp: 32 },
                ),
                DrmEvent::Rejected => teardown(s, Some(KmsError::SetupRejected)),
                DrmEvent::Shutdown => teardown(s, None),
                _ => (s, DrmAction::Ignore),
            },
            Phase::Registering => match e {
                DrmEvent::FramebufferAdded(fb) => (
                    DrmSession { phase: Phase::Binding, fb: Some(fb), ..s },
                    DrmAction::SetCrtc { crtc: s.crtc, fb, connector: s.output.connector, mode: s.output.mode },
                ),
                DrmEvent::Rejected => teardown(s, Some(KmsError::SetupRejected)),
                DrmEvent::Shutdown => teardown(s, None),
                _ => (s, DrmAction::Ignore),
            },
            Phase::Binding => match e {
                DrmEvent::CrtcSet => (DrmSession { phase: Phase::Ready, ..s }, DrmAction::Draw),
                DrmEvent::Rejected => teardown(s, Some(KmsError::SetupRejected)),
                DrmEvent::Shutdown => teardown(s, None),
                _ => (s, DrmAction::Ignore),
            },
            Phase::Ready => match e {
                DrmEvent::FrameDrawn => match s.fb {
                    Some(fb) => (DrmSession { phase: Phase::Flipping, ..s }, DrmAction::PageFlip { crtc: s.crtc, fb }),
                    None => (s, DrmAction::Ignore),
                },
                DrmEvent::Shutdown => teardown(s, None),
                _ => (s, DrmAction::Ignore),
            },
            Phase::Flipping => match e {
                DrmEvent::FlipQueued => (
                    DrmSession { phase: Phase::AwaitingFlip, ..s },
                    DrmAction::AwaitFlip { timeout_ms: s.flip_timeout_ms },
                ),
                DrmEvent::Rejected => teardown(s, Some(KmsError::PresentFailed)),
                _ => (s, DrmAction::Ignore),
            },
            Phase::AwaitingFlip => match e {
                DrmEvent::FlipCompleted => (DrmSession { phase: Phase::Ready, ..s }, DrmAction::Draw),
                DrmEvent::Rejected | DrmEvent::TimedOut => teardown(s, Some(KmsError::PresentFailed)),
                _ => (s, DrmAction::Ignore),
            },
            Phase::ReleasingFramebuffer => match e {
                DrmEvent::Released | DrmEvent::Rejected => dumb_release(DrmSession { fb: None, ..s }),
                _ => (s, DrmAction::Ignore),
            },
            Phase::ReleasingDumb => match e {
                DrmEvent::Released | DrmEvent::Rejected => (
                    DrmSession { phase: Phase::Closed, dumb: None, ..s },
                    DrmAction::Close { error: s.error },
                ),
                _ => (s, DrmAction::Ignore),
            },
            Phase::Closed => (s, DrmAction::Ignore),
        };
        *self = s1;
        a
    }
}

} // verus!

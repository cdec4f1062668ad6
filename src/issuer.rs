//! Issuance of stamps with a hardware signing device.
//!
//! One issuance runs through device discovery, opening a session, reading the
//! device's identity, unlocking it with a PIN, obtaining a signer, building
//! the signed envelope and armoring it. The steps that touch the device are
//! done by the caller; `Issuance` decides, from each step's result, what comes
//! next. Any failure ends the request with an error and no envelope, and a
//! session that was opened is always released.
//!
//! The device serves one request at a time: `DeviceGate` hands it to one
//! holder and queues the others in order of arrival.
use vstd::prelude::*;

verus! {

/// Where an issuance stands.
#[derive(Clone, Copy, Debug, PartialEq, Eq, Structural)]
pub enum Stage {
    DeviceDiscovery,
    SessionOpen,
    Identify,
    Unlock,
    ObtainSigner,
    BuildEnvelope,
    Armor,
    /// The request has ended, with an envelope or an error.
    Finished,
}

/// Why an issuance failed.
#[derive(Clone, Copy, Debug, PartialEq, Eq, Structural)]
pub enum IssueError {
    /// No signing device is present.
    NoDevice,
    /// The device could not be opened, or its identity not read.
    Session,
    /// The PIN was refused, or the device is locked.
    Auth,
    /// The device asks for interactive confirmation, which is not supported.
    InteractionRequired,
    /// No signer could be had from the unlocked device.
    Signer,
    /// The payload could not be signed into an envelope.
    Envelope,
    /// The envelope could not be armored as text.
    Armor,
    /// A step reported something other than what the stage waits for.
    Unexpected,
}

/// How unlocking went.
#[derive(Clone, Copy, Debug, PartialEq, Eq, Structural)]
pub enum UnlockResult {
    Unlocked,
    Refused,
    NeedsInteraction,
}

/// The result of the step that the caller last performed.
#[derive(Debug)]
pub enum Event {
    /// This many signing devices are present.
    DevicesListed(usize),
    /// Opening an exclusive session succeeded or failed.
    SessionOpened(bool),
    /// Reading the device's key identifier succeeded or failed.
    Identified(bool),
    Unlock(UnlockResult),
    /// Obtaining a signer from the unlocked session succeeded or failed.
    SignerObtained(bool),
    /// Signing the payload `{hash, now}` into an envelope succeeded or failed.
    EnvelopeBuilt(bool),
    /// The armored envelope, where armoring succeeded.
    Armored(Option<String>),
}

/// What the caller is to do next.
#[derive(Debug)]
pub enum Action {
    ListDevices,
    OpenSession,
    ReadIdentity,
    SubmitPin,
    ObtainSigner,
    /// Sign the payload with the current time into an envelope.
    BuildEnvelope,
    ArmorEnvelope,
    /// End the request: release the session where it says so, and answer
    /// with the envelope or the error.
    Finish { release_session: bool, result: Result<String, IssueError> },
    /// The request has already ended; nothing is to be done.
    Nothing,
}

/// An event as a mathematical value.
pub enum EventModel {
    DevicesListed(usize),
    SessionOpened(bool),
    Identified(bool),
    Unlock(UnlockResult),
    SignerObtained(bool),
    EnvelopeBuilt(bool),
    Armored(Option<Seq<char>>),
}

/// An action as a mathematical value.
pub enum ActionModel {
    ListDevices,
    OpenSession,
    ReadIdentity,
    SubmitPin,
    ObtainSigner,
    BuildEnvelope,
    ArmorEnvelope,
    Finish { release_session: bool, result: Result<Seq<char>, IssueError> },
    Nothing,
}

impl View for Event {
    type V = EventModel;

    open spec fn view(&self) -> EventModel {
        match self {
            Event::DevicesListed(n) => EventModel::DevicesListed(*n),
            Event::SessionOpened(b) => EventModel::SessionOpened(*b),
            Event::Identified(b) => EventModel::Identified(*b),
            Event::Unlock(u) => EventModel::Unlock(*u),
            Event::SignerObtained(b) => EventModel::SignerObtained(*b),
            Event::EnvelopeBuilt(b) => EventModel::EnvelopeBuilt(*b),
            Event::Armored(t) => EventModel::Armored(
                match t {
                    Some(s) => Some(s@),
                    None => None,
                },
            ),
        }
    }
}

impl View for Action {
    type V = ActionModel;

    open spec fn view(&self) -> ActionModel {
        match self {
            Action::ListDevices => ActionModel::ListDevices,
            Action::OpenSession => ActionModel::OpenSession,
            Action::ReadIdentity => ActionModel::ReadIdentity,
            Action::SubmitPin => ActionModel::SubmitPin,
            Action::ObtainSigner => ActionModel::ObtainSigner,
            Action::BuildEnvelope => ActionModel::BuildEnvelope,
            Action::ArmorEnvelope => ActionModel::ArmorEnvelope,
            Action::Finish { release_session, result } => ActionModel::Finish {
                release_session: *release_session,
                result: match result {
                    Ok(s) => Ok(s@),
                    Err(e) => Err(*e),
                },
            },
            Action::Nothing => ActionModel::Nothing,
        }
    }
}

/// The state of one issuance request.
#[derive(Clone, Copy, Debug, PartialEq, Eq, Structural)]
pub struct Issuance {
    pub stage: Stage,
    /// Whether a session on the device is open.
    pub session_open: bool,
}

/// A session is open exactly in the stages between opening it and the end.
pub open spec fn issuance_wf(s: Issuance) -> bool {
    s.session_open <==> match s.stage {
        Stage::Identify | Stage::Unlock | Stage::ObtainSigner | Stage::BuildEnvelope | Stage::Armor => true,
        _ => false,
    }
}

/// Ends the request with `result`, releasing the session where one is open.
pub open spec fn finish(s: Issuance, result: Result<Seq<char>, IssueError>) -> (Issuance, ActionModel) {
    (
        Issuance { stage: Stage::Finished, session_open: false },
        ActionModel::Finish { release_session: s.session_open, result },
    )
}

/// Ends the request with the error `e`.
pub open spec fn fail(s: Issuance, e: IssueError) -> (Issuance, ActionModel) {
    finish(s, Err(e))
}

/// Moves on to `stage` and asks for `a`.
pub open spec fn goto(stage: Stage, session_open: bool, a: ActionModel) -> (Issuance, ActionModel) {
    (Issuance { stage, session_open }, a)
}

/// The next state and action after `e` in state `s`.
pub open spec fn step_model(s: Issuance, e: EventModel) -> (Issuance, ActionModel) {
    match (s.stage, e) {
        (Stage::Finished, _) => (s, ActionModel::Nothing),
        (Stage::DeviceDiscovery, EventModel::DevicesListed(n)) => if n == 0 {
            fail(s, IssueError::NoDevice)
        } else {
            goto(Stage::SessionOpen, false, ActionModel::OpenSession)
        },
        (Stage::SessionOpen, EventModel::SessionOpened(ok)) => if ok {
            goto(Stage::Identify, true, ActionModel::ReadIdentity)
        } else {
            fail(s, IssueError::Session)
        },
        (Stage::Identify, EventModel::Identified(ok)) => if ok {
            goto(Stage::Unlock, true, ActionModel::SubmitPin)
        } else {
            fail(s, IssueError::Session)
        },
        (Stage::Unlock, EventModel::Unlock(u)) => match u {
            UnlockResult::Unlocked => goto(Stage::ObtainSigner, true, ActionModel::ObtainSigner),
            UnlockResult::Refused => fail(s, IssueError::Auth),
            UnlockResult::NeedsInteraction => fail(s, IssueError::InteractionRequired),
        },
        (Stage::ObtainSigner, EventModel::SignerObtained(ok)) => if ok {
            goto(Stage::BuildEnvelope, true, ActionModel::BuildEnvelope)
        } else {
            fail(s, IssueError::Signer)
        },
        (Stage::BuildEnvelope, EventModel::EnvelopeBuilt(ok)) => if ok {
            goto(Stage::Armor, true, ActionModel::ArmorEnvelope)
        } else {
            fail(s, IssueError::Envelope)
        },
        (Stage::Armor, EventModel::Armored(t)) => match t {
            Some(text) => finish(s, Ok(text)),
            None => fail(s, IssueError::Armor),
        },
        _ => fail(s, IssueError::Unexpected),
    }
}

impl Issuance {
    /// A new request, and the first thing to do: list the devices.
    pub fn new() -> (r: (Issuance, Action))
        ensures
            r.0 == (Issuance { stage: Stage::DeviceDiscovery, session_open: false }),
            r.1@ == ActionModel::ListDevices,
            issuance_wf(r.0),
    {
        (Issuance { stage: Stage::DeviceDiscovery, session_open: false }, Action::ListDevices)
    }

    fn finish(&mut self, result: Result<String, IssueError>) -> (a: Action)
        ensures
            (*final(self), a@) == finish(
                *old(self),
                match result {
                    Ok(t) => Ok(t@),
                    Err(e) => Err(e),
                },
            ),
    {
        let release_session = self.session_open;
        self.stage = Stage::Finished;
        self.session_open = false;
        Action::Finish { release_session, result }
    }

    fn goto(&mut self, stage: Stage, session_open: bool, a: Action) -> (r: Action)
        ensures
            (*final(self), r@) == goto(stage, session_open, a@),
    {
        self.stage = stage;
        self.session_open = session_open;
        a
    }

    /// Takes the result of the last step and says what to do next.
    pub fn step(&mut self, e: Event) -> (a: Action)
        requires
            issuance_wf(*old(self)),
        ensures
            issuance_wf(*final(self)),
            (*final(self), a@) == step_model(*old(self), e@),
    {
        match (self.stage, e) {
            (Stage::Finished, _) => Action::Nothing,
            (Stage::DeviceDiscovery, Event::DevicesListed(n)) => if n == 0 {
                self.finish(Err(IssueError::NoDevice))
            } else {
                self.goto(Stage::SessionOpen, false, Action::OpenSession)
            },
            (Stage::SessionOpen, Event::SessionOpened(ok)) => if ok {
                self.goto(Stage::Identify, true, Action::ReadIdentity)
            } else {
                self.finish(Err(IssueError::Session))
            },
            (Stage::Identify, Event::Identified(ok)) => if ok {
                self.goto(Stage::Unlock, true, Action::SubmitPin)
            } else {
                self.finish(Err(IssueError::Session))
            },
            (Stage::Unlock, Event::Unlock(u)) => match u {
                UnlockResult::Unlocked => self.goto(Stage::ObtainSigner, true, Action::ObtainSigner),
                UnlockResult::Refused => self.finish(Err(IssueError::Auth)),
                UnlockResult::NeedsInteraction => self.finish(Err(IssueError::InteractionRequired)),
            },
            (Stage::ObtainSigner, Event::SignerObtained(ok)) => if ok {
                self.goto(Stage::BuildEnvelope, true, Action::BuildEnvelope)
            } else {
                self.finish(Err(IssueError::Signer))
            },
            (Stage::BuildEnvelope, Event::EnvelopeBuilt(ok)) => if ok {
                self.goto(Stage::Armor, true, Action::ArmorEnvelope)
            } else {
                self.finish(Err(IssueError::Envelope))
            },
            (Stage::Armor, Event::Armored(t)) => match t {
                Some(text) => self.finish(Ok(text)),
                None => self.finish(Err(IssueError::Armor)),
            },
            _ => self.finish(Err(IssueError::Unexpected)),
        }
    }
}

/// The states and actions of an issuance that starts in `s` and takes the
/// events `es` in order.
pub open spec fn run_model(s: Issuance, es: Seq<EventModel>) -> (Issuance, Seq<ActionModel>)
    decreases es.len(),
{
    if es.len() == 0 {
        (s, Seq::empty())
    } else {
        let (s1, a) = step_model(s, es[0]);
        let (s2, rest) = run_model(s1, es.drop_first());
        (s2, seq![a] + rest)
    }
}

/// Whatever an issuance is told, its state stays consistent; and when a step
/// ends it, the session is released exactly when one was open, and an
/// envelope is handed out only after armoring succeeded.
pub proof fn lemma_end_releases_session(s: Issuance, e: EventModel)
    requires
        issuance_wf(s),
        s.stage != Stage::Finished,
        step_model(s, e).0.stage == Stage::Finished,
    ensures
        issuance_wf(step_model(s, e).0),
        step_model(s, e).1 matches ActionModel::Finish { release_session, result }
            && release_session == s.session_open
            && (result is Ok ==> s.stage == Stage::Armor),
{
}

/// Who holds the signing device, and who waits for it, in order.
pub struct GateModel {
    pub holder: Option<u64>,
    pub queue: Seq<u64>,
}

/// The holder and queue once request `r` has asked for the device, and whether it got it.
pub open spec fn acquire_model(g: GateModel, r: u64) -> (GateModel, bool) {
    if g.holder is None {
        (GateModel { holder: Some(r), queue: g.queue }, true)
    } else {
        (GateModel { holder: g.holder, queue: g.queue.push(r) }, false)
    }
}

/// The holder and queue once request `r` has let go of the device: the first waiting
/// request, if any, holds it next. A request that does not hold the device
/// changes nothing.
pub open spec fn release_model(g: GateModel, r: u64) -> GateModel {
    if g.holder != Some(r) {
        g
    } else if g.queue.len() == 0 {
        GateModel { holder: None, queue: g.queue }
    } else {
        GateModel { holder: Some(g.queue[0]), queue: g.queue.drop_first() }
    }
}

/// Mutual exclusion on the signing device: at most one request holds it, and
/// the others wait in order of arrival.
pub struct DeviceGate {
    holder: Option<u64>,
    queue: Vec<u64>,
}

impl View for DeviceGate {
    type V = GateModel;

    closed spec fn view(&self) -> GateModel {
        GateModel { holder: self.holder, queue: self.queue@ }
    }
}

impl DeviceGate {
    /// A gate that nobody holds.
    pub fn new() -> (r: DeviceGate)
        ensures
            r@ == (GateModel { holder: None, queue: Seq::empty() }),
    {
        DeviceGate { holder: None, queue: Vec::new() }
    }

    /// Request `r` asks for the device. It holds it at once where nobody
    /// does; otherwise it waits behind the requests already waiting.
    pub fn acquire(&mut self, r: u64) -> (granted: bool)
        ensures
            (final(self)@, granted) == acquire_model(old(self)@, r),
    {
        if self.holder.is_none() {
            self.holder = Some(r);
            true
        } else {
            self.queue.push(r);
            false
        }
    }

    /// Request `r` lets go of the device; gives the request that holds it
    /// next, if any.
    pub fn release(&mut self, r: u64) -> (next: Option<u64>)
        ensures
            final(self)@ == release_model(old(self)@, r),
            next == final(self)@.holder,
    {
        if self.holder == Some(r) {
            if self.queue.len() == 0 {
                self.holder = None;
            } else {
                let n = self.queue.remove(0);
                self.holder = Some(n);
                assert(self.queue@ =~= old(self)@.queue.drop_first());
            }
        }
        self.holder
    }

    /// The request that holds the device.
    pub fn holder(&self) -> (r: Option<u64>)
        ensures
            r == self@.holder,
    {
        self.holder
    }
}

/// A request whose device steps all succeed: one device, an open session,
/// its identity, the PIN accepted, a signer, the envelope, its armor `t`.
pub open spec fn successful_steps(t: Seq<char>) -> Seq<EventModel> {
    seq![
        EventModel::DevicesListed(1),
        EventModel::SessionOpened(true),
        EventModel::Identified(true),
        EventModel::Unlock(UnlockResult::Unlocked),
        EventModel::SignerObtained(true),
        EventModel::EnvelopeBuilt(true),
        EventModel::Armored(Some(t)),
    ]
}

/// A request whose PIN is refused.
pub open spec fn refused_steps() -> Seq<EventModel> {
    seq![
        EventModel::DevicesListed(1),
        EventModel::SessionOpened(true),
        EventModel::Identified(true),
        EventModel::Unlock(UnlockResult::Refused),
    ]
}

/// A request that has just begun.
pub open spec fn fresh() -> Issuance {
    Issuance { stage: Stage::DeviceDiscovery, session_open: false }
}

proof fn lemma_run_step(s: Issuance, es: Seq<EventModel>)
    requires
        es.len() > 0,
    ensures
        run_model(s, es).0 == run_model(step_model(s, es[0]).0, es.drop_first()).0,
        run_model(s, es).1.last() == (if es.len() == 1 {
            step_model(s, es[0]).1
        } else {
            run_model(step_model(s, es[0]).0, es.drop_first()).1.last()
        }),
        run_model(s, es).1.len() == es.len(),
    decreases es.len(),
{
    let (s1, a) = step_model(s, es[0]);
    lemma_run_len(s1, es.drop_first());
}

proof fn lemma_run_len(s: Issuance, es: Seq<EventModel>)
    ensures
        run_model(s, es).1.len() == es.len(),
    decreases es.len(),
{
    if es.len() > 0 {
        lemma_run_len(step_model(s, es[0]).0, es.drop_first());
    }
}

/// The state of a request after the first `i` steps of a successful run.
pub open spec fn after_steps(i: int) -> Issuance {
    Issuance {
        stage: if i <= 0 {
            Stage::DeviceDiscovery
        } else if i == 1 {
            Stage::SessionOpen
        } else if i == 2 {
            Stage::Identify
        } else if i == 3 {
            Stage::Unlock
        } else if i == 4 {
            Stage::ObtainSigner
        } else if i == 5 {
            Stage::BuildEnvelope
        } else {
            Stage::Armor
        },
        session_open: i >= 2,
    }
}

/// From any point of a successful run, the remaining steps end the request
/// with the armored envelope and release the session.
proof fn lemma_run_successful(t: Seq<char>, i: int)
    requires
        0 <= i < 7,
    ensures
        run_model(after_steps(i), successful_steps(t).subrange(i, 7)).0.stage == Stage::Finished,
        run_model(after_steps(i), successful_steps(t).subrange(i, 7)).1.last() == (ActionModel::Finish {
            release_session: true,
            result: Ok(t),
        }),
    decreases 7 - i,
{
    let es = successful_steps(t).subrange(i, 7);
    lemma_run_step(after_steps(i), es);
    if i < 6 {
        assert(es.drop_first() =~= successful_steps(t).subrange(i + 1, 7));
        assert(step_model(after_steps(i), es[0]).0 == after_steps(i + 1));
        lemma_run_successful(t, i + 1);
    } else {
        assert(es.drop_first() =~= Seq::<EventModel>::empty());
    }
}

/// From any point of a run whose PIN is refused, the remaining steps end the
/// request with an authentication error and release the session.
proof fn lemma_run_refused(i: int)
    requires
        0 <= i < 4,
    ensures
        run_model(after_steps(i), refused_steps().subrange(i, 4)).0.stage == Stage::Finished,
        run_model(after_steps(i), refused_steps().subrange(i, 4)).1.last() == (ActionModel::Finish {
            release_session: true,
            result: Err(IssueError::Auth),
        }),
    decreases 4 - i,
{
    let es = refused_steps().subrange(i, 4);
    lemma_run_step(after_steps(i), es);
    if i < 3 {
        assert(es.drop_first() =~= refused_steps().subrange(i + 1, 4));
        assert(step_model(after_steps(i), es[0]).0 == after_steps(i + 1));
        lemma_run_refused(i + 1);
    } else {
        assert(es.drop_first() =~= Seq::<EventModel>::empty());
    }
}

/// Concurrent requests are served one at a time, and a request whose PIN
/// was refused does not stand in the way of the next: while `a` holds the
/// device, `b` waits; `a` ends with an authentication error and releases its
/// session and the device; `b` then holds the device, and if its own steps
/// succeed it ends with its envelope.
pub proof fn lemma_failed_request_does_not_block(a: u64, b: u64, t: Seq<char>)
    requires
        a != b,
    ensures
        ({
            let g0 = GateModel { holder: None, queue: Seq::empty() };
            let (g1, got_a) = acquire_model(g0, a);
            let (g2, got_b) = acquire_model(g1, b);
            let run_a = run_model(fresh(), refused_steps());
            let g3 = release_model(g2, a);
            let run_b = run_model(fresh(), successful_steps(t));
            &&& got_a && !got_b
            &&& g2.holder == Some(a)
            &&& run_a.0.stage == Stage::Finished
            &&& run_a.1.last() == (ActionModel::Finish { release_session: true, result: Err(IssueError::Auth) })
            &&& g3.holder == Some(b)
            &&& run_b.0.stage == Stage::Finished
            &&& run_b.1.last() == (ActionModel::Finish { release_session: true, result: Ok(t) })
        }),
{
    let g1 = GateModel { holder: Some(a), queue: Seq::empty() };
    let g2 = GateModel { holder: Some(a), queue: seq![b] };
    assert(acquire_model(g1, b).0 == g2) by {
        assert(Seq::<u64>::empty().push(b) =~= seq![b]);
    }
    assert(release_model(g2, a).holder == Some(b));

    lemma_run_refused(0);
    assert(refused_steps().subrange(0, 4) =~= refused_steps());
    lemma_run_successful(t, 0);
    assert(successful_steps(t).subrange(0, 7) =~= successful_steps(t));
}

} // verus!

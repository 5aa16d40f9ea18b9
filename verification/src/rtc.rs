//! The WebRTC layer as the program drives it: peer and channel events and
//! controls, choosing the WebRTC implementation by name, the order in
//! which remote ICE candidates may be applied, channel reliability
//! settings and send back-pressure.
use vstd::prelude::*;

verus! {

#[derive(Clone, Copy, Debug, PartialEq, Eq, Structural)]
pub enum RtcPeerState {
    New,
    Connecting,
    Connected,
    Disconnected,
    Failed,
    Closed,
}

/// A peer connection that failed or closed never comes back.
pub open spec fn spec_is_terminal(s: RtcPeerState) -> bool {
    s is Failed || s is Closed
}

pub fn is_terminal(s: RtcPeerState) -> (r: bool)
    ensures
        r == spec_is_terminal(s),
{
    match s {
        RtcPeerState::Failed | RtcPeerState::Closed => true,
        _ => false,
    }
}

pub enum RtcPeerEvent {
    IceCandidate(String),
    StateChange(RtcPeerState),
    Offer(String),
    Answer(String),
}

pub enum RtcPeerControl {
    IceCandidate(String),
    Offer(String),
    Answer(String),
}

pub enum ChannelEvent {
    Open,
    Close,
    Message(Vec<u8>),
}

pub enum ChannelControl {
    SendText(String),
    Send(Vec<u8>),
    Close,
}

/// Marker for a data channel of some WebRTC implementation.
pub trait DataChannel {

}

/// Settings of a data channel; unset means the implementation's default
/// (ordered, reliable).
#[derive(Clone, Copy, Debug, PartialEq, Eq, Structural)]
pub struct ChannelOptions {
    pub ordered: Option<bool>,
    pub max_retransmits: Option<u16>,
}

/// Which WebRTC implementation carries the peer connections.
#[derive(Clone, Copy, Debug, PartialEq, Eq, Structural)]
pub enum Api {
    WebrtcRs,
    DataChannel,
}

/// The name was none of the known implementations.
#[derive(Clone, Copy, Debug, PartialEq, Eq, Structural)]
pub struct ApiParseError;

impl ApiParseError {
    /// The error's text.
    pub fn to_string(&self) -> (s: String)
        ensures
            s@ == seq!['A', 'p', 'i', 'P', 'a', 'r', 's', 'e', 'E', 'r', 'r', 'o', 'r'],
    {
        let s = String::from_str("ApiParseError");
        proof {
            reveal_strlit("ApiParseError");
        }
        s
    }
}

/// Whether two strings hold the same characters.
pub fn str_eq(a: &str, b: &str) -> (r: bool)
    ensures
        r == (a@ == b@),
{
    let n = a.unicode_len();
    if n != b.unicode_len() {
        return false;
    }
    let mut i: usize = 0;
    while i < n
        invariant
            n == a@.len(),
            n == b@.len(),
            i <= n,
            forall|j: int| 0 <= j < i ==> a@[j] == b@[j],
        decreases n - i,
    {
        if a.get_char(i) != b.get_char(i) {
            return false;
        }
        i = i + 1;
    }
    assert(a@ =~= b@);
    true
}

/// The names an implementation may be given by.
pub open spec fn api_named(s: Seq<char>) -> Option<Api> {
    if s == "webrtc-rs"@ || s == "WebrtcRs"@ {
        Some(Api::WebrtcRs)
    } else if s == "datachannel"@ || s == "DataChannel"@ {
        Some(Api::DataChannel)
    } else {
        None
    }
}

impl Api {
    /// Parses an implementation name: `webrtc-rs` or `WebrtcRs`,
    /// `datachannel` or `DataChannel`.
    pub fn from_str(s: &str) -> (r: Result<Api, ApiParseError>)
        ensures
            match api_named(s@) {
                Some(api) => r == Ok::<Api, ApiParseError>(api),
                None => r == Err::<Api, ApiParseError>(ApiParseError),
            },
    {
        if str_eq(s, "webrtc-rs") || str_eq(s, "WebrtcRs") {
            Ok(Api::WebrtcRs)
        } else if str_eq(s, "datachannel") || str_eq(s, "DataChannel") {
            Ok(Api::DataChannel)
        } else {
            Err(ApiParseError)
        }
    }
}

// ---------------------------------------------------------------------------
// Remote ICE candidates
// ---------------------------------------------------------------------------

/// One thing to do to the peer connection.
pub enum IceStep {
    /// Add a remote ICE candidate.
    AddCandidate(String),
    /// Set the remote offer, then create the answer, send it and set it as
    /// the local description.
    ApplyOffer(String),
    /// Set the remote answer.
    ApplyAnswer(String),
}

pub enum IceStepView {
    AddCandidate(Seq<char>),
    ApplyOffer(Seq<char>),
    ApplyAnswer(Seq<char>),
}

impl View for IceStep {
    type V = IceStepView;

    open spec fn view(&self) -> IceStepView {
        match self {
            IceStep::AddCandidate(s) => IceStepView::AddCandidate(s@),
            IceStep::ApplyOffer(s) => IceStepView::ApplyOffer(s@),
            IceStep::ApplyAnswer(s) => IceStepView::ApplyAnswer(s@),
        }
    }
}

pub open spec fn steps_view(s: Seq<IceStep>) -> Seq<IceStepView> {
    s.map_values(|x: IceStep| x@)
}

pub open spec fn strings_view(s: Seq<String>) -> Seq<Seq<char>> {
    s.map_values(|x: String| x@)
}

/// Candidates wrapped as steps, in order.
pub open spec fn add_steps(cands: Seq<Seq<char>>) -> Seq<IceStepView> {
    cands.map_values(|c: Seq<char>| IceStepView::AddCandidate(c))
}

/// Remote candidates cannot be added before the remote description is
/// set: until then they are held, and applied in arrival order right
/// after the description.
pub struct IceCandidateBuffer {
    has_remote_description: bool,
    pending: Vec<String>,
}

pub struct IceBufferView {
    pub has_remote_description: bool,
    pub pending: Seq<Seq<char>>,
}

impl View for IceCandidateBuffer {
    type V = IceBufferView;

    closed spec fn view(&self) -> IceBufferView {
        IceBufferView {
            has_remote_description: self.has_remote_description,
            pending: strings_view(self.pending@),
        }
    }
}

/// What one control does: the steps to perform, in order, and the state
/// afterwards.
pub open spec fn ice_step(s: IceBufferView, c: RtcPeerControl) -> (IceBufferView, Seq<IceStepView>) {
    match c {
        RtcPeerControl::IceCandidate(cand) => if s.has_remote_description {
            (s, seq![IceStepView::AddCandidate(cand@)])
        } else {
            (
                IceBufferView { has_remote_description: false, pending: s.pending.push(cand@) },
                Seq::empty(),
            )
        },
        RtcPeerControl::Offer(o) => (
            IceBufferView { has_remote_description: true, pending: Seq::empty() },
            seq![IceStepView::ApplyOffer(o@)] + add_steps(s.pending),
        ),
        RtcPeerControl::Answer(a) => (
            IceBufferView { has_remote_description: true, pending: Seq::empty() },
            seq![IceStepView::ApplyAnswer(a@)] + add_steps(s.pending),
        ),
    }
}

/// Candidates are only held while no remote description is set.
pub open spec fn ice_wf(s: IceBufferView) -> bool {
    s.has_remote_description ==> s.pending.len() == 0
}

impl IceCandidateBuffer {
    /// Candidates are held only while no remote description is set.
    #[verifier::type_invariant]
    spec fn inv(&self) -> bool {
        ice_wf(self@)
    }

    pub fn new() -> (b: IceCandidateBuffer)
        ensures
            !b@.has_remote_description,
            b@.pending == Seq::<Seq<char>>::empty(),
    {
        let b = IceCandidateBuffer { has_remote_description: false, pending: Vec::new() };
        assert(b@.pending =~= Seq::<Seq<char>>::empty());
        b
    }

    /// Takes one control from the signalling side and says what to do.
    pub fn handle_control(&mut self, control: RtcPeerControl) -> (steps: Vec<IceStep>)
        ensures
            ice_wf(final(self)@),
            (final(self)@, steps_view(steps@)) == ice_step(old(self)@, control),
            !(control is IceCandidate) ==> final(self)@.has_remote_description && final(self)@.pending.len() == 0,
            control matches RtcPeerControl::Offer(o) ==> steps_view(steps@) == seq![
                IceStepView::ApplyOffer(o@),
            ] + add_steps(old(self)@.pending),
            control matches RtcPeerControl::Answer(a) ==> steps_view(steps@) == seq![
                IceStepView::ApplyAnswer(a@),
            ] + add_steps(old(self)@.pending),
            control matches RtcPeerControl::IceCandidate(c) ==> (if old(self)@.has_remote_description {
                steps_view(steps@) == seq![IceStepView::AddCandidate(c@)] && final(self)@ == old(self)@
            } else {
                steps_view(steps@).len() == 0 && !final(self)@.has_remote_description && final(self)@.pending == old(self)@.pending.push(c@)
            }),
    {
        proof {
            use_type_invariant(&*self);
        }
        let ghost c = control;
        let ghost s0 = self@;
        let mut steps: Vec<IceStep> = Vec::new();
        match control {
            RtcPeerControl::IceCandidate(cand) => {
                if self.has_remote_description {
                    steps.push(IceStep::AddCandidate(cand));
                    assert(steps_view(steps@) =~= seq![IceStepView::AddCandidate(c->IceCandidate_0@)]);
                } else {
                    let mut pending: Vec<String> = Vec::new();
                    std::mem::swap(&mut pending, &mut self.pending);
                    pending.push(cand);
                    self.pending = pending;
                    assert(self@.pending =~= s0.pending.push(c->IceCandidate_0@));
                    assert(steps_view(steps@) =~= Seq::<IceStepView>::empty());
                }
            },
            RtcPeerControl::Offer(o) => {
                steps.push(IceStep::ApplyOffer(o));
                self.drain_into(&mut steps);
            },
            RtcPeerControl::Answer(a) => {
                steps.push(IceStep::ApplyAnswer(a));
                self.drain_into(&mut steps);
            },
        }
        steps
    }

    /// Marks the description as set and moves the held candidates, in
    /// order, to the end of `steps`.
    fn drain_into(&mut self, steps: &mut Vec<IceStep>)
        ensures
            final(self)@.has_remote_description,
            final(self)@.pending == Seq::<Seq<char>>::empty(),
            steps_view(final(steps)@) == steps_view(old(steps)@) + add_steps(old(self)@.pending),
    {
        let ghost before = steps_view(steps@);
        let ghost held = self@.pending;
        let mut pending: Vec<String> = Vec::new();
        std::mem::swap(&mut pending, &mut self.pending);
        self.has_remote_description = true;
        let n = pending.len();
        let mut k: usize = 0;
        let mut rest = pending;
        while k < n
            invariant
                n == held.len(),
                k <= n,
                rest@.len() + k == n,
                strings_view(rest@) == held.skip(k as int),
                steps_view(steps@) == before + add_steps(held.take(k as int)),
            decreases n - k,
        {
            let ghost r0 = rest@;
            let cand = rest.remove(0);
            proof {
                assert(strings_view(r0)[0] == held.skip(k as int)[0]);
                assert(cand@ == held[k as int]);
                assert(add_steps(held.take(k + 1)) =~= add_steps(held.take(k as int)).push(
                    IceStepView::AddCandidate(held[k as int]),
                ));
                assert(strings_view(rest@) =~= held.skip(k + 1)) by {
                    assert forall|j: int| 0 <= j < rest@.len() implies strings_view(rest@)[j]
                        == held.skip(k + 1)[j] by {
                        assert(strings_view(r0)[j + 1] == held.skip(k as int)[j + 1]);
                    }
                }
            }
            let ghost sp = steps@;
            let ghost cv = cand@;
            steps.push(IceStep::AddCandidate(cand));
            assert(steps_view(steps@) =~= steps_view(sp).push(IceStepView::AddCandidate(cv)));
            k = k + 1;
            assert(steps_view(steps@) =~= before + add_steps(held.take(k as int)));
        }
        assert(held.take(n as int) =~= held);
        assert(self@.pending =~= Seq::<Seq<char>>::empty());
    }
}

/// Every candidate that arrives before the remote description is applied
/// right after it, in arrival order; none is applied before it, and none
/// is held after it.
pub proof fn law_candidates_wait_for_description(s: IceBufferView, cand: RtcPeerControl, desc: RtcPeerControl)
    requires
        ice_wf(s),
        !s.has_remote_description,
        cand is IceCandidate,
        !(desc is IceCandidate),
    ensures
        ({
            let (s1, out1) = ice_step(s, cand);
            let (s2, out2) = ice_step(s1, desc);
            &&& out1.len() == 0
            &&& s2.pending.len() == 0
            &&& s2.has_remote_description
            &&& out2.drop_first() == add_steps(s.pending.push(cand->IceCandidate_0@))
        }),
{
    let (s1, out1) = ice_step(s, cand);
    let (s2, out2) = ice_step(s1, desc);
    assert(out2.drop_first() =~= add_steps(s1.pending));
}

/// Once a remote description is applied, candidates go straight through:
/// after any offer or answer, whatever came before, the remote description
/// is set and nothing is held, and a candidate that arrives next is added
/// at once, on its own, leaving the buffer as it was.
pub proof fn law_description_lets_candidates_through(
    s: IceBufferView,
    desc: RtcPeerControl,
    cand: RtcPeerControl,
)
    requires
        !(desc is IceCandidate),
        cand is IceCandidate,
    ensures
        ({
            let (s1, _) = ice_step(s, desc);
            let (s2, out2) = ice_step(s1, cand);
            &&& s1.has_remote_description
            &&& s1.pending.len() == 0
            &&& out2 == seq![IceStepView::AddCandidate(cand->IceCandidate_0@)]
            &&& s2 == s1
        }),
{
}

/// A candidate is either added at once, when the remote description is
/// set, or held at the end of the queue, when it is not; it is never
/// dropped.
pub proof fn law_candidate_added_exactly_once(s: IceBufferView, cand: RtcPeerControl)
    requires
        ice_wf(s),
        cand is IceCandidate,
    ensures
        ({
            let (s1, out1) = ice_step(s, cand);
            if s.has_remote_description {
                out1 == seq![IceStepView::AddCandidate(cand->IceCandidate_0@)] && s1.pending.len() == 0
            } else {
                out1.len() == 0 && s1.pending.last() == cand->IceCandidate_0@ && s1.pending.len()
                    == s.pending.len() + 1
            }
        }),
{
}

// ---------------------------------------------------------------------------
// Channel settings and back-pressure
// ---------------------------------------------------------------------------

/// Reliability of a channel as `libdatachannel` takes it.
#[derive(Clone, Copy, Debug, PartialEq, Eq, Structural)]
pub struct Reliability {
    pub unordered: bool,
    pub unreliable: bool,
    pub max_retransmits: Option<u16>,
}

/// The reliability a channel is opened with: zero retransmits makes it
/// unreliable, any count is passed on, and asking for unordered delivery
/// makes it unordered.
pub fn reliability_for(options: ChannelOptions) -> (r: Reliability)
    ensures
        r.unreliable == (options.max_retransmits == Some(0u16)),
        r.max_retransmits == options.max_retransmits,
        r.unordered == (options.ordered == Some(false)),
{
    let mut r = Reliability { unordered: false, unreliable: false, max_retransmits: None };
    match options.max_retransmits {
        Some(0) => {
            r.unreliable = true;
            r.max_retransmits = Some(0);
        },
        Some(v) => {
            r.max_retransmits = Some(v);
        },
        None => {},
    }
    match options.ordered {
        Some(false) => {
            r.unordered = true;
        },
        _ => {},
    }
    r
}

/// Where a data channel stands, as its control side sees it.
#[derive(Clone, Copy, Debug, PartialEq, Eq, Structural)]
pub enum ChannelState {
    /// Not open yet: controls wait in their queue.
    NotOpen,
    /// Open: controls are taken and carried out.
    Open,
    /// Closed by a `Close` control: no more controls are taken.
    Closed,
}

/// What happens to a data channel.
pub enum ChannelInput {
    /// The channel reported that it is open.
    Opened,
    /// The channel reported that it closed.
    ChannelClosed,
    /// A control taken from the owner.
    Control(ChannelControl),
}

/// What the control side does for one input.
pub enum ChannelAction {
    /// Nothing now.
    Ignore,
    /// Keep the control for when the channel is open.
    Hold,
    /// Tell the owner the channel is open, and start taking controls.
    ReportOpen,
    /// Tell the owner the channel closed, and queue a `Close` control.
    ReportClosed,
    /// Send this text.
    SendText(String),
    /// Send these bytes; then wait for the low-water mark when
    /// [`must_wait_after_send`] says so.
    Send(Vec<u8>),
    /// Close the channel, hand the control queue back and stop.
    CloseAndStop,
}

/// Whether controls are taken in this state: only while open, which holds
/// senders back until the channel is up.
pub open spec fn spec_takes_controls(s: ChannelState) -> bool {
    s is Open
}

pub fn takes_controls(s: ChannelState) -> (r: bool)
    ensures
        r == spec_takes_controls(s),
{
    match s {
        ChannelState::Open => true,
        _ => false,
    }
}

/// One step of a data channel's control side: the open report moves a
/// channel that is not open yet to open; a control taken while open is
/// carried out, `Close` closing the channel for good, and one that comes
/// before the channel is open is held; the close report is
/// passed on (with a `Close` control queued) unless the channel is closed
/// already; anything else changes nothing.
pub fn channel_step(s: ChannelState, input: ChannelInput) -> (r: (ChannelState, ChannelAction))
    ensures
        match input {
            ChannelInput::Opened => if s is NotOpen {
                r.0 == ChannelState::Open && r.1 is ReportOpen
            } else {
                r.0 == s && r.1 is Ignore
            },
            ChannelInput::ChannelClosed => if s is Closed {
                r.0 == s && r.1 is Ignore
            } else {
                r.0 == s && r.1 is ReportClosed
            },
            ChannelInput::Control(c) => if s is Open {
                match c {
                    ChannelControl::SendText(t) => r.0 == s && r.1 == ChannelAction::SendText(t),
                    ChannelControl::Send(d) => r.0 == s && r.1 == ChannelAction::Send(d),
                    ChannelControl::Close => r.0 == ChannelState::Closed && r.1 is CloseAndStop,
                }
            } else if s is NotOpen {
                r.0 == s && r.1 is Hold
            } else {
                r.0 == s && r.1 is Ignore
            },
        },
{
    match input {
        ChannelInput::Opened => match s {
            ChannelState::NotOpen => (ChannelState::Open, ChannelAction::ReportOpen),
            _ => (s, ChannelAction::Ignore),
        },
        ChannelInput::ChannelClosed => match s {
            ChannelState::Closed => (s, ChannelAction::Ignore),
            _ => (s, ChannelAction::ReportClosed),
        },
        ChannelInput::Control(c) => match s {
            ChannelState::Open => match c {
                ChannelControl::SendText(t) => (s, ChannelAction::SendText(t)),
                ChannelControl::Send(d) => (s, ChannelAction::Send(d)),
                ChannelControl::Close => (ChannelState::Closed, ChannelAction::CloseAndStop),
            },
            ChannelState::NotOpen => (s, ChannelAction::Hold),
            ChannelState::Closed => (s, ChannelAction::Ignore),
        },
    }
}

/// Bytes a channel may have queued before a sender waits for the
/// low-water mark.
pub const MAX_BUFFERED_AMOUNT: usize = 1000000;

/// Low-water mark below which a waiting sender may go on.
pub const BUFFERED_AMOUNT_LOW_THRESHOLD: usize = 500000;

/// After sending `len` bytes with `buffered` bytes already queued, whether
/// the sender must wait for the queue to drain.
pub fn must_wait_after_send(len: usize, buffered: usize) -> (r: bool)
    ensures
        r == (len + buffered > MAX_BUFFERED_AMOUNT),
{
    if len > MAX_BUFFERED_AMOUNT {
        true
    } else {
        buffered > MAX_BUFFERED_AMOUNT - len
    }
}

} // verus!

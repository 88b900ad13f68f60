//! The video stream: claiming the interfaces, negotiating the format, and
//! putting JPEG frames together from bulk payloads.
use vstd::prelude::*;

use crate::transaction::joined;
use crate::transfer::{
    stream_view, transfer_view, CameraError, ControlTransfer, DataView, Device, Reply, ReplyView,
    TransferData, TransferError, TransferView, GET_CUR, IF_CONTROL, IF_STREAM, REQ_CLASS_IN,
    REQ_CLASS_OUT, SET_CUR, VS_COMMIT_CONTROL, VS_PROBE_CONTROL,
};
use crate::wire::{
    copy_bytes, copy_range, fill, filled, lemma_u32_inside, push_range, push_u32, push_zeros,
    u32_at, u32_bytes, u32_le, zeros,
};

verus! {

/// Bytes of a stream negotiation block.
pub const PROBE_LEN: usize = 26;

/// Format index of MJPEG.
pub const FORMAT_MJPEG: u8 = 2;

/// Frame index of 240x320.
pub const FRAME_240X320: u8 = 2;

/// Frame interval of 30 frames a second, in units of 100 ns.
pub const INTERVAL_30_FPS: u32 = 333_333;

/// Units of 100 ns in a second.
pub const TICKS_PER_SECOND: u32 = 10_000_000;

/// Most bytes of one bulk read.
pub const BULK_READ_LEN: usize = 65536;

/// What to do with an interface before it can be used.
#[derive(Debug, Clone, Copy, PartialEq, Eq)]
pub enum ClaimStep {
    DetachDriver(u8),
    Claim(u8),
}

/// What to do with an interface that is no longer used.
#[derive(Debug, Clone, Copy, PartialEq, Eq)]
pub enum ReleaseStep {
    Release(u8),
    AttachDriver(u8),
}

impl Device {
    /// The interfaces to claim, in order.
    pub fn open() -> (order: Vec<u8>)
        ensures
            order@ == seq![IF_CONTROL, IF_STREAM],
    {
        let mut order: Vec<u8> = Vec::new();
        order.push(IF_CONTROL);
        order.push(IF_STREAM);
        assert(order@ =~= seq![IF_CONTROL, IF_STREAM]);
        order
    }

    /// How to claim an interface: a kernel driver that holds it is detached
    /// first.
    pub fn claim_steps(iface: u8, driver_active: bool) -> (steps: Vec<ClaimStep>)
        ensures
            steps@ == (if driver_active {
                seq![ClaimStep::DetachDriver(iface), ClaimStep::Claim(iface)]
            } else {
                seq![ClaimStep::Claim(iface)]
            }),
    {
        let mut steps: Vec<ClaimStep> = Vec::new();
        if driver_active {
            steps.push(ClaimStep::DetachDriver(iface));
        }
        steps.push(ClaimStep::Claim(iface));
        assert(steps@ =~= (if driver_active {
            seq![ClaimStep::DetachDriver(iface), ClaimStep::Claim(iface)]
        } else {
            seq![ClaimStep::Claim(iface)]
        }));
        steps
    }

    /// How to hand claimed interfaces back to the kernel: last one first, each
    /// released before its driver is attached again. A step that fails keeps no
    /// other from being taken.
    pub fn release_steps(claimed: &[u8]) -> (steps: Vec<ReleaseStep>)
        ensures
            steps@ == release_plan(claimed@),
    {
        let mut steps: Vec<ReleaseStep> = Vec::new();
        let mut i: usize = 0;
        let n: usize = claimed.len();
        assert(claimed@.skip(n as int) =~= Seq::<u8>::empty());
        while i < n
            invariant
                n == claimed@.len(),
                i <= n,
                steps@ == release_plan(claimed@.skip(n - i)),
            decreases n - i,
        {
            let iface: u8 = claimed[n - 1 - i];
            proof {
                let next = claimed@.skip(n - 1 - i);
                assert(next.drop_first() =~= claimed@.skip(n - i));
                assert(next[0] == iface);
            }
            steps.push(ReleaseStep::Release(iface));
            steps.push(ReleaseStep::AttachDriver(iface));
            assert(steps@ =~= release_plan(claimed@.skip(n - 1 - i)));
            i = i + 1;
        }
        assert(claimed@.skip(0) =~= claimed@);
        steps
    }
}

/// The steps that hand back interfaces claimed in this order.
pub open spec fn release_plan(claimed: Seq<u8>) -> Seq<ReleaseStep>
    decreases claimed.len(),
{
    if claimed.len() == 0 {
        Seq::empty()
    } else {
        release_plan(claimed.drop_first()) + seq![
            ReleaseStep::Release(claimed[0]),
            ReleaseStep::AttachDriver(claimed[0]),
        ]
    }
}

/// Interfaces are handed back in the reverse of the order in which they were
/// claimed, and each is released right before its driver is attached.
pub proof fn law_release_reverses_claims(claimed: Seq<u8>, i: int)
    requires
        0 <= i < claimed.len(),
    ensures
        release_plan(claimed).len() == 2 * claimed.len(),
        release_plan(claimed)[2 * i] == ReleaseStep::Release(claimed[claimed.len() - 1 - i]),
        release_plan(claimed)[2 * i + 1] == ReleaseStep::AttachDriver(
            claimed[claimed.len() - 1 - i],
        ),
    decreases claimed.len(),
{
    let rest = claimed.drop_first();
    if i < rest.len() {
        law_release_reverses_claims(rest, i);
        assert(rest[rest.len() - 1 - i] == claimed[claimed.len() - 1 - i]);
    } else if rest.len() > 0 {
        law_release_reverses_claims(rest, 0);
    } else {
        assert(release_plan(rest) =~= Seq::<ReleaseStep>::empty());
    }
}

/// A negotiation block that asks for a format, a frame size and an interval.
pub open spec fn probe_bytes(format: u8, frame: u8, interval: u32) -> Seq<u8> {
    zeros(2) + seq![format, frame] + u32_bytes(interval) + zeros(18)
}

/// What a negotiation block says.
#[derive(Debug, Clone, Copy, PartialEq, Eq)]
pub struct Negotiated {
    pub format: u8,
    pub frame: u8,
    /// Frame interval in units of 100 ns.
    pub interval: u32,
    /// Frames per second, rounded down.
    pub fps: u32,
    pub max_frame_size: u32,
    pub max_payload: u32,
}

/// What the negotiation block `s` says. An interval of zero counts as one.
pub open spec fn negotiated(s: Seq<u8>) -> Negotiated {
    let interval = u32_le(s, 4);
    Negotiated {
        format: s[2],
        frame: s[3],
        interval: interval as u32,
        fps: (TICKS_PER_SECOND as int / (if interval == 0 { 1 } else { interval })) as u32,
        max_frame_size: u32_le(s, 18) as u32,
        max_payload: u32_le(s, 22) as u32,
    }
}

/// Reads a negotiation block.
pub fn read_negotiated(block: &[u8]) -> (n: Negotiated)
    requires
        block@.len() >= PROBE_LEN,
    ensures
        n == negotiated(block@),
{
    let interval: u32 = u32_at(block, 4);
    let divisor: u32 = if interval == 0 { 1 } else { interval };
    Negotiated {
        format: block[2],
        frame: block[3],
        interval,
        fps: TICKS_PER_SECOND / divisor,
        max_frame_size: u32_at(block, 18),
        max_payload: u32_at(block, 22),
    }
}

/// Where a negotiation stands.
#[derive(Debug, Clone, Copy, PartialEq, Eq)]
pub enum StreamPhase {
    Probe,
    Read,
    Commit,
    Done,
    Failed(CameraError),
}

/// A negotiation of the video stream under way.
pub struct StreamStart {
    phase: StreamPhase,
    probe: Vec<u8>,
    /// The block that the camera answered with.
    current: Vec<u8>,
    /// How many bytes of it were read.
    got: usize,
}

/// Mathematical counterpart of [`StreamStart`].
#[verifier::ext_equal]
pub struct StreamStartView {
    pub phase: StreamPhase,
    pub probe: Seq<u8>,
    pub current: Seq<u8>,
    pub got: nat,
}

impl View for StreamStart {
    type V = StreamStartView;

    closed spec fn view(&self) -> StreamStartView {
        StreamStartView {
            phase: self.phase,
            probe: self.probe@,
            current: self.current@,
            got: self.got as nat,
        }
    }
}

impl StreamStartView {
    pub open spec fn start(format: u8, frame: u8, interval: u32) -> StreamStartView {
        StreamStartView {
            phase: StreamPhase::Probe,
            probe: probe_bytes(format, frame, interval),
            current: zeros(PROBE_LEN as nat),
            got: 0,
        }
    }

    /// The transfer to carry out next; none once the negotiation has ended.
    pub open spec fn pending(self) -> Option<TransferView> {
        match self.phase {
            StreamPhase::Probe => Some(
                stream_view(REQ_CLASS_OUT, SET_CUR, VS_PROBE_CONTROL, DataView::Out(self.probe)),
            ),
            StreamPhase::Read => Some(
                stream_view(
                    REQ_CLASS_IN,
                    GET_CUR,
                    VS_PROBE_CONTROL,
                    DataView::In(PROBE_LEN as nat),
                ),
            ),
            StreamPhase::Commit => Some(
                stream_view(REQ_CLASS_OUT, SET_CUR, VS_COMMIT_CONTROL, DataView::Out(self.current)),
            ),
            _ => None,
        }
    }

    /// The state after the pending transfer was answered by `r`.
    pub open spec fn after(self, r: ReplyView) -> StreamStartView {
        match (self.phase, r) {
            (StreamPhase::Done, _) => self,
            (StreamPhase::Failed(_), _) => self,
            (_, ReplyView::Failed(e)) => StreamStartView {
                phase: StreamPhase::Failed(CameraError::Negotiation(e)),
                ..self
            },
            (StreamPhase::Probe, ReplyView::Data(_)) => StreamStartView {
                phase: StreamPhase::Read,
                ..self
            },
            (StreamPhase::Read, ReplyView::Data(d)) => StreamStartView {
                phase: StreamPhase::Commit,
                current: filled(PROBE_LEN as nat, d),
                got: if d.len() < PROBE_LEN { d.len() } else { PROBE_LEN as nat },
                ..self
            },
            (StreamPhase::Commit, ReplyView::Data(_)) => StreamStartView {
                phase: StreamPhase::Done,
                ..self
            },
        }
    }

    /// What an ended negotiation delivers.
    pub open spec fn outcome(self) -> Result<(), CameraError> {
        match self.phase {
            StreamPhase::Failed(e) => Err(e),
            _ => Ok(()),
        }
    }
}

impl StreamStart {
    #[verifier::type_invariant]
    spec fn block_is_complete(self) -> bool {
        self.current@.len() == PROBE_LEN
    }

    /// Starts a negotiation for a format, a frame size and an interval in units
    /// of 100 ns.
    pub fn new(format: u8, frame: u8, interval: u32) -> (s: StreamStart)
        ensures
            s@ == StreamStartView::start(format, frame, interval),
    {
        let mut probe: Vec<u8> = Vec::new();
        push_zeros(&mut probe, 2);
        probe.push(format);
        probe.push(frame);
        push_u32(&mut probe, interval);
        push_zeros(&mut probe, 18);
        assert(probe@ =~= probe_bytes(format, frame, interval));
        let mut current: Vec<u8> = Vec::new();
        push_zeros(&mut current, PROBE_LEN);
        assert(current@ =~= zeros(PROBE_LEN as nat));
        StreamStart { phase: StreamPhase::Probe, probe, current, got: 0 }
    }

    /// The transfer to carry out next; `None` once the negotiation has ended.
    pub fn pending(&self) -> (t: Option<ControlTransfer>)
        ensures
            transfer_view(t) == self@.pending(),
    {
        match self.phase {
            StreamPhase::Probe => Some(
                ControlTransfer {
                    request_type: REQ_CLASS_OUT,
                    request: SET_CUR,
                    value: VS_PROBE_CONTROL,
                    index: IF_STREAM as u16,
                    data: TransferData::Out(copy_bytes(self.probe.as_slice())),
                },
            ),
            StreamPhase::Read => Some(
                ControlTransfer {
                    request_type: REQ_CLASS_IN,
                    request: GET_CUR,
                    value: VS_PROBE_CONTROL,
                    index: IF_STREAM as u16,
                    data: TransferData::In(PROBE_LEN),
                },
            ),
            StreamPhase::Commit => Some(
                ControlTransfer {
                    request_type: REQ_CLASS_OUT,
                    request: SET_CUR,
                    value: VS_COMMIT_CONTROL,
                    index: IF_STREAM as u16,
                    data: TransferData::Out(copy_bytes(self.current.as_slice())),
                },
            ),
            _ => None,
        }
    }

    /// Takes the reply to the pending transfer.
    pub fn reply(&mut self, reply: &Reply)
        ensures
            final(self)@ == old(self)@.after(reply@),
    {
        proof {
            use_type_invariant(&*self);
        }
        match reply {
            Reply::Failed(e) => match self.phase {
                StreamPhase::Done => {},
                StreamPhase::Failed(_) => {},
                _ => {
                    self.phase = StreamPhase::Failed(CameraError::Negotiation(*e));
                },
            },
            Reply::Data(d) => match self.phase {
                StreamPhase::Probe => {
                    self.phase = StreamPhase::Read;
                },
                StreamPhase::Read => {
                    let current: Vec<u8> = fill(PROBE_LEN, d.as_slice());
                    self.current = current;
                    self.got = if d.len() < PROBE_LEN { d.len() } else { PROBE_LEN };
                    self.phase = StreamPhase::Commit;
                },
                StreamPhase::Commit => {
                    self.phase = StreamPhase::Done;
                },
                _ => {},
            },
        }
    }

    /// How many bytes the camera answered with, and what they say; the missing
    /// ones count as zero.
    pub fn answer(&self) -> (r: (usize, Negotiated))
        ensures
            r.0 == self@.got,
            r.1 == negotiated(self@.current),
    {
        proof {
            use_type_invariant(self);
        }
        (self.got, read_negotiated(self.current.as_slice()))
    }

    /// Whether the stream was committed.
    pub fn outcome(&self) -> (r: Result<(), CameraError>)
        requires
            self@.pending() is None,
        ensures
            r == self@.outcome(),
    {
        match self.phase {
            StreamPhase::Failed(e) => Err(e),
            _ => Ok(()),
        }
    }
}

/// The part of a bulk read behind its header. The first byte is the length of
/// the header; a read too short for its header has no payload.
pub open spec fn payload_of(raw: Seq<u8>) -> Seq<u8> {
    if raw.len() < 2 || raw[0] > raw.len() {
        Seq::empty()
    } else {
        raw.skip(raw[0] as int)
    }
}

/// What a bulk read delivers. A time-out delivers nothing.
pub open spec fn payload_result(r: ReplyView) -> Result<Seq<u8>, CameraError> {
    match r {
        ReplyView::Data(raw) => Ok(payload_of(raw)),
        ReplyView::Failed(TransferError::Timeout) => Ok(Seq::empty()),
        ReplyView::Failed(e) => Err(CameraError::BulkRead(e)),
    }
}

/// The bytes are a JPEG start marker and what follows.
pub open spec fn starts_jpeg(s: Seq<u8>) -> bool {
    s.len() >= 2 && s[0] == 0xff && s[1] == 0xd8
}

/// A JPEG end marker stands at `i`.
pub open spec fn ends_jpeg_at(s: Seq<u8>, i: int) -> bool {
    0 <= i && i + 1 < s.len() && s[i] == 0xff && s[i + 1] == 0xd9
}

/// A JPEG end marker stands somewhere.
pub open spec fn ends_jpeg(s: Seq<u8>) -> bool {
    exists|i: int| ends_jpeg_at(s, i)
}

/// The first JPEG end marker stands at `i`.
pub open spec fn first_end_at(s: Seq<u8>, i: int) -> bool {
    ends_jpeg_at(s, i) && forall|j: int| j < i ==> !#[trigger] ends_jpeg_at(s, j)
}

/// The bytes up to and with the first JPEG end marker.
pub open spec fn up_to_end(s: Seq<u8>) -> Seq<u8> {
    s.take((choose|i: int| first_end_at(s, i)) + 2)
}

/// Puts JPEG frames together from bulk payloads.
pub struct FrameIter {
    frame: Vec<u8>,
    in_frame: bool,
}

/// Mathematical counterpart of [`FrameIter`].
#[verifier::ext_equal]
pub struct FrameView {
    pub frame: Seq<u8>,
    pub in_frame: bool,
}

impl View for FrameIter {
    type V = FrameView;

    closed spec fn view(&self) -> FrameView {
        FrameView { frame: self.frame@, in_frame: self.in_frame }
    }
}

/// What one bulk read led to.
#[derive(Debug, PartialEq, Eq)]
pub enum FrameStep {
    /// No frame is complete yet.
    More,
    /// A complete frame.
    Frame(Vec<u8>),
    /// The read failed.
    Failed(CameraError),
}

/// Mathematical counterpart of [`FrameStep`].
pub enum FrameStepView {
    More,
    Frame(Seq<u8>),
    Failed(CameraError),
}

impl View for FrameStep {
    type V = FrameStepView;

    open spec fn view(&self) -> FrameStepView {
        match *self {
            FrameStep::More => FrameStepView::More,
            FrameStep::Frame(f) => FrameStepView::Frame(f@),
            FrameStep::Failed(e) => FrameStepView::Failed(e),
        }
    }
}

impl FrameView {
    pub open spec fn start() -> FrameView {
        FrameView { frame: Seq::empty(), in_frame: false }
    }

    /// What is collected once payload `p` has come: a start marker begins anew,
    /// and nothing is collected before the first one.
    pub open spec fn collected(self, p: Seq<u8>) -> Seq<u8> {
        if starts_jpeg(p) {
            p
        } else if self.in_frame {
            self.frame + p
        } else {
            self.frame
        }
    }

    /// Payload `p` completes a frame.
    pub open spec fn completes(self, p: Seq<u8>) -> bool {
        (starts_jpeg(p) || self.in_frame) && ends_jpeg(self.collected(p))
    }

    /// The state after a payload. An empty one changes nothing.
    pub open spec fn after_payload(self, p: Seq<u8>) -> FrameView {
        if p.len() == 0 {
            self
        } else if self.completes(p) {
            FrameView::start()
        } else {
            FrameView {
                frame: self.collected(p),
                in_frame: starts_jpeg(p) || self.in_frame,
            }
        }
    }

    /// The state after a bulk read.
    pub open spec fn after(self, r: ReplyView) -> FrameView {
        match payload_result(r) {
            Ok(p) => self.after_payload(p),
            Err(_) => self,
        }
    }

    /// What a bulk read leads to. A frame ends with its end marker; what the
    /// payload holds behind that is dropped.
    pub open spec fn step(self, r: ReplyView) -> FrameStepView {
        match payload_result(r) {
            Ok(p) => if p.len() > 0 && self.completes(p) {
                FrameStepView::Frame(up_to_end(self.collected(p)))
            } else {
                FrameStepView::More
            },
            Err(e) => FrameStepView::Failed(e),
        }
    }

    /// A frame under way begins with a start marker and has no end marker yet;
    /// between frames nothing is kept.
    pub open spec fn wf(self) -> bool {
        if self.in_frame {
            starts_jpeg(self.frame) && !ends_jpeg(self.frame)
        } else {
            self.frame.len() == 0
        }
    }
}

proof fn lemma_first_end(s: Seq<u8>, i: int)
    requires
        first_end_at(s, i),
    ensures
        up_to_end(s) == s.take(i + 2),
{
    let e = choose|e: int| first_end_at(s, e);
    assert(first_end_at(s, e));
    assert(e == i);
}

proof fn lemma_has_first_end(s: Seq<u8>, i: int) -> (e: int)
    requires
        ends_jpeg_at(s, i),
    ensures
        first_end_at(s, e),
        e <= i,
    decreases i,
{
    if exists|j: int| j < i && ends_jpeg_at(s, j) {
        let j = choose|j: int| j < i && ends_jpeg_at(s, j);
        lemma_has_first_end(s, j)
    } else {
        i
    }
}

/// Finds the first JPEG end marker.
fn find_end_marker(s: &[u8]) -> (r: Option<usize>)
    ensures
        match r {
            Some(i) => first_end_at(s@, i as int),
            None => !ends_jpeg(s@),
        },
{
    let len: usize = s.len();
    let mut i: usize = 0;
    while i < len && len - i >= 2
        invariant
            len == s@.len(),
            i <= len,
            forall|j: int| j < i ==> !#[trigger] ends_jpeg_at(s@, j),
        decreases len - i,
    {
        if s[i] == 0xff && s[i + 1] == 0xd9 {
            return Some(i);
        }
        i = i + 1;
    }
    None
}

impl Device {
    /// Starts the negotiation of 240x320 MJPEG at 30 frames a second.
    pub fn start_stream() -> (s: StreamStart)
        ensures
            s@ == StreamStartView::start(2, 2, 333_333),
    {
        StreamStart::new(FORMAT_MJPEG, FRAME_240X320, INTERVAL_30_FPS)
    }

    /// The payload of a bulk read, without its header; empty after a time-out.
    pub fn read_payload(reply: &Reply) -> (r: Result<Vec<u8>, CameraError>)
        ensures
            match r {
                Ok(p) => payload_result(reply@) == Ok::<Seq<u8>, CameraError>(p@),
                Err(e) => payload_result(reply@) == Err::<Seq<u8>, CameraError>(e),
            },
    {
        match reply {
            Reply::Data(raw) => {
                if raw.len() < 2 || raw[0] as usize > raw.len() {
                    Ok(Vec::new())
                } else {
                    let payload: Vec<u8> = copy_range(raw.as_slice(), raw[0] as usize, raw.len());
                    assert(payload@ =~= payload_of(raw@));
                    Ok(payload)
                }
            },
            Reply::Failed(e) => match e {
                TransferError::Timeout => Ok(Vec::new()),
                _ => Err(CameraError::BulkRead(*e)),
            },
        }
    }

    /// Starts to put frames together.
    pub fn frames() -> (f: FrameIter)
        ensures
            f@ == FrameView::start(),
    {
        FrameIter { frame: Vec::new(), in_frame: false }
    }
}

impl FrameIter {
    /// Takes a bulk read of the video endpoint.
    pub fn next(&mut self, reply: &Reply) -> (r: FrameStep)
        ensures
            final(self)@ == old(self)@.after(reply@),
            r@ == old(self)@.step(reply@),
    {
        match Device::read_payload(reply) {
            Err(e) => FrameStep::Failed(e),
            Ok(p) => {
                if p.len() == 0 {
                    return FrameStep::More;
                }
                if p.len() >= 2 && p[0] == 0xff && p[1] == 0xd8 {
                    self.in_frame = true;
                    self.frame = Vec::new();
                }
                if !self.in_frame {
                    return FrameStep::More;
                }
                push_range(&mut self.frame, p.as_slice(), 0, p.len());
                assert(p@.subrange(0, p@.len() as int) =~= p@);
                assert(self.frame@ =~= old(self)@.collected(p@));
                match find_end_marker(self.frame.as_slice()) {
                    Some(end) => {
                        let len: usize = self.frame.len();
                        assert(end + 1 < len);
                        proof {
                            assert(ends_jpeg_at(self.frame@, end as int));
                            lemma_first_end(self.frame@, end as int);
                        }
                        self.in_frame = false;
                        let mut done: Vec<u8> = Vec::new();
                        std::mem::swap(&mut done, &mut self.frame);
                        done.truncate(end + 2);
                        FrameStep::Frame(done)
                    },
                    None => FrameStep::More,
                }
            },
        }
    }

    /// What is collected of the frame under way.
    pub fn partial(&self) -> (r: Vec<u8>)
        ensures
            r@ == self@.frame,
    {
        copy_bytes(self.frame.as_slice())
    }
}

impl FrameView {
    /// The state after a series of payloads.
    pub open spec fn run(self, payloads: Seq<Seq<u8>>) -> FrameView
        decreases payloads.len(),
    {
        if payloads.len() == 0 {
            self
        } else {
            self.run(payloads.drop_last()).after_payload(payloads.last())
        }
    }

    /// The frames that a series of payloads completes.
    pub open spec fn frames(self, payloads: Seq<Seq<u8>>) -> Seq<Seq<u8>>
        decreases payloads.len(),
    {
        if payloads.len() == 0 {
            Seq::empty()
        } else {
            let before = self.run(payloads.drop_last());
            let p = payloads.last();
            let done = self.frames(payloads.drop_last());
            if p.len() > 0 && before.completes(p) {
                done.push(up_to_end(before.collected(p)))
            } else {
                done
            }
        }
    }
}

/// `payloads` carry one JPEG: only the first begins with a start marker, none is
/// empty, and an end marker is there only once the last has come.
pub open spec fn carries_jpeg(payloads: Seq<Seq<u8>>) -> bool {
    &&& payloads.len() > 0
    &&& starts_jpeg(payloads[0])
    &&& forall|i: int|
        1 <= i < payloads.len() ==> (#[trigger] payloads[i]).len() > 0 && !starts_jpeg(payloads[i])
    &&& forall|k: int| 0 <= k < payloads.len() ==> !ends_jpeg(joined(#[trigger] payloads.take(k)))
    &&& ends_jpeg(joined(payloads))
}

/// The bytes begin with a JPEG start marker, end with an end marker, and hold no
/// end marker before that.
pub open spec fn is_jpeg(s: Seq<u8>) -> bool {
    starts_jpeg(s) && first_end_at(s, s.len() - 2)
}

proof fn lemma_up_to_end_is_jpeg(s: Seq<u8>)
    requires
        starts_jpeg(s),
        ends_jpeg(s),
    ensures
        is_jpeg(up_to_end(s)),
{
    let e = lemma_has_first_end(s, choose|i: int| ends_jpeg_at(s, i));
    lemma_first_end(s, e);
    let jpeg = up_to_end(s);
    assert(e >= 1);
    assert forall|j: int| j < jpeg.len() - 2 implies !#[trigger] ends_jpeg_at(jpeg, j) by {
        assert(!ends_jpeg_at(s, j));
    }
}

/// Bytes that are one JPEG are their own part up to the end marker.
pub proof fn law_whole_jpeg_is_kept(s: Seq<u8>)
    requires
        is_jpeg(s),
    ensures
        ends_jpeg(s),
        up_to_end(s) == s,
{
    lemma_first_end(s, s.len() - 2);
    assert(s.take(s.len() as int) =~= s);
}

/// Whatever the camera sends, the collector stays well formed, and every frame
/// it gives runs from a start marker to the first end marker.
pub proof fn law_frames_are_jpeg(f: FrameView, r: ReplyView)
    requires
        f.wf(),
    ensures
        f.after(r).wf(),
        f.step(r) matches FrameStepView::Frame(jpeg) ==> is_jpeg(jpeg),
        FrameView::start().wf(),
{
    match payload_result(r) {
        Ok(p) => {
            if p.len() > 0 && !starts_jpeg(p) && f.in_frame {
                assert((f.frame + p)[0] == 0xff && (f.frame + p)[1] == 0xd8);
            }
            if p.len() > 0 && f.completes(p) {
                lemma_up_to_end_is_jpeg(f.collected(p));
            }
        },
        Err(_) => {},
    }
}

/// A read that fails changes nothing of what is collected; a time-out is no
/// error, any other failure is.
pub proof fn law_failed_reads_keep_frame(f: FrameView, e: TransferError)
    ensures
        f.after(ReplyView::Failed(e)) == f,
        f.step(ReplyView::Failed(e)) == (if e is Timeout {
            FrameStepView::More
        } else {
            FrameStepView::Failed(CameraError::BulkRead(e))
        }),
{
}

proof fn lemma_jpeg_under_way(f: FrameView, payloads: Seq<Seq<u8>>, k: int)
    requires
        carries_jpeg(payloads),
        1 <= k < payloads.len(),
    ensures
        f.run(payloads.take(k)) == (FrameView { frame: joined(payloads.take(k)), in_frame: true }),
        f.frames(payloads.take(k)) == Seq::<Seq<u8>>::empty(),
    decreases k,
{
    let now = payloads.take(k);
    let prev = payloads.take(k - 1);
    assert(now.drop_last() =~= prev);
    assert(now.last() == payloads[k - 1]);
    assert(!ends_jpeg(joined(now)));
    assert(joined(now) == joined(prev) + payloads[k - 1]);
    if k == 1 {
        assert(joined(prev) =~= Seq::<u8>::empty());
        assert(joined(now) =~= payloads[0]);
        assert(f.run(prev) == f);
        assert(f.frames(prev) =~= Seq::<Seq<u8>>::empty());
    } else {
        lemma_jpeg_under_way(f, payloads, k - 1);
    }
}

/// A JPEG comes out as it went in: payloads that carry one are given back as
/// one frame, their bytes in a row up to the end marker, whatever was collected
/// before, and the collector is left ready for the next. Where nothing follows
/// the end marker the frame is all of them.
pub proof fn law_jpeg_reassembled(f: FrameView, payloads: Seq<Seq<u8>>)
    requires
        carries_jpeg(payloads),
    ensures
        f.frames(payloads) == seq![up_to_end(joined(payloads))],
        is_jpeg(joined(payloads)) ==> f.frames(payloads) == seq![joined(payloads)],
        f.run(payloads) == FrameView::start(),
{
    let n = payloads.len() as int;
    let prev = payloads.take(n - 1);
    assert(payloads.drop_last() =~= prev);
    let last = payloads.last();
    assert(last == payloads[n - 1]);
    if n == 1 {
        assert(joined(prev) =~= Seq::<u8>::empty());
        assert(joined(payloads) =~= last);
        assert(f.run(prev) == f);
        assert(f.frames(prev) =~= Seq::<Seq<u8>>::empty());
    } else {
        lemma_jpeg_under_way(f, payloads, n - 1);
    }
    assert(f.run(prev).collected(last) == joined(payloads));
    assert(f.frames(payloads) =~= seq![up_to_end(joined(payloads))]);
    if is_jpeg(joined(payloads)) {
        law_whole_jpeg_is_kept(joined(payloads));
    }
}

proof fn lemma_run_in_parts(f: FrameView, a: Seq<Seq<u8>>, b: Seq<Seq<u8>>)
    ensures
        f.run(a + b) == f.run(a).run(b),
        f.frames(a + b) == f.frames(a) + f.run(a).frames(b),
    decreases b.len(),
{
    if b.len() == 0 {
        assert(a + b =~= a);
        assert(f.frames(a) + f.run(a).frames(b) =~= f.frames(a));
    } else {
        let rest = b.drop_last();
        lemma_run_in_parts(f, a, rest);
        assert((a + b).drop_last() =~= a + rest);
        assert((a + b).last() == b.last());
        assert(f.frames(a + b) =~= f.frames(a) + f.run(a).frames(b));
    }
}

/// The payloads of several pictures in a row.
pub open spec fn in_a_row(pictures: Seq<Seq<Seq<u8>>>) -> Seq<Seq<u8>>
    decreases pictures.len(),
{
    if pictures.len() == 0 {
        Seq::empty()
    } else {
        in_a_row(pictures.drop_last()) + pictures.last()
    }
}

/// A stream of pictures comes out picture by picture, in order, none lost and
/// none added, each up to its end marker.
pub proof fn law_stream_reassembled(f: FrameView, pictures: Seq<Seq<Seq<u8>>>)
    requires
        forall|i: int| 0 <= i < pictures.len() ==> carries_jpeg(#[trigger] pictures[i]),
    ensures
        f.frames(in_a_row(pictures)) == pictures.map_values(|p: Seq<Seq<u8>>| up_to_end(joined(p))),
    decreases pictures.len(),
{
    if pictures.len() == 0 {
        assert(f.frames(in_a_row(pictures)) =~= pictures.map_values(
            |p: Seq<Seq<u8>>| up_to_end(joined(p)),
        ));
    } else {
        let rest = pictures.drop_last();
        let last = pictures.last();
        assert(last == pictures[pictures.len() - 1]);
        assert forall|i: int| 0 <= i < rest.len() implies carries_jpeg(#[trigger] rest[i]) by {
            assert(rest[i] == pictures[i]);
        }
        law_stream_reassembled(f, rest);
        lemma_run_in_parts(f, in_a_row(rest), last);
        law_jpeg_reassembled(f.run(in_a_row(rest)), last);
        assert(f.frames(in_a_row(pictures)) =~= pictures.map_values(
            |p: Seq<Seq<u8>>| up_to_end(joined(p)),
        ));
    }
}

impl FrameView {
    /// The state after a series of bulk reads.
    pub open spec fn run_reads(self, replies: Seq<ReplyView>) -> FrameView
        decreases replies.len(),
    {
        if replies.len() == 0 {
            self
        } else {
            self.run_reads(replies.drop_last()).after(replies.last())
        }
    }

    /// The frames that a series of bulk reads gives.
    pub open spec fn frames_of_reads(self, replies: Seq<ReplyView>) -> Seq<Seq<u8>>
        decreases replies.len(),
    {
        if replies.len() == 0 {
            Seq::empty()
        } else {
            let done = self.frames_of_reads(replies.drop_last());
            match self.run_reads(replies.drop_last()).step(replies.last()) {
                FrameStepView::Frame(jpeg) => done.push(jpeg),
                _ => done,
            }
        }
    }
}

/// The payloads that a series of bulk reads brings; failed reads and reads
/// without payload bring none.
pub open spec fn payloads_of(replies: Seq<ReplyView>) -> Seq<Seq<u8>>
    decreases replies.len(),
{
    if replies.len() == 0 {
        Seq::empty()
    } else {
        let before = payloads_of(replies.drop_last());
        match payload_result(replies.last()) {
            Ok(p) => if p.len() > 0 {
                before.push(p)
            } else {
                before
            },
            Err(_) => before,
        }
    }
}

/// Bulk reads give the frames of the payloads that they bring: time-outs, other
/// failures and empty payloads in between change nothing.
pub proof fn law_reads_give_payload_frames(f: FrameView, replies: Seq<ReplyView>)
    ensures
        f.run_reads(replies) == f.run(payloads_of(replies)),
        f.frames_of_reads(replies) == f.frames(payloads_of(replies)),
    decreases replies.len(),
{
    if replies.len() > 0 {
        let before = payloads_of(replies.drop_last());
        law_reads_give_payload_frames(f, replies.drop_last());
        match payload_result(replies.last()) {
            Ok(p) => {
                if p.len() > 0 {
                    assert(before.push(p).drop_last() =~= before);
                    assert(before.push(p).last() == p);
                }
            },
            Err(_) => {},
        }
    }
}

/// A JPEG that bulk reads bring comes out as one frame up to its end marker,
/// whatever was collected before, with time-outs and empty payloads in between.
pub proof fn law_jpeg_read(f: FrameView, replies: Seq<ReplyView>)
    requires
        carries_jpeg(payloads_of(replies)),
    ensures
        f.frames_of_reads(replies) == seq![up_to_end(joined(payloads_of(replies)))],
        f.run_reads(replies) == FrameView::start(),
{
    law_reads_give_payload_frames(f, replies);
    law_jpeg_reassembled(f, payloads_of(replies));
}

/// A stream of pictures that bulk reads bring comes out picture by picture, in
/// order, none lost and none added, with time-outs and empty payloads in
/// between.
pub proof fn law_stream_read(
    f: FrameView,
    replies: Seq<ReplyView>,
    pictures: Seq<Seq<Seq<u8>>>,
)
    requires
        forall|i: int| 0 <= i < pictures.len() ==> carries_jpeg(#[trigger] pictures[i]),
        payloads_of(replies) == in_a_row(pictures),
    ensures
        f.frames_of_reads(replies) == pictures.map_values(
            |p: Seq<Seq<u8>>| up_to_end(joined(p)),
        ),
{
    law_reads_give_payload_frames(f, replies);
    law_stream_reassembled(f, pictures);
}

/// Every frame that a series of bulk reads gives is a JPEG, whatever the camera
/// sends.
pub proof fn law_frames_read_are_jpeg(replies: Seq<ReplyView>)
    ensures
        FrameView::start().run_reads(replies).wf(),
        forall|i: int|
            0 <= i < FrameView::start().frames_of_reads(replies).len() ==> is_jpeg(
                #[trigger] FrameView::start().frames_of_reads(replies)[i],
            ),
    decreases replies.len(),
{
    law_frames_are_jpeg(FrameView::start(), ReplyView::Data(Seq::empty()));
    if replies.len() > 0 {
        let done = FrameView::start().frames_of_reads(replies.drop_last());
        let now = FrameView::start().frames_of_reads(replies);
        law_frames_read_are_jpeg(replies.drop_last());
        law_frames_are_jpeg(FrameView::start().run_reads(replies.drop_last()), replies.last());
        assert forall|i: int| 0 <= i < now.len() implies is_jpeg(#[trigger] now[i]) by {
            if i < done.len() {
                assert(now[i] == done[i]);
            }
        }
    }
}

/// The camera's own answer is what gets committed, and a negotiation asks,
/// reads and commits in that order.
pub proof fn law_negotiation_commits_answer(s: StreamStartView, ack: Seq<u8>, answer: Seq<u8>)
    requires
        s.phase is Probe,
        answer.len() == PROBE_LEN,
    ensures
        s.pending() == Some(
            stream_view(REQ_CLASS_OUT, SET_CUR, VS_PROBE_CONTROL, DataView::Out(s.probe)),
        ),
        s.after(ReplyView::Data(ack)).pending() == Some(
            stream_view(REQ_CLASS_IN, GET_CUR, VS_PROBE_CONTROL, DataView::In(26)),
        ),
        s.after(ReplyView::Data(ack)).after(ReplyView::Data(answer)).pending() == Some(
            stream_view(REQ_CLASS_OUT, SET_CUR, VS_COMMIT_CONTROL, DataView::Out(answer)),
        ),
        s.after(ReplyView::Data(ack)).after(ReplyView::Data(answer)).after(
            ReplyView::Data(ack),
        ).outcome() == Ok::<(), CameraError>(()),
{
    assert(filled(PROBE_LEN as nat, answer) =~= answer);
}

/// A failed transfer ends a negotiation with an error, and an ended negotiation
/// stays as it is.
pub proof fn law_negotiation_failure_ends(s: StreamStartView, e: TransferError, r: ReplyView)
    ensures
        s.pending() is Some ==> s.after(ReplyView::Failed(e)).outcome() == Err::<(), CameraError>(
            CameraError::Negotiation(e),
        ),
        s.pending() is None ==> s.after(r) == s,
{
}

/// A payload behind a header that states its own length is found whole.
pub proof fn law_payload_behind_header(header: Seq<u8>, data: Seq<u8>)
    requires
        header.len() >= 2,
        header[0] == header.len(),
    ensures
        payload_of(header + data) == data,
{
    assert((header + data)[0] == header[0]);
    assert(payload_of(header + data) =~= data);
}

/// A negotiation block asks for what was given.
pub proof fn law_probe_round_trip(format: u8, frame: u8, interval: u32)
    ensures
        probe_bytes(format, frame, interval).len() == 26,
        negotiated(probe_bytes(format, frame, interval)).format == format,
        negotiated(probe_bytes(format, frame, interval)).frame == frame,
        negotiated(probe_bytes(format, frame, interval)).interval == interval,
{
    let s = probe_bytes(format, frame, interval);
    assert(s.subrange(4, 8) =~= u32_bytes(interval));
    lemma_u32_inside(s, 4, interval);
}

/// Every end marker is seen, however far into the bytes it stands: where the
/// bytes ff d9 stand at `i`, an end marker is found, and the part up to it is a
/// prefix that ends with ff d9, holds no other ff d9, and reaches no further
/// than the marker at `i`.
pub proof fn law_end_marker_is_found(s: Seq<u8>, i: int)
    requires
        0 <= i,
        i + 1 < s.len(),
        s[i] == 0xff,
        s[i + 1] == 0xd9,
    ensures
        ends_jpeg(s),
        ({
            let n = up_to_end(s).len() as int;
            &&& 2 <= n <= i + 2
            &&& up_to_end(s) == s.take(n)
            &&& s[n - 2] == 0xff && s[n - 1] == 0xd9
            &&& forall|j: int| 0 <= j < n - 2 ==> !(s[j] == 0xff && #[trigger] s[j + 1] == 0xd9)
        }),
{
    assert(ends_jpeg_at(s, i));
    let e = lemma_has_first_end(s, i);
    lemma_first_end(s, e);
    assert forall|j: int| 0 <= j < e implies !(s[j] == 0xff && #[trigger] s[j + 1] == 0xd9) by {
        assert(!ends_jpeg_at(s, j));
    }
}

/// Bytes without ff d9 hold no end marker.
pub proof fn law_no_end_marker(s: Seq<u8>)
    requires
        forall|j: int| 0 <= j < s.len() - 1 ==> !(s[j] == 0xff && #[trigger] s[j + 1] == 0xd9),
    ensures
        !ends_jpeg(s),
{
    assert forall|j: int| !ends_jpeg_at(s, j) by {
        if 0 <= j && j + 1 < s.len() {
            assert(!(s[j] == 0xff && s[j + 1] == 0xd9));
        }
    }
}

/// A picture of any length that one bulk read brings behind its header comes out
/// whole, whatever was collected before, and the collector is ready for the
/// next.
pub proof fn law_picture_in_one_read(f: FrameView, header: Seq<u8>, s: Seq<u8>)
    requires
        2 <= header.len() == header[0],
        s.len() >= 4,
        s[0] == 0xff,
        s[1] == 0xd8,
        s[s.len() - 2] == 0xff,
        s[s.len() - 1] == 0xd9,
        forall|j: int| 0 <= j < s.len() - 2 ==> !(s[j] == 0xff && #[trigger] s[j + 1] == 0xd9),
    ensures
        f.step(ReplyView::Data(header + s)) == FrameStepView::Frame(s),
        f.after(ReplyView::Data(header + s)) == (FrameView {
            frame: Seq::empty(),
            in_frame: false,
        }),
{
    law_payload_behind_header(header, s);
    law_end_marker_is_found(s, s.len() - 2);
    let n = up_to_end(s).len() as int;
    if n < s.len() {
        assert(!(s[n - 2] == 0xff && s[n - 2 + 1] == 0xd9));
    }
    assert(s.take(s.len() as int) =~= s);
}

/// A picture of any length that several bulk reads bring in pieces, each behind
/// its header, comes out whole with the last of them and not before, whatever
/// was collected before it began. Only the first piece begins with ff d8.
pub proof fn law_picture_in_pieces(
    f: FrameView,
    headers: Seq<Seq<u8>>,
    pieces: Seq<Seq<u8>>,
    replies: Seq<ReplyView>,
)
    requires
        0 < pieces.len() == headers.len() == replies.len(),
        forall|i: int|
            0 <= i < pieces.len() ==> 2 <= (#[trigger] headers[i]).len() == headers[i][0],
        forall|i: int|
            0 <= i < pieces.len() ==> #[trigger] replies[i] == ReplyView::Data(
                headers[i] + pieces[i],
            ),
        pieces[0].len() >= 2,
        forall|i: int|
            1 <= i < pieces.len() ==> (#[trigger] pieces[i]).len() > 0 && !(pieces[i].len() >= 2
                && pieces[i][0] == 0xff && pieces[i][1] == 0xd8),
        ({
            let s = joined(pieces);
            &&& s.len() >= 4
            &&& s[0] == 0xff && s[1] == 0xd8
            &&& s[s.len() - 2] == 0xff && s[s.len() - 1] == 0xd9
            &&& forall|j: int|
                0 <= j < s.len() - 2 ==> !(s[j] == 0xff && #[trigger] s[j + 1] == 0xd9)
        }),
    ensures
        f.frames_of_reads(replies) == seq![joined(pieces)],
        f.run_reads(replies) == (FrameView { frame: Seq::empty(), in_frame: false }),
{
    let s = joined(pieces);
    let n = pieces.len() as int;
    assert(payloads_of(replies) == pieces) by {
        lemma_payloads_of_pieces(headers, pieces, replies, n);
        assert(replies.take(n) =~= replies);
        assert(pieces.take(n) =~= pieces);
    }
    assert(pieces.last() == pieces[n - 1]);
    assert forall|k: int| 0 <= k < n implies !ends_jpeg(joined(#[trigger] pieces.take(k))) by {
        lemma_not_ended_before(pieces, k);
    }
    assert(ends_jpeg(s) && up_to_end(s) == s) by {
        law_end_marker_is_found(s, s.len() - 2);
        let m = up_to_end(s).len() as int;
        if m < s.len() {
            assert(!(s[m - 2] == 0xff && s[m - 2 + 1] == 0xd9));
        }
        assert(s.take(s.len() as int) =~= s);
    }
    assert(starts_jpeg(pieces[0])) by {
        lemma_joined_begins(pieces, 1);
        assert(pieces.take(1).drop_last() =~= Seq::<Seq<u8>>::empty());
        assert(joined(pieces.take(1).drop_last()) =~= Seq::<u8>::empty());
        assert(joined(pieces.take(1)) =~= pieces[0]);
        assert(pieces[0][0] == s[0] && pieces[0][1] == s[1]);
    }
    assert(carries_jpeg(pieces));
    law_jpeg_read(f, replies);
}

proof fn lemma_not_ended_before(pieces: Seq<Seq<u8>>, k: int)
    requires
        0 <= k < pieces.len(),
        pieces.last().len() > 0,
        forall|j: int|
            0 <= j < joined(pieces).len() - 2 ==> !(joined(pieces)[j] == 0xff && #[trigger] joined(
                pieces,
            )[j + 1] == 0xd9),
    ensures
        !ends_jpeg(joined(pieces.take(k))),
{
    let s = joined(pieces);
    let part = joined(pieces.take(k));
    lemma_joined_begins(pieces, k);
    assert(part.len() < s.len()) by {
        lemma_joined_begins(pieces.drop_last(), k);
        assert(pieces.drop_last().take(k) =~= pieces.take(k));
    }
    assert forall|j: int| 0 <= j < part.len() - 1 implies !(part[j] == 0xff && #[trigger] part[j
        + 1] == 0xd9) by {
        assert(part[j] == s[j] && part[j + 1] == s[j + 1]);
    }
    law_no_end_marker(part);
}

proof fn lemma_joined_begins(pieces: Seq<Seq<u8>>, k: int)
    requires
        0 <= k <= pieces.len(),
    ensures
        joined(pieces.take(k)).len() <= joined(pieces).len(),
        joined(pieces).take(joined(pieces.take(k)).len() as int) == joined(pieces.take(k)),
        forall|j: int|
            0 <= j < joined(pieces.take(k)).len() ==> joined(pieces.take(k))[j] == joined(pieces)[j],
    decreases pieces.len(),
{
    if k == pieces.len() {
        assert(pieces.take(k) =~= pieces);
    } else {
        lemma_joined_begins(pieces.drop_last(), k);
        assert(pieces.take(k) =~= pieces.drop_last().take(k));
    }
    assert(joined(pieces).take(joined(pieces.take(k)).len() as int) =~= joined(pieces.take(k)));
}

proof fn lemma_payloads_of_pieces(
    headers: Seq<Seq<u8>>,
    pieces: Seq<Seq<u8>>,
    replies: Seq<ReplyView>,
    k: int,
)
    requires
        0 <= k <= pieces.len(),
        pieces.len() == headers.len() == replies.len(),
        forall|i: int|
            0 <= i < pieces.len() ==> 2 <= (#[trigger] headers[i]).len() == headers[i][0],
        forall|i: int|
            0 <= i < pieces.len() ==> #[trigger] replies[i] == ReplyView::Data(
                headers[i] + pieces[i],
            ),
        forall|i: int| 0 <= i < pieces.len() ==> (#[trigger] pieces[i]).len() > 0,
    ensures
        payloads_of(replies.take(k)) == pieces.take(k),
    decreases k,
{
    if k == 0 {
        assert(replies.take(0) =~= Seq::<ReplyView>::empty());
        assert(pieces.take(0) =~= Seq::<Seq<u8>>::empty());
    } else {
        lemma_payloads_of_pieces(headers, pieces, replies, k - 1);
        assert(replies.take(k).drop_last() =~= replies.take(k - 1));
        assert(replies.take(k).last() == replies[k - 1]);
        law_payload_behind_header(headers[k - 1], pieces[k - 1]);
        assert(pieces.take(k) =~= pieces.take(k - 1).push(pieces[k - 1]));
    }
}

/// Reads that bring nothing leave a picture under way as it is: a time-out, a
/// read of one byte or none, a read shorter than its header says, and a header
/// alone.
pub proof fn law_idle_reads(f: FrameView, raw: Seq<u8>)
    requires
        raw.len() < 2 || raw[0] >= raw.len(),
    ensures
        f.after(ReplyView::Data(raw)) == f,
        f.step(ReplyView::Data(raw)) == FrameStepView::More,
        f.after(ReplyView::Failed(TransferError::Timeout)) == f,
        f.step(ReplyView::Failed(TransferError::Timeout)) == FrameStepView::More,
{
}

/// What a bulk read brings is everything behind as many bytes as its first byte
/// says.
pub proof fn law_payload_of_read(raw: Seq<u8>)
    requires
        raw.len() >= 2,
        raw[0] <= raw.len(),
    ensures
        payload_result(ReplyView::Data(raw)) == Ok::<Seq<u8>, CameraError>(
            raw.subrange(raw[0] as int, raw.len() as int),
        ),
{
    assert(payload_of(raw) =~= raw.subrange(raw[0] as int, raw.len() as int));
}

/// A bulk read that brings `p` behind as many bytes as its first byte says:
/// nothing is collected before a start marker, whatever comes, and a start marker
/// begins anew.
pub proof fn law_start_marker_begins(f: FrameView, raw: Seq<u8>, p: Seq<u8>)
    requires
        raw.len() >= 2,
        raw[0] < raw.len(),
        p == raw.skip(raw[0] as int),
    ensures
        !f.in_frame && !(p.len() >= 2 && p[0] == 0xff && p[1] == 0xd8)
            ==> f.after(ReplyView::Data(raw)) == f && f.step(ReplyView::Data(raw))
            == FrameStepView::More,
        p.len() >= 2 && p[0] == 0xff && p[1] == 0xd8 && (forall|j: int|
            0 <= j < p.len() - 1 ==> !(p[j] == 0xff && #[trigger] p[j + 1] == 0xd9)) ==> f.after(
            ReplyView::Data(raw),
        ) == (FrameView { frame: p, in_frame: true }) && f.step(ReplyView::Data(raw))
            == FrameStepView::More,
{
    if forall|j: int| 0 <= j < p.len() - 1 ==> !(p[j] == 0xff && #[trigger] p[j + 1] == 0xd9) {
        law_no_end_marker(p);
    }
}

/// A negotiation block has 26 bytes: the format at 2, the frame at 3, the
/// interval least significant byte first from 4 on, and zeros elsewhere.
pub proof fn law_probe_bytes(format: u8, frame: u8, interval: u32)
    ensures
        ({
            let b = probe_bytes(format, frame, interval);
            &&& b.len() == 26
            &&& b[0] == 0 && b[1] == 0 && b[2] == format && b[3] == frame
            &&& b[4] + 256 * b[5] + 65536 * b[6] + 16777216 * b[7] == interval
            &&& forall|i: int| 8 <= i < 26 ==> #[trigger] b[i] == 0
        }),
{
    let b = probe_bytes(format, frame, interval);
    assert(b.subrange(4, 8) =~= u32_bytes(interval));
    lemma_u32_inside(b, 4, interval);
}

/// What is read from a negotiation block: the bytes at 2 and 3, the integers at
/// 4, 18 and 22, and the whole frames that fit into a second.
pub proof fn law_negotiated_fields(s: Seq<u8>)
    requires
        s.len() >= 26,
    ensures
        ({
            let n = negotiated(s);
            &&& n.format == s[2] && n.frame == s[3]
            &&& n.interval == s[4] + 256 * s[5] + 65536 * s[6] + 16777216 * s[7]
            &&& n.max_frame_size == s[18] + 256 * s[19] + 65536 * s[20] + 16777216 * s[21]
            &&& n.max_payload == s[22] + 256 * s[23] + 65536 * s[24] + 16777216 * s[25]
            &&& n.interval > 0 ==> n.fps * n.interval <= 10_000_000 < (n.fps + 1) * n.interval
            &&& n.interval == 0 ==> n.fps == 10_000_000
        }),
{
    let n = negotiated(s);
    let i = n.interval as int;
    assert(i == u32_le(s, 4));
    if i > 0 {
        let q = 10_000_000int / i;
        vstd::arithmetic::div_mod::lemma_fundamental_div_mod(10_000_000, i);
        vstd::arithmetic::div_mod::lemma_mod_bound(10_000_000, i);
        assert(q <= 10_000_000) by (nonlinear_arith)
            requires
                i >= 1,
                i * q <= 10_000_000,
                q >= 0 || q < 0,
        ;
        assert(q >= 0) by (nonlinear_arith)
            requires
                i >= 1,
                i * q > 10_000_000 - i,
                i * q <= 10_000_000,
                i <= 10_000_000 || i * q >= 0 || q >= -1,
        ;
        assert(n.fps == q);
        assert(q * i <= 10_000_000 < (q + 1) * i) by (nonlinear_arith)
            requires
                i * q <= 10_000_000,
                i * q > 10_000_000 - i,
        ;
    }
}

/// What is committed is the camera's answer, completed with zeros to 26 bytes.
pub proof fn law_commit_is_the_answer(
    format: u8,
    frame: u8,
    interval: u32,
    ack: Seq<u8>,
    answer: Seq<u8>,
)
    ensures
        ({
            let s0 = StreamStartView::start(format, frame, interval);
            let s1 = s0.after(ReplyView::Data(ack));
            let s2 = s1.after(ReplyView::Data(answer));
            let s3 = s2.after(ReplyView::Data(ack));
            &&& s0.pending() matches Some(t) && {
                &&& t.request_type == 0x21 && t.request == 0x01 && t.value == 0x100 && t.index == 1
                &&& t.data matches DataView::Out(b) && b == probe_bytes(format, frame, interval)
            }
            &&& s1.pending() matches Some(t) && {
                &&& t.request_type == 0xa1 && t.request == 0x81 && t.value == 0x100 && t.index == 1
                &&& t.data == DataView::In(26)
            }
            &&& s2.pending() matches Some(t) && {
                &&& t.request_type == 0x21 && t.request == 0x01 && t.value == 0x200 && t.index == 1
                &&& t.data matches DataView::Out(b) && {
                    &&& b.len() == 26
                    &&& forall|i: int|
                        0 <= i < 26 ==> #[trigger] b[i] == (if i < answer.len() {
                            answer[i]
                        } else {
                            0
                        })
                }
            }
            &&& s2.current.len() == 26
            &&& s2.got == (if answer.len() < 26 { answer.len() } else { 26 })
            &&& s3.pending() is None && s3.outcome() == Ok::<(), CameraError>(())
        }),
{
}

/// A bulk read that brings `p` and completes a picture: of what was collected
/// with it, the bytes up to the first ff d9 come out, what follows is dropped, and
/// the collector is ready for the next picture. What was collected is `p` alone
/// where it begins with ff d8, and else what was there with `p` behind it.
pub proof fn law_picture_completed(
    f: FrameView,
    raw: Seq<u8>,
    p: Seq<u8>,
    whole: Seq<u8>,
    n: int,
)
    requires
        raw.len() >= 2,
        raw[0] < raw.len(),
        p == raw.skip(raw[0] as int),
        ({
            ||| p.len() >= 2 && p[0] == 0xff && p[1] == 0xd8 && whole == p
            ||| !(p.len() >= 2 && p[0] == 0xff && p[1] == 0xd8) && f.in_frame && whole == f.frame + p
        }),
        2 <= n <= whole.len(),
        whole[n - 2] == 0xff,
        whole[n - 1] == 0xd9,
        forall|j: int| 0 <= j < n - 2 ==> !(whole[j] == 0xff && #[trigger] whole[j + 1] == 0xd9),
    ensures
        f.step(ReplyView::Data(raw)) == FrameStepView::Frame(whole.take(n)),
        f.after(ReplyView::Data(raw)) == (FrameView { frame: Seq::empty(), in_frame: false }),
{
    law_end_marker_is_found(whole, n - 2);
    let m = up_to_end(whole).len() as int;
    if m < n {
        assert(!(whole[m - 2] == 0xff && whole[m - 2 + 1] == 0xd9));
    }
}

/// A bulk read that brings `p` and does not complete a picture: it is collected
/// behind what is there.
pub proof fn law_picture_under_way(f: FrameView, raw: Seq<u8>, p: Seq<u8>, whole: Seq<u8>)
    requires
        raw.len() >= 2,
        raw[0] < raw.len(),
        p == raw.skip(raw[0] as int),
        !(p.len() >= 2 && p[0] == 0xff && p[1] == 0xd8),
        f.in_frame,
        whole == f.frame + p,
        forall|j: int|
            0 <= j < whole.len() - 1 ==> !(whole[j] == 0xff && #[trigger] whole[j + 1] == 0xd9),
    ensures
        f.step(ReplyView::Data(raw)) == FrameStepView::More,
        f.after(ReplyView::Data(raw)) == (FrameView { frame: whole, in_frame: true }),
{
    law_no_end_marker(whole);
}

/// A failed bulk read delivers its error, except for a time-out, which delivers
/// nothing; neither touches a picture under way.
pub proof fn law_failed_read(f: FrameView, e: TransferError)
    ensures
        e is Timeout ==> payload_result(ReplyView::Failed(e)) == Ok::<Seq<u8>, CameraError>(
            Seq::empty(),
        ),
        e !is Timeout ==> payload_result(ReplyView::Failed(e)) == Err::<Seq<u8>, CameraError>(
            CameraError::BulkRead(e),
        ),
        e !is Timeout ==> f.step(ReplyView::Failed(e)) == FrameStepView::Failed(
            CameraError::BulkRead(e),
        ),
        f.after(ReplyView::Failed(e)) == f,
        FrameView::start().frame.len() == 0,
        !FrameView::start().in_frame,
{
}

/// A failed transfer of a negotiation ends it with its error, and nothing is
/// handed back where nothing was claimed.
pub proof fn law_negotiation_error(s: StreamStartView, e: TransferError)
    requires
        s.phase is Probe || s.phase is Read || s.phase is Commit,
    ensures
        s.pending() is Some,
        s.after(ReplyView::Failed(e)).pending() is None,
        s.after(ReplyView::Failed(e)).outcome() == Err::<(), CameraError>(
            CameraError::Negotiation(e),
        ),
        release_plan(Seq::empty()).len() == 0,
{
}

/// The counterpart of a step holds all of it.
pub proof fn law_step_counterpart(s: FrameStep)
    ensures
        match s {
            FrameStep::More => s@ == FrameStepView::More,
            FrameStep::Frame(jpeg) => s@ == FrameStepView::Frame(jpeg@),
            FrameStep::Failed(e) => s@ == FrameStepView::Failed(e),
        },
{
}

/// A stream starts with MJPEG at 240x320, thirty frames a second, and one bulk
/// read takes 65536 bytes at most.
pub proof fn law_stream_choices()
    ensures
        FORMAT_MJPEG == 2,
        FRAME_240X320 == 2,
        INTERVAL_30_FPS == 333_333,
        BULK_READ_LEN == 65536,
        TICKS_PER_SECOND / INTERVAL_30_FPS == 30,
{
}

} // verus!

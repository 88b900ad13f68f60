//! What the programs decide while the stream runs.
use vstd::prelude::*;

use crate::args::DumpMode;
use crate::stream::{
    is_jpeg, law_frames_read_are_jpeg, law_idle_reads, law_payload_behind_header,
    law_picture_in_one_read, payload_result, payloads_of, FrameIter, FrameStep, FrameStepView,
    FrameView,
};
use crate::transaction::joined;
use crate::transfer::{CameraError, Device, Reply, ReplyView, TransferError};
use crate::wire::copy_range;

verus! {

/// Counts the frames that were saved.
pub struct FrameSaver {
    pub wanted: usize,
    pub saved: usize,
}

impl FrameSaver {
    pub fn new(wanted: usize) -> (s: FrameSaver)
        ensures
            s.wanted == wanted,
            s.saved == 0,
    {
        FrameSaver { wanted, saved: 0 }
    }

    /// Whether the next frame is to be saved.
    pub fn wants(&self) -> (r: bool)
        ensures
            r == (self.saved < self.wanted),
    {
        self.saved < self.wanted
    }

    /// A frame was saved.
    pub fn count(&mut self)
        requires
            old(self).saved < old(self).wanted,
        ensures
            final(self).saved == old(self).saved + 1,
            final(self).wanted == old(self).wanted,
    {
        self.saved = self.saved + 1;
    }
}

/// Frames at the start of a stream that are stale.
pub const STALE_FRAMES: u8 = 9;

/// Leaves out the stale frames that a stream begins with.
pub struct BurstFilter {
    pub stale: u8,
}

impl BurstFilter {
    pub fn new() -> (f: BurstFilter)
        ensures
            f.stale == 9,
    {
        BurstFilter { stale: STALE_FRAMES }
    }

    /// Takes the next frame; whether it is a fresh one.
    pub fn is_fresh(&mut self) -> (fresh: bool)
        ensures
            fresh == (old(self).stale == 0),
            final(self).stale == (if old(self).stale == 0 { 0 } else { old(self).stale - 1 }),
    {
        if self.stale == 0 {
            true
        } else {
            self.stale = self.stale - 1;
            false
        }
    }
}

/// Failed captures in a row that a recording puts up with.
pub const MAX_FAILURES: u32 = 5;

/// Failed captures in a row.
pub struct FailureCount {
    pub failures: u32,
}

impl FailureCount {
    pub fn new() -> (c: FailureCount)
        ensures
            c.failures == 0,
    {
        FailureCount { failures: 0 }
    }

    /// A capture succeeded.
    pub fn succeeded(&mut self)
        ensures
            final(self).failures == 0,
    {
        self.failures = 0;
    }

    /// A capture failed. The result says whether to give up.
    pub fn failed(&mut self) -> (give_up: bool)
        requires
            old(self).failures < u32::MAX,
        ensures
            final(self).failures == old(self).failures + 1,
            give_up == (final(self).failures > 5),
    {
        self.failures = self.failures + 1;
        self.failures > MAX_FAILURES
    }
}

/// Frames that a stream dump saves at most.
pub const MAX_DUMP_FRAMES: usize = 3;

/// Bytes from which on a raw stream dump is long enough.
pub const MAX_DUMP_BYTES: u64 = 0x800000;

/// Bytes of the stream that are shown where no frame came.
pub const DUMP_HEAD_LEN: usize = 16;

/// A dump of the video stream under way.
pub struct StreamDump {
    mode: DumpMode,
    frames: FrameIter,
    saved: usize,
    total: u64,
}

/// Mathematical counterpart of [`StreamDump`].
#[verifier::ext_equal]
pub struct StreamDumpView {
    pub mode: DumpMode,
    pub frames: FrameView,
    /// Frames saved.
    pub saved: nat,
    /// Payload bytes written.
    pub total: nat,
}

impl View for StreamDump {
    type V = StreamDumpView;

    closed spec fn view(&self) -> StreamDumpView {
        StreamDumpView {
            mode: self.mode,
            frames: self.frames@,
            saved: self.saved as nat,
            total: self.total as nat,
        }
    }
}

/// What to write after a bulk read.
#[derive(Debug, PartialEq, Eq)]
pub enum DumpWrite {
    Nothing,
    /// A frame, and its number from zero.
    Frame(usize, Vec<u8>),
    /// A payload.
    Payload(Vec<u8>),
    /// The read failed.
    Failed(CameraError),
}

/// Mathematical counterpart of [`DumpWrite`].
pub enum DumpWriteView {
    Nothing,
    Frame(nat, Seq<u8>),
    Payload(Seq<u8>),
    Failed(CameraError),
}

impl View for DumpWrite {
    type V = DumpWriteView;

    open spec fn view(&self) -> DumpWriteView {
        match *self {
            DumpWrite::Nothing => DumpWriteView::Nothing,
            DumpWrite::Frame(n, jpeg) => DumpWriteView::Frame(n as nat, jpeg@),
            DumpWrite::Payload(p) => DumpWriteView::Payload(p@),
            DumpWrite::Failed(e) => DumpWriteView::Failed(e),
        }
    }
}

impl StreamDumpView {
    pub open spec fn start(mode: DumpMode) -> StreamDumpView {
        StreamDumpView { mode, frames: FrameView::start(), saved: 0, total: 0 }
    }

    /// The limit of the mode is not reached.
    pub open spec fn goes_on(self) -> bool {
        match self.mode {
            DumpMode::Jpeg => self.saved < 3,
            DumpMode::Raw => self.total < 8 * 1024 * 1024,
        }
    }

    /// What to write after a bulk read.
    pub open spec fn write(self, r: ReplyView) -> DumpWriteView {
        match self.mode {
            DumpMode::Jpeg => match self.frames.step(r) {
                FrameStepView::More => DumpWriteView::Nothing,
                FrameStepView::Frame(jpeg) => DumpWriteView::Frame(self.saved, jpeg),
                FrameStepView::Failed(e) => DumpWriteView::Failed(e),
            },
            DumpMode::Raw => match payload_result(r) {
                Ok(p) => if p.len() == 0 {
                    DumpWriteView::Nothing
                } else {
                    DumpWriteView::Payload(p)
                },
                Err(e) => DumpWriteView::Failed(e),
            },
        }
    }

    /// The state after a bulk read.
    pub open spec fn after(self, r: ReplyView) -> StreamDumpView {
        match self.mode {
            DumpMode::Jpeg => StreamDumpView {
                frames: self.frames.after(r),
                saved: if self.frames.step(r) is Frame { self.saved + 1 } else { self.saved },
                ..self
            },
            DumpMode::Raw => StreamDumpView {
                total: match payload_result(r) {
                    Ok(p) => self.total + p.len(),
                    Err(_) => self.total,
                },
                ..self
            },
        }
    }

    /// No frame was saved where frames were asked for.
    pub open spec fn is_void(self) -> bool {
        self.mode is Jpeg && self.saved == 0
    }
}

impl StreamDump {
    /// Starts a dump.
    pub fn new(mode: DumpMode) -> (d: StreamDump)
        ensures
            d@ == StreamDumpView::start(mode),
    {
        StreamDump { mode, frames: Device::frames(), saved: 0, total: 0 }
    }

    /// Whether more is to be read: the limit of the mode is not reached and the
    /// fifteen seconds are not over.
    pub fn goes_on(&self, elapsed_ns: u128) -> (r: bool)
        ensures
            r == (self@.goes_on() && elapsed_ns < 15_000_000_000),
    {
        let open: bool = match self.mode {
            DumpMode::Jpeg => self.saved < MAX_DUMP_FRAMES,
            DumpMode::Raw => self.total < MAX_DUMP_BYTES,
        };
        open && has_time(elapsed_ns, DUMP_SECONDS)
    }

    /// Takes a bulk read and says what to write.
    pub fn take(&mut self, reply: &Reply) -> (w: DumpWrite)
        requires
            old(self)@.goes_on(),
            old(self)@.mode is Raw ==> (reply@ matches ReplyView::Data(d) ==> old(self)@.total
                + d.len() <= u64::MAX),
        ensures
            final(self)@ == old(self)@.after(reply@),
            w@ == old(self)@.write(reply@),
    {
        match self.mode {
            DumpMode::Jpeg => match self.frames.next(reply) {
                FrameStep::More => DumpWrite::Nothing,
                FrameStep::Frame(jpeg) => {
                    let n: usize = self.saved;
                    self.saved = n + 1;
                    DumpWrite::Frame(n, jpeg)
                },
                FrameStep::Failed(e) => DumpWrite::Failed(e),
            },
            DumpMode::Raw => match Device::read_payload(reply) {
                Ok(p) => {
                    self.total = self.total + p.len() as u64;
                    if p.len() == 0 {
                        DumpWrite::Nothing
                    } else {
                        DumpWrite::Payload(p)
                    }
                },
                Err(e) => DumpWrite::Failed(e),
            },
        }
    }

    /// What the dump wrote: the payload bytes, zero for a dump of frames. It is
    /// an error, with the begin of what was collected, where frames were asked
    /// for and none was saved.
    pub fn outcome(&self) -> (r: Result<u64, Vec<u8>>)
        ensures
            match r {
                Ok(total) => !self@.is_void() && total == self@.total,
                Err(head) => self@.is_void() && head@ == (if self@.frames.frame.len() < 16 {
                    self@.frames.frame
                } else {
                    self@.frames.frame.take(16)
                }),
            },
    {
        match self.mode {
            DumpMode::Raw => Ok(self.total),
            DumpMode::Jpeg => {
                if self.saved > 0 {
                    return Ok(self.total);
                }
                let frame: Vec<u8> = self.frames.partial();
                let n: usize = if frame.len() < DUMP_HEAD_LEN {
                    frame.len()
                } else {
                    DUMP_HEAD_LEN
                };
                let head: Vec<u8> = copy_range(frame.as_slice(), 0, n);
                assert(head@ =~= (if frame@.len() < 16 { frame@ } else { frame@.take(16) }));
                Err(head)
            },
        }
    }
}

impl StreamDumpView {
    /// The state after a series of bulk reads.
    pub open spec fn run(self, replies: Seq<ReplyView>) -> StreamDumpView
        decreases replies.len(),
    {
        if replies.len() == 0 {
            self
        } else {
            self.run(replies.drop_last()).after(replies.last())
        }
    }

    /// The frames that a series of bulk reads has written, with their numbers.
    pub open spec fn frames_written(self, replies: Seq<ReplyView>) -> Seq<(nat, Seq<u8>)>
        decreases replies.len(),
    {
        if replies.len() == 0 {
            Seq::empty()
        } else {
            let before = self.frames_written(replies.drop_last());
            match self.run(replies.drop_last()).write(replies.last()) {
                DumpWriteView::Frame(n, jpeg) => before.push((n, jpeg)),
                _ => before,
            }
        }
    }

    /// The payloads that a series of bulk reads has written.
    pub open spec fn payloads_written(self, replies: Seq<ReplyView>) -> Seq<Seq<u8>>
        decreases replies.len(),
    {
        if replies.len() == 0 {
            Seq::empty()
        } else {
            let before = self.payloads_written(replies.drop_last());
            match self.run(replies.drop_last()).write(replies.last()) {
                DumpWriteView::Payload(p) => before.push(p),
                _ => before,
            }
        }
    }

    /// Every read was made while the dump went on.
    pub open spec fn read_while_going(self, replies: Seq<ReplyView>) -> bool {
        forall|k: int| 0 <= k < replies.len() ==> self.run(#[trigger] replies.take(k)).goes_on()
    }
}

/// A dump of frames writes exactly the frames that the reads give, numbered from
/// zero in order, every one a JPEG, three at most, and it is an error exactly
/// where there is none.
pub proof fn law_frame_dump(replies: Seq<ReplyView>)
    requires
        StreamDumpView::start(DumpMode::Jpeg).read_while_going(replies),
    ensures
        ({
            let d = StreamDumpView::start(DumpMode::Jpeg);
            let frames = FrameView::start().frames_of_reads(replies);
            let written = d.frames_written(replies);
            &&& written == Seq::new(frames.len(), |i: int| (i as nat, frames[i]))
            &&& written.len() <= 3
            &&& forall|i: int|
                0 <= i < written.len() ==> (#[trigger] written[i]).0 == i && is_jpeg(written[i].1)
            &&& d.payloads_written(replies).len() == 0
            &&& d.run(replies).saved == written.len()
            &&& d.run(replies).is_void() <==> written.len() == 0
        }),
{
    let d = StreamDumpView::start(DumpMode::Jpeg);
    let frames = FrameView::start().frames_of_reads(replies);
    lemma_frame_dump(replies);
    law_frames_read_are_jpeg(replies);
    let written = d.frames_written(replies);
    assert forall|i: int| 0 <= i < written.len() implies (#[trigger] written[i]).0 == i && is_jpeg(
        written[i].1,
    ) by {
        assert(is_jpeg(frames[i]));
    }
    if replies.len() > 0 {
        let n = replies.len() - 1;
        assert(replies.take(n) =~= replies.drop_last());
        assert(d.run(replies.take(n)).goes_on());
        lemma_frame_dump(replies.drop_last());
    }
}

proof fn lemma_frame_dump(replies: Seq<ReplyView>)
    ensures
        ({
            let d = StreamDumpView::start(DumpMode::Jpeg);
            let frames = FrameView::start().frames_of_reads(replies);
            &&& d.run(replies).mode is Jpeg
            &&& d.run(replies).frames == FrameView::start().run_reads(replies)
            &&& d.run(replies).saved == frames.len()
            &&& d.frames_written(replies) == Seq::new(frames.len(), |i: int| (i as nat, frames[i]))
            &&& d.payloads_written(replies).len() == 0
        }),
    decreases replies.len(),
{
    let d = StreamDumpView::start(DumpMode::Jpeg);
    let frames = FrameView::start().frames_of_reads(replies);
    if replies.len() > 0 {
        lemma_frame_dump(replies.drop_last());
    }
    assert(d.frames_written(replies) =~= Seq::new(frames.len(), |i: int| (i as nat, frames[i])));
}

/// A raw dump writes exactly the payloads that the reads bring, in order; its
/// total is the number of bytes written, and it is never an error.
pub proof fn law_raw_dump(replies: Seq<ReplyView>)
    ensures
        ({
            let d = StreamDumpView::start(DumpMode::Raw);
            &&& d.run(replies).mode is Raw
            &&& d.payloads_written(replies) == payloads_of(replies)
            &&& d.frames_written(replies).len() == 0
            &&& d.run(replies).total == joined(payloads_of(replies)).len()
            &&& !d.run(replies).is_void()
        }),
    decreases replies.len(),
{
    if replies.len() > 0 {
        let before = payloads_of(replies.drop_last());
        law_raw_dump(replies.drop_last());
        match payload_result(replies.last()) {
            Ok(p) => {
                if p.len() > 0 {
                    assert(before.push(p).drop_last() =~= before);
                }
            },
            Err(_) => {},
        }
    }
}

/// Nanoseconds in a second.
pub const NANOS_PER_SECOND: u128 = 1_000_000_000;

/// Seconds that a stream dump takes at most.
pub const DUMP_SECONDS: u32 = 15;

/// Seconds that a raw look at the video endpoint takes.
pub const PROBE_SECONDS: u32 = 5;

/// Seconds that the interrupt endpoint is listened to.
pub const LISTEN_SECONDS: u32 = 5;

/// Seconds that the video is drained while selectors are read.
pub const DRAIN_SECONDS: u32 = 12;

/// Seconds between two samples of a recording.
pub const SAMPLE_SECONDS: u32 = 60;

/// Seconds that the first frame may take.
pub const FIRST_FRAME_SECONDS: u32 = 5;

/// Looks for saved frames, a tenth of a second apart, before the program ends.
pub const SAVE_LOOKS: u32 = 50;

/// Whether a limit in seconds is still ahead.
pub fn has_time(elapsed_ns: u128, limit_s: u32) -> (r: bool)
    ensures
        r == (elapsed_ns < limit_s * 1_000_000_000),
{
    elapsed_ns < (limit_s as u128) * NANOS_PER_SECOND
}

/// What to do while waiting.
#[derive(Debug, Clone, Copy, PartialEq, Eq)]
pub enum Wait {
    /// What was waited for is there.
    Go,
    /// Look again later.
    Again,
    /// It takes too long.
    GiveUp,
}

/// Waiting for the first frame of a stream: commands fail before it. More than
/// five seconds are too long.
pub fn wait_for_frame(ready: bool, waited_ns: u128) -> (w: Wait)
    ensures
        w == (if ready {
            Wait::Go
        } else if waited_ns > 5_000_000_000 {
            Wait::GiveUp
        } else {
            Wait::Again
        }),
{
    if ready {
        Wait::Go
    } else if waited_ns > (FIRST_FRAME_SECONDS as u128) * NANOS_PER_SECOND {
        Wait::GiveUp
    } else {
        Wait::Again
    }
}

impl FrameSaver {
    /// Waiting for the frames to be saved; `looks` counts the looks before this
    /// one. Fifty looks are enough.
    pub fn wait(&self, looks: u32) -> (w: Wait)
        ensures
            w == (if self.saved >= self.wanted {
                Wait::Go
            } else if looks >= 50 {
                Wait::GiveUp
            } else {
                Wait::Again
            }),
    {
        if !self.wants() {
            Wait::Go
        } else if looks >= SAVE_LOOKS {
            Wait::GiveUp
        } else {
            Wait::Again
        }
    }
}

/// Whether a recording sleeps on before its next sample.
pub fn sleeps_on(running: bool, waited_ns: u128) -> (r: bool)
    ensures
        r == (running && waited_ns < 60_000_000_000),
{
    running && has_time(waited_ns, SAMPLE_SECONDS)
}

/// A dump of frames goes on until three are saved; a raw dump goes on until
/// 8388608 bytes are written.
pub proof fn law_dump_limits(d: StreamDumpView)
    ensures
        d.mode is Jpeg ==> (d.goes_on() <==> d.saved < 3),
        d.mode is Raw ==> (d.goes_on() <==> d.total < 8388608),
        d.is_void() <==> d.mode is Jpeg && d.saved == 0,
        StreamDumpView::start(d.mode).mode == d.mode,
        StreamDumpView::start(d.mode).saved == 0,
        StreamDumpView::start(d.mode).total == 0,
        StreamDumpView::start(d.mode).frames.frame.len() == 0,
        !StreamDumpView::start(d.mode).frames.in_frame,
{
}

/// What a dump writes after one read, in bytes: where frames are asked for, a
/// picture that came whole is written under the number of frames before it;
/// where the raw stream is, all that came behind the header is written. A read
/// that brings nothing writes nothing, and a failed one is told.
pub proof fn law_dump_of_one_read(
    d: StreamDumpView,
    header: Seq<u8>,
    s: Seq<u8>,
    e: TransferError,
)
    requires
        2 <= header.len() == header[0],
    ensures
        d.mode is Jpeg && s.len() >= 4 && s[0] == 0xff && s[1] == 0xd8 && s[s.len() - 2] == 0xff
            && s[s.len() - 1] == 0xd9 && (forall|j: int|
            0 <= j < s.len() - 2 ==> !(s[j] == 0xff && #[trigger] s[j + 1] == 0xd9)) ==> {
            &&& d.write(ReplyView::Data(header + s)) == DumpWriteView::Frame(d.saved, s)
            &&& d.after(ReplyView::Data(header + s)).saved == d.saved + 1
        },
        d.mode is Raw && s.len() > 0 ==> {
            &&& d.write(ReplyView::Data(header + s)) == DumpWriteView::Payload(s)
            &&& d.after(ReplyView::Data(header + s)).total == d.total + s.len()
        },
        d.write(ReplyView::Data(header)) == DumpWriteView::Nothing,
        d.after(ReplyView::Data(header)) == d,
        e !is Timeout ==> d.write(ReplyView::Failed(e)) == DumpWriteView::Failed(
            CameraError::BulkRead(e),
        ),
        d.after(ReplyView::Failed(e)).saved == d.saved,
        d.after(ReplyView::Failed(e)).total == d.total,
{
    law_payload_behind_header(header, s);
    law_payload_behind_header(header, Seq::empty());
    assert(header + Seq::<u8>::empty() =~= header);
    if d.mode is Jpeg && s.len() >= 4 && s[0] == 0xff && s[1] == 0xd8 && s[s.len() - 2] == 0xff && s[
    s.len() - 1] == 0xd9 && (forall|j: int|
        0 <= j < s.len() - 2 ==> !(s[j] == 0xff && #[trigger] s[j + 1] == 0xd9)) {
        law_picture_in_one_read(d.frames, header, s);
    }
    law_idle_reads(d.frames, header);
}

/// A dump keeps its mode, and each mode counts what it writes alone.
pub proof fn law_dump_keeps_mode(d: StreamDumpView, r: ReplyView)
    ensures
        d.after(r).mode == d.mode,
        d.mode is Jpeg ==> d.after(r).total == d.total && d.after(r).frames == d.frames.after(r),
        d.mode is Raw ==> d.after(r).saved == d.saved,
{
}

/// The counterpart of what is written holds all of it.
pub proof fn law_write_counterpart(w: DumpWrite)
    ensures
        match w {
            DumpWrite::Nothing => w@ == DumpWriteView::Nothing,
            DumpWrite::Frame(n, jpeg) => w@ == DumpWriteView::Frame(n as nat, jpeg@),
            DumpWrite::Payload(p) => w@ == DumpWriteView::Payload(p@),
            DumpWrite::Failed(e) => w@ == DumpWriteView::Failed(e),
        },
{
}

/// What a dump of frames makes of a step of the collector: a frame is written
/// under the number of frames before it, an error is told, and else nothing
/// happens.
pub proof fn law_dump_follows_collector(d: StreamDumpView, r: ReplyView)
    requires
        d.mode is Jpeg,
    ensures
        match d.frames.step(r) {
            FrameStepView::Frame(jpeg) => d.write(r) == DumpWriteView::Frame(d.saved, jpeg)
                && d.after(r).saved == d.saved + 1,
            FrameStepView::More => d.write(r) == DumpWriteView::Nothing && d.after(r).saved
                == d.saved,
            FrameStepView::Failed(e) => d.write(r) == DumpWriteView::Failed(e) && d.after(r).saved
                == d.saved,
        },
{
}

/// How long the programs look: five seconds at the raw endpoint and at the
/// interrupt endpoint, twelve while the video is drained.
pub proof fn law_looking_times()
    ensures
        PROBE_SECONDS == 5,
        LISTEN_SECONDS == 5,
        DRAIN_SECONDS == 12,
{
}

} // verus!

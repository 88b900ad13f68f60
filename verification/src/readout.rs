//! Two-phase reads of the diagnostic programs, in several ways to fetch the
//! result.
//!
//! The first phase learns the length of the result. The second tries one of
//! several plans to read it, and notes every failure with the camera's error
//! code.
use vstd::prelude::*;

use crate::probe::{
    law_first_phase, law_numbered_chunks_collected, numbered_chunks, ChunkCollector, CollectorView,
    HeadPhase, PhaseA, PhaseAView, PhaseError,
};
use crate::radiometric::SUB_CAPTURE;
use crate::roi::{GROUP_THERMAL, SUB_ROI_SEARCH};
use crate::survey::code_of;
use crate::transaction::{carries, framed, joined, lemma_joined_prefix, CHUNK_LEN};
use crate::transfer::{
    select_view, transfer_view, xu_get_len_view, xu_get_view, xu_set_view, ControlTransfer,
    DataView, Device, Reply, ReplyView, TransferError, TransferView, SEL_ERROR,
};
use crate::wire::{
    copy_bytes, copy_range, filled, law_u32_bytes_of_read, receive, received, u32_le,
};

verus! {

/// How to read the result.
#[derive(Debug, Clone, Copy, PartialEq, Eq)]
pub enum ReadPlan {
    /// One read of the announced length; a failure is not looked into.
    Once,
    /// One read of the announced length.
    Direct,
    /// Send the request again, then one read of the announced length.
    Resend,
    /// Send the request again, ask for the length, then one read of that length.
    Measured,
    /// Send the begin of the request again, then reads of what is missing; chunk
    /// headers are stripped.
    Stripped,
    /// Reads of 512 bytes; chunk headers are stripped and their numbers watched.
    Numbered,
}

/// The plan insists on a head of five bytes.
pub open spec fn insists(plan: ReadPlan) -> bool {
    !(plan is Once) && !(plan is Numbered)
}

/// The command that the plan reads from: a capture in numbered chunks, a region
/// search otherwise.
pub open spec fn command_of(plan: ReadPlan) -> u8 {
    if plan is Numbered {
        SUB_CAPTURE
    } else {
        SUB_ROI_SEARCH
    }
}

/// A failed transfer of the second phase.
#[derive(Debug, Clone, Copy, PartialEq, Eq)]
pub enum ReadError {
    Send(TransferError),
    Length(TransferError),
    Get(TransferError),
}

/// Where the second phase stands.
#[derive(Debug, Clone, Copy, PartialEq, Eq)]
pub enum ReadPhase {
    Send,
    Length,
    Read { len: usize },
    Chunks,
    Code(ReadError),
    Done,
}

/// Longest value that a measured read asks for.
pub const MAX_MEASURED_LEN: u32 = 4096;

/// Bytes of the request that a stripped read sends again.
pub const SHORT_REQUEST_LEN: usize = 5;

/// The second phase of a two-phase read under way.
pub struct ResultRead {
    plan: ReadPlan,
    request: Vec<u8>,
    phase: ReadPhase,
    settle: bool,
    measured: Option<u32>,
    raw: Option<Vec<u8>>,
    chunks: ChunkCollector,
    jumps: Vec<(u32, u32)>,
    failures: Vec<(ReadError, Option<u8>)>,
}

/// Mathematical counterpart of [`ResultRead`].
#[verifier::ext_equal]
pub struct ResultView {
    pub plan: ReadPlan,
    pub request: Seq<u8>,
    pub phase: ReadPhase,
    /// The camera needs a moment before the pending transfer.
    pub settle: bool,
    /// The length that a measured read was told.
    pub measured: Option<u32>,
    /// What a single read brought.
    pub raw: Option<Seq<u8>>,
    pub chunks: CollectorView,
    /// Where the numbers of chunks jumped.
    pub jumps: Seq<(u32, u32)>,
    /// What failed, with the camera's error code.
    pub failures: Seq<(ReadError, Option<u8>)>,
}

impl View for ResultRead {
    type V = ResultView;

    closed spec fn view(&self) -> ResultView {
        ResultView {
            plan: self.plan,
            request: self.request@,
            phase: self.phase,
            settle: self.settle,
            measured: self.measured,
            raw: match self.raw {
                Some(d) => Some(d@),
                None => None,
            },
            chunks: self.chunks@,
            jumps: self.jumps@,
            failures: self.failures@,
        }
    }
}

impl ResultView {
    pub open spec fn start(plan: ReadPlan, request: Seq<u8>, total: usize) -> ResultView {
        let phase = match plan {
            ReadPlan::Once => ReadPhase::Read { len: total },
            ReadPlan::Direct => ReadPhase::Read { len: total },
            ReadPlan::Numbered => if total == 0 { ReadPhase::Done } else { ReadPhase::Chunks },
            _ => ReadPhase::Send,
        };
        ResultView {
            plan,
            request,
            phase,
            settle: false,
            measured: None,
            raw: None,
            chunks: CollectorView::start(total as nat),
            jumps: Seq::empty(),
            failures: Seq::empty(),
        }
    }

    /// What is sent again.
    pub open spec fn resent(self) -> Seq<u8> {
        if self.plan is Stripped && self.request.len() > 5 {
            self.request.take(5)
        } else {
            self.request
        }
    }

    /// How many bytes the next chunk read asks for.
    pub open spec fn chunk_len(self) -> int {
        if self.plan is Stripped {
            self.chunks.missing()
        } else {
            512
        }
    }

    /// The transfer to carry out next; none once the read has ended.
    pub open spec fn pending(self) -> Option<TransferView> {
        match self.phase {
            ReadPhase::Send => Some(xu_set_view(GROUP_THERMAL, self.resent())),
            ReadPhase::Length => Some(xu_get_len_view(GROUP_THERMAL)),
            ReadPhase::Read { len } => Some(xu_get_view(GROUP_THERMAL, len as nat)),
            ReadPhase::Chunks => Some(xu_get_view(GROUP_THERMAL, self.chunk_len() as nat)),
            ReadPhase::Code(_) => Some(xu_get_view(SEL_ERROR, 1)),
            ReadPhase::Done => None,
        }
    }

    pub open spec fn enter(self, phase: ReadPhase) -> ResultView {
        ResultView { phase, settle: false, ..self }
    }

    /// Goes on with the chunks, as long as bytes are missing.
    pub open spec fn go_on(self) -> ResultView {
        self.enter(
            if self.chunks.missing() > 0 {
                ReadPhase::Chunks
            } else {
                ReadPhase::Done
            },
        )
    }

    /// The request was sent again, or could not be; the camera needs a moment.
    pub open spec fn sent(self) -> ResultView {
        let next = match self.plan {
            ReadPlan::Measured => self.enter(ReadPhase::Length),
            ReadPlan::Stripped => self.go_on(),
            _ => self.enter(ReadPhase::Read { len: self.chunks.total as usize }),
        };
        ResultView { settle: true, ..next }
    }

    /// A transfer failed.
    pub open spec fn fail(self, e: ReadError) -> ResultView {
        if self.plan is Once {
            ResultView { failures: self.failures.push((e, None)), ..self }.enter(ReadPhase::Done)
        } else {
            self.enter(ReadPhase::Code(e))
        }
    }

    /// The error code of a failed transfer was read, or could not be. Only a
    /// stripped read goes on after a request that could not be sent.
    pub open spec fn noted(self, e: ReadError, code: Option<u8>) -> ResultView {
        let next = ResultView { failures: self.failures.push((e, code)), ..self };
        if e is Send && self.plan is Stripped {
            next.sent()
        } else {
            next.enter(ReadPhase::Done)
        }
    }

    /// A chunk was read; an empty one ends the read.
    pub open spec fn take_chunk(self, chunk: Seq<u8>) -> ResultView {
        if chunk.len() == 0 {
            self.enter(ReadPhase::Done)
        } else if self.plan is Stripped {
            ResultView { chunks: self.chunks.plain(chunk), ..self }.go_on()
        } else {
            ResultView {
                chunks: self.chunks.numbered(chunk),
                jumps: match self.chunks.jump(chunk) {
                    Some(j) => self.jumps.push(j),
                    None => self.jumps,
                },
                ..self
            }.go_on()
        }
    }

    /// The state after the pending transfer was answered by `r`.
    pub open spec fn after(self, r: ReplyView) -> ResultView {
        match (self.phase, r) {
            (ReadPhase::Send, ReplyView::Data(_)) => self.sent(),
            (ReadPhase::Send, ReplyView::Failed(e)) => self.fail(ReadError::Send(e)),
            (ReadPhase::Length, ReplyView::Data(d)) => {
                let l = u32_le(filled(4, d), 0) as u32;
                ResultView { measured: Some(l), ..self }.enter(
                    ReadPhase::Read { len: (if l < 4096 { l } else { 4096 }) as usize },
                )
            },
            (ReadPhase::Length, ReplyView::Failed(e)) => self.fail(ReadError::Length(e)),
            (ReadPhase::Read { len }, ReplyView::Data(d)) => ResultView {
                raw: Some(received(len as nat, d)),
                ..self
            }.enter(ReadPhase::Done),
            (ReadPhase::Read { len }, ReplyView::Failed(e)) => self.fail(ReadError::Get(e)),
            (ReadPhase::Chunks, ReplyView::Data(d)) => self.take_chunk(
                received(self.chunk_len() as nat, d),
            ),
            (ReadPhase::Chunks, ReplyView::Failed(e)) => self.fail(ReadError::Get(e)),
            (ReadPhase::Code(e), _) => self.noted(e, code_of(r)),
            (ReadPhase::Done, _) => self,
        }
    }

    /// The state after a series of replies.
    pub open spec fn run(self, replies: Seq<ReplyView>) -> ResultView
        decreases replies.len(),
    {
        if replies.len() == 0 {
            self
        } else {
            self.run(replies.drop_last()).after(replies.last())
        }
    }

    /// What the read brought: everything from numbered chunks, the payload of
    /// stripped ones where there is any, or what a single read brought.
    pub open spec fn data(self) -> Option<Seq<u8>> {
        match self.plan {
            ReadPlan::Numbered => Some(self.chunks.out),
            ReadPlan::Stripped => if self.chunks.payload().len() > 0 {
                Some(self.chunks.payload())
            } else {
                None
            },
            _ => self.raw,
        }
    }
}

impl ResultRead {
    /// Starts the second phase for a result of `total` bytes.
    pub fn new(plan: ReadPlan, request: &[u8], total: usize) -> (t: ResultRead)
        ensures
            t@ == ResultView::start(plan, request@, total),
    {
        let phase: ReadPhase = match plan {
            ReadPlan::Once => ReadPhase::Read { len: total },
            ReadPlan::Direct => ReadPhase::Read { len: total },
            ReadPlan::Numbered => if total == 0 {
                ReadPhase::Done
            } else {
                ReadPhase::Chunks
            },
            _ => ReadPhase::Send,
        };
        let t = ResultRead {
            plan,
            request: copy_bytes(request),
            phase,
            settle: false,
            measured: None,
            raw: None,
            chunks: ChunkCollector::new(total),
            jumps: Vec::new(),
            failures: Vec::new(),
        };
        assert(t@ =~= ResultView::start(plan, request@, total));
        t
    }

    fn chunk_len(&self) -> (n: usize)
        ensures
            n == self@.chunk_len(),
    {
        match self.plan {
            ReadPlan::Stripped => self.chunks.missing(),
            _ => CHUNK_LEN,
        }
    }

    /// The transfer to carry out next; `None` once the read has ended.
    pub fn pending(&self) -> (t: Option<ControlTransfer>)
        ensures
            transfer_view(t) == self@.pending(),
    {
        match self.phase {
            ReadPhase::Send => {
                let n: usize = match self.plan {
                    ReadPlan::Stripped => if self.request.len() > SHORT_REQUEST_LEN {
                        SHORT_REQUEST_LEN
                    } else {
                        self.request.len()
                    },
                    _ => self.request.len(),
                };
                let part: Vec<u8> = copy_range(self.request.as_slice(), 0, n);
                assert(part@ =~= self@.resent());
                Some(Device::xu_set(GROUP_THERMAL, part.as_slice()))
            },
            ReadPhase::Length => Some(Device::xu_get_len(GROUP_THERMAL)),
            ReadPhase::Read { len } => Some(Device::xu_get(GROUP_THERMAL, len)),
            ReadPhase::Chunks => Some(Device::xu_get(GROUP_THERMAL, self.chunk_len())),
            ReadPhase::Code(_) => Some(Device::xu_last_error()),
            ReadPhase::Done => None,
        }
    }

    fn enter(&mut self, phase: ReadPhase)
        ensures
            final(self)@ == old(self)@.enter(phase),
    {
        self.phase = phase;
        self.settle = false;
    }

    fn go_on(&mut self)
        ensures
            final(self)@ == old(self)@.go_on(),
    {
        if self.chunks.missing() > 0 {
            self.enter(ReadPhase::Chunks);
        } else {
            self.enter(ReadPhase::Done);
        }
    }

    fn sent(&mut self)
        ensures
            final(self)@ == old(self)@.sent(),
    {
        match self.plan {
            ReadPlan::Measured => self.enter(ReadPhase::Length),
            ReadPlan::Stripped => self.go_on(),
            _ => {
                let len: usize = self.chunks.total();
                self.enter(ReadPhase::Read { len });
            },
        }
        self.settle = true;
    }

    fn fail(&mut self, e: ReadError)
        ensures
            final(self)@ == old(self)@.fail(e),
    {
        match self.plan {
            ReadPlan::Once => {
                self.failures.push((e, None));
                self.enter(ReadPhase::Done);
            },
            _ => self.enter(ReadPhase::Code(e)),
        }
    }

    fn noted(&mut self, e: ReadError, code: Option<u8>)
        ensures
            final(self)@ == old(self)@.noted(e, code),
    {
        self.failures.push((e, code));
        match (e, self.plan) {
            (ReadError::Send(_), ReadPlan::Stripped) => self.sent(),
            _ => self.enter(ReadPhase::Done),
        }
    }

    fn take_chunk(&mut self, chunk: &[u8])
        ensures
            final(self)@ == old(self)@.take_chunk(chunk@),
    {
        if chunk.len() == 0 {
            self.enter(ReadPhase::Done);
            return;
        }
        match self.plan {
            ReadPlan::Stripped => self.chunks.push(chunk),
            _ => {
                if let Some(jump) = self.chunks.push_numbered(chunk) {
                    self.jumps.push(jump);
                }
            },
        }
        self.go_on();
    }

    /// Takes the reply to the pending transfer.
    pub fn reply(&mut self, reply: &Reply)
        ensures
            final(self)@ == old(self)@.after(reply@),
    {
        match self.phase {
            ReadPhase::Send => match reply {
                Reply::Data(_) => self.sent(),
                Reply::Failed(e) => self.fail(ReadError::Send(*e)),
            },
            ReadPhase::Length => match reply.u32_value() {
                Ok(l) => {
                    self.measured = Some(l);
                    let len: u32 = if l < MAX_MEASURED_LEN { l } else { MAX_MEASURED_LEN };
                    self.enter(ReadPhase::Read { len: len as usize });
                },
                Err(e) => self.fail(ReadError::Length(e)),
            },
            ReadPhase::Read { len } => match reply {
                Reply::Data(d) => {
                    self.raw = Some(receive(len, d.as_slice()));
                    self.enter(ReadPhase::Done);
                },
                Reply::Failed(e) => self.fail(ReadError::Get(*e)),
            },
            ReadPhase::Chunks => match reply {
                Reply::Data(d) => {
                    let n: usize = self.chunk_len();
                    let chunk: Vec<u8> = receive(n, d.as_slice());
                    self.take_chunk(chunk.as_slice());
                },
                Reply::Failed(e) => self.fail(ReadError::Get(*e)),
            },
            ReadPhase::Code(e) => self.noted(e, reply.error_code()),
            ReadPhase::Done => {},
        }
    }

    /// Whether the camera needs a moment before the pending transfer.
    pub fn settles(&self) -> (r: bool)
        ensures
            r == self@.settle,
    {
        self.settle
    }

    /// The length that the first phase announced.
    pub fn total(&self) -> (n: usize)
        ensures
            n == self@.chunks.total,
    {
        self.chunks.total()
    }

    /// The length that a measured read was told.
    pub fn measured(&self) -> (r: Option<u32>)
        ensures
            r == self@.measured,
    {
        self.measured
    }

    /// How many bytes were collected from chunks.
    pub fn collected(&self) -> (n: usize)
        ensures
            n == self@.chunks.out.len(),
    {
        self.chunks.collected()
    }

    /// Where the numbers of chunks jumped.
    pub fn jumps(&self) -> (j: &Vec<(u32, u32)>)
        ensures
            j@ == self@.jumps,
    {
        &self.jumps
    }

    /// What failed, with the camera's error code.
    pub fn failures(&self) -> (f: &Vec<(ReadError, Option<u8>)>)
        ensures
            f@ == self@.failures,
    {
        &self.failures
    }

    /// What the read brought.
    pub fn data(&self) -> (r: Option<Vec<u8>>)
        ensures
            match r {
                Some(d) => self@.data() == Some(d@),
                None => self@.data() is None,
            },
    {
        match self.plan {
            ReadPlan::Numbered => Some(self.chunks.all()),
            ReadPlan::Stripped => {
                let payload: Vec<u8> = self.chunks.payload();
                if payload.len() > 0 {
                    Some(payload)
                } else {
                    None
                }
            },
            _ => match &self.raw {
                Some(d) => Some(copy_bytes(d.as_slice())),
                None => None,
            },
        }
    }
}

enum ProbeStep {
    Head(PhaseA),
    HeadCode(PhaseError),
    Result(ResultRead),
    Failed(PhaseError, Option<u8>),
}

/// Where a whole read stands.
#[verifier::ext_equal]
pub enum ProbeStepView {
    Head(PhaseAView),
    /// The error code is read after the first phase has failed.
    HeadCode(PhaseError),
    Result(ResultView),
    Failed(PhaseError, Option<u8>),
}

impl View for ProbeStep {
    type V = ProbeStepView;

    closed spec fn view(&self) -> ProbeStepView {
        match *self {
            ProbeStep::Head(a) => ProbeStepView::Head(a@),
            ProbeStep::HeadCode(e) => ProbeStepView::HeadCode(e),
            ProbeStep::Result(b) => ProbeStepView::Result(b@),
            ProbeStep::Failed(e, code) => ProbeStepView::Failed(e, code),
        }
    }
}

/// A whole two-phase read of a diagnostic program under way.
pub struct ProbeRead {
    plan: ReadPlan,
    request: Vec<u8>,
    head: Vec<u8>,
    step: ProbeStep,
}

/// Mathematical counterpart of [`ProbeRead`].
#[verifier::ext_equal]
pub struct ProbeView {
    pub plan: ReadPlan,
    pub request: Seq<u8>,
    /// The head, once the first phase has ended.
    pub head: Seq<u8>,
    pub step: ProbeStepView,
}

impl View for ProbeRead {
    type V = ProbeView;

    closed spec fn view(&self) -> ProbeView {
        ProbeView {
            plan: self.plan,
            request: self.request@,
            head: self.head@,
            step: self.step@,
        }
    }
}

impl ProbeView {
    pub open spec fn start(plan: ReadPlan, request: Seq<u8>) -> ProbeView {
        ProbeView {
            plan,
            request,
            head: Seq::empty(),
            step: ProbeStepView::Head(
                PhaseAView::start(command_of(plan), insists(plan), request),
            ),
        }
    }

    /// The transfer to carry out next; none once the read has ended.
    pub open spec fn pending(self) -> Option<TransferView> {
        match self.step {
            ProbeStepView::Head(a) => a.pending(),
            ProbeStepView::HeadCode(_) => Some(xu_get_view(SEL_ERROR, 1)),
            ProbeStepView::Result(b) => b.pending(),
            ProbeStepView::Failed(_, _) => None,
        }
    }

    /// The first phase has ended. The error code is read where the plan insists
    /// on its head and the command could be selected.
    pub open spec fn take_head(self, a: PhaseAView) -> ProbeView {
        let step = match a.outcome() {
            Ok(total) => ProbeStepView::Result(
                ResultView::start(self.plan, self.request, total as usize),
            ),
            Err(e) => if insists(self.plan) && !(e is Select) {
                ProbeStepView::HeadCode(e)
            } else {
                ProbeStepView::Failed(e, None)
            },
        };
        ProbeView { head: a.head, step, ..self }
    }

    /// The state after the pending transfer was answered by `r`.
    pub open spec fn after(self, r: ReplyView) -> ProbeView {
        match self.step {
            ProbeStepView::Head(a) => {
                let next = a.after(r);
                if next.pending() is None {
                    self.take_head(next)
                } else {
                    ProbeView { step: ProbeStepView::Head(next), ..self }
                }
            },
            ProbeStepView::HeadCode(e) => ProbeView {
                step: ProbeStepView::Failed(e, code_of(r)),
                ..self
            },
            ProbeStepView::Result(b) => ProbeView {
                step: ProbeStepView::Result(b.after(r)),
                ..self
            },
            ProbeStepView::Failed(_, _) => self,
        }
    }

    /// The camera needs a moment before the pending transfer: a request was just
    /// sent.
    pub open spec fn settles(self) -> bool {
        match self.step {
            ProbeStepView::Head(a) => a.phase is Length,
            ProbeStepView::Result(b) => b.settle,
            _ => false,
        }
    }
}

impl ProbeRead {
    /// Starts a read.
    pub fn new(plan: ReadPlan, request: &[u8]) -> (p: ProbeRead)
        ensures
            p@ == ProbeView::start(plan, request@),
    {
        let phase: PhaseA = match plan {
            ReadPlan::Once => PhaseA::with_any_head(SUB_ROI_SEARCH, request),
            ReadPlan::Numbered => PhaseA::with_any_head(SUB_CAPTURE, request),
            _ => PhaseA::new(request),
        };
        let p = ProbeRead {
            plan,
            request: copy_bytes(request),
            head: Vec::new(),
            step: ProbeStep::Head(phase),
        };
        assert(p@ =~= ProbeView::start(plan, request@));
        p
    }

    /// The transfer to carry out next; `None` once the read has ended.
    pub fn pending(&self) -> (t: Option<ControlTransfer>)
        ensures
            transfer_view(t) == self@.pending(),
    {
        match &self.step {
            ProbeStep::Head(a) => a.pending(),
            ProbeStep::HeadCode(_) => Some(Device::xu_last_error()),
            ProbeStep::Result(b) => b.pending(),
            ProbeStep::Failed(_, _) => None,
        }
    }

    /// Takes the reply to the pending transfer.
    pub fn reply(&mut self, reply: &Reply)
        ensures
            final(self)@ == old(self)@.after(reply@),
    {
        let mut step: ProbeStep = ProbeStep::HeadCode(PhaseError::ShortHead(0));
        std::mem::swap(&mut step, &mut self.step);
        match step {
            ProbeStep::Head(a) => {
                let mut a = a;
                a.reply(reply);
                if a.pending().is_some() {
                    self.step = ProbeStep::Head(a);
                    return;
                }
                self.head = a.head();
                match a.outcome() {
                    Ok(total) => {
                        self.step =
                        ProbeStep::Result(
                            ResultRead::new(self.plan, self.request.as_slice(), total as usize),
                        );
                    },
                    Err(e) => {
                        let silent: bool = match (self.plan, e) {
                            (ReadPlan::Once, _) => true,
                            (ReadPlan::Numbered, _) => true,
                            (_, PhaseError::Select(_)) => true,
                            _ => false,
                        };
                        if silent {
                            self.step = ProbeStep::Failed(e, None);
                        } else {
                            self.step = ProbeStep::HeadCode(e);
                        }
                    },
                }
            },
            ProbeStep::HeadCode(e) => {
                self.step = ProbeStep::Failed(e, reply.error_code());
            },
            ProbeStep::Result(b) => {
                let mut b = b;
                b.reply(reply);
                self.step = ProbeStep::Result(b);
            },
            ProbeStep::Failed(e, code) => {
                self.step = ProbeStep::Failed(e, code);
            },
        }
    }

    /// Whether the camera needs a moment before the pending transfer.
    pub fn settles(&self) -> (r: bool)
        ensures
            r == self@.settles(),
    {
        match &self.step {
            ProbeStep::Head(a) => match a.phase() {
                HeadPhase::Length => true,
                _ => false,
            },
            ProbeStep::Result(b) => b.settles(),
            _ => false,
        }
    }

    /// The length of the head, while the head is to be read.
    pub fn head_len(&self) -> (r: Option<u32>)
        ensures
            r == (match self@.step {
                ProbeStepView::Head(a) => match a.phase {
                    HeadPhase::Head { len } => Some(len),
                    _ => None,
                },
                _ => None,
            }),
    {
        match &self.step {
            ProbeStep::Head(a) => match a.phase() {
                HeadPhase::Head { len } => Some(len),
                _ => None,
            },
            _ => None,
        }
    }

    /// The head, once the first phase has ended.
    pub fn head(&self) -> (h: &Vec<u8>)
        ensures
            h@ == self@.head,
    {
        &self.head
    }

    /// Why the first phase failed, with the camera's error code.
    pub fn failure(&self) -> (r: Option<(PhaseError, Option<u8>)>)
        ensures
            r == (match self@.step {
                ProbeStepView::Failed(e, code) => Some((e, code)),
                _ => None,
            }),
    {
        match &self.step {
            ProbeStep::Failed(e, code) => Some((*e, *code)),
            _ => None,
        }
    }

    /// The second phase, once it has begun.
    pub fn result(&self) -> (r: Option<&ResultRead>)
        ensures
            match r {
                Some(b) => self@.step == ProbeStepView::Result(b@),
                None => !(self@.step is Result),
            },
    {
        match &self.step {
            ProbeStep::Result(b) => Some(b),
            _ => None,
        }
    }
}

/// A failed transfer of the first phase ends the read. Where the plan insists on
/// its head and the command could be selected, the error code is read first.
pub proof fn law_head_failure_ends(p: ProbeView, e: TransferError, r: ReplyView)
    requires
        p.step is Head,
        p.pending() is Some,
    ensures
        ({
            let failed = p.after(ReplyView::Failed(e));
            let next = failed.after(r);
            if insists(p.plan) && !(p.step->Head_0.phase is Select) {
                &&& failed.pending() == Some(xu_get_view(6, 1))
                &&& next.step matches ProbeStepView::Failed(_, code) && code == code_of(r)
            } else {
                failed.step matches ProbeStepView::Failed(_, code) && code is None
            }
        }),
{
}

/// A failed transfer of the second phase is noted once, with the error code that
/// is read next except where failures are not looked into, and ends the phase;
/// only a stripped read goes on where its request could not be sent.
pub proof fn law_result_failure_noted(b: ResultView, e: TransferError, r: ReplyView)
    requires
        b.pending() is Some,
        !(b.phase is Code),
    ensures
        ({
            let failed = b.after(ReplyView::Failed(e));
            let next = failed.after(r);
            if b.plan is Once {
                &&& failed.phase is Done
                &&& failed.failures.len() == b.failures.len() + 1
                &&& failed.failures.last().1 is None
            } else {
                &&& failed.pending() == Some(xu_get_view(6, 1))
                &&& next.failures.len() == b.failures.len() + 1
                &&& next.failures.last().1 == code_of(r)
                &&& next.failures.drop_last() == b.failures
                &&& next.phase is Done || (b.plan is Stripped && b.phase is Send)
            }
        }),
{
    let failed = b.after(ReplyView::Failed(e));
    let next = failed.after(r);
    if !(b.plan is Once) {
        assert(next.failures.drop_last() =~= b.failures);
    }
}

/// The reads of a region search plan ask for no more than was announced, than
/// 4096 bytes after a length, or than a chunk holds.
pub proof fn law_result_read_sizes(b: ResultView, r: ReplyView)
    requires
        match b.phase {
            ReadPhase::Read { len } => len <= b.chunks.total || len <= 4096,
            _ => true,
        },
        b.chunks.total <= usize::MAX,
    ensures
        match b.after(r).phase {
            ReadPhase::Read { len } => len <= b.chunks.total || len <= 4096,
            _ => true,
        },
        b.after(r).chunks.total == b.chunks.total,
        b.phase is Chunks ==> b.chunk_len() <= b.chunks.total || b.chunk_len() <= 512,
{
}

/// Chunks numbered from one that carry a result are put together without a jump
/// or a failure, and the read ends with the last of them.
pub proof fn law_numbered_read_collects(request: Seq<u8>, total: usize, pieces: Seq<Seq<u8>>)
    requires
        carries(pieces, total as int),
        pieces.len() <= u32::MAX,
    ensures
        ({
            let chunks = numbered_chunks(pieces);
            let b = ResultView::start(ReadPlan::Numbered, request, total).run(
                Seq::new(chunks.len(), |i: int| ReplyView::Data(chunks[i])),
            );
            &&& b.pending() is None
            &&& b.data() == Some(joined(pieces))
            &&& b.jumps.len() == 0
            &&& b.failures.len() == 0
        }),
{
    let chunks = numbered_chunks(pieces);
    let replies = Seq::new(chunks.len(), |i: int| ReplyView::Data(chunks[i]));
    let n = pieces.len() as int;
    lemma_numbered_under_way(request, total, pieces, n - 1);
    law_numbered_chunks_collected(total as nat, pieces);
    assert(replies.drop_last() =~= replies.take(n - 1));
    assert(chunks.drop_last() =~= chunks.take(n - 1));
    assert(pieces.drop_last() =~= pieces.take(n - 1));
    let chunk = chunks[n - 1];
    assert(chunk == framed(n as u32, pieces[n - 1]));
    assert(received(512, chunk) == chunk);
    let first = CollectorView::start(total as nat);
    assert(first.collect(chunks.take(n - 1)).jump(chunk) is None);
    assert(first.collect(chunks) == first.collect(chunks.take(n - 1)).numbered(chunk));
    lemma_collect_total(first, chunks);
    let before = ResultView::start(ReadPlan::Numbered, request, total).run(replies.take(n - 1));
    assert(replies.last() == ReplyView::Data(chunk));
    assert(before.after(ReplyView::Data(chunk)) == before.take_chunk(chunk));
}

proof fn lemma_numbered_under_way(
    request: Seq<u8>,
    total: usize,
    pieces: Seq<Seq<u8>>,
    k: int,
)
    requires
        carries(pieces, total as int),
        pieces.len() <= u32::MAX,
        0 <= k < pieces.len(),
    ensures
        ({
            let chunks = numbered_chunks(pieces);
            let replies = Seq::new(chunks.len(), |i: int| ReplyView::Data(chunks[i]));
            let start = ResultView::start(ReadPlan::Numbered, request, total);
            start.run(replies.take(k)) == (ResultView {
                chunks: CollectorView::start(total as nat).collect(chunks.take(k)),
                ..start
            })
        }),
    decreases k,
{
    let chunks = numbered_chunks(pieces);
    let replies = Seq::new(chunks.len(), |i: int| ReplyView::Data(chunks[i]));
    let start = ResultView::start(ReadPlan::Numbered, request, total);
    let first = CollectorView::start(total as nat);
    if k > 0 {
        lemma_numbered_under_way(request, total, pieces, k - 1);
        law_numbered_chunks_collected(total as nat, pieces);
        law_numbered_chunks_collected(total as nat, pieces.take(k));
        assert(chunks.take(k) =~= numbered_chunks(pieces.take(k)));
        assert(replies.take(k).drop_last() =~= replies.take(k - 1));
        assert(replies.take(k).last() == replies[k - 1]);
        assert(chunks.take(k).drop_last() =~= chunks.take(k - 1));
        let chunk = chunks[k - 1];
        assert(chunk == framed(k as u32, pieces[k - 1]));
        assert(received(512, chunk) == chunk);
        assert(first.collect(chunks.take(k - 1)).jump(chunk) is None);
        assert(first.collect(chunks.take(k)) == first.collect(chunks.take(k - 1)).numbered(chunk));
        lemma_prefix_shorter(pieces, total as int, k);
        lemma_collect_total(first, chunks.take(k));
    } else {
        assert(replies.take(0) =~= Seq::<ReplyView>::empty());
        assert(chunks.take(0) =~= Seq::<Seq<u8>>::empty());
    }
}

proof fn lemma_collect_total(c: CollectorView, chunks: Seq<Seq<u8>>)
    ensures
        c.collect(chunks).total == c.total,
    decreases chunks.len(),
{
    if chunks.len() > 0 {
        lemma_collect_total(c, chunks.drop_last());
    }
}

proof fn lemma_prefix_shorter(pieces: Seq<Seq<u8>>, total: int, k: int)
    requires
        carries(pieces, total),
        0 <= k < pieces.len(),
    ensures
        joined(pieces.take(k)).len() < total,
{
    lemma_joined_prefix(pieces.drop_last(), k);
    assert(pieces.drop_last().take(k) =~= pieces.take(k));
}

/// The first phase of a whole read, in numbers: it points the data channel at
/// command 9 of group 3 for numbered chunks and at command 10 otherwise, sends the
/// request, waits a moment, and learns from the five bytes of the head how long
/// the result is. Then the second phase begins for that length, with the head
/// kept.
pub proof fn law_whole_read_begins(
    plan: ReadPlan,
    request: Seq<u8>,
    acks: (Seq<u8>, Seq<u8>),
    head_len: Seq<u8>,
    head: Seq<u8>,
)
    requires
        head_len == seq![5u8, 0, 0, 0],
        head.len() == 5,
    ensures
        ({
            let p0 = ProbeView::start(plan, request);
            let p1 = p0.after(ReplyView::Data(acks.0));
            let p2 = p1.after(ReplyView::Data(acks.1));
            let p3 = p2.after(ReplyView::Data(head_len));
            let p4 = p3.after(ReplyView::Data(head));
            let total = head[1] + head[2] * 0x100 + head[3] * 0x10000 + head[4] * 0x1000000;
            &&& plan is Numbered ==> p0.pending() == Some(select_view(3, 9))
            &&& !(plan is Numbered) ==> p0.pending() == Some(select_view(3, 10))
            &&& p1.pending() == Some(xu_set_view(3, request))
            &&& p2.pending() == Some(xu_get_len_view(3))
            &&& p3.pending() == Some(xu_get_view(3, 5))
            &&& !p0.settles() && !p1.settles() && p2.settles() && !p3.settles()
            &&& p4.head == head
            &&& p4.step == ProbeStepView::Result(ResultView::start(plan, request, total as usize))
        }),
{
    law_first_phase(command_of(plan), insists(plan), request, acks, head_len, head);
    assert(filled(4, head_len) =~= head_len);
    assert(filled(5, head) =~= head);
}

/// A longer head is refused by the plans that insist on five bytes, and the error
/// code is read; the others take it.
pub proof fn law_whole_read_other_head(
    plan: ReadPlan,
    request: Seq<u8>,
    acks: (Seq<u8>, Seq<u8>),
    head_len: Seq<u8>,
    head: Seq<u8>,
    code: u8,
)
    requires
        head_len.len() == 4,
        head_len[0] + head_len[1] * 0x100 + head_len[2] * 0x10000 + head_len[3] * 0x1000000
            == head.len(),
        head.len() > 5,
    ensures
        ({
            let total = head[1] + head[2] * 0x100 + head[3] * 0x10000 + head[4] * 0x1000000;
            let p = ProbeView::start(plan, request).after(ReplyView::Data(acks.0)).after(
                ReplyView::Data(acks.1),
            ).after(ReplyView::Data(head_len));
            &&& plan is Once || plan is Numbered ==> {
                &&& p.pending() == Some(xu_get_view(3, head.len()))
                &&& p.after(ReplyView::Data(head)).head == head
                &&& p.after(ReplyView::Data(head)).step == ProbeStepView::Result(
                    ResultView::start(plan, request, total as usize),
                )
            }
            &&& !(plan is Once || plan is Numbered) ==> {
                &&& p.pending() == Some(xu_get_view(6, 1))
                &&& p.after(ReplyView::Data(seq![code])).step == ProbeStepView::Failed(
                    PhaseError::UnexpectedLength(head.len() as u32),
                    Some(code),
                )
            }
        }),
{
    assert(filled(4, head_len) =~= head_len);
    assert(filled(head.len(), head) =~= head);
}

/// A single read of the announced length: what came is the result, cut off at
/// that length. Reads by resending send the whole request first and wait a moment
/// before they read.
pub proof fn law_single_read(
    plan: ReadPlan,
    request: Seq<u8>,
    total: usize,
    ack: Seq<u8>,
    d: Seq<u8>,
)
    requires
        plan is Once || plan is Direct || plan is Resend,
    ensures
        ({
            let b0 = ResultView::start(plan, request, total);
            let b1 = if plan is Resend { b0.after(ReplyView::Data(ack)) } else { b0 };
            let b2 = b1.after(ReplyView::Data(d));
            &&& plan is Resend ==> b0.pending() == Some(xu_set_view(3, request))
            &&& b0.settle == false
            &&& b1.settle == (plan is Resend)
            &&& b1.pending() == Some(xu_get_view(3, total as nat))
            &&& b2.pending() is None
            &&& b2.failures.len() == 0
            &&& d.len() <= total ==> b2.data() == Some(d)
            &&& d.len() > total ==> b2.data() == Some(d.take(total as int))
        }),
{
}

/// A measured read: it sends the whole request, waits a moment, asks for the
/// length, a 32-bit integer, least significant byte first, and reads that many
/// bytes, 4096 at most.
pub proof fn law_measured_read(
    request: Seq<u8>,
    total: usize,
    ack: Seq<u8>,
    len_reply: Seq<u8>,
    d: Seq<u8>,
)
    requires
        len_reply.len() == 4,
    ensures
        ({
            let len = len_reply[0] + len_reply[1] * 0x100 + len_reply[2] * 0x10000 + len_reply[3]
                * 0x1000000;
            let n: int = if len < 4096 { len } else { 4096 };
            let b0 = ResultView::start(ReadPlan::Measured, request, total);
            let b1 = b0.after(ReplyView::Data(ack));
            let b2 = b1.after(ReplyView::Data(len_reply));
            let b3 = b2.after(ReplyView::Data(d));
            &&& b0.pending() == Some(xu_set_view(3, request))
            &&& b1.settle && b1.pending() == Some(xu_get_len_view(3))
            &&& b2.measured matches Some(m) && m == len
            &&& b2.pending() == Some(xu_get_view(3, n as nat))
            &&& b3.pending() is None
            &&& d.len() <= n ==> b3.data() == Some(d)
            &&& d.len() > n ==> b3.data() == Some(d.take(n))
        }),
{
    assert(filled(4, len_reply) =~= len_reply);
}

/// A stripped read: it sends the first five bytes of the request, waits a moment,
/// and then reads what is missing as long as something is. A chunk of at least
/// five bytes that begins with 02 adds what follows its fifth byte, any other all
/// of itself, and an empty one ends the read. The result is what was collected,
/// cut off at the announced length; nothing collected is no result.
pub proof fn law_stripped_read(b: ResultView, ack: Seq<u8>, d: Seq<u8>)
    requires
        b.plan is Stripped,
        b.phase is Chunks,
        b.chunks.out.len() < b.chunks.total,
        d.len() <= b.chunks.total - b.chunks.out.len(),
    ensures
        ({
            let b0 = ResultView::start(ReadPlan::Stripped, b.request, b.chunks.total as usize);
            &&& b0.pending() matches Some(t) && {
                &&& t.request_type == 0x21 && t.value == 0x0300
                &&& t.data matches DataView::Out(q) && {
                    &&& b.request.len() >= 5 ==> q == b.request.take(5)
                    &&& b.request.len() < 5 ==> q == b.request
                }
            }
            &&& b0.after(ReplyView::Data(ack)).settle
            &&& b.chunks.total <= usize::MAX ==> b0.after(ReplyView::Data(ack)).pending() == Some(
                xu_get_view(3, b.chunks.total),
            )
        }),
        b.pending() == Some(xu_get_view(3, (b.chunks.total - b.chunks.out.len()) as nat)),
        ({
            let c = b.after(ReplyView::Data(d));
            &&& d.len() == 0 ==> c.pending() is None && c.chunks == b.chunks
            &&& d.len() >= 5 && d[0] == 2 ==> c.chunks.out == b.chunks.out + d.skip(5)
            &&& d.len() < 5 || d[0] != 2 ==> c.chunks.out == b.chunks.out + d
            &&& d.len() > 0 ==> (c.pending() is Some <==> c.chunks.out.len() < b.chunks.total)
            &&& c.chunks.out.len() == 0 ==> c.data() is None
            &&& 0 < c.chunks.out.len() < b.chunks.total ==> c.data() == Some(c.chunks.out)
            &&& c.chunks.out.len() >= b.chunks.total ==> c.data() == Some(
                c.chunks.out.take(b.chunks.total as int),
            )
        }),
{
    if b.request.len() == 5 {
        assert(b.request.take(5) =~= b.request);
    }
    if d.len() == 0 {
        assert(b.chunks.out + d =~= b.chunks.out);
    }
}

/// A read of numbered chunks: it reads 512 bytes at a time as long as something is
/// missing. A chunk of at least five bytes that begins with 02 adds what follows
/// its fifth byte, any other all of itself, and an empty one ends the read; a
/// number that neither follows the last nor starts over is noted. The result is
/// all that was collected.
pub proof fn law_numbered_read(b: ResultView, d: Seq<u8>)
    requires
        b.plan is Numbered,
        b.phase is Chunks,
        d.len() <= 512,
        0 <= b.chunks.last_number <= u32::MAX,
    ensures
        b.pending() == Some(xu_get_view(3, 512)),
        ResultView::start(ReadPlan::Numbered, b.request, 0).pending() is None,
        ({
            let c = b.after(ReplyView::Data(d));
            let number = d[1] + d[2] * 0x100 + d[3] * 0x10000 + d[4] * 0x1000000;
            &&& d.len() == 0 ==> c.pending() is None && c.chunks == b.chunks && c.jumps == b.jumps
            &&& d.len() >= 5 && d[0] == 2 ==> {
                &&& c.chunks.out == b.chunks.out + d.skip(5)
                &&& c.chunks.last_number == number
                &&& number == b.chunks.last_number + 1 || number == 1 ==> c.jumps == b.jumps
                &&& number != b.chunks.last_number + 1 && number != 1 ==> c.jumps == b.jumps.push(
                    (b.chunks.last_number as u32, number as u32),
                )
            }
            &&& d.len() < 5 || d[0] != 2 ==> {
                &&& c.chunks.out == b.chunks.out + d
                &&& c.chunks.last_number == b.chunks.last_number
                &&& c.jumps == b.jumps
            }
            &&& d.len() > 0 ==> (c.pending() is Some <==> c.chunks.out.len() < b.chunks.total)
            &&& c.data() == Some(c.chunks.out)
        }),
{
    if d.len() == 0 {
        assert(b.chunks.out + d =~= b.chunks.out);
    }
}

/// A read of numbered chunks from the first to the last, in bytes: every chunk
/// begins with 02 and its number, which counts from one, and what follows are the
/// pieces of the result. They come out in a row, without a jump or a failure.
pub proof fn law_numbered_chunks_come_out(
    request: Seq<u8>,
    total: usize,
    chunks: Seq<Seq<u8>>,
    pieces: Seq<Seq<u8>>,
    replies: Seq<ReplyView>,
)
    requires
        0 < chunks.len() == pieces.len() == replies.len(),
        chunks.len() <= u32::MAX,
        forall|i: int| 0 <= i < chunks.len() ==> #[trigger] replies[i] == ReplyView::Data(chunks[i]),
        forall|i: int|
            0 <= i < chunks.len() ==> {
                let c = #[trigger] chunks[i];
                &&& 5 <= c.len() <= 512 && c[0] == 2
                &&& c[1] + c[2] * 0x100 + c[3] * 0x10000 + c[4] * 0x1000000 == i + 1
                &&& pieces[i] == c.skip(5)
            },
        joined(pieces.drop_last()).len() < total <= joined(pieces).len(),
    ensures
        ({
            let b = ResultView::start(ReadPlan::Numbered, request, total).run(replies);
            &&& b.pending() is None
            &&& b.data() == Some(joined(pieces))
            &&& b.jumps.len() == 0
            &&& b.failures.len() == 0
        }),
{
    assert forall|i: int| 0 <= i < pieces.len() implies #[trigger] numbered_chunks(pieces)[i]
        == chunks[i] by {
        let c = chunks[i];
        law_u32_bytes_of_read(c, 1);
        assert(u32_le(c, 1) == i + 1);
        assert(framed((i + 1) as u32, pieces[i]) =~= c);
    }
    assert(numbered_chunks(pieces) =~= chunks);
    assert(replies =~= Seq::new(chunks.len(), |i: int| ReplyView::Data(chunks[i])));
    assert forall|i: int| 0 <= i < pieces.len() implies (#[trigger] pieces[i]).len() <= 507 by {
        assert(chunks[i].len() <= 512);
    }
    law_numbered_read_collects(request, total, pieces);
}

/// What is noted of a failed transfer of the second phase: which step failed, the
/// error, and the first byte that the read of the error code brings. A plan of
/// one read notes it without a code; a stripped read whose request could not be
/// sent reads on.
pub proof fn law_result_failures(b: ResultView, e: TransferError, code: u8)
    requires
        b.phase is Send || b.phase is Length || b.phase is Read || b.phase is Chunks,
    ensures
        ({
            let failed = b.after(ReplyView::Failed(e));
            let next = failed.after(ReplyView::Data(seq![code]));
            let error = if b.phase is Send {
                ReadError::Send(e)
            } else if b.phase is Length {
                ReadError::Length(e)
            } else {
                ReadError::Get(e)
            };
            &&& b.plan is Once ==> failed.failures == b.failures.push((error, None))
                && failed.pending() is None
            &&& !(b.plan is Once) ==> {
                &&& failed.pending() == Some(xu_get_view(6, 1))
                &&& next.failures == b.failures.push((error, Some(code)))
                &&& !(b.plan is Stripped && b.phase is Send) ==> next.pending() is None
                &&& b.plan is Stripped && b.phase is Send && b.chunks.out.len() < b.chunks.total
                    ==> next.pending() == Some(
                    xu_get_view(3, (b.chunks.total - b.chunks.out.len()) as nat),
                )
            }
            &&& next.raw == b.raw && next.chunks == b.chunks && next.jumps == b.jumps
        }),
{
}

/// Every reply of the second phase goes to the second phase alone, and the camera
/// is given a moment there as that phase asks.
pub proof fn law_whole_read_goes_on(p: ProbeView, b: ResultView, r: ReplyView)
    requires
        p.step == ProbeStepView::Result(b),
    ensures
        p.pending() == b.pending(),
        p.settles() == b.settle,
        p.after(r) == (ProbeView { step: ProbeStepView::Result(b.after(r)), ..p }),
{
}

/// Where a transfer of the first phase fails, the read ends with the error of that
/// step.
pub proof fn law_whole_read_failures(p: ProbeView, a: PhaseAView, e: TransferError, code: u8)
    requires
        p.step == ProbeStepView::Head(a),
        a.pending() is Some,
    ensures
        ({
            let error = a.after(ReplyView::Failed(e)).outcome()->Err_0;
            let failed = p.after(ReplyView::Failed(e));
            if p.plan is Once || p.plan is Numbered || a.phase is Select {
                failed.step == ProbeStepView::Failed(error, None)
            } else {
                &&& failed.pending() == Some(xu_get_view(6, 1))
                &&& failed.after(ReplyView::Data(seq![code])).step == ProbeStepView::Failed(
                    error,
                    Some(code),
                )
            }
        }),
{
}

/// A stripped read of nothing ends once the request was sent.
pub proof fn law_stripped_read_of_nothing(request: Seq<u8>, ack: Seq<u8>)
    ensures
        ({
            let b = ResultView::start(ReadPlan::Stripped, request, 0).after(ReplyView::Data(ack));
            b.pending() is None && b.data() is None
        }),
{
}

} // verus!

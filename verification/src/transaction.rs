//! The two ways to read data from the camera's extension unit.
//!
//! A plain read selects a command, asks for the length and reads the data. A
//! two-phase read sends a request, learns the total length from a five-byte
//! head, and collects the payload from chunks of at most 512 bytes, each behind
//! a five-byte chunk header.
use vstd::prelude::*;

use crate::transfer::{
    select_view, transfer_view, xu_get_len_view, xu_get_view, xu_set_view, CameraError,
    ControlTransfer, Device, Reply, ReplyView, TransferError, TransferView,
};
use crate::wire::{
    copy_bytes, fill, filled, push_range, receive, received, u32_at, u32_bytes, u32_le,
};

verus! {

/// Longest data that a plain read accepts.
pub const MAX_SIMPLE_LEN: u32 = 0x10000;

/// Longest payload that a two-phase read accepts.
pub const MAX_DOUBLE_LEN: u32 = 0x800000;

/// Bytes asked for in each chunk read; the camera stalls on more.
pub const CHUNK_LEN: usize = 512;

/// Bytes of a chunk header: a tag and a 32-bit sequence number.
pub const CHUNK_HEADER_LEN: usize = 5;

/// First byte of a chunk header.
pub const CHUNK_TAG: u8 = 0x02;

/// Where a plain read stands.
#[derive(Debug, Clone, Copy, PartialEq, Eq)]
pub enum SimplePhase {
    Select,
    Length,
    Data { len: u32 },
    Done,
    Failed(CameraError),
}

/// A plain read under way.
pub struct SimpleGet {
    group: u8,
    sub: u8,
    phase: SimplePhase,
    out: Vec<u8>,
}

/// Mathematical counterpart of [`SimpleGet`].
#[verifier::ext_equal]
pub struct SimpleGetView {
    pub group: u8,
    pub sub: u8,
    pub phase: SimplePhase,
    pub out: Seq<u8>,
}

impl SimpleGetView {
    pub open spec fn start(group: u8, sub: u8) -> SimpleGetView {
        SimpleGetView { group, sub, phase: SimplePhase::Select, out: Seq::empty() }
    }

    /// The transfer to carry out next; none once the read has ended.
    pub open spec fn pending(self) -> Option<TransferView> {
        match self.phase {
            SimplePhase::Select => Some(select_view(self.group, self.sub)),
            SimplePhase::Length => Some(xu_get_len_view(self.group)),
            SimplePhase::Data { len } => Some(xu_get_view(self.group, len as nat)),
            _ => None,
        }
    }

    pub open spec fn fail(self, e: CameraError) -> SimpleGetView {
        SimpleGetView { phase: SimplePhase::Failed(e), ..self }
    }

    /// The state after the pending transfer was answered by `r`.
    pub open spec fn after(self, r: ReplyView) -> SimpleGetView {
        match (self.phase, r) {
            (SimplePhase::Select, ReplyView::Failed(e)) => self.fail(CameraError::Select(e)),
            (SimplePhase::Select, ReplyView::Data(_)) => SimpleGetView {
                phase: SimplePhase::Length,
                ..self
            },
            (SimplePhase::Length, ReplyView::Failed(error)) => self.fail(
                CameraError::Length { group: self.group, error },
            ),
            (SimplePhase::Length, ReplyView::Data(d)) => {
                let len = u32_le(filled(4, d), 0) as u32;
                if len == 0 || len > MAX_SIMPLE_LEN {
                    self.fail(
                        CameraError::ImplausibleLength { announced: len, group: self.group, sub: self.sub },
                    )
                } else {
                    SimpleGetView { phase: SimplePhase::Data { len }, ..self }
                }
            },
            (SimplePhase::Data { len }, ReplyView::Failed(error)) => self.fail(
                CameraError::Data { group: self.group, error },
            ),
            (SimplePhase::Data { len }, ReplyView::Data(d)) => SimpleGetView {
                phase: SimplePhase::Done,
                out: received(len as nat, d),
                ..self
            },
            _ => self,
        }
    }

    /// The state after a series of replies.
    pub open spec fn run(self, replies: Seq<ReplyView>) -> SimpleGetView
        decreases replies.len(),
    {
        if replies.len() == 0 {
            self
        } else {
            self.run(replies.drop_last()).after(replies.last())
        }
    }

    /// What an ended read delivers: the data, or why there is none.
    pub open spec fn outcome(self) -> Result<Seq<u8>, CameraError> {
        match self.phase {
            SimplePhase::Failed(e) => Err(e),
            _ => Ok(self.out),
        }
    }
}

impl View for SimpleGet {
    type V = SimpleGetView;

    closed spec fn view(&self) -> SimpleGetView {
        SimpleGetView { group: self.group, sub: self.sub, phase: self.phase, out: self.out@ }
    }
}

/// The bytes that a result holds.
pub open spec fn bytes_result(r: Result<Vec<u8>, CameraError>) -> Result<Seq<u8>, CameraError> {
    match r {
        Ok(v) => Ok(v@),
        Err(e) => Err(e),
    }
}

impl SimpleGet {
    /// The transfer to carry out next; `None` once the read has ended.
    pub fn pending(&self) -> (t: Option<ControlTransfer>)
        ensures
            transfer_view(t) == self@.pending(),
    {
        match self.phase {
            SimplePhase::Select => Some(Device::select_command(self.group, self.sub)),
            SimplePhase::Length => Some(Device::xu_get_len(self.group)),
            SimplePhase::Data { len } => Some(Device::xu_get(self.group, len as usize)),
            _ => None,
        }
    }

    /// Takes the reply to the pending transfer.
    pub fn reply(&mut self, reply: &Reply)
        ensures
            final(self)@ == old(self)@.after(reply@),
    {
        match self.phase {
            SimplePhase::Select => match reply {
                Reply::Failed(e) => {
                    self.phase = SimplePhase::Failed(CameraError::Select(*e));
                },
                Reply::Data(_) => {
                    self.phase = SimplePhase::Length;
                },
            },
            SimplePhase::Length => match reply {
                Reply::Failed(e) => {
                    self.phase =
                    SimplePhase::Failed(CameraError::Length { group: self.group, error: *e });
                },
                Reply::Data(d) => {
                    let buf: Vec<u8> = fill(4, d.as_slice());
                    let len: u32 = u32_at(buf.as_slice(), 0);
                    if len == 0 || len > MAX_SIMPLE_LEN {
                        self.phase =
                        SimplePhase::Failed(
                            CameraError::ImplausibleLength { announced: len, group: self.group, sub: self.sub },
                        );
                    } else {
                        self.phase = SimplePhase::Data { len };
                    }
                },
            },
            SimplePhase::Data { len } => match reply {
                Reply::Failed(e) => {
                    self.phase =
                    SimplePhase::Failed(CameraError::Data { group: self.group, error: *e });
                },
                Reply::Data(d) => {
                    self.out = receive(len as usize, d.as_slice());
                    self.phase = SimplePhase::Done;
                },
            },
            _ => {},
        }
    }

    /// What the read delivered.
    pub fn outcome(&self) -> (r: Result<Vec<u8>, CameraError>)
        requires
            self@.pending() is None,
        ensures
            bytes_result(r) == self@.outcome(),
    {
        match self.phase {
            SimplePhase::Failed(e) => Err(e),
            _ => Ok(copy_bytes(self.out.as_slice())),
        }
    }

    /// Whether the read has ended.
    pub fn ended(&self) -> (r: bool)
        ensures
            r == (self@.pending() is None),
    {
        match self.phase {
            SimplePhase::Done => true,
            SimplePhase::Failed(_) => true,
            _ => false,
        }
    }
}

/// Where a two-phase read stands.
#[derive(Debug, Clone, Copy, PartialEq, Eq)]
pub enum DoublePhase {
    Select,
    Request,
    Length,
    Head { len: u32 },
    Chunks { total: u32 },
    Done,
    Failed(CameraError),
}

/// A two-phase read under way.
pub struct DoubleGet {
    group: u8,
    sub: u8,
    request: Vec<u8>,
    phase: DoublePhase,
    out: Vec<u8>,
}

/// Mathematical counterpart of [`DoubleGet`].
#[verifier::ext_equal]
pub struct DoubleGetView {
    pub group: u8,
    pub sub: u8,
    pub request: Seq<u8>,
    pub phase: DoublePhase,
    pub out: Seq<u8>,
}

/// A chunk header stands in front, with or without data behind it.
pub open spec fn is_numbered(chunk: Seq<u8>) -> bool {
    chunk.len() >= CHUNK_HEADER_LEN && chunk[0] == CHUNK_TAG
}

/// What a chunk adds to the payload: the part behind the chunk header, or all
/// of it where no header stands in front.
pub open spec fn chunk_data(chunk: Seq<u8>) -> Seq<u8> {
    if is_numbered(chunk) {
        chunk.skip(CHUNK_HEADER_LEN as int)
    } else {
        chunk
    }
}

/// Whether a chunk header stands in front.
pub fn has_header(chunk: &[u8]) -> (r: bool)
    ensures
        r == is_numbered(chunk@),
{
    chunk.len() >= CHUNK_HEADER_LEN && chunk[0] == CHUNK_TAG
}

/// Puts what a chunk adds to the payload behind `out`.
pub fn push_chunk(out: &mut Vec<u8>, chunk: &[u8])
    ensures
        final(out)@ == old(out)@ + chunk_data(chunk@),
{
    let start: usize = if has_header(chunk) { CHUNK_HEADER_LEN } else { 0 };
    push_range(out, chunk, start, chunk.len());
    assert(chunk@.subrange(start as int, chunk@.len() as int) =~= chunk_data(chunk@));
}

/// A chunk as the camera frames it: tag, sequence number, data.
pub open spec fn framed(seq: u32, data: Seq<u8>) -> Seq<u8> {
    seq![CHUNK_TAG] + u32_bytes(seq) + data
}

impl DoubleGetView {
    pub open spec fn start(group: u8, sub: u8, request: Seq<u8>) -> DoubleGetView {
        DoubleGetView { group, sub, request, phase: DoublePhase::Select, out: Seq::empty() }
    }

    /// The transfer to carry out next; none once the read has ended.
    pub open spec fn pending(self) -> Option<TransferView> {
        match self.phase {
            DoublePhase::Select => Some(select_view(self.group, self.sub)),
            DoublePhase::Request => Some(xu_set_view(self.group, self.request)),
            DoublePhase::Length => Some(xu_get_len_view(self.group)),
            DoublePhase::Head { len } => Some(xu_get_view(self.group, len as nat)),
            DoublePhase::Chunks { total } => Some(xu_get_view(self.group, CHUNK_LEN as nat)),
            _ => None,
        }
    }

    pub open spec fn fail(self, e: CameraError) -> DoubleGetView {
        DoubleGetView { phase: DoublePhase::Failed(e), ..self }
    }

    pub open spec fn enter(self, phase: DoublePhase) -> DoubleGetView {
        DoubleGetView { phase, ..self }
    }

    /// The head was read into a buffer of `len` bytes.
    pub open spec fn take_head(self, len: u32, d: Seq<u8>) -> DoubleGetView {
        let head = filled(len as nat, d);
        if len < 5 {
            self.fail(
                CameraError::HeadTooShort { head_len: len, bytes: u32_le(filled(4, head), 0) as u32 },
            )
        } else {
            let total = u32_le(head, 1) as u32;
            if total == 0 || total > MAX_DOUBLE_LEN {
                self.fail(CameraError::ImplausibleTotal(total))
            } else {
                self.enter(DoublePhase::Chunks { total })
            }
        }
    }

    /// A chunk was read; the read ends once `total` bytes are there.
    pub open spec fn take_chunk(self, total: u32, d: Seq<u8>) -> DoubleGetView {
        let chunk = received(CHUNK_LEN as nat, d);
        if chunk.len() == 0 {
            self.fail(
                CameraError::Truncated { got: self.out.len() as usize, total: total as usize },
            )
        } else {
            let out = self.out + chunk_data(chunk);
            if out.len() < total {
                DoubleGetView { out, ..self }
            } else {
                DoubleGetView { out: out.take(total as int), phase: DoublePhase::Done, ..self }
            }
        }
    }

    /// The state after the pending transfer was answered by `r`.
    pub open spec fn after(self, r: ReplyView) -> DoubleGetView {
        match (self.phase, r) {
            (DoublePhase::Select, ReplyView::Failed(e)) => self.fail(CameraError::Select(e)),
            (DoublePhase::Select, ReplyView::Data(_)) => self.enter(DoublePhase::Request),
            (DoublePhase::Request, ReplyView::Failed(e)) => self.fail(CameraError::Request(e)),
            (DoublePhase::Request, ReplyView::Data(_)) => self.enter(DoublePhase::Length),
            (DoublePhase::Length, ReplyView::Failed(e)) => self.fail(CameraError::HeadLength(e)),
            (DoublePhase::Length, ReplyView::Data(d)) => self.enter(
                DoublePhase::Head { len: u32_le(filled(4, d), 0) as u32 },
            ),
            (DoublePhase::Head { len }, ReplyView::Failed(e)) => self.fail(CameraError::Head(e)),
            (DoublePhase::Head { len }, ReplyView::Data(d)) => self.take_head(len, d),
            (DoublePhase::Chunks { total }, ReplyView::Failed(e)) => self.fail(
                CameraError::Chunk(e),
            ),
            (DoublePhase::Chunks { total }, ReplyView::Data(d)) => self.take_chunk(total, d),
            _ => self,
        }
    }

    /// The state after a series of replies.
    pub open spec fn run(self, replies: Seq<ReplyView>) -> DoubleGetView
        decreases replies.len(),
    {
        if replies.len() == 0 {
            self
        } else {
            self.run(replies.drop_last()).after(replies.last())
        }
    }

    /// What an ended read delivers: the payload, or why there is none.
    pub open spec fn outcome(self) -> Result<Seq<u8>, CameraError> {
        match self.phase {
            DoublePhase::Failed(e) => Err(e),
            _ => Ok(self.out),
        }
    }

    /// What holds of every read that began at [`DoubleGetView::start`]: nothing
    /// is collected before the chunks, a payload being collected is short of
    /// its plausible total, and a finished one has a plausible length.
    pub open spec fn wf(self) -> bool {
        match self.phase {
            DoublePhase::Chunks { total } => self.out.len() < total <= MAX_DOUBLE_LEN,
            DoublePhase::Done => 0 < self.out.len() <= MAX_DOUBLE_LEN,
            DoublePhase::Failed(_) => self.out.len() <= MAX_DOUBLE_LEN,
            _ => self.out.len() == 0,
        }
    }
}

impl View for DoubleGet {
    type V = DoubleGetView;

    closed spec fn view(&self) -> DoubleGetView {
        DoubleGetView {
            group: self.group,
            sub: self.sub,
            request: self.request@,
            phase: self.phase,
            out: self.out@,
        }
    }
}

impl DoubleGet {
    /// The transfer to carry out next; `None` once the read has ended.
    pub fn pending(&self) -> (t: Option<ControlTransfer>)
        ensures
            transfer_view(t) == self@.pending(),
    {
        match self.phase {
            DoublePhase::Select => Some(Device::select_command(self.group, self.sub)),
            DoublePhase::Request => Some(Device::xu_set(self.group, self.request.as_slice())),
            DoublePhase::Length => Some(Device::xu_get_len(self.group)),
            DoublePhase::Head { len } => Some(Device::xu_get(self.group, len as usize)),
            DoublePhase::Chunks { total } => Some(Device::xu_get(self.group, CHUNK_LEN)),
            _ => None,
        }
    }

    fn take_head(&mut self, len: u32, data: &[u8])
        requires
            old(self).phase == (DoublePhase::Head { len }),
        ensures
            final(self)@ == old(self)@.take_head(len, data@),
    {
        let head: Vec<u8> = fill(len as usize, data);
        if head.len() < 5 {
            let padded: Vec<u8> = fill(4, head.as_slice());
            let bytes: u32 = u32_at(padded.as_slice(), 0);
            self.phase = DoublePhase::Failed(CameraError::HeadTooShort { head_len: len, bytes });
        } else {
            let total: u32 = u32_at(head.as_slice(), 1);
            if total == 0 || total > MAX_DOUBLE_LEN {
                self.phase = DoublePhase::Failed(CameraError::ImplausibleTotal(total));
            } else {
                self.phase = DoublePhase::Chunks { total };
            }
        }
    }

    fn take_chunk(&mut self, total: u32, data: &[u8])
        requires
            old(self).phase == (DoublePhase::Chunks { total }),
        ensures
            final(self)@ == old(self)@.take_chunk(total, data@),
    {
        let chunk: Vec<u8> = receive(CHUNK_LEN, data);
        if chunk.len() == 0 {
            self.phase =
            DoublePhase::Failed(
                CameraError::Truncated { got: self.out.len(), total: total as usize },
            );
            return;
        }
        push_chunk(&mut self.out, chunk.as_slice());
        if self.out.len() >= total as usize {
            self.out.truncate(total as usize);
            self.phase = DoublePhase::Done;
        }
    }

    /// Takes the reply to the pending transfer.
    pub fn reply(&mut self, reply: &Reply)
        ensures
            final(self)@ == old(self)@.after(reply@),
    {
        match reply {
            Reply::Failed(e) => match self.phase {
                DoublePhase::Select => {
                    self.phase = DoublePhase::Failed(CameraError::Select(*e));
                },
                DoublePhase::Request => {
                    self.phase = DoublePhase::Failed(CameraError::Request(*e));
                },
                DoublePhase::Length => {
                    self.phase = DoublePhase::Failed(CameraError::HeadLength(*e));
                },
                DoublePhase::Head { len: _ } => {
                    self.phase = DoublePhase::Failed(CameraError::Head(*e));
                },
                DoublePhase::Chunks { total: _ } => {
                    self.phase = DoublePhase::Failed(CameraError::Chunk(*e));
                },
                _ => {},
            },
            Reply::Data(d) => match self.phase {
                DoublePhase::Select => {
                    self.phase = DoublePhase::Request;
                },
                DoublePhase::Request => {
                    self.phase = DoublePhase::Length;
                },
                DoublePhase::Length => {
                    let buf: Vec<u8> = fill(4, d.as_slice());
                    let len: u32 = u32_at(buf.as_slice(), 0);
                    self.phase = DoublePhase::Head { len };
                },
                DoublePhase::Head { len } => {
                    self.take_head(len, d.as_slice());
                },
                DoublePhase::Chunks { total } => {
                    self.take_chunk(total, d.as_slice());
                },
                _ => {},
            },
        }
    }

    /// What the read delivered.
    pub fn outcome(self) -> (r: Result<Vec<u8>, CameraError>)
        requires
            self@.pending() is None,
        ensures
            bytes_result(r) == self@.outcome(),
    {
        match self.phase {
            DoublePhase::Failed(e) => Err(e),
            _ => Ok(self.out),
        }
    }
}

impl Device {
    /// Starts a plain read: select the command, read the length, read the data.
    pub fn simple_get(group: u8, sub: u8) -> (t: SimpleGet)
        ensures
            t@ == SimpleGetView::start(group, sub),
    {
        SimpleGet { group, sub, phase: SimplePhase::Select, out: Vec::new() }
    }

    /// Starts a two-phase read: select the command, send the request, read the
    /// head that announces the total length, then read chunks until that many
    /// bytes are there. The request is sent once only; sending it again would
    /// restart the exchange.
    pub fn double_get(group: u8, sub: u8, request: &[u8]) -> (t: DoubleGet)
        ensures
            t@ == DoubleGetView::start(group, sub, request@),
    {
        DoubleGet {
            group,
            sub,
            request: copy_bytes(request),
            phase: DoublePhase::Select,
            out: Vec::new(),
        }
    }
}

/// All pieces in a row.
pub open spec fn joined(pieces: Seq<Seq<u8>>) -> Seq<u8>
    decreases pieces.len(),
{
    if pieces.len() == 0 {
        Seq::empty()
    } else {
        joined(pieces.drop_last()) + pieces.last()
    }
}

/// The chunk replies that carry `pieces`, numbered by `numbers`.
pub open spec fn chunk_replies(pieces: Seq<Seq<u8>>, numbers: Seq<u32>) -> Seq<ReplyView> {
    Seq::new(pieces.len(), |i: int| ReplyView::Data(framed(numbers[i], pieces[i])))
}

/// The pieces carry a payload of `total` bytes: each fits into one chunk read
/// together with its header, and the last one is needed. A piece may be empty.
pub open spec fn carries(pieces: Seq<Seq<u8>>, total: int) -> bool {
    &&& pieces.len() > 0
    &&& forall|i: int|
        0 <= i < pieces.len() ==> (#[trigger] pieces[i]).len() <= CHUNK_LEN - CHUNK_HEADER_LEN
    &&& joined(pieces.drop_last()).len() < total <= joined(pieces).len()
}

/// What the camera answers in a two-phase read: two acknowledgements, the
/// length of the head, the head, and the chunks.
pub open spec fn double_get_replies(
    acks: (Seq<u8>, Seq<u8>),
    len_reply: Seq<u8>,
    head: Seq<u8>,
    pieces: Seq<Seq<u8>>,
    numbers: Seq<u32>,
) -> Seq<ReplyView> {
    seq![
        ReplyView::Data(acks.0),
        ReplyView::Data(acks.1),
        ReplyView::Data(len_reply),
        ReplyView::Data(head),
    ] + chunk_replies(pieces, numbers)
}

/// A plain read asks for the command, the length and the data, in that order,
/// and delivers the data unchanged where the camera announces a plausible
/// length and sends no more than that.
pub proof fn law_simple_get_delivers(
    group: u8,
    sub: u8,
    ack: Seq<u8>,
    len_reply: Seq<u8>,
    len: u32,
    data: Seq<u8>,
)
    requires
        u32_le(filled(4, len_reply), 0) == len,
        0 < len <= MAX_SIMPLE_LEN,
        data.len() <= len,
    ensures
        ({
            let s0 = SimpleGetView::start(group, sub);
            let s1 = s0.run(seq![ReplyView::Data(ack)]);
            let s2 = s0.run(seq![ReplyView::Data(ack), ReplyView::Data(len_reply)]);
            let s3 = s0.run(
                seq![ReplyView::Data(ack), ReplyView::Data(len_reply), ReplyView::Data(data)],
            );
            &&& s0.pending() == Some(select_view(group, sub))
            &&& s1.pending() == Some(xu_get_len_view(group))
            &&& s2.pending() == Some(xu_get_view(group, len as nat))
            &&& s3.pending() is None
            &&& s3.outcome() == Ok::<Seq<u8>, CameraError>(data)
        }),
{
    let r1 = seq![ReplyView::Data(ack)];
    let r2 = seq![ReplyView::Data(ack), ReplyView::Data(len_reply)];
    let r3 = seq![ReplyView::Data(ack), ReplyView::Data(len_reply), ReplyView::Data(data)];
    assert(r1.drop_last() =~= Seq::<ReplyView>::empty());
    assert(r2.drop_last() =~= r1);
    assert(r3.drop_last() =~= r2);
    reveal_with_fuel(SimpleGetView::run, 4);
}

/// What a plain read delivers is never longer than the limit.
pub proof fn law_simple_get_bounded(group: u8, sub: u8, replies: Seq<ReplyView>)
    ensures
        ({
            let s = SimpleGetView::start(group, sub).run(replies);
            &&& s.group == group && s.sub == sub
            &&& s.out.len() <= MAX_SIMPLE_LEN
            &&& s.phase matches SimplePhase::Data { len } ==> 0 < len <= MAX_SIMPLE_LEN
        }),
    decreases replies.len(),
{
    if replies.len() > 0 {
        law_simple_get_bounded(group, sub, replies.drop_last());
    }
}

/// Every state of a two-phase read is well formed, whatever the camera
/// answers; a payload that was delivered has at least one byte and at most the
/// limit.
pub proof fn law_double_get_wf(
    group: u8,
    sub: u8,
    request: Seq<u8>,
    replies: Seq<ReplyView>,
)
    ensures
        ({
            let s = DoubleGetView::start(group, sub, request).run(replies);
            &&& s.wf()
            &&& s.group == group && s.sub == sub && s.request == request
        }),
    decreases replies.len(),
{
    if replies.len() > 0 {
        law_double_get_wf(group, sub, request, replies.drop_last());
    }
}

/// A two-phase read points the data channel at the command, sends the request,
/// asks for the length of the head, reads the head, and goes on to the chunks,
/// in that order.
pub proof fn law_double_get_order(
    group: u8,
    sub: u8,
    request: Seq<u8>,
    ack: Seq<u8>,
    len_reply: Seq<u8>,
    head: Seq<u8>,
)
    requires
        5 <= head.len() == u32_le(filled(4, len_reply), 0),
        0 < u32_le(head, 1) <= MAX_DOUBLE_LEN,
    ensures
        ({
            let s0 = DoubleGetView::start(group, sub, request);
            let s1 = s0.after(ReplyView::Data(ack));
            let s2 = s1.after(ReplyView::Data(ack));
            let s3 = s2.after(ReplyView::Data(len_reply));
            let s4 = s3.after(ReplyView::Data(head));
            &&& s0.pending() == Some(select_view(group, sub))
            &&& s1.pending() == Some(xu_set_view(group, request))
            &&& s2.pending() == Some(xu_get_len_view(group))
            &&& s3.pending() == Some(xu_get_view(group, head.len()))
            &&& s4.pending() == Some(xu_get_view(group, 512))
        }),
{
    assert(filled(head.len(), head) =~= head);
}

/// The request is sent once only: the one state that sends it is reached from
/// the first state alone, and any reply leaves it. While the chunks are read,
/// every transfer is a read of one chunk, which asks for no more than the
/// camera allows.
pub proof fn law_double_get_request_sent_once(s: DoubleGetView, r: ReplyView)
    ensures
        s.after(r).phase is Request ==> s.phase is Select,
        s.after(r).phase !is Select,
        s.phase is Chunks ==> s.pending() == Some(xu_get_view(s.group, 512)),
        s.phase is Chunks ==> s.after(r).pending() is None || s.after(r).phase == s.phase,
{
}

/// A two-phase read sends its request as its second transfer and at no other
/// time; length and head come third and fourth.
pub proof fn law_double_get_early_phases(
    group: u8,
    sub: u8,
    request: Seq<u8>,
    replies: Seq<ReplyView>,
)
    ensures
        ({
            let s = DoubleGetView::start(group, sub, request).run(replies);
            &&& s.phase is Select ==> replies.len() == 0
            &&& s.phase is Request ==> replies.len() == 1
            &&& s.phase is Length ==> replies.len() == 2
            &&& s.phase is Head ==> replies.len() == 3
        }),
    decreases replies.len(),
{
    if replies.len() > 0 {
        law_double_get_early_phases(group, sub, request, replies.drop_last());
    }
}

/// The length that the third and fourth replies of a two-phase read announce:
/// the third holds the length of the head, and the fourth the head.
pub open spec fn announced_total(replies: Seq<ReplyView>) -> int {
    match (replies[2], replies[3]) {
        (ReplyView::Data(len_reply), ReplyView::Data(head)) => u32_le(
            filled(u32_le(filled(4, len_reply), 0) as nat, head),
            1,
        ),
        _ => 0,
    }
}

/// A payload that was delivered has exactly the length that the head announced,
/// whatever the camera answered.
pub proof fn law_double_get_announced_length(
    group: u8,
    sub: u8,
    request: Seq<u8>,
    replies: Seq<ReplyView>,
)
    ensures
        ({
            let s = DoubleGetView::start(group, sub, request).run(replies);
            &&& s.phase is Done ==> replies.len() > 4 && s.out.len() == announced_total(replies)
            &&& s.phase matches DoublePhase::Chunks { total } ==> replies.len() >= 4 && total
                == announced_total(replies)
            &&& s.phase matches DoublePhase::Head { len } ==> replies.len() == 3 && (replies[2]
                matches ReplyView::Data(d) && len == u32_le(filled(4, d), 0))
        }),
    decreases replies.len(),
{
    if replies.len() > 0 {
        let before = replies.drop_last();
        law_double_get_announced_length(group, sub, request, before);
        law_double_get_early_phases(group, sub, request, before);
        let s = DoubleGetView::start(group, sub, request).run(before);
        if replies.len() > 4 {
            assert(before[2] == replies[2] && before[3] == replies[3]);
        } else if replies.len() == 4 {
            assert(before[2] == replies[2]);
        }
    }
}

/// How many of the replies are chunks that bring data.
pub open spec fn data_chunks(replies: Seq<ReplyView>) -> nat
    decreases replies.len(),
{
    if replies.len() == 0 {
        0
    } else {
        let before = data_chunks(replies.drop_last());
        match replies.last() {
            ReplyView::Data(d) => if chunk_data(received(CHUNK_LEN as nat, d)).len() > 0 {
                before + 1
            } else {
                before
            },
            ReplyView::Failed(_) => before,
        }
    }
}

/// A two-phase read ends: every chunk that brings data brings the payload closer
/// to its total, so no more of them are read than the longest payload has bytes.
/// Chunk headers without data do not count.
pub proof fn law_double_get_ends(
    group: u8,
    sub: u8,
    request: Seq<u8>,
    replies: Seq<ReplyView>,
)
    ensures
        ({
            let s = DoubleGetView::start(group, sub, request).run(replies);
            &&& s.phase is Chunks ==> replies.len() >= 4 && data_chunks(replies.skip(4))
                <= s.out.len()
            &&& s.pending() is Some ==> replies.len() < 4 || data_chunks(replies.skip(4))
                < MAX_DOUBLE_LEN
        }),
    decreases replies.len(),
{
    law_double_get_wf(group, sub, request, replies);
    law_double_get_early_phases(group, sub, request, replies);
    if replies.len() > 0 {
        let before = replies.drop_last();
        law_double_get_ends(group, sub, request, before);
        law_double_get_early_phases(group, sub, request, before);
        if replies.len() == 4 {
            assert(replies.skip(4) =~= Seq::<ReplyView>::empty());
        } else if replies.len() > 4 {
            assert(replies.skip(4).drop_last() =~= before.skip(4));
            assert(replies.skip(4).last() == replies.last());
        }
    }
}

/// A plain read ends after three replies at most.
pub proof fn law_simple_get_ends(group: u8, sub: u8, replies: Seq<ReplyView>)
    ensures
        ({
            let s = SimpleGetView::start(group, sub).run(replies);
            &&& s.phase is Select ==> replies.len() == 0
            &&& s.phase is Length ==> replies.len() == 1
            &&& s.phase is Data ==> replies.len() == 2
            &&& replies.len() >= 3 ==> s.pending() is None
        }),
    decreases replies.len(),
{
    if replies.len() > 0 {
        law_simple_get_ends(group, sub, replies.drop_last());
    }
}

/// A failed transfer ends a two-phase read with an error, and an ended read
/// stays as it is.
pub proof fn law_double_get_failure_ends(s: DoubleGetView, e: TransferError, r: ReplyView)
    ensures
        s.pending() is Some ==> s.after(ReplyView::Failed(e)).phase is Failed,
        s.pending() is None ==> s.after(r) == s,
{
}

/// A failed transfer ends a plain read with an error, and an ended read stays
/// as it is.
pub proof fn law_simple_get_failure_ends(s: SimpleGetView, e: TransferError, r: ReplyView)
    ensures
        s.pending() is Some ==> s.after(ReplyView::Failed(e)).phase is Failed,
        s.pending() is None ==> s.after(r) == s,
{
}

/// The begin of a series of pieces is no longer than all of it.
pub proof fn lemma_joined_prefix(pieces: Seq<Seq<u8>>, k: int)
    requires
        0 <= k <= pieces.len(),
    ensures
        joined(pieces.take(k)).len() <= joined(pieces).len(),
    decreases pieces.len(),
{
    if k == pieces.len() {
        assert(pieces.take(k) =~= pieces);
    } else {
        lemma_joined_prefix(pieces.drop_last(), k);
        assert(pieces.take(k) =~= pieces.drop_last().take(k));
    }
}

/// A framed chunk loses exactly its header, also where no data follows.
pub proof fn law_chunk_data_of_framed(number: u32, data: Seq<u8>)
    ensures
        chunk_data(framed(number, data)) == data,
{
    let c = framed(number, data);
    assert(c.len() == 5 + data.len());
    assert(c[0] == CHUNK_TAG);
    assert(c.skip(5) =~= data);
}

proof fn lemma_chunks_collected(
    s: DoubleGetView,
    before: Seq<ReplyView>,
    total: u32,
    pieces: Seq<Seq<u8>>,
    numbers: Seq<u32>,
    k: int,
)
    requires
        s.run(before).phase == (DoublePhase::Chunks { total }),
        s.run(before).out == Seq::<u8>::empty(),
        carries(pieces, total as int),
        0 <= k <= pieces.len(),
        numbers.len() == pieces.len(),
    ensures
        ({
            let now = s.run(before + chunk_replies(pieces, numbers).take(k));
            &&& k < pieces.len() ==> now.out == joined(pieces.take(k)) && now.phase == s.run(
                before,
            ).phase
            &&& k == pieces.len() ==> now.out == joined(pieces).take(total as int)
                && now.phase is Done
        }),
    decreases k,
{
    let replies = chunk_replies(pieces, numbers);
    if k == 0 {
        assert(before + replies.take(0) =~= before);
        assert(joined(pieces.take(0)) =~= Seq::<u8>::empty());
    } else {
        lemma_chunks_collected(s, before, total, pieces, numbers, k - 1);
        let all = before + replies.take(k);
        assert(all.drop_last() =~= before + replies.take(k - 1));
        assert(all.last() == replies[k - 1]);
        let piece = pieces[k - 1];
        law_chunk_data_of_framed(numbers[k - 1], piece);
        let chunk = framed(numbers[k - 1], piece);
        assert(received(CHUNK_LEN as nat, chunk) == chunk);
        assert(pieces.take(k).drop_last() =~= pieces.take(k - 1));
        assert(pieces.take(k).last() == piece);
        assert(joined(pieces.take(k)) == joined(pieces.take(k - 1)) + piece);
        let rest = pieces.drop_last();
        if k <= rest.len() {
            lemma_joined_prefix(rest, k);
            assert(rest.take(k) =~= pieces.take(k));
        } else {
            assert(pieces.take(k) =~= pieces);
        }
    }
}

/// A two-phase read gives back the payload that the camera sends: where the
/// head announces the payload's length and the chunks carry it in pieces, each
/// behind its header and within one read, the outcome is the pieces in a row,
/// without what the last one holds past the announced length.
pub proof fn law_double_get_reassembles(
    group: u8,
    sub: u8,
    request: Seq<u8>,
    acks: (Seq<u8>, Seq<u8>),
    len_reply: Seq<u8>,
    head: Seq<u8>,
    pieces: Seq<Seq<u8>>,
    numbers: Seq<u32>,
)
    requires
        5 <= head.len() == u32_le(filled(4, len_reply), 0),
        u32_le(head, 1) <= MAX_DOUBLE_LEN,
        carries(pieces, u32_le(head, 1)),
        numbers.len() == pieces.len(),
    ensures
        ({
            let s = DoubleGetView::start(group, sub, request).run(
                double_get_replies(acks, len_reply, head, pieces, numbers),
            );
            &&& s.pending() is None
            &&& s.outcome() == Ok::<Seq<u8>, CameraError>(joined(pieces).take(u32_le(head, 1)))
        }),
{
    let s0 = DoubleGetView::start(group, sub, request);
    let total = u32_le(head, 1) as u32;
    let r1 = seq![ReplyView::Data(acks.0)];
    let r2 = seq![ReplyView::Data(acks.0), ReplyView::Data(acks.1)];
    let r3 = seq![
        ReplyView::Data(acks.0),
        ReplyView::Data(acks.1),
        ReplyView::Data(len_reply),
    ];
    let r4 = seq![
        ReplyView::Data(acks.0),
        ReplyView::Data(acks.1),
        ReplyView::Data(len_reply),
        ReplyView::Data(head),
    ];
    assert(r1.drop_last() =~= Seq::<ReplyView>::empty());
    assert(r2.drop_last() =~= r1);
    assert(r3.drop_last() =~= r2);
    assert(r4.drop_last() =~= r3);
    assert(s0.run(r1) == s0.enter(DoublePhase::Request)) by {
        reveal_with_fuel(DoubleGetView::run, 2);
    }
    assert(s0.run(r2) == s0.enter(DoublePhase::Length));
    assert(s0.run(r3) == s0.enter(DoublePhase::Head { len: head.len() as u32 }));
    assert(filled(head.len(), head) =~= head);
    assert(s0.run(r4) == s0.enter(DoublePhase::Chunks { total }));
    let n = pieces.len() as int;
    lemma_chunks_collected(s0, r4, total, pieces, numbers, n);
    assert(chunk_replies(pieces, numbers).take(n) =~= chunk_replies(pieces, numbers));
}

/// Pieces in a row: none make nothing, and one more piece comes behind the
/// others.
pub proof fn law_joined(pieces: Seq<Seq<u8>>, piece: Seq<u8>)
    ensures
        joined(Seq::empty()) == Seq::<u8>::empty(),
        joined(pieces.push(piece)) == joined(pieces) + piece,
{
    assert(pieces.push(piece).drop_last() =~= pieces);
}

/// A plain read, in numbers: the length that the camera answers is a 32-bit
/// integer, least significant byte first, of which missing bytes are zero. From
/// 1 to 65536 that many bytes are read, and what comes is delivered, cut off
/// there; any other length ends the read with an error that holds it.
pub proof fn law_plain_read(
    group: u8,
    sub: u8,
    ack: Seq<u8>,
    len_reply: Seq<u8>,
    bytes: Seq<u8>,
    data: Seq<u8>,
)
    requires
        bytes.len() == 4,
        forall|i: int|
            0 <= i < 4 ==> #[trigger] bytes[i] == (if i < len_reply.len() {
                len_reply[i]
            } else {
                0
            }),
    ensures
        ({
            let len = bytes[0] + bytes[1] * 0x100 + bytes[2] * 0x10000 + bytes[3] * 0x1000000;
            let s0 = SimpleGetView::start(group, sub);
            let s1 = s0.after(ReplyView::Data(ack));
            let s2 = s1.after(ReplyView::Data(len_reply));
            let s3 = s2.after(ReplyView::Data(data));
            &&& s0.pending() == Some(select_view(group, sub))
            &&& s1.pending() == Some(xu_get_len_view(group))
            &&& 1 <= len <= 65536 ==> {
                &&& s2.pending() == Some(xu_get_view(group, len as nat))
                &&& s3.pending() is None
                &&& s3.outcome() matches Ok(out) && {
                    &&& out.len() <= len && out.len() <= data.len()
                    &&& out.len() == len || out == data
                    &&& out == data.take(out.len() as int)
                }
            }
            &&& len == 0 || len > 65536 ==> {
                &&& s2.pending() is None
                &&& s2.outcome() == Err::<Seq<u8>, CameraError>(
                    CameraError::ImplausibleLength { announced: len as u32, group, sub },
                )
            }
        }),
{
    assert(filled(4, len_reply) =~= bytes);
}

/// Each failed transfer of a plain read ends it with the error of its step.
pub proof fn law_plain_read_failures(
    group: u8,
    sub: u8,
    ack: Seq<u8>,
    len: u32,
    out: Seq<u8>,
    e: TransferError,
)
    ensures
        ({
            let s0 = SimpleGetView::start(group, sub);
            let s1 = s0.after(ReplyView::Data(ack));
            let s2 = SimpleGetView { group, sub, phase: SimplePhase::Data { len }, out };
            let failed = ReplyView::Failed(e);
            &&& s0.after(failed).outcome() == Err::<Seq<u8>, CameraError>(CameraError::Select(e))
            &&& s1.after(failed).outcome() == Err::<Seq<u8>, CameraError>(
                CameraError::Length { group, error: e },
            )
            &&& s2.after(failed).outcome() == Err::<Seq<u8>, CameraError>(
                CameraError::Data { group, error: e },
            )
        }),
{
}

/// A two-phase read, in numbers. The camera acknowledges twice, answers the
/// length of the head, sends the head, and then chunks of at most 512 bytes. The
/// head has at least five bytes, and its bytes 1 to 4 are the payload's length,
/// least significant byte first, from 1 to 8 MiB. Every chunk begins with 02 and
/// a number of four bytes. What is delivered are the chunks behind their first
/// five bytes, in a row, up to the payload's length; the last chunk is the one
/// that completes it.
pub proof fn law_two_phase_read(
    group: u8,
    sub: u8,
    request: Seq<u8>,
    replies: Seq<ReplyView>,
    head_len: Seq<u8>,
    head: Seq<u8>,
    chunks: Seq<Seq<u8>>,
    pieces: Seq<Seq<u8>>,
    total: int,
)
    requires
        0 < chunks.len() == pieces.len(),
        replies.len() == 4 + chunks.len(),
        replies[0] is Data,
        replies[1] is Data,
        replies[2] == ReplyView::Data(head_len),
        head_len.len() == 4,
        head_len[0] + head_len[1] * 0x100 + head_len[2] * 0x10000 + head_len[3] * 0x1000000
            == head.len(),
        replies[3] == ReplyView::Data(head),
        head.len() >= 5,
        total == head[1] + head[2] * 0x100 + head[3] * 0x10000 + head[4] * 0x1000000,
        total <= 8388608,
        forall|i: int|
            0 <= i < chunks.len() ==> replies[4 + i] == ReplyView::Data(#[trigger] chunks[i]),
        forall|i: int|
            0 <= i < chunks.len() ==> 5 <= (#[trigger] chunks[i]).len() <= 512 && chunks[i][0] == 2
                && pieces[i] == chunks[i].skip(5),
        joined(pieces.drop_last()).len() < total <= joined(pieces).len(),
    ensures
        ({
            let s = DoubleGetView::start(group, sub, request).run(replies);
            &&& s.pending() is None
            &&& s.outcome() == Ok::<Seq<u8>, CameraError>(joined(pieces).take(total))
        }),
{
    let acks = (replies[0]->Data_0, replies[1]->Data_0);
    let numbers = Seq::new(pieces.len(), |i: int| u32_le(chunks[i], 1) as u32);
    assert(filled(4, head_len) =~= head_len);
    assert forall|i: int| 0 <= i < pieces.len() implies #[trigger] chunk_replies(pieces, numbers)[i]
        == replies[4 + i] by {
        let c = chunks[i];
        crate::wire::law_u32_bytes_of_read(c, 1);
        assert(framed(numbers[i], pieces[i]) =~= c);
    }
    let all = double_get_replies(acks, head_len, head, pieces, numbers);
    assert forall|k: int| 0 <= k < replies.len() implies all[k] == replies[k] by {
        if k >= 4 {
            assert(all[k] == chunk_replies(pieces, numbers)[k - 4]);
            assert(replies[4 + (k - 4)] == replies[k]);
        }
    }
    assert(all =~= replies);
    assert forall|i: int| 0 <= i < pieces.len() implies (#[trigger] pieces[i]).len() <= CHUNK_LEN
        - CHUNK_HEADER_LEN by {
        assert(chunks[i].len() <= 512);
    }
    law_double_get_reassembles(group, sub, request, acks, head_len, head, pieces, numbers);
}

/// What one chunk does to a two-phase read that has `out` of `total` bytes. An
/// empty chunk ends the read short. A chunk of at least five bytes that begins
/// with 02 adds what follows its fifth byte; any other adds all of itself.
pub proof fn law_one_chunk(s: DoubleGetView, total: u32, d: Seq<u8>)
    requires
        s.phase == (DoublePhase::Chunks { total }),
        d.len() <= 512,
        s.out.len() <= usize::MAX,
    ensures
        s.pending() == Some(xu_get_view(s.group, 512)),
        d.len() == 0 ==> s.after(ReplyView::Data(d)).pending() is None && s.after(
            ReplyView::Data(d),
        ).outcome() == Err::<Seq<u8>, CameraError>(
            CameraError::Truncated { got: s.out.len() as usize, total: total as usize },
        ),
        forall|piece: Seq<u8>|
            (d.len() >= 5 && d[0] == 2 && piece == d.skip(5)) || (0 < d.len() < 5 && piece == d) || (
            d.len() >= 5 && d[0] != 2 && piece == d) ==> {
                let t = s.after(ReplyView::Data(d));
                &&& (#[trigger] (s.out + piece)).len() < total ==> t.out == s.out + piece && t.phase
                    == s.phase
                &&& (s.out + piece).len() >= total ==> t.pending() is None && t.outcome() == Ok::<
                    Seq<u8>,
                    CameraError,
                >((s.out + piece).take(total as int))
            },
{
}

/// More than 512 bytes of a chunk are not received.
pub proof fn law_chunk_cut_off(s: DoubleGetView, total: u32, d: Seq<u8>)
    requires
        s.phase == (DoublePhase::Chunks { total }),
        d.len() > 512,
    ensures
        s.after(ReplyView::Data(d)) == s.after(ReplyView::Data(d.take(512))),
{
    assert(d.take(512).take(512) =~= d.take(512));
}

/// The head of a two-phase read, in numbers: its length is a 32-bit integer, least
/// significant byte first, and so is the payload's length in its bytes 1 to 4,
/// where bytes that did not come are zero. A head of fewer than five bytes, an
/// empty payload and one of more than 8 MiB end the read with an error.
pub proof fn law_two_phase_head(
    group: u8,
    sub: u8,
    request: Seq<u8>,
    acks: (Seq<u8>, Seq<u8>),
    len_reply: Seq<u8>,
    head_len: Seq<u8>,
    sent: Seq<u8>,
    head: Seq<u8>,
)
    requires
        head_len.len() == 4,
        forall|i: int|
            0 <= i < 4 ==> #[trigger] head_len[i] == (if i < len_reply.len() {
                len_reply[i]
            } else {
                0
            }),
        head.len() == head_len[0] + head_len[1] * 0x100 + head_len[2] * 0x10000 + head_len[3]
            * 0x1000000,
        forall|i: int|
            0 <= i < head.len() ==> #[trigger] head[i] == (if i < sent.len() { sent[i] } else { 0 }),
    ensures
        ({
            let s0 = DoubleGetView::start(group, sub, request);
            let s1 = s0.after(ReplyView::Data(acks.0));
            let s2 = s1.after(ReplyView::Data(acks.1));
            let s3 = s2.after(ReplyView::Data(len_reply));
            let s4 = s3.after(ReplyView::Data(sent));
            &&& s0.pending() == Some(select_view(group, sub))
            &&& s1.pending() == Some(xu_set_view(group, request))
            &&& s2.pending() == Some(xu_get_len_view(group))
            &&& s3.pending() == Some(xu_get_view(group, head.len()))
            &&& head.len() < 5 ==> s4.pending() is None && (s4.outcome() matches Err(
                CameraError::HeadTooShort { head_len: n, bytes },
            ) && n == head.len() && (head.len() == 0 ==> bytes == 0) && (head.len() == 1 ==> bytes
                == head[0]) && (head.len() == 2 ==> bytes == head[0] + head[1] * 0x100) && (
            head.len() == 3 ==> bytes == head[0] + head[1] * 0x100 + head[2] * 0x10000) && (
            head.len() == 4 ==> bytes == head[0] + head[1] * 0x100 + head[2] * 0x10000 + head[3]
                * 0x1000000))
            &&& head.len() >= 5 ==> {
                let total = head[1] + head[2] * 0x100 + head[3] * 0x10000 + head[4] * 0x1000000;
                &&& 1 <= total <= 8388608 ==> s4.phase == (DoublePhase::Chunks {
                    total: total as u32,
                }) && s4.out == Seq::<u8>::empty()
                &&& total == 0 || total > 8388608 ==> s4.pending() is None && s4.outcome() == Err::<
                    Seq<u8>,
                    CameraError,
                >(CameraError::ImplausibleTotal(total as u32))
            }
        }),
{
    assert(filled(4, len_reply) =~= head_len);
    assert(filled(head.len(), sent) =~= head);
}

/// Each failed transfer of a two-phase read ends it with the error of its step.
pub proof fn law_two_phase_failures(s: DoubleGetView, e: TransferError)
    ensures
        ({
            let r = s.after(ReplyView::Failed(e)).outcome();
            match s.phase {
                DoublePhase::Select => r == Err::<Seq<u8>, CameraError>(CameraError::Select(e)),
                DoublePhase::Request => r == Err::<Seq<u8>, CameraError>(CameraError::Request(e)),
                DoublePhase::Length => r == Err::<Seq<u8>, CameraError>(
                    CameraError::HeadLength(e),
                ),
                DoublePhase::Head { len } => r == Err::<Seq<u8>, CameraError>(CameraError::Head(e)),
                DoublePhase::Chunks { total } => r == Err::<Seq<u8>, CameraError>(
                    CameraError::Chunk(e),
                ),
                _ => true,
            }
        }),
        s.phase is Select || s.phase is Request || s.phase is Length || s.phase is Head
            || s.phase is Chunks <==> s.pending() is Some,
{
}

/// Results hold the bytes that were delivered.
pub proof fn law_bytes_of_result(v: Vec<u8>, e: CameraError)
    ensures
        bytes_result(Ok(v)) == Ok::<Seq<u8>, CameraError>(v@),
        bytes_result(Err(e)) == Err::<Seq<u8>, CameraError>(e),
{
}

} // verus!

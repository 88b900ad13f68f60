//! Step-by-step exchanges and stream statistics for the diagnostic programs.
use vstd::prelude::*;

use crate::inspect::corner_region;
use crate::roi::{
    encode_roi_request, no_time, roi_request, untimed, RoiRegion, GROUP_THERMAL, SUB_ROI_SEARCH,
};
use crate::transaction::{
    chunk_data, framed, has_header, is_numbered, joined, law_chunk_data_of_framed, push_chunk,
    DoubleGetView, DoublePhase, MAX_DOUBLE_LEN,
};
use crate::transfer::{
    select_view, transfer_view, xu_get_len_view, xu_get_view, xu_read_view, xu_set_view,
    ControlTransfer, Device, Reply, ReplyView, TransferError, TransferView, GET_CUR, GET_DEF,
    GET_INFO, GET_LEN, GET_MAX, GET_MIN, GET_RES,
};
use crate::wire::{
    copy_bytes, copy_range, fill, filled, lemma_u32_inside, receive, received, u16_le,
    u32_at, u32_bytes, u32_le,
};

verus! {

/// Builds an untimed region search request, with the upper left quarter of the
/// frame as its one region or with none.
pub fn build_req(channel: u8, with_region: bool) -> (req: Vec<u8>)
    ensures
        req@ == roi_request(
            channel,
            no_time(),
            if with_region { seq![corner_region()] } else { Seq::empty() },
        ),
{
    let mut regions: Vec<RoiRegion> = Vec::new();
    if with_region {
        regions.push(RoiRegion { x: 0, y: 0, width: 240, height: 320, distance: 100 });
    }
    assert(regions@ =~= (if with_region { seq![corner_region()] } else { Seq::empty() }));
    encode_roi_request(channel, untimed(), regions.as_slice())
}

/// Why the first phase of a two-phase read went wrong.
#[derive(Debug, Clone, Copy, PartialEq, Eq)]
pub enum PhaseError {
    Select(TransferError),
    Request(TransferError),
    /// The head length could not be read.
    Length(TransferError),
    /// The head length is not five.
    UnexpectedLength(u32),
    Head(TransferError),
    /// The head has fewer than five bytes.
    ShortHead(u32),
}

/// Where the first phase of a two-phase read stands.
#[derive(Debug, Clone, Copy, PartialEq, Eq)]
pub enum HeadPhase {
    Select,
    Request,
    Length,
    Head { len: u32 },
    Done { total: u32 },
    Failed(PhaseError),
}

/// The first phase of a two-phase read of the thermometry group, on its own:
/// send the request and learn the length of the result.
pub struct PhaseA {
    sub: u8,
    exact: bool,
    phase: HeadPhase,
    request: Vec<u8>,
    head: Vec<u8>,
}

/// Mathematical counterpart of [`PhaseA`].
#[verifier::ext_equal]
pub struct PhaseAView {
    pub sub: u8,
    /// The head must have exactly five bytes.
    pub exact: bool,
    pub phase: HeadPhase,
    pub request: Seq<u8>,
    pub head: Seq<u8>,
}

impl View for PhaseA {
    type V = PhaseAView;

    closed spec fn view(&self) -> PhaseAView {
        PhaseAView {
            sub: self.sub,
            exact: self.exact,
            phase: self.phase,
            request: self.request@,
            head: self.head@,
        }
    }
}

impl PhaseAView {
    pub open spec fn start(sub: u8, exact: bool, request: Seq<u8>) -> PhaseAView {
        PhaseAView { sub, exact, phase: HeadPhase::Select, request, head: Seq::empty() }
    }

    /// The transfer to carry out next; none once the phase has ended.
    pub open spec fn pending(self) -> Option<TransferView> {
        match self.phase {
            HeadPhase::Select => Some(select_view(GROUP_THERMAL, self.sub)),
            HeadPhase::Request => Some(xu_set_view(GROUP_THERMAL, self.request)),
            HeadPhase::Length => Some(xu_get_len_view(GROUP_THERMAL)),
            HeadPhase::Head { len } => Some(xu_get_view(GROUP_THERMAL, len as nat)),
            _ => None,
        }
    }

    pub open spec fn enter(self, phase: HeadPhase) -> PhaseAView {
        PhaseAView { phase, ..self }
    }

    pub open spec fn fail(self, e: PhaseError) -> PhaseAView {
        self.enter(HeadPhase::Failed(e))
    }

    /// The head was read into a buffer of `len` bytes.
    pub open spec fn take_head(self, len: u32, d: Seq<u8>) -> PhaseAView {
        let head = filled(len as nat, d);
        let phase = if len < 5 {
            HeadPhase::Failed(PhaseError::ShortHead(len))
        } else {
            HeadPhase::Done { total: u32_le(head, 1) as u32 }
        };
        PhaseAView { head, phase, ..self }
    }

    /// The state after the pending transfer was answered by `r`.
    pub open spec fn after(self, r: ReplyView) -> PhaseAView {
        match (self.phase, r) {
            (HeadPhase::Select, ReplyView::Data(_)) => self.enter(HeadPhase::Request),
            (HeadPhase::Select, ReplyView::Failed(e)) => self.fail(PhaseError::Select(e)),
            (HeadPhase::Request, ReplyView::Data(_)) => self.enter(HeadPhase::Length),
            (HeadPhase::Request, ReplyView::Failed(e)) => self.fail(PhaseError::Request(e)),
            (HeadPhase::Length, ReplyView::Data(d)) => {
                let len = u32_le(filled(4, d), 0);
                if len == 5 || !self.exact {
                    self.enter(HeadPhase::Head { len: len as u32 })
                } else {
                    self.fail(PhaseError::UnexpectedLength(len as u32))
                }
            },
            (HeadPhase::Length, ReplyView::Failed(e)) => self.fail(PhaseError::Length(e)),
            (HeadPhase::Head { len }, ReplyView::Data(d)) => self.take_head(len, d),
            (HeadPhase::Head { len }, ReplyView::Failed(e)) => self.fail(PhaseError::Head(e)),
            _ => self,
        }
    }

    /// What an ended phase delivers: the length of the result.
    pub open spec fn outcome(self) -> Result<u32, PhaseError> {
        match self.phase {
            HeadPhase::Done { total } => Ok(total),
            HeadPhase::Failed(e) => Err(e),
            _ => Ok(0),
        }
    }
}

impl PhaseA {
    /// Starts the first phase of a region search, with a head of five bytes.
    pub fn new(request: &[u8]) -> (p: PhaseA)
        ensures
            p@ == PhaseAView::start(SUB_ROI_SEARCH, true, request@),
    {
        let p = PhaseA {
            sub: SUB_ROI_SEARCH,
            exact: true,
            phase: HeadPhase::Select,
            request: copy_bytes(request),
            head: Vec::new(),
        };
        assert(p@ =~= PhaseAView::start(SUB_ROI_SEARCH, true, request@));
        p
    }

    /// Starts the first phase of a command, with a head of five bytes or more.
    pub fn with_any_head(sub: u8, request: &[u8]) -> (p: PhaseA)
        ensures
            p@ == PhaseAView::start(sub, false, request@),
    {
        let p = PhaseA {
            sub,
            exact: false,
            phase: HeadPhase::Select,
            request: copy_bytes(request),
            head: Vec::new(),
        };
        assert(p@ =~= PhaseAView::start(sub, false, request@));
        p
    }

    /// The transfer to carry out next; `None` once the phase has ended.
    pub fn pending(&self) -> (t: Option<ControlTransfer>)
        ensures
            transfer_view(t) == self@.pending(),
    {
        match self.phase {
            HeadPhase::Select => Some(Device::select_command(GROUP_THERMAL, self.sub)),
            HeadPhase::Request => Some(Device::xu_set(GROUP_THERMAL, self.request.as_slice())),
            HeadPhase::Length => Some(Device::xu_get_len(GROUP_THERMAL)),
            HeadPhase::Head { len } => Some(Device::xu_get(GROUP_THERMAL, len as usize)),
            _ => None,
        }
    }

    /// Takes the reply to the pending transfer.
    pub fn reply(&mut self, reply: &Reply)
        ensures
            final(self)@ == old(self)@.after(reply@),
    {
        match reply {
            Reply::Failed(e) => match self.phase {
                HeadPhase::Select => {
                    self.phase = HeadPhase::Failed(PhaseError::Select(*e));
                },
                HeadPhase::Request => {
                    self.phase = HeadPhase::Failed(PhaseError::Request(*e));
                },
                HeadPhase::Length => {
                    self.phase = HeadPhase::Failed(PhaseError::Length(*e));
                },
                HeadPhase::Head { len: _ } => {
                    self.phase = HeadPhase::Failed(PhaseError::Head(*e));
                },
                _ => {},
            },
            Reply::Data(d) => match self.phase {
                HeadPhase::Select => {
                    self.phase = HeadPhase::Request;
                },
                HeadPhase::Request => {
                    self.phase = HeadPhase::Length;
                },
                HeadPhase::Length => {
                    let buf: Vec<u8> = fill(4, d.as_slice());
                    let len: u32 = u32_at(buf.as_slice(), 0);
                    if len == 5 || !self.exact {
                        self.phase = HeadPhase::Head { len };
                    } else {
                        self.phase = HeadPhase::Failed(PhaseError::UnexpectedLength(len));
                    }
                },
                HeadPhase::Head { len } => {
                    self.head = fill(len as usize, d.as_slice());
                    if len < 5 {
                        self.phase = HeadPhase::Failed(PhaseError::ShortHead(len));
                    } else {
                        self.phase = HeadPhase::Done { total: u32_at(self.head.as_slice(), 1) };
                    }
                },
                _ => {},
            },
        }
    }

    /// Where the phase stands.
    pub fn phase(&self) -> (p: HeadPhase)
        ensures
            p == self@.phase,
    {
        self.phase
    }

    /// The head, once it was read.
    pub fn head(&self) -> (h: Vec<u8>)
        ensures
            h@ == self@.head,
    {
        copy_bytes(self.head.as_slice())
    }

    /// The length of the result.
    pub fn outcome(&self) -> (r: Result<u32, PhaseError>)
        requires
            self@.pending() is None,
        ensures
            r == self@.outcome(),
    {
        match self.phase {
            HeadPhase::Done { total } => Ok(total),
            HeadPhase::Failed(e) => Err(e),
            _ => Ok(0),
        }
    }
}

/// Both stand before the same transfer of the same read.
pub open spec fn in_step(a: PhaseAView, d: DoubleGetView) -> bool {
    &&& d.group == GROUP_THERMAL && d.sub == a.sub && d.request == a.request
    &&& match a.phase {
        HeadPhase::Select => d.phase is Select,
        HeadPhase::Request => d.phase is Request,
        HeadPhase::Length => d.phase is Length,
        HeadPhase::Head { len } => d.phase == (DoublePhase::Head { len }),
        HeadPhase::Done { total } => d.phase == (DoublePhase::Chunks { total }),
        HeadPhase::Failed(_) => d.phase is Failed,
    }
}

/// The first phase on its own is the beginning of a whole two-phase read: it
/// asks for the same transfers, and whatever the camera answers both go on
/// alike, except where a head of five bytes is insisted on and has another
/// length, or where the head announces no plausible length.
pub proof fn law_phase_a_begins_read(a: PhaseAView, d: DoubleGetView, r: ReplyView)
    requires
        in_step(a, d),
        a.pending() is Some,
        a.after(r).phase matches HeadPhase::Failed(e) ==> e !is UnexpectedLength,
        a.after(r).phase matches HeadPhase::Done { total } ==> 0 < total <= MAX_DOUBLE_LEN,
    ensures
        a.pending() == d.pending(),
        in_step(a.after(r), d.after(r)),
{
}

/// Both begin in step.
pub proof fn law_phase_a_starts_in_step(sub: u8, exact: bool, request: Seq<u8>)
    ensures
        in_step(
            PhaseAView::start(sub, exact, request),
            DoubleGetView::start(GROUP_THERMAL, sub, request),
        ),
{
}

/// A failed transfer ends the phase with an error, and an ended phase stays as
/// it is.
pub proof fn law_phase_a_failure_ends(a: PhaseAView, e: TransferError, r: ReplyView)
    ensures
        a.pending() is Some ==> a.after(ReplyView::Failed(e)).phase is Failed,
        a.pending() is None ==> a.after(r) == a,
{
}

/// Collects chunks towards a known total.
pub struct ChunkCollector {
    total: usize,
    out: Vec<u8>,
    last_number: u32,
}

/// Mathematical counterpart of [`ChunkCollector`].
#[verifier::ext_equal]
pub struct CollectorView {
    pub total: nat,
    pub out: Seq<u8>,
    pub last_number: int,
}

impl CollectorView {
    pub open spec fn start(total: nat) -> CollectorView {
        CollectorView { total, out: Seq::empty(), last_number: 0 }
    }

    /// A chunk was taken without a look at its number.
    pub open spec fn plain(self, chunk: Seq<u8>) -> CollectorView {
        CollectorView { out: self.out + chunk_data(chunk), ..self }
    }

    /// A chunk was taken with its number.
    pub open spec fn numbered(self, chunk: Seq<u8>) -> CollectorView {
        CollectorView {
            out: self.out + chunk_data(chunk),
            last_number: if is_numbered(chunk) { u32_le(chunk, 1) } else { self.last_number },
            ..self
        }
    }

    /// The last number and the chunk's, where the chunk neither follows nor
    /// starts over.
    pub open spec fn jump(self, chunk: Seq<u8>) -> Option<(u32, u32)> {
        let number = u32_le(chunk, 1);
        if is_numbered(chunk) && number != self.last_number + 1 && number != 1 {
            Some((self.last_number as u32, number as u32))
        } else {
            None
        }
    }

    /// What was collected, up to the total.
    pub open spec fn payload(self) -> Seq<u8> {
        if self.out.len() < self.total {
            self.out
        } else {
            self.out.take(self.total as int)
        }
    }

    /// How many bytes are missing.
    pub open spec fn missing(self) -> int {
        if self.out.len() < self.total {
            self.total - self.out.len()
        } else {
            0
        }
    }

    /// A series of chunks was taken with their numbers.
    pub open spec fn collect(self, chunks: Seq<Seq<u8>>) -> CollectorView
        decreases chunks.len(),
    {
        if chunks.len() == 0 {
            self
        } else {
            self.collect(chunks.drop_last()).numbered(chunks.last())
        }
    }
}

impl View for ChunkCollector {
    type V = CollectorView;

    closed spec fn view(&self) -> CollectorView {
        CollectorView {
            total: self.total as nat,
            out: self.out@,
            last_number: self.last_number as int,
        }
    }
}

impl ChunkCollector {
    pub fn new(total: usize) -> (c: ChunkCollector)
        ensures
            c@ == CollectorView::start(total as nat),
    {
        ChunkCollector { total, out: Vec::new(), last_number: 0 }
    }

    /// How many bytes are missing.
    pub fn missing(&self) -> (n: usize)
        ensures
            n == self@.missing(),
    {
        if self.out.len() < self.total {
            self.total - self.out.len()
        } else {
            0
        }
    }

    /// How many bytes there are to be.
    pub fn total(&self) -> (n: usize)
        ensures
            n == self@.total,
    {
        self.total
    }

    /// How many bytes are there.
    pub fn collected(&self) -> (n: usize)
        ensures
            n == self@.out.len(),
    {
        self.out.len()
    }

    /// The number of the last numbered chunk; zero before the first.
    pub fn last_number(&self) -> (n: u32)
        ensures
            n == self@.last_number,
    {
        self.last_number
    }

    /// Takes a chunk.
    pub fn push(&mut self, chunk: &[u8])
        ensures
            final(self)@ == old(self)@.plain(chunk@),
    {
        push_chunk(&mut self.out, chunk);
    }

    /// Takes a chunk and watches the numbers: a chunk that neither follows the
    /// last one nor starts over gives `(last number, its number)`.
    pub fn push_numbered(&mut self, chunk: &[u8]) -> (jump: Option<(u32, u32)>)
        ensures
            final(self)@ == old(self)@.numbered(chunk@),
            jump == old(self)@.jump(chunk@),
    {
        push_chunk(&mut self.out, chunk);
        if !has_header(chunk) {
            return None;
        }
        let number: u32 = u32_at(chunk, 1);
        let last: u32 = self.last_number;
        self.last_number = number;
        if number as u64 != last as u64 + 1 && number != 1 {
            Some((last, number))
        } else {
            None
        }
    }

    /// Everything that was collected.
    pub fn all(&self) -> (out: Vec<u8>)
        ensures
            out@ == self@.out,
    {
        copy_bytes(self.out.as_slice())
    }

    /// What was collected, up to the total.
    pub fn payload(&self) -> (out: Vec<u8>)
        ensures
            out@ == self@.payload(),
    {
        let n: usize = if self.out.len() < self.total { self.out.len() } else { self.total };
        let out: Vec<u8> = copy_range(self.out.as_slice(), 0, n);
        assert(out@ =~= self@.payload());
        out
    }
}

/// Chunks that carry `pieces`, numbered from one.
pub open spec fn numbered_chunks(pieces: Seq<Seq<u8>>) -> Seq<Seq<u8>> {
    Seq::new(pieces.len(), |i: int| framed((i + 1) as u32, pieces[i]))
}

proof fn lemma_framed_number(number: u32, data: Seq<u8>)
    ensures
        is_numbered(framed(number, data)),
        u32_le(framed(number, data), 1) == number,
        chunk_data(framed(number, data)) == data,
{
    let c = framed(number, data);
    assert(c.subrange(1, 5) =~= u32_bytes(number));
    lemma_u32_inside(c, 1, number);
    law_chunk_data_of_framed(number, data);
}

/// Chunks that are numbered one by one show no jump and give their data in a
/// row, the data of every chunk in its place.
pub proof fn law_numbered_chunks_collected(total: nat, pieces: Seq<Seq<u8>>)
    requires
        pieces.len() <= u32::MAX,
    ensures
        ({
            let end = CollectorView::start(total).collect(numbered_chunks(pieces));
            &&& end.out == joined(pieces)
            &&& end.last_number == pieces.len()
            &&& forall|k: int|
                0 <= k < pieces.len() ==> CollectorView::start(total).collect(
                    #[trigger] numbered_chunks(pieces).take(k),
                ).jump(numbered_chunks(pieces)[k]) is None
        }),
    decreases pieces.len(),
{
    let chunks = numbered_chunks(pieces);
    if pieces.len() > 0 {
        let rest = pieces.drop_last();
        law_numbered_chunks_collected(total, rest);
        assert(chunks.drop_last() =~= numbered_chunks(rest));
        let n = pieces.len() as int;
        lemma_framed_number(n as u32, pieces.last());
        assert(chunks.last() == framed(n as u32, pieces.last()));
        assert forall|k: int| 0 <= k < n implies CollectorView::start(total).collect(
            #[trigger] chunks.take(k),
        ).jump(chunks[k]) is None by {
            if k < n - 1 {
                assert(chunks.take(k) =~= numbered_chunks(rest).take(k));
                assert(chunks[k] == numbered_chunks(rest)[k]);
            } else {
                assert(chunks.take(k) =~= numbered_chunks(rest));
            }
        }
    }
}

/// A JPEG start marker stands at `i`.
pub open spec fn soi_at(s: Seq<u8>, i: int) -> bool {
    0 <= i && i + 1 < s.len() && s[i] == 0xff && s[i + 1] == 0xd8
}

/// Finds the first JPEG start marker.
pub fn find_soi(s: &[u8]) -> (r: Option<usize>)
    ensures
        match r {
            Some(i) => soi_at(s@, i as int) && forall|j: int| 0 <= j < i ==> !#[trigger] soi_at(
                s@,
                j,
            ),
            None => forall|j: int| !#[trigger] soi_at(s@, j),
        },
{
    let len: usize = s.len();
    let mut i: usize = 0;
    while i < len && len - i >= 2
        invariant
            len == s@.len(),
            i <= len,
            forall|j: int| 0 <= j < i ==> !#[trigger] soi_at(s@, j),
        decreases len - i,
    {
        if s[i] == 0xff && s[i + 1] == 0xd8 {
            return Some(i);
        }
        i = i + 1;
    }
    None
}

/// The head of a capture as it stands.
#[derive(Debug, Clone, Copy, PartialEq, Eq)]
pub struct PictureHead {
    pub tag: u8,
    pub jpeg_len: u32,
    /// The three integers behind the JPEG length.
    pub fields: (u32, u32, u32),
}

/// Reads the head of a capture.
pub fn picture_head(out: &[u8]) -> (h: PictureHead)
    requires
        out@.len() >= 17,
    ensures
        h.tag == out@[0],
        h.jpeg_len == u32_le(out@, 1),
        h.fields.0 == u32_le(out@, 5),
        h.fields.1 == u32_le(out@, 9),
        h.fields.2 == u32_le(out@, 13),
{
    PictureHead {
        tag: out[0],
        jpeg_len: u32_at(out, 1),
        fields: (u32_at(out, 5), u32_at(out, 9), u32_at(out, 13)),
    }
}

/// The picture of `jpeg_len` bytes that starts at `soi`, if it is there in full.
pub fn picture_at(out: &[u8], soi: usize, jpeg_len: u32) -> (r: Option<Vec<u8>>)
    requires
        soi <= out@.len(),
    ensures
        match r {
            Some(jpeg) => soi + jpeg_len <= out@.len() && jpeg@ == out@.subrange(
                soi as int,
                soi + jpeg_len,
            ),
            None => soi + jpeg_len > out@.len(),
        },
{
    if out.len() - soi < jpeg_len as usize {
        None
    } else {
        Some(copy_range(out, soi, soi + jpeg_len as usize))
    }
}

/// Bytes of the temperatures of a 120x160 matrix.
pub const TEMPS_LEN: usize = 76800;

/// The bit pattern of temperature `i` if the data ends with the temperatures of
/// a 120x160 matrix.
pub open spec fn tail_temp(s: Seq<u8>, i: int) -> int {
    u32_le(s, s.len() - TEMPS_LEN + 4 * i)
}

/// A few temperatures of a matrix at the end of the data: bit patterns of
/// the first, number 100, 5000, 10000, and the last. There are none where
/// nothing stands before the matrix.
pub fn tail_samples(out: &[u8]) -> (r: Option<(u32, u32, u32, u32, u32)>)
    requires
        out@.len() >= TEMPS_LEN,
    ensures
        match r {
            None => out@.len() == TEMPS_LEN,
            Some(t) => {
                &&& out@.len() > TEMPS_LEN
                &&& t.0 == tail_temp(out@, 0)
                &&& t.1 == tail_temp(out@, 100)
                &&& t.2 == tail_temp(out@, 5000)
                &&& t.3 == tail_temp(out@, 10000)
                &&& t.4 == tail_temp(out@, 19199)
            },
        },
{
    let start: usize = out.len() - TEMPS_LEN;
    if start == 0 {
        return None;
    }
    Some(
        (
            u32_at(out, start),
            u32_at(out, start + 400),
            u32_at(out, start + 20000),
            u32_at(out, start + 40000),
            u32_at(out, start + 76796),
        ),
    )
}

/// Longest value that a selector dump reads.
pub const MAX_DUMP_LEN: u16 = 4096;

/// Where the dump of a selector stands.
#[derive(Debug, Clone, Copy, PartialEq, Eq)]
pub enum DumpPhase {
    Info,
    Length,
    /// Value number `next` is to be read, `len` bytes.
    Values { len: u16, next: u8 },
    Done,
}

/// The dump of one extension unit selector: its capabilities, its length, and
/// its values where the length is plausible.
#[derive(Debug, Clone, Copy, PartialEq, Eq)]
pub struct SelectorDump {
    pub selector: u8,
    pub phase: DumpPhase,
}

/// What one reply of a selector dump says.
#[derive(Debug, PartialEq, Eq)]
pub enum DumpLine {
    /// Capabilities: the byte, whether the selector can be read, whether it can
    /// be written.
    Info(u8, bool, bool),
    InfoFailed(TransferError),
    Length(u16),
    LengthFailed(TransferError),
    /// A value, with the request that read it.
    Value(u8, Vec<u8>),
    /// A value that the selector does not have.
    NoValue,
}

/// Mathematical counterpart of [`DumpLine`].
pub enum DumpLineView {
    Info(u8, bool, bool),
    InfoFailed(TransferError),
    Length(int),
    LengthFailed(TransferError),
    Value(u8, Seq<u8>),
    NoValue,
}

impl View for DumpLine {
    type V = DumpLineView;

    open spec fn view(&self) -> DumpLineView {
        match *self {
            DumpLine::Info(info, get, set) => DumpLineView::Info(info, get, set),
            DumpLine::InfoFailed(e) => DumpLineView::InfoFailed(e),
            DumpLine::Length(len) => DumpLineView::Length(len as int),
            DumpLine::LengthFailed(e) => DumpLineView::LengthFailed(e),
            DumpLine::Value(request, data) => DumpLineView::Value(request, data@),
            DumpLine::NoValue => DumpLineView::NoValue,
        }
    }
}

/// The request that reads value number `i`: current value, minimum, maximum,
/// resolution, default.
pub open spec fn value_request(i: int) -> u8 {
    if i == 0 {
        GET_CUR
    } else if i == 1 {
        GET_MIN
    } else if i == 2 {
        GET_MAX
    } else if i == 3 {
        GET_RES
    } else {
        GET_DEF
    }
}

impl SelectorDump {
    pub open spec fn pending_view(self) -> Option<TransferView> {
        match self.phase {
            DumpPhase::Info => Some(xu_read_view(GET_INFO, self.selector, 1)),
            DumpPhase::Length => Some(xu_read_view(GET_LEN, self.selector, 2)),
            DumpPhase::Values { len, next } => Some(
                xu_read_view(value_request(next as int), self.selector, len as nat),
            ),
            DumpPhase::Done => None,
        }
    }

    pub open spec fn enter(self, phase: DumpPhase) -> SelectorDump {
        SelectorDump { phase, ..self }
    }

    /// The state after the pending transfer was answered by `r`.
    pub open spec fn after(self, r: ReplyView) -> SelectorDump {
        match (self.phase, r) {
            (DumpPhase::Info, ReplyView::Data(_)) => self.enter(DumpPhase::Length),
            (DumpPhase::Info, ReplyView::Failed(_)) => self.enter(DumpPhase::Done),
            (DumpPhase::Length, ReplyView::Data(d)) => {
                let len = u16_le(filled(2, d), 0);
                if 1 <= len <= MAX_DUMP_LEN {
                    self.enter(DumpPhase::Values { len: len as u16, next: 0 })
                } else {
                    self.enter(DumpPhase::Done)
                }
            },
            (DumpPhase::Length, ReplyView::Failed(_)) => self.enter(DumpPhase::Done),
            (DumpPhase::Values { len, next }, _) => if next < 4 {
                self.enter(DumpPhase::Values { len, next: (next + 1) as u8 })
            } else {
                self.enter(DumpPhase::Done)
            },
            (DumpPhase::Done, _) => self,
        }
    }

    /// What the reply `r` to the pending transfer says.
    pub open spec fn line(self, r: ReplyView) -> DumpLineView {
        match (self.phase, r) {
            (DumpPhase::Info, ReplyView::Data(d)) => {
                let info = filled(1, d)[0];
                DumpLineView::Info(info, info % 2 == 1, (info / 2) % 2 == 1)
            },
            (DumpPhase::Info, ReplyView::Failed(e)) => DumpLineView::InfoFailed(e),
            (DumpPhase::Length, ReplyView::Data(d)) => DumpLineView::Length(
                u16_le(filled(2, d), 0),
            ),
            (DumpPhase::Length, ReplyView::Failed(e)) => DumpLineView::LengthFailed(e),
            (DumpPhase::Values { len, next }, ReplyView::Data(d)) => DumpLineView::Value(
                value_request(next as int),
                received(len as nat, d),
            ),
            _ => DumpLineView::NoValue,
        }
    }

    /// Starts the dump of a selector.
    pub fn new(selector: u8) -> (d: SelectorDump)
        ensures
            d == (SelectorDump { selector, phase: DumpPhase::Info }),
    {
        SelectorDump { selector, phase: DumpPhase::Info }
    }

    fn request(next: u8) -> (r: u8)
        ensures
            r == value_request(next as int),
    {
        match next {
            0 => GET_CUR,
            1 => GET_MIN,
            2 => GET_MAX,
            3 => GET_RES,
            _ => GET_DEF,
        }
    }

    /// The transfer to carry out next; `None` once the dump has ended.
    pub fn pending(&self) -> (t: Option<ControlTransfer>)
        ensures
            transfer_view(t) == self.pending_view(),
    {
        match self.phase {
            DumpPhase::Info => Some(Device::xu_read(GET_INFO, self.selector, 1)),
            DumpPhase::Length => Some(Device::xu_read(GET_LEN, self.selector, 2)),
            DumpPhase::Values { len, next } => Some(
                Device::xu_read(SelectorDump::request(next), self.selector, len as usize),
            ),
            DumpPhase::Done => None,
        }
    }

    /// Takes the reply to the pending transfer and says what it tells.
    pub fn reply(&mut self, reply: &Reply) -> (line: DumpLine)
        ensures
            *final(self) == old(self).after(reply@),
            line@ == old(self).line(reply@),
    {
        match self.phase {
            DumpPhase::Info => match reply.byte() {
                Ok(info) => {
                    self.phase = DumpPhase::Length;
                    DumpLine::Info(info, info % 2 == 1, (info / 2) % 2 == 1)
                },
                Err(e) => {
                    self.phase = DumpPhase::Done;
                    DumpLine::InfoFailed(e)
                },
            },
            DumpPhase::Length => match reply.u16_value() {
                Ok(len) => {
                    if 1 <= len && len <= MAX_DUMP_LEN {
                        self.phase = DumpPhase::Values { len, next: 0 };
                    } else {
                        self.phase = DumpPhase::Done;
                    }
                    DumpLine::Length(len)
                },
                Err(e) => {
                    self.phase = DumpPhase::Done;
                    DumpLine::LengthFailed(e)
                },
            },
            DumpPhase::Values { len, next } => {
                if next < 4 {
                    self.phase = DumpPhase::Values { len, next: next + 1 };
                } else {
                    self.phase = DumpPhase::Done;
                }
                match reply {
                    Reply::Data(d) => DumpLine::Value(
                        SelectorDump::request(next),
                        receive(len as usize, d.as_slice()),
                    ),
                    Reply::Failed(_) => DumpLine::NoValue,
                }
            },
            DumpPhase::Done => DumpLine::NoValue,
        }
    }
}

/// A selector dump ends after seven replies at most, and it never asks for more
/// than the plausible length.
pub proof fn law_selector_dump_ends(d: SelectorDump, r: ReplyView)
    requires
        d.pending_view() is Some,
        d.phase matches DumpPhase::Values { len, next } ==> next <= 4 && len <= MAX_DUMP_LEN,
    ensures
        dump_steps_left(d.after(r)) < dump_steps_left(d) <= 7,
        d.after(r).phase matches DumpPhase::Values { len, next } ==> next <= 4 && len
            <= MAX_DUMP_LEN,
{
}

/// How many transfers a selector dump has before it at most.
pub open spec fn dump_steps_left(d: SelectorDump) -> int {
    match d.phase {
        DumpPhase::Info => 7,
        DumpPhase::Length => 6,
        DumpPhase::Values { len, next } => 5 - next,
        DumpPhase::Done => 0,
    }
}

/// The extension unit selectors that the tools look at.
pub const LAST_SELECTOR: u8 = 15;

/// Bytes asked for where a selector's length is not believed.
pub const LARGE_READ_LEN: usize = 512;

/// Counterpart of a list of transfers.
pub open spec fn transfers_view(list: Seq<ControlTransfer>) -> Seq<TransferView> {
    list.map_values(|t: ControlTransfer| t@)
}

/// The reads of a selector whose length is not believed: current value, minimum,
/// maximum and default, 512 bytes each.
pub fn brute_reads(selector: u8) -> (t: Vec<ControlTransfer>)
    ensures
        transfers_view(t@) == seq![
            xu_read_view(GET_CUR, selector, 512),
            xu_read_view(GET_MIN, selector, 512),
            xu_read_view(GET_MAX, selector, 512),
            xu_read_view(GET_DEF, selector, 512),
        ],
{
    let mut t: Vec<ControlTransfer> = Vec::new();
    t.push(Device::xu_read(GET_CUR, selector, LARGE_READ_LEN));
    t.push(Device::xu_read(GET_MIN, selector, LARGE_READ_LEN));
    t.push(Device::xu_read(GET_MAX, selector, LARGE_READ_LEN));
    t.push(Device::xu_read(GET_DEF, selector, LARGE_READ_LEN));
    assert(transfers_view(t@) =~= seq![
        xu_read_view(GET_CUR, selector, 512),
        xu_read_view(GET_MIN, selector, 512),
        xu_read_view(GET_MAX, selector, 512),
        xu_read_view(GET_DEF, selector, 512),
    ]);
    t
}

/// The reads of a selector while the stream runs: capabilities, length, and 512
/// bytes of the current value.
pub fn streaming_reads(selector: u8) -> (t: Vec<ControlTransfer>)
    ensures
        transfers_view(t@) == seq![
            xu_read_view(GET_INFO, selector, 1),
            xu_read_view(GET_LEN, selector, 2),
            xu_read_view(GET_CUR, selector, 512),
        ],
{
    let mut t: Vec<ControlTransfer> = Vec::new();
    t.push(Device::xu_read(GET_INFO, selector, 1));
    t.push(Device::xu_read(GET_LEN, selector, 2));
    t.push(Device::xu_read(GET_CUR, selector, LARGE_READ_LEN));
    assert(transfers_view(t@) =~= seq![
        xu_read_view(GET_INFO, selector, 1),
        xu_read_view(GET_LEN, selector, 2),
        xu_read_view(GET_CUR, selector, 512),
    ]);
    t
}

/// What a reply shows of a value: nothing where the read failed or brought
/// nothing, and else the bytes.
pub fn shown_value(reply: &Reply) -> (r: Option<Vec<u8>>)
    ensures
        match r {
            Some(d) => reply@ == ReplyView::Data(d@) && d@.len() > 0,
            None => reply@ matches ReplyView::Data(d) ==> d.len() == 0,
        },
{
    match reply {
        Reply::Data(d) => if d.len() == 0 {
            None
        } else {
            Some(copy_bytes(d.as_slice()))
        },
        Reply::Failed(_) => None,
    }
}

/// Counts of a raw look at the video endpoint.
pub struct BulkStats {
    pub total: u64,
    pub reads: u64,
    /// Payload headers with the end-of-frame bit.
    pub frame_marks: u64,
}

impl BulkStats {
    pub fn new() -> (s: BulkStats)
        ensures
            s.total == 0,
            s.reads == 0,
            s.frame_marks == 0,
    {
        BulkStats { total: 0, reads: 0, frame_marks: 0 }
    }

    /// Counts a bulk read. The result says whether to show it: one of the first
    /// ten, or one with the end-of-header bit, where it holds a header at all.
    pub fn count(&mut self, raw: &[u8]) -> (show: bool)
        requires
            old(self).total + raw@.len() <= u64::MAX,
            old(self).reads < u64::MAX,
            old(self).frame_marks < u64::MAX,
        ensures
            final(self).total == old(self).total + raw@.len(),
            final(self).reads == old(self).reads + 1,
            final(self).frame_marks == old(self).frame_marks + (if raw@.len() >= 2 && (raw@[1] / 2)
                % 2 == 1 {
                1int
            } else {
                0
            }),
            show == (raw@.len() >= 2 && (final(self).reads <= 10 || raw@[1] >= 0x80)),
    {
        self.reads = self.reads + 1;
        self.total = self.total + raw.len() as u64;
        if raw.len() < 2 {
            return false;
        }
        let info: u8 = raw[1];
        if (info / 2) % 2 == 1 {
            self.frame_marks = self.frame_marks + 1;
        }
        self.reads <= 10 || info >= 0x80
    }
}

/// The first phase on its own, in numbers. It points the data channel at its
/// command of group 3, sends the request, asks for the length of the head, and
/// reads the head. The length of the head is a 32-bit integer, least significant
/// byte first, and must be five where that is insisted on; bytes 1 to 4 of the
/// head are the length of the result.
pub proof fn law_first_phase(
    sub: u8,
    exact: bool,
    request: Seq<u8>,
    acks: (Seq<u8>, Seq<u8>),
    head_len: Seq<u8>,
    head: Seq<u8>,
)
    requires
        head_len.len() == 4,
        head.len() == head_len[0] + head_len[1] * 0x100 + head_len[2] * 0x10000 + head_len[3]
            * 0x1000000,
    ensures
        ({
            let a0 = PhaseAView::start(sub, exact, request);
            let a1 = a0.after(ReplyView::Data(acks.0));
            let a2 = a1.after(ReplyView::Data(acks.1));
            let a3 = a2.after(ReplyView::Data(head_len));
            let a4 = a3.after(ReplyView::Data(head));
            &&& a0.pending() == Some(select_view(3, sub))
            &&& a1.pending() == Some(xu_set_view(3, request))
            &&& a2.pending() == Some(xu_get_len_view(3))
            &&& exact && head.len() != 5 ==> a3.pending() is None && a3.outcome() == Err::<
                u32,
                PhaseError,
            >(PhaseError::UnexpectedLength(head.len() as u32))
            &&& !exact || head.len() == 5 ==> {
                &&& a3.pending() == Some(xu_get_view(3, head.len()))
                &&& a4.pending() is None
                &&& a4.head == head
                &&& head.len() < 5 ==> a4.outcome() == Err::<u32, PhaseError>(
                    PhaseError::ShortHead(head.len() as u32),
                )
                &&& head.len() >= 5 ==> (a4.outcome() matches Ok(total) && total == head[1]
                    + head[2] * 0x100 + head[3] * 0x10000 + head[4] * 0x1000000)
            }
        }),
{
    assert(filled(4, head_len) =~= head_len);
    assert(filled(head.len(), head) =~= head);
}

/// Each failed transfer of the first phase ends it with the error of its step.
pub proof fn law_first_phase_failures(a: PhaseAView, e: TransferError)
    ensures
        ({
            let r = a.after(ReplyView::Failed(e)).outcome();
            match a.phase {
                HeadPhase::Select => r == Err::<u32, PhaseError>(PhaseError::Select(e)),
                HeadPhase::Request => r == Err::<u32, PhaseError>(PhaseError::Request(e)),
                HeadPhase::Length => r == Err::<u32, PhaseError>(PhaseError::Length(e)),
                HeadPhase::Head { len } => r == Err::<u32, PhaseError>(PhaseError::Head(e)),
                _ => true,
            }
        }),
{
}

/// What a chunk does to a collector, in bytes: one of at least five bytes that
/// begins with 02 adds what follows its fifth byte, and bytes 1 to 4 are its
/// number; any other adds all of itself and has no number. A number that is
/// neither one more than the last nor one is a jump.
pub proof fn law_collector_takes_chunk(c: CollectorView, chunk: Seq<u8>)
    requires
        0 <= c.last_number <= u32::MAX,
    ensures
        CollectorView::start(c.total).out.len() == 0,
        CollectorView::start(c.total).last_number == 0,
        CollectorView::start(c.total).total == c.total,
        c.plain(chunk).total == c.total && c.numbered(chunk).total == c.total,
        c.plain(chunk).last_number == c.last_number,
        c.plain(chunk).out == c.numbered(chunk).out,
        chunk.len() >= 5 && chunk[0] == 2 ==> {
            let number = chunk[1] + chunk[2] * 0x100 + chunk[3] * 0x10000 + chunk[4] * 0x1000000;
            &&& c.plain(chunk).out == c.out + chunk.skip(5)
            &&& c.numbered(chunk).last_number == number
            &&& c.jump(chunk) is None <==> number == c.last_number + 1 || number == 1
            &&& c.jump(chunk) matches Some(j) ==> j.0 == c.last_number && j.1 == number
        },
        chunk.len() < 5 || chunk[0] != 2 ==> {
            &&& c.plain(chunk).out == c.out + chunk
            &&& c.numbered(chunk).last_number == c.last_number
            &&& c.jump(chunk) is None
        },
{
}

/// What a collector still misses and what it has for its total: together they
/// make the total up, and the payload is the begin of what was collected.
pub proof fn law_collector_towards_total(c: CollectorView)
    ensures
        c.payload().len() + c.missing() == c.total,
        c.missing() >= 0,
        c.missing() > 0 ==> c.payload() == c.out,
        c.payload() == c.out.take(c.payload().len() as int),
{
}

/// A start marker is the bytes ff d8, wherever they stand.
pub proof fn law_start_marker_is_found(s: Seq<u8>, i: int)
    requires
        0 <= i,
        i + 1 < s.len(),
    ensures
        soi_at(s, i) <==> s[i] == 0xff && s[i + 1] == 0xd8,
        !soi_at(s, s.len() - 1),
        !soi_at(s, -1),
{
}

/// Temperature `i` of a matrix at the end of the data: 120 times 160 times four
/// bytes lie at the end, and the temperature is a 32-bit integer, least
/// significant byte first.
pub proof fn law_tail_temperature(front: Seq<u8>, temps: Seq<u8>, i: int)
    requires
        temps.len() == 76800,
        0 <= i < 19200,
    ensures
        tail_temp(front + temps, i) == temps[4 * i] + temps[4 * i + 1] * 0x100 + temps[4 * i + 2]
            * 0x10000 + temps[4 * i + 3] * 0x1000000,
{
    let s = front + temps;
    let b = front.len() + 4 * i;
    assert(s[b] == temps[4 * i] && s[b + 1] == temps[4 * i + 1] && s[b + 2] == temps[4 * i + 2]
        && s[b + 3] == temps[4 * i + 3]);
}

/// The dump of a selector, transfer by transfer: its capabilities by request 86,
/// one byte, and its length by 85, two bytes, least significant first; where that
/// is from 1 to 4096, its values by requests 81, 82, 83, 84 and 87, that many
/// bytes each, whatever comes of each; then it ends.
pub proof fn law_selector_dump_transfers(
    d: SelectorDump,
    info: Seq<u8>,
    len_reply: Seq<u8>,
    len: u16,
    next: u8,
    r: ReplyView,
)
    requires
        len_reply.len() == 2,
        len == len_reply[0] + len_reply[1] * 0x100,
        next <= 4,
    ensures
        ({
            let s0 = SelectorDump { selector: d.selector, phase: DumpPhase::Info };
            let s1 = s0.after(ReplyView::Data(info));
            let s2 = s1.after(ReplyView::Data(len_reply));
            let at = SelectorDump {
                selector: d.selector,
                phase: DumpPhase::Values { len, next },
            };
            &&& s0.pending_view() == Some(xu_read_view(0x86, d.selector, 1))
            &&& s1.pending_view() == Some(xu_read_view(0x85, d.selector, 2))
            &&& s1.line(ReplyView::Data(len_reply)) == DumpLineView::Length(len as int)
            &&& len == 0 || len > 4096 ==> s2.pending_view() is None
            &&& 1 <= len <= 4096 ==> s2.phase == (DumpPhase::Values { len, next: 0 }) && s2.selector
                == d.selector
            &&& next == 0 ==> at.pending_view() == Some(
                xu_read_view(0x81, d.selector, len as nat),
            )
            &&& next == 1 ==> at.pending_view() == Some(
                xu_read_view(0x82, d.selector, len as nat),
            )
            &&& next == 2 ==> at.pending_view() == Some(
                xu_read_view(0x83, d.selector, len as nat),
            )
            &&& next == 3 ==> at.pending_view() == Some(
                xu_read_view(0x84, d.selector, len as nat),
            )
            &&& next == 4 ==> at.pending_view() == Some(
                xu_read_view(0x87, d.selector, len as nat),
            )
            &&& next < 4 ==> at.after(r) == (SelectorDump {
                selector: d.selector,
                phase: DumpPhase::Values { len, next: (next + 1) as u8 },
            })
            &&& next == 4 ==> at.after(r).pending_view() is None
        }),
{
    assert(filled(2, len_reply) =~= len_reply);
}

/// What the replies of a selector dump say, in bytes: bit 0 of the capabilities
/// is that it can be read, bit 1 that it can be written; a value is what came, cut
/// off at the length, with the request that read it; a value that did not come is
/// none; and the dump ends where capabilities or length could not be read.
pub proof fn law_selector_dump_lines(
    selector: u8,
    b: u8,
    len: u16,
    next: u8,
    data: Seq<u8>,
    e: TransferError,
)
    requires
        next <= 4,
    ensures
        ({
            let s0 = SelectorDump { selector, phase: DumpPhase::Info };
            let s1 = SelectorDump { selector, phase: DumpPhase::Length };
            let at = SelectorDump { selector, phase: DumpPhase::Values { len, next } };
            let failed = ReplyView::Failed(e);
            &&& s0.line(ReplyView::Data(seq![b])) == DumpLineView::Info(
                b,
                b % 2 == 1,
                b % 4 >= 2,
            )
            &&& s0.line(ReplyView::Data(Seq::empty())) == DumpLineView::Info(0, false, false)
            &&& s0.line(failed) == DumpLineView::InfoFailed(e)
            &&& s0.after(failed).pending_view() is None
            &&& s1.line(failed) == DumpLineView::LengthFailed(e)
            &&& s1.after(failed).pending_view() is None
            &&& at.line(failed) == DumpLineView::NoValue
            &&& at.line(ReplyView::Data(data)) matches DumpLineView::Value(request, value) && {
                &&& data.len() <= len ==> value == data
                &&& data.len() > len ==> value == data.take(len as int)
                &&& next < 4 ==> request == 0x81 + next
                &&& next == 4 ==> request == 0x87
            }
        }),
{
    assert((b / 2) % 2 == 1 <==> b % 4 >= 2) by (bit_vector);
}

/// The counterparts of lines and of lists of transfers hold all of them.
pub proof fn law_dump_counterparts(line: DumpLine, list: Seq<ControlTransfer>, i: int)
    ensures
        match line {
            DumpLine::Info(b, get, set) => line@ == DumpLineView::Info(b, get, set),
            DumpLine::InfoFailed(e) => line@ == DumpLineView::InfoFailed(e),
            DumpLine::Length(n) => line@ == DumpLineView::Length(n as int),
            DumpLine::LengthFailed(e) => line@ == DumpLineView::LengthFailed(e),
            DumpLine::Value(request, d) => line@ == DumpLineView::Value(request, d@),
            DumpLine::NoValue => line@ == DumpLineView::NoValue,
        },
        transfers_view(list).len() == list.len(),
        0 <= i < list.len() ==> transfers_view(list)[i] == list[i]@,
{
}

/// The tools look at fifteen selectors.
pub proof fn law_fifteen_selectors()
    ensures
        LAST_SELECTOR == 15,
{
}

} // verus!

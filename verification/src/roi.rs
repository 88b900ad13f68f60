//! Region search: the highest temperature of up to ten rectangles.
//!
//! Coordinates are in the native 480x640 space, twice the 240x320 display
//! resolution. Temperatures come back in tenths of a degree Celsius.
use vstd::prelude::*;

use crate::transaction::{
    carries, double_get_replies, joined, law_double_get_reassembles, DoubleGet, DoubleGetView,
    MAX_DOUBLE_LEN,
};
use crate::transfer::{
    transfer_view, CameraError, ControlTransfer, DataView, Device, Reply, ReplyView, TransferView,
};
use crate::wire::{
    filled, law_u16_round_trip, lemma_u32_inside, push_u16, push_u32, push_zeros, u16_bytes,
    u16_le, u32_at, u32_bytes, u32_le, zeros,
};

verus! {

/// Extension unit group of the thermometry commands.
pub const GROUP_THERMAL: u8 = 3;

/// Thermometry command: region search.
pub const SUB_ROI_SEARCH: u8 = 10;

/// Channel id that the camera accepts; any other stalls the pipe.
pub const CHANNEL: u8 = 1;

/// Year written into requests that need no real time.
pub const REQUEST_YEAR: u16 = 2026;

/// Most regions in one search.
pub const MAX_REGIONS: usize = 10;

/// Bytes of a region search request.
pub const ROI_REQUEST_LEN: usize = 234;

/// Bytes of a request before its first region.
pub const ROI_REQUEST_HEAD: usize = 14;

/// Bytes of a region in a request.
pub const ROI_REGION_LEN: usize = 22;

/// Bytes of a search result before its first region block.
pub const ROI_RESULT_HEAD: usize = 26;

/// Bytes of a block in a search result.
pub const ROI_BLOCK_LEN: usize = 21;

/// Rectangle in native 480x640 coordinates.
#[derive(Debug, Clone, Copy, PartialEq, Eq)]
pub struct RoiRegion {
    pub x: u32,
    pub y: u32,
    pub width: u32,
    pub height: u32,
    /// Distance to target in cm (100 is the device default).
    pub distance: u32,
}

/// One 21-byte result block: the highest temperature found and where.
#[derive(Debug, Clone, Copy, PartialEq, Eq)]
pub struct RoiBlock {
    pub id: u8,
    /// Highest temperature in tenths of a degree Celsius.
    pub max_temp_raw: u32,
    /// Location of the highest temperature, in native 480x640 coordinates.
    pub thermal_x: u32,
    pub thermal_y: u32,
}

/// Result of a region search.
#[derive(Debug, PartialEq, Eq)]
pub struct RoiSearchResult {
    /// Highest temperature of the whole frame.
    pub global: RoiBlock,
    /// Result per region, in request order.
    pub regions: Vec<RoiBlock>,
}

/// Mathematical counterpart of [`RoiSearchResult`].
#[verifier::ext_equal]
pub struct RoiResultView {
    pub global: RoiBlock,
    pub regions: Seq<RoiBlock>,
}

impl View for RoiSearchResult {
    type V = RoiResultView;

    open spec fn view(&self) -> RoiResultView {
        RoiResultView { global: self.global, regions: self.regions@ }
    }
}

impl RoiBlock {
    /// The temperature in degrees Celsius: whole degrees, and tenths below ten.
    pub fn temperature_c(&self) -> (t: (u32, u32))
        ensures
            t.0 * 10 + t.1 == self.max_temp_raw,
            t.1 < 10,
    {
        (self.max_temp_raw / 10, self.max_temp_raw % 10)
    }
}

/// Time stamp of a request.
#[derive(Debug, Clone, Copy, PartialEq, Eq)]
pub struct RequestTime {
    pub millisecond: u16,
    pub second: u8,
    pub minute: u8,
    pub hour: u8,
    pub day: u8,
    pub month: u8,
    pub year: u16,
}

/// The time stamp of requests that need no real time: all zero but the year.
pub open spec fn no_time() -> RequestTime {
    RequestTime {
        millisecond: 0,
        second: 0,
        minute: 0,
        hour: 0,
        day: 0,
        month: 0,
        year: REQUEST_YEAR,
    }
}

/// The 13 bytes that thermometry requests begin with: channel, time stamp, and
/// three switches that are off.
pub open spec fn request_stamp(channel: u8, time: RequestTime) -> Seq<u8> {
    seq![channel] + u16_bytes(time.millisecond) + seq![
        time.second,
        time.minute,
        time.hour,
        time.day,
        time.month,
    ] + u16_bytes(time.year) + zeros(3)
}

/// A region in a request: id, enabled, position, size, distance.
pub open spec fn region_bytes(id: int, r: RoiRegion) -> Seq<u8> {
    seq![id as u8, 1u8] + u32_bytes(r.x) + u32_bytes(r.y) + u32_bytes(r.width) + u32_bytes(r.height)
        + u32_bytes(r.distance)
}

/// The regions of a request in a row; ids count from one.
pub open spec fn regions_bytes(regions: Seq<RoiRegion>) -> Seq<u8>
    decreases regions.len(),
{
    if regions.len() == 0 {
        Seq::empty()
    } else {
        regions_bytes(regions.drop_last()) + region_bytes(regions.len() as int, regions.last())
    }
}

/// A region search request: stamp, number of regions, the regions, and zeros in
/// the unused slots.
pub open spec fn roi_request(channel: u8, time: RequestTime, regions: Seq<RoiRegion>) -> Seq<u8> {
    request_stamp(channel, time) + seq![regions.len() as u8] + regions_bytes(regions) + zeros(
        (ROI_REQUEST_LEN - ROI_REQUEST_HEAD - ROI_REGION_LEN * regions.len()) as nat,
    )
}

/// The block that starts at `at`.
pub open spec fn block_at(s: Seq<u8>, at: int) -> RoiBlock {
    RoiBlock {
        id: s[at],
        max_temp_raw: u32_le(s, at + 1) as u32,
        thermal_x: u32_le(s, at + 13) as u32,
        thermal_y: u32_le(s, at + 17) as u32,
    }
}

/// How many region blocks a search result holds in full.
pub open spec fn complete_blocks(s: Seq<u8>) -> int {
    (s.len() - ROI_RESULT_HEAD) / ROI_BLOCK_LEN as int
}

/// What a search result says of `count` regions. Slots past `count` are not
/// read: the camera leaves stale blocks there.
pub open spec fn roi_result(s: Seq<u8>, count: nat) -> Result<RoiResultView, CameraError> {
    if s.len() < ROI_RESULT_HEAD {
        Err(CameraError::RoiTooShort { len: s.len() as usize })
    } else if complete_blocks(s) < count {
        Err(CameraError::RoiTruncated { region: complete_blocks(s) as usize })
    } else {
        Ok(
            RoiResultView {
                global: block_at(s, 0),
                regions: Seq::new(
                    count,
                    |i: int| block_at(s, ROI_RESULT_HEAD + ROI_BLOCK_LEN * i),
                ),
            },
        )
    }
}

/// Counterpart of a parsed search result.
pub open spec fn roi_view(r: Result<RoiSearchResult, CameraError>) -> Result<
    RoiResultView,
    CameraError,
> {
    match r {
        Ok(v) => Ok(v@),
        Err(e) => Err(e),
    }
}

/// Appends a request stamp.
pub fn push_stamp(out: &mut Vec<u8>, channel: u8, time: RequestTime)
    ensures
        final(out)@ == old(out)@ + request_stamp(channel, time),
{
    out.push(channel);
    push_u16(out, time.millisecond);
    out.push(time.second);
    out.push(time.minute);
    out.push(time.hour);
    out.push(time.day);
    out.push(time.month);
    push_u16(out, time.year);
    push_zeros(out, 3);
    assert(out@ =~= old(out)@ + request_stamp(channel, time));
}

/// The time stamp of requests that need no real time.
pub fn untimed() -> (t: RequestTime)
    ensures
        t == no_time(),
{
    RequestTime {
        millisecond: 0,
        second: 0,
        minute: 0,
        hour: 0,
        day: 0,
        month: 0,
        year: REQUEST_YEAR,
    }
}

/// Length of the regions of a request.
proof fn lemma_regions_len(regions: Seq<RoiRegion>)
    ensures
        regions_bytes(regions).len() == ROI_REGION_LEN * regions.len(),
    decreases regions.len(),
{
    if regions.len() > 0 {
        lemma_regions_len(regions.drop_last());
    }
}

/// Builds a region search request.
pub fn encode_roi_request(channel: u8, time: RequestTime, regions: &[RoiRegion]) -> (out: Vec<u8>)
    requires
        regions@.len() <= MAX_REGIONS,
    ensures
        out@ == roi_request(channel, time, regions@),
{
    let mut out: Vec<u8> = Vec::new();
    push_stamp(&mut out, channel, time);
    out.push(regions.len() as u8);
    let ghost head = request_stamp(channel, time) + seq![regions@.len() as u8];
    assert(out@ =~= head);
    let mut i: usize = 0;
    assert(head + regions_bytes(regions@.take(0)) =~= head);
    while i < regions.len()
        invariant
            i <= regions@.len() <= MAX_REGIONS,
            out@ == head + regions_bytes(regions@.take(i as int)),
        decreases regions@.len() - i,
    {
        let r: RoiRegion = regions[i];
        out.push((i + 1) as u8);
        out.push(1);
        push_u32(&mut out, r.x);
        push_u32(&mut out, r.y);
        push_u32(&mut out, r.width);
        push_u32(&mut out, r.height);
        push_u32(&mut out, r.distance);
        proof {
            let next = regions@.take(i + 1);
            assert(next.drop_last() =~= regions@.take(i as int));
            assert(out@ =~= head + regions_bytes(next));
        }
        i = i + 1;
    }
    assert(regions@.take(i as int) =~= regions@);
    push_zeros(
        &mut out,
        ROI_REQUEST_LEN - ROI_REQUEST_HEAD - ROI_REGION_LEN * regions.len(),
    );
    out
}

/// Builds an untimed region search request from `(x, y, width, height,
/// distance)` tuples.
pub fn build_req(channel: u8, regions: &[(u32, u32, u32, u32, u32)]) -> (out: Vec<u8>)
    requires
        regions@.len() <= MAX_REGIONS,
    ensures
        out@ == roi_request(
            channel,
            no_time(),
            regions@.map_values(
                |r: (u32, u32, u32, u32, u32)|
                    RoiRegion { x: r.0, y: r.1, width: r.2, height: r.3, distance: r.4 },
            ),
        ),
{
    let mut list: Vec<RoiRegion> = Vec::new();
    let mut i: usize = 0;
    while i < regions.len()
        invariant
            i <= regions@.len(),
            list@.len() == i,
            forall|j: int|
                0 <= j < i ==> #[trigger] list@[j] == (RoiRegion {
                    x: regions@[j].0,
                    y: regions@[j].1,
                    width: regions@[j].2,
                    height: regions@[j].3,
                    distance: regions@[j].4,
                }),
        decreases regions@.len() - i,
    {
        let r: (u32, u32, u32, u32, u32) = regions[i];
        list.push(RoiRegion { x: r.0, y: r.1, width: r.2, height: r.3, distance: r.4 });
        i = i + 1;
    }
    assert(list@ =~= regions@.map_values(
        |r: (u32, u32, u32, u32, u32)|
            RoiRegion { x: r.0, y: r.1, width: r.2, height: r.3, distance: r.4 },
    ));
    encode_roi_request(channel, untimed(), list.as_slice())
}

/// Reads the block at `at`.
pub fn read_block(data: &[u8], at: usize) -> (b: RoiBlock)
    requires
        at + ROI_BLOCK_LEN <= data@.len(),
    ensures
        b == block_at(data@, at as int),
{
    RoiBlock {
        id: data[at],
        max_temp_raw: u32_at(data, at + 1),
        thermal_x: u32_at(data, at + 13),
        thermal_y: u32_at(data, at + 17),
    }
}

/// Reads a search result for `count` regions.
pub fn parse_roi_result(data: &[u8], count: usize) -> (r: Result<RoiSearchResult, CameraError>)
    ensures
        roi_view(r) == roi_result(data@, count as nat),
{
    if data.len() < ROI_RESULT_HEAD {
        return Err(CameraError::RoiTooShort { len: data.len() });
    }
    let len: usize = data.len();
    let complete: usize = (len - ROI_RESULT_HEAD) / ROI_BLOCK_LEN;
    if complete < count {
        return Err(CameraError::RoiTruncated { region: complete });
    }
    let mut regions: Vec<RoiBlock> = Vec::new();
    let mut i: usize = 0;
    while i < count
        invariant
            i <= count <= complete,
            len == data@.len(),
            ROI_RESULT_HEAD + ROI_BLOCK_LEN * complete <= len,
            regions@.len() == i,
            forall|j: int|
                0 <= j < i ==> #[trigger] regions@[j] == block_at(
                    data@,
                    ROI_RESULT_HEAD + ROI_BLOCK_LEN * j,
                ),
        decreases count - i,
    {
        regions.push(read_block(data, ROI_RESULT_HEAD + ROI_BLOCK_LEN * i));
        i = i + 1;
    }
    let result = RoiSearchResult { global: read_block(data, 0), regions };
    assert(Ok::<RoiResultView, CameraError>(result@) == roi_result(data@, count as nat)) by {
        let want = roi_result(data@, count as nat)->Ok_0;
        assert(result@.regions =~= want.regions);
    }
    Ok(result)
}

/// A region search under way.
pub struct RoiQuery {
    inner: DoubleGet,
    count: usize,
}

/// Mathematical counterpart of [`RoiQuery`].
pub struct RoiQueryView {
    pub inner: DoubleGetView,
    pub count: nat,
}

impl View for RoiQuery {
    type V = RoiQueryView;

    closed spec fn view(&self) -> RoiQueryView {
        RoiQueryView { inner: self.inner@, count: self.count as nat }
    }
}

impl RoiQueryView {
    pub open spec fn start(regions: Seq<RoiRegion>) -> RoiQueryView {
        RoiQueryView {
            inner: DoubleGetView::start(
                GROUP_THERMAL,
                SUB_ROI_SEARCH,
                roi_request(CHANNEL, no_time(), regions),
            ),
            count: regions.len(),
        }
    }

    pub open spec fn after(self, r: ReplyView) -> RoiQueryView {
        RoiQueryView { inner: self.inner.after(r), ..self }
    }

    /// The state after a series of replies.
    pub open spec fn run(self, replies: Seq<ReplyView>) -> RoiQueryView
        decreases replies.len(),
    {
        if replies.len() == 0 {
            self
        } else {
            self.run(replies.drop_last()).after(replies.last())
        }
    }

    pub open spec fn outcome(self) -> Result<RoiResultView, CameraError> {
        match self.inner.outcome() {
            Ok(buf) => roi_result(buf, self.count),
            Err(e) => Err(e),
        }
    }
}

impl RoiQuery {
    /// The transfer to carry out next; `None` once the search has ended.
    pub fn pending(&self) -> (t: Option<ControlTransfer>)
        ensures
            transfer_view(t) == self@.inner.pending(),
    {
        self.inner.pending()
    }

    /// Takes the reply to the pending transfer.
    pub fn reply(&mut self, reply: &Reply)
        ensures
            final(self)@ == old(self)@.after(reply@),
    {
        self.inner.reply(reply);
    }

    /// What the search found.
    pub fn outcome(self) -> (r: Result<RoiSearchResult, CameraError>)
        requires
            self@.inner.pending() is None,
        ensures
            roi_view(r) == self@.outcome(),
    {
        match self.inner.outcome() {
            Ok(buf) => parse_roi_result(buf.as_slice(), self.count),
            Err(e) => Err(e),
        }
    }
}

/// A search for the temperature of one pixel.
pub struct PixelQuery {
    inner: DoubleGet,
}

impl View for PixelQuery {
    type V = RoiQueryView;

    closed spec fn view(&self) -> RoiQueryView {
        RoiQueryView { inner: self.inner@, count: 1 }
    }
}

impl PixelQuery {
    /// The transfer to carry out next; `None` once the search has ended.
    pub fn pending(&self) -> (t: Option<ControlTransfer>)
        ensures
            transfer_view(t) == self@.inner.pending(),
    {
        self.inner.pending()
    }

    /// Takes the reply to the pending transfer.
    pub fn reply(&mut self, reply: &Reply)
        ensures
            final(self)@ == old(self)@.after(reply@),
    {
        self.inner.reply(reply);
    }

    /// The temperature in degrees Celsius: whole degrees, and tenths below ten.
    pub fn outcome(self) -> (r: Result<(u32, u32), CameraError>)
        requires
            self@.inner.pending() is None,
        ensures
            match self@.outcome() {
                Ok(found) => r matches Ok(t) && t.0 * 10 + t.1 == found.regions[0].max_temp_raw
                    && t.1 < 10,
                Err(e) => r == Err::<(u32, u32), CameraError>(e),
            },
    {
        match self.inner.outcome() {
            Ok(buf) => match parse_roi_result(buf.as_slice(), 1) {
                Ok(found) => Ok(found.regions[0].temperature_c()),
                Err(e) => Err(e),
            },
            Err(e) => Err(e),
        }
    }
}

/// The one-pixel rectangle for a pixel in 240x320 display coordinates.
pub open spec fn pixel_region(display_x: int, display_y: int) -> RoiRegion {
    RoiRegion {
        x: (display_x * 2) as u32,
        y: (display_y * 2) as u32,
        width: 1,
        height: 1,
        distance: 100,
    }
}

impl Device {
    /// Starts a search for the highest temperature of one to ten regions. The
    /// stream must be running.
    pub fn roi_max_temperatures(regions: &[RoiRegion]) -> (r: Result<RoiQuery, CameraError>)
        ensures
            match r {
                Ok(q) => 1 <= regions@.len() <= MAX_REGIONS && q@ == RoiQueryView::start(regions@),
                Err(e) => !(1 <= regions@.len() <= MAX_REGIONS) && e is RegionCount,
            },
    {
        if regions.len() == 0 || regions.len() > MAX_REGIONS {
            return Err(CameraError::RegionCount);
        }
        let req: Vec<u8> = encode_roi_request(CHANNEL, untimed(), regions);
        Ok(
            RoiQuery {
                inner: Device::double_get(GROUP_THERMAL, SUB_ROI_SEARCH, req.as_slice()),
                count: regions.len(),
            },
        )
    }

    /// Starts a search for the temperature of one pixel, given in 240x320
    /// display coordinates. Small hot spots read low this way; a radiometric
    /// capture has exact values per pixel.
    pub fn pixel_temperature(display_x: u32, display_y: u32) -> (q: PixelQuery)
        requires
            display_x * 2 <= u32::MAX,
            display_y * 2 <= u32::MAX,
        ensures
            q@ == RoiQueryView::start(seq![pixel_region(display_x as int, display_y as int)]),
    {
        let mut regions: Vec<RoiRegion> = Vec::new();
        regions.push(
            RoiRegion {
                x: display_x * 2,
                y: display_y * 2,
                width: 1,
                height: 1,
                distance: 100,
            },
        );
        assert(regions@ =~= seq![pixel_region(display_x as int, display_y as int)]);
        let req: Vec<u8> = encode_roi_request(CHANNEL, untimed(), regions.as_slice());
        PixelQuery { inner: Device::double_get(GROUP_THERMAL, SUB_ROI_SEARCH, req.as_slice()) }
    }
}

proof fn lemma_region_fields(id: int, r: RoiRegion)
    requires
        0 <= id < 256,
    ensures
        ({
            let b = region_bytes(id, r);
            &&& b.len() == ROI_REGION_LEN
            &&& b[0] == id
            &&& b[1] == 1
            &&& u32_le(b, 2) == r.x
            &&& u32_le(b, 6) == r.y
            &&& u32_le(b, 10) == r.width
            &&& u32_le(b, 14) == r.height
            &&& u32_le(b, 18) == r.distance
        }),
{
    let b = region_bytes(id, r);
    assert(b.subrange(2, 6) =~= u32_bytes(r.x));
    assert(b.subrange(6, 10) =~= u32_bytes(r.y));
    assert(b.subrange(10, 14) =~= u32_bytes(r.width));
    assert(b.subrange(14, 18) =~= u32_bytes(r.height));
    assert(b.subrange(18, 22) =~= u32_bytes(r.distance));
    lemma_u32_inside(b, 2, r.x);
    lemma_u32_inside(b, 6, r.y);
    lemma_u32_inside(b, 10, r.width);
    lemma_u32_inside(b, 14, r.height);
    lemma_u32_inside(b, 18, r.distance);
}

proof fn lemma_region_slot(regions: Seq<RoiRegion>, i: int)
    requires
        0 <= i < regions.len(),
    ensures
        regions_bytes(regions).len() == ROI_REGION_LEN * regions.len(),
        regions_bytes(regions).subrange(ROI_REGION_LEN * i, ROI_REGION_LEN * i + ROI_REGION_LEN)
            == region_bytes(i + 1, regions[i]),
    decreases regions.len(),
{
    let rest = regions.drop_last();
    lemma_regions_len(regions);
    lemma_regions_len(rest);
    let whole = regions_bytes(regions);
    let front = regions_bytes(rest);
    let at = ROI_REGION_LEN * i;
    if i == rest.len() {
        assert(whole.subrange(at, at + ROI_REGION_LEN) =~= region_bytes(i + 1, regions[i]));
    } else {
        lemma_region_slot(rest, i);
        assert(ROI_REGION_LEN * (i + 1) <= ROI_REGION_LEN * rest.len());
        assert(whole.subrange(at, at + ROI_REGION_LEN) =~= front.subrange(
            at,
            at + ROI_REGION_LEN,
        ));
    }
}

proof fn lemma_u32_of_part(s: Seq<u8>, start: int, part: Seq<u8>, at: int)
    requires
        0 <= start,
        0 <= at <= part.len() - 4,
        start + part.len() <= s.len(),
        s.subrange(start, start + part.len()) == part,
    ensures
        u32_le(s, start + at) == u32_le(part, at),
{
    assert(part[at] == s[start + at]);
    assert(part[at + 1] == s[start + at + 1]);
    assert(part[at + 2] == s[start + at + 2]);
    assert(part[at + 3] == s[start + at + 3]);
}

/// A region search request has 234 bytes; channel, year and number of regions
/// stand in its head.
pub proof fn law_roi_request_head(channel: u8, time: RequestTime, regions: Seq<RoiRegion>)
    requires
        regions.len() <= MAX_REGIONS,
    ensures
        ({
            let q = roi_request(channel, time, regions);
            &&& q.len() == 234
            &&& q[0] == channel
            &&& u16_le(q, 8) == time.year
            &&& q[13] == regions.len()
        }),
{
    lemma_regions_len(regions);
    law_u16_round_trip(time.year);
    let q = roi_request(channel, time, regions);
    let y = u16_bytes(time.year);
    assert(q[8] == y[0] && q[9] == y[1]);
}

/// Where the parts of a request stand.
proof fn lemma_request_parts(channel: u8, time: RequestTime, regions: Seq<RoiRegion>)
    requires
        regions.len() <= MAX_REGIONS,
    ensures
        ({
            let q = roi_request(channel, time, regions);
            let r = regions_bytes(regions);
            &&& q.len() == 234
            &&& r.len() == 22 * regions.len()
            &&& q.subrange(14, 14 + 22 * (regions.len() as int)) == r
        }),
{
    lemma_regions_len(regions);
    let q = roi_request(channel, time, regions);
    let r = regions_bytes(regions);
    assert(q.subrange(14, 14 + 22 * (regions.len() as int)) =~= r);
}

/// Every requested region can be read back from its slot: ids count from one,
/// the slot is enabled, and position, size and distance are as given.
pub proof fn law_roi_request_region(
    channel: u8,
    time: RequestTime,
    regions: Seq<RoiRegion>,
    i: int,
)
    requires
        regions.len() <= MAX_REGIONS,
        0 <= i < regions.len(),
    ensures
        ({
            let q = roi_request(channel, time, regions);
            let b = 14 + 22 * i;
            let r = regions[i];
            &&& q[b] == i + 1
            &&& q[b + 1] == 1
            &&& u32_le(q, b + 2) == r.x
            &&& u32_le(q, b + 6) == r.y
            &&& u32_le(q, b + 10) == r.width
            &&& u32_le(q, b + 14) == r.height
            &&& u32_le(q, b + 18) == r.distance
        }),
{
    let q = roi_request(channel, time, regions);
    let b = 14 + 22 * i;
    let r = regions[i];
    let slot = region_bytes(i + 1, r);
    lemma_region_slot(regions, i);
    lemma_region_fields(i + 1, r);
    assert(22 * (i + 1) <= 22 * regions.len());
    assert(q.subrange(b, b + 22) == slot) by {
        lemma_request_parts(channel, time, regions);
        assert(q.subrange(b, b + 22) =~= q.subrange(
            14,
            14 + 22 * (regions.len() as int),
        ).subrange(22 * i, 22 * i + 22));
    }
    lemma_u32_of_part(q, b, slot, 2);
    lemma_u32_of_part(q, b, slot, 6);
    lemma_u32_of_part(q, b, slot, 10);
    lemma_u32_of_part(q, b, slot, 14);
    lemma_u32_of_part(q, b, slot, 18);
    assert(slot[0] == q[b] && slot[1] == q[b + 1]);
}

/// The slots of a request past the last region are zero.
pub proof fn law_roi_request_unused(
    channel: u8,
    time: RequestTime,
    regions: Seq<RoiRegion>,
    k: int,
)
    requires
        regions.len() <= MAX_REGIONS,
        14 + 22 * regions.len() <= k < 234,
    ensures
        roi_request(channel, time, regions)[k] == 0,
{
    lemma_regions_len(regions);
}

/// A result block as the camera lays it out; the visible-light position stands
/// between temperature and thermal position.
pub open spec fn block_bytes(b: RoiBlock, visible_x: u32, visible_y: u32) -> Seq<u8> {
    seq![b.id] + u32_bytes(b.max_temp_raw) + u32_bytes(visible_x) + u32_bytes(visible_y)
        + u32_bytes(b.thermal_x) + u32_bytes(b.thermal_y)
}

/// A laid out block reads back as the block.
pub proof fn law_block_round_trip(s: Seq<u8>, at: int, b: RoiBlock, visible_x: u32, visible_y: u32)
    requires
        0 <= at,
        at + ROI_BLOCK_LEN <= s.len(),
        s.subrange(at, at + ROI_BLOCK_LEN) == block_bytes(b, visible_x, visible_y),
    ensures
        block_at(s, at) == b,
{
    let t = s.subrange(at, at + ROI_BLOCK_LEN);
    assert(t[0] == s[at]);
    assert(s.subrange(at + 1, at + 5) =~= t.subrange(1, 5));
    assert(s.subrange(at + 13, at + 17) =~= t.subrange(13, 17));
    assert(s.subrange(at + 17, at + 21) =~= t.subrange(17, 21));
    assert(t.subrange(1, 5) =~= u32_bytes(b.max_temp_raw));
    assert(t.subrange(13, 17) =~= u32_bytes(b.thermal_x));
    assert(t.subrange(17, 21) =~= u32_bytes(b.thermal_y));
    lemma_u32_inside(s, at + 1, b.max_temp_raw);
    lemma_u32_inside(s, at + 13, b.thermal_x);
    lemma_u32_inside(s, at + 17, b.thermal_y);
}

/// A search result that holds the block of the whole frame and the block of
/// each region, in request order, is read as exactly those blocks, whatever
/// stands between and behind them.
pub proof fn law_roi_result_round_trip(
    s: Seq<u8>,
    global: RoiBlock,
    regions: Seq<RoiBlock>,
    visible: Seq<(u32, u32)>,
    global_visible: (u32, u32),
)
    requires
        visible.len() == regions.len(),
        s.len() >= ROI_RESULT_HEAD + ROI_BLOCK_LEN * regions.len(),
        s.subrange(0, ROI_BLOCK_LEN as int) == block_bytes(
            global,
            global_visible.0,
            global_visible.1,
        ),
        forall|i: int|
            0 <= i < regions.len() ==> s.subrange(
                ROI_RESULT_HEAD + ROI_BLOCK_LEN * i,
                ROI_RESULT_HEAD + ROI_BLOCK_LEN * i + ROI_BLOCK_LEN,
            ) == block_bytes(#[trigger] regions[i], visible[i].0, visible[i].1),
    ensures
        roi_result(s, regions.len()) == Ok::<RoiResultView, CameraError>(
            RoiResultView { global, regions },
        ),
{
    law_block_round_trip(s, 0, global, global_visible.0, global_visible.1);
    let got = Seq::new(
        regions.len(),
        |i: int| block_at(s, ROI_RESULT_HEAD + ROI_BLOCK_LEN * i),
    );
    assert forall|i: int| 0 <= i < regions.len() implies got[i] == #[trigger] regions[i] by {
        assert(ROI_BLOCK_LEN * (i + 1) <= ROI_BLOCK_LEN * regions.len());
        law_block_round_trip(
            s,
            ROI_RESULT_HEAD + ROI_BLOCK_LEN * i,
            regions[i],
            visible[i].0,
            visible[i].1,
        );
    }
    assert(got =~= regions);
}

/// Byte `k` of a search result counts where `count` regions were requested: it
/// belongs to temperature or thermal position of the whole frame, or to the
/// block of a requested region.
pub open spec fn counts(k: int, count: nat) -> bool {
    ||| 0 <= k < 5
    ||| 13 <= k < 21
    ||| 26 <= k < 26 + 21 * count
}

/// Only what was asked for counts: two results that agree in the temperature and
/// thermal position of the whole frame and in the blocks of the requested
/// regions are read alike, whatever stands in the other slots.
pub proof fn law_roi_stale_slots_ignored(s: Seq<u8>, t: Seq<u8>, count: nat)
    requires
        s.len() >= 26 + 21 * count,
        t.len() >= 26 + 21 * count,
        forall|k: int| #[trigger] counts(k, count) ==> s[k] == t[k],
    ensures
        roi_result(s, count) == roi_result(t, count),
        roi_result(s, count) is Ok,
{
    assert(block_at(s, 0) == block_at(t, 0)) by {
        lemma_block_agrees(s, t, 0, count);
    }
    let a = Seq::new(count, |i: int| block_at(s, ROI_RESULT_HEAD + ROI_BLOCK_LEN * i));
    let b = Seq::new(count, |i: int| block_at(t, ROI_RESULT_HEAD + ROI_BLOCK_LEN * i));
    assert forall|i: int| 0 <= i < count implies a[i] == b[i] by {
        assert(21 * (i + 1) <= 21 * count);
        lemma_block_agrees(s, t, 26 + 21 * i, count);
    }
    assert(a =~= b);
}

proof fn lemma_block_agrees(s: Seq<u8>, t: Seq<u8>, at: int, count: nat)
    requires
        at == 0 || 26 <= at <= 26 + 21 * count - 21,
        forall|k: int| #[trigger] counts(k, count) ==> s[k] == t[k],
    ensures
        block_at(s, at) == block_at(t, at),
{
    assert(counts(at, count) && counts(at + 1, count) && counts(at + 2, count) && counts(
        at + 3,
        count,
    ) && counts(at + 4, count));
    assert(counts(at + 13, count) && counts(at + 14, count) && counts(at + 15, count) && counts(
        at + 16,
        count,
    ));
    assert(counts(at + 17, count) && counts(at + 18, count) && counts(at + 19, count) && counts(
        at + 20,
        count,
    ));
}

/// A region search finds what the camera's result says: where the result comes
/// in chunks behind a head that announces its length, the outcome is the
/// reading of that result for the requested regions.
pub proof fn law_roi_query_outcome(
    regions: Seq<RoiRegion>,
    acks: (Seq<u8>, Seq<u8>),
    len_reply: Seq<u8>,
    head: Seq<u8>,
    pieces: Seq<Seq<u8>>,
    numbers: Seq<u32>,
)
    requires
        5 <= head.len() == u32_le(filled(4, len_reply), 0),
        u32_le(head, 1) <= MAX_DOUBLE_LEN,
        carries(pieces, u32_le(head, 1)),
        numbers.len() == pieces.len(),
    ensures
        ({
            let replies = double_get_replies(acks, len_reply, head, pieces, numbers);
            let q = RoiQueryView::start(regions).run(replies);
            &&& q.inner.pending() is None
            &&& q.outcome() == roi_result(
                joined(pieces).take(u32_le(head, 1)),
                regions.len(),
            )
        }),
{
    let replies = double_get_replies(acks, len_reply, head, pieces, numbers);
    let q = RoiQueryView::start(regions);
    lemma_roi_run(q, replies);
    law_double_get_reassembles(
        GROUP_THERMAL,
        SUB_ROI_SEARCH,
        q.inner.request,
        acks,
        len_reply,
        head,
        pieces,
        numbers,
    );
}

proof fn lemma_roi_run(q: RoiQueryView, replies: Seq<ReplyView>)
    ensures
        q.run(replies) == (RoiQueryView { inner: q.inner.run(replies), ..q }),
    decreases replies.len(),
{
    if replies.len() > 0 {
        lemma_roi_run(q, replies.drop_last());
    }
}

/// A region search request, byte by byte: the channel, the time stamp with both
/// of its 16-bit integers least significant byte first, three zeros, the number
/// of regions, then the regions in the order given, 22 bytes each: a number that
/// counts from one, a one, and position, size and distance as 32-bit integers,
/// least significant byte first. The rest of the 234 bytes is zero.
pub proof fn law_roi_request_bytes(
    channel: u8,
    time: RequestTime,
    regions: Seq<RoiRegion>,
    i: int,
    k: int,
)
    requires
        regions.len() <= 10,
    ensures
        ({
            let q = roi_request(channel, time, regions);
            &&& q.len() == 234
            &&& q[0] == channel
            &&& q[1] + q[2] * 0x100 == time.millisecond
            &&& q[3] == time.second && q[4] == time.minute && q[5] == time.hour
            &&& q[6] == time.day && q[7] == time.month
            &&& q[8] + q[9] * 0x100 == time.year
            &&& q[10] == 0 && q[11] == 0 && q[12] == 0
            &&& q[13] == regions.len()
            &&& 0 <= i < regions.len() ==> {
                let b = 14 + 22 * i;
                let r = regions[i];
                &&& q[b] == i + 1
                &&& q[b + 1] == 1
                &&& q[b + 2] + q[b + 3] * 0x100 + q[b + 4] * 0x10000 + q[b + 5] * 0x1000000 == r.x
                &&& q[b + 6] + q[b + 7] * 0x100 + q[b + 8] * 0x10000 + q[b + 9] * 0x1000000 == r.y
                &&& q[b + 10] + q[b + 11] * 0x100 + q[b + 12] * 0x10000 + q[b + 13] * 0x1000000 == r.width
                &&& q[b + 14] + q[b + 15] * 0x100 + q[b + 16] * 0x10000 + q[b + 17] * 0x1000000 == r.height
                &&& q[b + 18] + q[b + 19] * 0x100 + q[b + 20] * 0x10000 + q[b + 21] * 0x1000000 == r.distance
            }
            &&& 14 + 22 * regions.len() <= k < 234 ==> q[k] == 0
        }),
{
    lemma_regions_len(regions);
    law_roi_request_head(channel, time, regions);
    law_u16_round_trip(time.millisecond);
    law_u16_round_trip(time.year);
    let q = roi_request(channel, time, regions);
    let m = u16_bytes(time.millisecond);
    assert(q[1] == m[0] && q[2] == m[1]);
    if 0 <= i < regions.len() {
        law_roi_request_region(channel, time, regions, i);
    }
    if 14 + 22 * regions.len() <= k < 234 {
        law_roi_request_unused(channel, time, regions, k);
    }
}

/// What a region search sends: it points the data channel at command 10 of group
/// 3, and its second transfer writes 234 bytes to selector 3. They hold channel
/// 1, the year 2026 and nothing else of a time, the number of regions, and the
/// regions in the order given: region `i` at 14 + 22 * i, under the number
/// i + 1. The rest is zero.
pub proof fn law_region_search_sends(regions: Seq<RoiRegion>, ack: Seq<u8>, i: int, k: int)
    requires
        1 <= regions.len() <= 10,
    ensures
        RoiQueryView::start(regions).count == regions.len(),
        RoiQueryView::start(regions).inner.pending() == Some(
            TransferView {
                request_type: 0x21,
                request: 0x01,
                value: 0x0500,
                index: 0x0a00,
                data: DataView::Out(seq![3u8, 10u8]),
            },
        ),
        RoiQueryView::start(regions).after(ReplyView::Data(ack)).inner.pending() matches Some(t) && {
            &&& t.request_type == 0x21 && t.request == 0x01
            &&& t.value == 0x0300 && t.index == 0x0a00
            &&& t.data matches DataView::Out(q) && {
                &&& q.len() == 234
                &&& q[0] == 1
                &&& q[8] + q[9] * 0x100 == 2026
                &&& q[13] == regions.len()
                &&& 0 <= i < regions.len() ==> {
                    let b = 14 + 22 * i;
                    let r = regions[i];
                    &&& q[b] == i + 1
                    &&& q[b + 1] == 1
                    &&& q[b + 2] + q[b + 3] * 0x100 + q[b + 4] * 0x10000 + q[b + 5] * 0x1000000 == r.x
                    &&& q[b + 6] + q[b + 7] * 0x100 + q[b + 8] * 0x10000 + q[b + 9] * 0x1000000 == r.y
                    &&& q[b + 10] + q[b + 11] * 0x100 + q[b + 12] * 0x10000 + q[b + 13] * 0x1000000 == r.width
                    &&& q[b + 14] + q[b + 15] * 0x100 + q[b + 16] * 0x10000 + q[b + 17] * 0x1000000 == r.height
                    &&& q[b + 18] + q[b + 19] * 0x100 + q[b + 20] * 0x10000 + q[b + 21] * 0x1000000 == r.distance
                }
                &&& 1 <= k < 8 || 10 <= k < 13 || 14 + 22 * regions.len() <= k < 234 ==> q[k] == 0
            }
        },
{
    law_roi_request_bytes(1, no_time(), regions, i, k);
}

/// What a search for one pixel sends: one region of one by one at twice the
/// display position, at a distance of 100.
pub proof fn law_pixel_search_sends(display_x: int, display_y: int, ack: Seq<u8>, k: int)
    requires
        0 <= display_x <= 0x7fffffff,
        0 <= display_y <= 0x7fffffff,
    ensures
        RoiQueryView::start(seq![pixel_region(display_x, display_y)]).after(
            ReplyView::Data(ack),
        ).inner.pending() matches Some(t) && t.data matches DataView::Out(q) && {
            let b: int = 14;
            &&& q.len() == 234
            &&& q[13] == 1
            &&& q[b] == 1
            &&& q[b + 1] == 1
            &&& q[b + 2] + q[b + 3] * 0x100 + q[b + 4] * 0x10000 + q[b + 5] * 0x1000000 == 2 * display_x
            &&& q[b + 6] + q[b + 7] * 0x100 + q[b + 8] * 0x10000 + q[b + 9] * 0x1000000 == 2 * display_y
            &&& q[b + 10] + q[b + 11] * 0x100 + q[b + 12] * 0x10000 + q[b + 13] * 0x1000000 == 1
            &&& q[b + 14] + q[b + 15] * 0x100 + q[b + 16] * 0x10000 + q[b + 17] * 0x1000000 == 1
            &&& q[b + 18] + q[b + 19] * 0x100 + q[b + 20] * 0x10000 + q[b + 21] * 0x1000000 == 100
            &&& 36 <= k < 234 ==> q[k] == 0
        },
{
    let regions = seq![pixel_region(display_x, display_y)];
    law_region_search_sends(regions, ack, 0, k);
    assert(regions[0] == pixel_region(display_x, display_y));
}

/// A search result, byte by byte. It must have 26 bytes and 21 more for every
/// region asked for; where it ends early, the error holds its length or the
/// first region that is not complete. The block of the whole frame stands at 0
/// and that of region `i` at 26 + 21 * i; a block holds its number at 0, and as
/// 32-bit integers, least significant byte first, the temperature at 1 and the
/// position at 13 and 17.
pub proof fn law_roi_result_bytes(s: Seq<u8>, count: nat)
    requires
        s.len() <= usize::MAX,
    ensures
        s.len() < 26 ==> roi_result(s, count) == Err::<RoiResultView, CameraError>(
            CameraError::RoiTooShort { len: s.len() as usize },
        ),
        26 <= s.len() < 26 + 21 * count ==> (roi_result(s, count) matches Err(
            CameraError::RoiTruncated { region },
        ) && region < count && 26 + 21 * region <= s.len() < 26 + 21 * (region + 1)),
        s.len() >= 26 + 21 * count ==> (roi_result(s, count) matches Ok(v) && {
            &&& v.regions.len() == count
            &&& v.global.id == s[0]
            &&& v.global.max_temp_raw == s[1] + s[2] * 0x100 + s[3] * 0x10000 + s[4] * 0x1000000
            &&& v.global.thermal_x == s[13] + s[14] * 0x100 + s[15] * 0x10000 + s[16] * 0x1000000
            &&& v.global.thermal_y == s[17] + s[18] * 0x100 + s[19] * 0x10000 + s[20] * 0x1000000
            &&& forall|i: int|
                0 <= i < count ==> {
                    let q = s;
                    let b = 26 + 21 * i;
                    let r = #[trigger] v.regions[i];
                    &&& r.id == q[b]
                    &&& r.max_temp_raw == q[b + 1] + q[b + 2] * 0x100 + q[b + 3] * 0x10000 + q[b + 4] * 0x1000000
                    &&& r.thermal_x == q[b + 13] + q[b + 14] * 0x100 + q[b + 15] * 0x10000 + q[b + 16] * 0x1000000
                    &&& r.thermal_y == q[b + 17] + q[b + 18] * 0x100 + q[b + 19] * 0x10000 + q[b + 20] * 0x1000000
                }
        }),
{
}

/// A search ends with the reading of what was delivered, for as many regions as
/// were asked for, or with the error of the exchange; every reply goes to the
/// exchange alone.
pub proof fn law_roi_outcome_of_exchange(q: RoiQueryView, r: ReplyView)
    ensures
        q.inner.outcome() matches Ok(s) ==> q.outcome() == roi_result(s, q.count),
        q.inner.outcome() matches Err(e) ==> q.outcome() == Err::<RoiResultView, CameraError>(e),
        q.after(r).inner == q.inner.after(r),
        q.after(r).count == q.count,
{
}

/// The counterpart of a search result holds all of it.
pub proof fn law_roi_counterpart(v: RoiSearchResult, e: CameraError)
    ensures
        v@.global == v.global,
        v@.regions == v.regions@,
        roi_view(Ok(v)) == Ok::<RoiResultView, CameraError>(v@),
        roi_view(Err(e)) == Err::<RoiResultView, CameraError>(e),
{
}

/// A search takes ten regions at most, and that many fill a request.
pub proof fn law_ten_regions_fill_a_request()
    ensures
        MAX_REGIONS == 10,
        14 + 22 * MAX_REGIONS == 234,
{
}

} // verus!

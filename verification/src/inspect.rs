//! Readings of camera data for the diagnostic programs.
use vstd::prelude::*;

use crate::compensation::SUB_COMPENSATION;
use crate::roi::{
    block_at, encode_roi_request, law_roi_request_bytes, roi_request, RequestTime, RoiBlock,
    RoiRegion, CHANNEL, GROUP_THERMAL, REQUEST_YEAR, ROI_BLOCK_LEN, ROI_RESULT_HEAD,
};
use crate::text::{field_text, zero_terminated};
use crate::wire::{copy_range, u32_at, u32_le};

verus! {

/// A block of a search result with all its fields.
#[derive(Debug, Clone, Copy, PartialEq, Eq)]
pub struct WireBlock {
    pub id: u8,
    /// Temperature in tenths of a degree Celsius.
    pub temp_raw: u32,
    pub visible_x: u32,
    pub visible_y: u32,
    pub thermal_x: u32,
    pub thermal_y: u32,
}

/// The block at `at`, with all its fields.
pub open spec fn wire_block_at(s: Seq<u8>, at: int) -> WireBlock {
    WireBlock {
        id: s[at],
        temp_raw: u32_le(s, at + 1) as u32,
        visible_x: u32_le(s, at + 5) as u32,
        visible_y: u32_le(s, at + 9) as u32,
        thermal_x: u32_le(s, at + 13) as u32,
        thermal_y: u32_le(s, at + 17) as u32,
    }
}

/// Both readings of a block agree.
pub proof fn law_wire_block_extends(s: Seq<u8>, at: int)
    ensures
        ({
            let w = wire_block_at(s, at);
            block_at(s, at) == (RoiBlock {
                id: w.id,
                max_temp_raw: w.temp_raw,
                thermal_x: w.thermal_x,
                thermal_y: w.thermal_y,
            })
        }),
{
}

fn read_wire_block(data: &[u8], at: usize) -> (b: WireBlock)
    requires
        at + ROI_BLOCK_LEN <= data@.len(),
    ensures
        b == wire_block_at(data@, at as int),
{
    WireBlock {
        id: data[at],
        temp_raw: u32_at(data, at + 1),
        visible_x: u32_at(data, at + 5),
        visible_y: u32_at(data, at + 9),
        thermal_x: u32_at(data, at + 13),
        thermal_y: u32_at(data, at + 17),
    }
}

/// Reads a block; there is none in less than 21 bytes.
pub fn dump_block(b: &[u8]) -> (r: Option<WireBlock>)
    ensures
        r == (if b@.len() < ROI_BLOCK_LEN { None } else { Some(wire_block_at(b@, 0)) }),
{
    if b.len() < ROI_BLOCK_LEN {
        None
    } else {
        Some(read_wire_block(b, 0))
    }
}

/// Reads up to `count` blocks from `at` on, as many as are there in full.
fn read_wire_blocks(data: &[u8], at: usize, count: usize) -> (blocks: Vec<WireBlock>)
    requires
        at <= data@.len(),
    ensures
        blocks@ == wire_blocks(data@, at as int, count as nat),
{
    let len: usize = data.len();
    let complete: usize = (len - at) / ROI_BLOCK_LEN;
    let n: usize = if count < complete { count } else { complete };
    let mut blocks: Vec<WireBlock> = Vec::new();
    let mut i: usize = 0;
    while i < n
        invariant
            i <= n,
            len == data@.len(),
            at + ROI_BLOCK_LEN * n <= len,
            blocks@.len() == i,
            forall|j: int|
                0 <= j < i ==> #[trigger] blocks@[j] == wire_block_at(
                    data@,
                    at + ROI_BLOCK_LEN * j,
                ),
        decreases n - i,
    {
        blocks.push(read_wire_block(data, at + ROI_BLOCK_LEN * i));
        i = i + 1;
    }
    assert(blocks@ =~= wire_blocks(data@, at as int, count as nat));
    blocks
}

/// Up to `count` blocks from `at` on, as many as are there in full.
pub open spec fn wire_blocks(s: Seq<u8>, at: int, count: nat) -> Seq<WireBlock> {
    let complete = (s.len() - at) / ROI_BLOCK_LEN as int;
    let n = if count < complete { count as int } else { complete };
    Seq::new(n as nat, |i: int| wire_block_at(s, at + ROI_BLOCK_LEN * i))
}

/// A search result as it stands.
pub struct RoiReport {
    pub global: WireBlock,
    /// How many region slots the camera says it has.
    pub roi_num: u8,
    pub jpeg_len: u32,
    pub regions: Vec<WireBlock>,
}

/// Mathematical counterpart of [`RoiReport`].
#[verifier::ext_equal]
pub struct ReportView {
    pub global: WireBlock,
    pub roi_num: u8,
    pub jpeg_len: int,
    pub regions: Seq<WireBlock>,
}

impl View for RoiReport {
    type V = ReportView;

    open spec fn view(&self) -> ReportView {
        ReportView {
            global: self.global,
            roi_num: self.roi_num,
            jpeg_len: self.jpeg_len as int,
            regions: self.regions@,
        }
    }
}

/// Counterpart of an optional report.
pub open spec fn report_view(r: Option<RoiReport>) -> Option<ReportView> {
    match r {
        Some(v) => Some(v@),
        None => None,
    }
}

/// A search result that starts at `at`, with up to `count` of its regions.
pub open spec fn report_at(s: Seq<u8>, at: int, count: nat) -> ReportView {
    ReportView {
        global: wire_block_at(s, at),
        roi_num: s[at + 21],
        jpeg_len: u32_le(s, at + 22),
        regions: wire_blocks(s, at + ROI_RESULT_HEAD, count),
    }
}

/// Reads a search result with its `requested` regions, as far as they are there
/// in full; there is none in less than 26 bytes. The number of slots that the
/// camera states does not count: the slots that were not asked for are stale.
pub fn report(out: &[u8], requested: usize) -> (r: Option<RoiReport>)
    ensures
        report_view(r) == (if out@.len() < ROI_RESULT_HEAD {
            None
        } else {
            Some(report_at(out@, 0, requested as nat))
        }),
{
    if out.len() < ROI_RESULT_HEAD {
        return None;
    }
    Some(
        RoiReport {
            global: read_wire_block(out, 0),
            roi_num: out[21],
            jpeg_len: u32_at(out, 22),
            regions: read_wire_blocks(out, ROI_RESULT_HEAD, requested),
        },
    )
}

/// A search result in one chunk whose header is still in front.
pub struct RawReport {
    pub tag: u8,
    /// Sequence number of the chunk.
    pub number: u32,
    pub report: RoiReport,
}

/// Reads a search result of `count` regions behind a chunk header; there is
/// none in less than 52 bytes.
pub fn report_raw(buf: &[u8], count: usize) -> (r: Option<RawReport>)
    ensures
        match r {
            None => buf@.len() < 52,
            Some(raw) => {
                &&& buf@.len() >= 52
                &&& raw.tag == buf@[0]
                &&& raw.number == u32_le(buf@, 1)
                &&& raw.report@ == report_at(buf@, 5, count as nat)
            },
        },
{
    if buf.len() < 52 {
        return None;
    }
    Some(
        RawReport {
            tag: buf[0],
            number: u32_at(buf, 1),
            report: RoiReport {
                global: read_wire_block(buf, 5),
                roi_num: buf[26],
                jpeg_len: u32_at(buf, 27),
                regions: read_wire_blocks(buf, 31, count),
            },
        },
    )
}

/// Behind its chunk header, a search result reads as it does alone.
pub proof fn law_raw_report_is_shifted(header: Seq<u8>, s: Seq<u8>, count: nat)
    requires
        header.len() == 5,
        s.len() >= ROI_RESULT_HEAD,
    ensures
        report_at(header + s, 5, count) == report_at(s, 0, count),
{
    let t = header + s;
    assert forall|k: int| 0 <= k < s.len() implies #[trigger] s[k] == t[k + 5] by {}
    assert forall|at: int| 0 <= at && at + ROI_BLOCK_LEN <= s.len() implies #[trigger] wire_block_at(
        t,
        at + 5,
    ) == wire_block_at(s, at) by {}
    let n = wire_blocks(s, ROI_RESULT_HEAD as int, count).len();
    assert forall|i: int| 0 <= i < n implies wire_blocks(t, 31, count)[i] == #[trigger] wire_blocks(
        s,
        26,
        count,
    )[i] by {
        let at = ROI_RESULT_HEAD + ROI_BLOCK_LEN * i;
        assert(ROI_BLOCK_LEN * (i + 1) <= ROI_BLOCK_LEN * n);
        assert(wire_block_at(t, at + 5) == wire_block_at(s, at));
        assert(at + 5 == 31 + ROI_BLOCK_LEN * i);
    }
    assert(wire_blocks(t, 31, count) =~= wire_blocks(s, 26, count));
    assert(wire_block_at(t, 0int + 5) == wire_block_at(s, 0));
    assert(report_at(t, 5, count) =~= report_at(s, 0, count));
}

/// The basic thermometry parameters.
#[derive(Debug, Clone, Copy, PartialEq, Eq)]
pub struct BasicParam {
    pub enabled: u8,
    pub unit: u8,
    pub range: u8,
    /// In hundredths.
    pub emissivity: u32,
    pub distance_unit: u8,
    pub distance: u32,
    pub alert: u32,
    pub alarm: u32,
}

/// Reads the basic thermometry parameters; some firmware sends fewer than the
/// 47 bytes they take.
pub fn basic_param(p: &[u8]) -> (r: Option<BasicParam>)
    ensures
        match r {
            None => p@.len() < 47,
            Some(b) => {
                &&& p@.len() >= 47
                &&& b.enabled == p@[1]
                &&& b.unit == p@[5]
                &&& b.range == p@[6]
                &&& b.emissivity == u32_le(p@, 16)
                &&& b.distance_unit == p@[20]
                &&& b.distance == u32_le(p@, 21)
                &&& b.alert == u32_le(p@, 32)
                &&& b.alarm == u32_le(p@, 36)
            },
        },
{
    if p.len() < 47 {
        return None;
    }
    Some(
        BasicParam {
            enabled: p[1],
            unit: p[5],
            range: p[6],
            emissivity: u32_at(p, 16),
            distance_unit: p[20],
            distance: u32_at(p, 21),
            alert: u32_at(p, 32),
            alarm: u32_at(p, 36),
        },
    )
}

/// Where text field `slot` of the device information starts in the data. The
/// fields stand behind an echo byte, 64 bytes each, and a 32-bit integer
/// stands before the fifth.
pub open spec fn info_field_start(slot: int) -> int {
    1 + 64 * slot + (if slot >= 4 { 4int } else { 0 })
}

/// Text field `slot` of the device information, if it is there in full.
pub fn info_field(info: &[u8], slot: usize) -> (r: Option<String>)
    requires
        slot < 6,
    ensures
        match r {
            None => info_field_start(slot as int) + 64 > info@.len(),
            Some(text) => {
                &&& info_field_start(slot as int) + 64 <= info@.len()
                &&& text@ == zero_terminated(
                    info@.subrange(
                        info_field_start(slot as int),
                        info_field_start(slot as int) + 64,
                    ),
                )
            },
        },
{
    let start: usize = if slot >= 4 { 5 + 64 * slot } else { 1 + 64 * slot };
    if info.len() < start + 64 {
        return None;
    }
    let field: Vec<u8> = copy_range(info, start, start + 64);
    Some(field_text(field.as_slice()))
}

/// The rectangle of 240x320 at the origin, 100 cm away. In the native 480x640
/// coordinates of a search that is the upper left quarter of the frame.
pub open spec fn corner_region() -> RoiRegion {
    RoiRegion { x: 0, y: 0, width: 240, height: 320, distance: 100 }
}

/// The time stamp for a number of seconds since midnight of any day; day and
/// month are fixed.
pub open spec fn stamp_time(now: nat) -> RequestTime {
    RequestTime {
        millisecond: 0,
        second: (now % 60) as u8,
        minute: ((now / 60) % 60) as u8,
        hour: ((now / 3600) % 24) as u8,
        day: 17,
        month: 8,
        year: REQUEST_YEAR,
    }
}

/// Builds a timed search of the upper left quarter; `now` counts seconds.
pub fn timed_request(now: u64) -> (req: Vec<u8>)
    ensures
        req@ == roi_request(CHANNEL, stamp_time(now as nat), seq![corner_region()]),
{
    let time = RequestTime {
        millisecond: 0,
        second: (now % 60) as u8,
        minute: ((now / 60) % 60) as u8,
        hour: ((now / 3600) % 24) as u8,
        day: 17,
        month: 8,
        year: REQUEST_YEAR,
    };
    let mut regions: Vec<RoiRegion> = Vec::new();
    regions.push(RoiRegion { x: 0, y: 0, width: 240, height: 320, distance: 100 });
    assert(regions@ =~= seq![corner_region()]);
    encode_roi_request(CHANNEL, time, regions.as_slice())
}

/// Extension unit group of the system commands.
pub const GROUP_SYSTEM: u8 = 1;

/// System command: device information.
pub const SUB_DEVICE_INFO: u8 = 1;

/// Thermometry command: basic parameters.
pub const SUB_BASIC_PARAM: u8 = 1;

/// Thermometry command: mode.
pub const SUB_MODE: u8 = 2;

/// Thermometry command: regions.
pub const SUB_REGIONS: u8 = 3;

/// Thermometry command: stream parameters.
pub const SUB_STREAM_PARAM: u8 = 5;

/// Thermometry command: temperature correction.
pub const SUB_CORRECTION: u8 = 6;

/// Thermometry command: black body.
pub const SUB_BLACK_BODY: u8 = 7;

/// The settings that bear on corrections, in the order of a dump: command
/// number, group and subcommand.
pub open spec fn correction_table() -> Seq<(u16, u8, u8)> {
    seq![
        (2040, GROUP_THERMAL, SUB_CORRECTION),
        (2042, GROUP_THERMAL, SUB_BLACK_BODY),
        (2044, GROUP_THERMAL, SUB_COMPENSATION),
        (2038, GROUP_THERMAL, SUB_STREAM_PARAM),
    ]
}

/// The settings that bear on corrections.
pub fn correction_commands() -> (r: Vec<(u16, u8, u8)>)
    ensures
        r@ == correction_table(),
{
    let mut r: Vec<(u16, u8, u8)> = Vec::new();
    r.push((2040, GROUP_THERMAL, SUB_CORRECTION));
    r.push((2042, GROUP_THERMAL, SUB_BLACK_BODY));
    r.push((2044, GROUP_THERMAL, SUB_COMPENSATION));
    r.push((2038, GROUP_THERMAL, SUB_STREAM_PARAM));
    assert(r@ =~= correction_table());
    r
}

/// A block, byte by byte: its number at 0, and as 32-bit integers, least
/// significant byte first, the temperature at 1, the visible-light position at 5
/// and 9, and the thermal position at 13 and 17.
pub proof fn law_wire_block_bytes(s: Seq<u8>, b: int)
    ensures
        ({
            let w = wire_block_at(s, b);
            &&& w.id == s[b]
            &&& w.temp_raw == s[b + 1] + s[b + 2] * 0x100 + s[b + 3] * 0x10000 + s[b + 4]
                * 0x1000000
            &&& w.visible_x == s[b + 5] + s[b + 6] * 0x100 + s[b + 7] * 0x10000 + s[b + 8]
                * 0x1000000
            &&& w.visible_y == s[b + 9] + s[b + 10] * 0x100 + s[b + 11] * 0x10000 + s[b + 12]
                * 0x1000000
            &&& w.thermal_x == s[b + 13] + s[b + 14] * 0x100 + s[b + 15] * 0x10000 + s[b + 16]
                * 0x1000000
            &&& w.thermal_y == s[b + 17] + s[b + 18] * 0x100 + s[b + 19] * 0x10000 + s[b + 20]
                * 0x1000000
        }),
{
}

/// A report, byte by byte: the block of the whole frame in front, the number of
/// slots behind 21 bytes, the length of the picture behind 22, and the blocks of
/// the regions from 26 on, 21 bytes each, as many as were asked for and are there
/// in full.
pub proof fn law_report_bytes(s: Seq<u8>, at: int, count: nat, i: int)
    requires
        0 <= at,
        at + 26 <= s.len(),
    ensures
        ({
            let r = report_at(s, at, count);
            &&& r.global == wire_block_at(s, at)
            &&& r.roi_num == s[at + 21]
            &&& r.jpeg_len == s[at + 22] + s[at + 23] * 0x100 + s[at + 24] * 0x10000 + s[at + 25]
                * 0x1000000
            &&& r.regions.len() <= count
            &&& at + 26 + 21 * r.regions.len() <= s.len()
            &&& r.regions.len() == count || s.len() < at + 26 + 21 * (r.regions.len() + 1)
            &&& 0 <= i < r.regions.len() ==> r.regions[i] == wire_block_at(s, at + 26 + 21 * i)
        }),
{
}

/// The counterpart of a report holds all of it.
pub proof fn law_report_counterpart(r: RoiReport)
    ensures
        r@.global == r.global,
        r@.roi_num == r.roi_num,
        r@.jpeg_len == r.jpeg_len,
        r@.regions == r.regions@,
        report_view(Some(r)) == Some(r@),
        report_view(None) is None,
{
}

/// The text fields of the device information follow each other, 64 bytes each,
/// from 1 on; four bytes lie between the fourth and the fifth.
pub proof fn law_info_fields_in_a_row(slot: int)
    requires
        0 <= slot < 6,
    ensures
        slot == 0 ==> info_field_start(slot) == 1,
        slot > 0 && slot != 4 ==> info_field_start(slot) == info_field_start(slot - 1) + 64,
        slot == 4 ==> info_field_start(slot) == info_field_start(slot - 1) + 68,
{
}

/// The time stamp of a number of seconds is the time of day that it stands for:
/// whole days, hours, minutes and seconds make it up.
pub proof fn law_stamp_is_time_of_day(now: nat)
    ensures
        ({
            let t = stamp_time(now);
            &&& t.second < 60 && t.minute < 60 && t.hour < 24
            &&& exists|days: nat|
                now == #[trigger] (days * 86400) + t.hour * 3600 + t.minute * 60 + t.second
            &&& t.millisecond == 0 && t.day == 17 && t.month == 8 && t.year == 2026
        }),
{
    let t = stamp_time(now);
    let minutes = now / 60;
    let hours = now / 3600;
    let days = hours / 24;
    assert(hours == minutes / 60);
    assert(now == minutes * 60 + t.second);
    assert(minutes == hours * 60 + t.minute);
    assert(hours == days * 24 + t.hour);
    assert(now == days * 86400 + t.hour * 3600 + t.minute * 60 + t.second);
}

/// What a timed search asks for: channel 1, the time of day, and one region, the
/// 240 by 320 at the origin, at a distance of 100.
pub proof fn law_timed_request_bytes(now: nat)
    ensures
        ({
            let q = roi_request(CHANNEL, stamp_time(now), seq![corner_region()]);
            &&& q.len() == 234
            &&& q[0] == 1
            &&& q[1] == 0 && q[2] == 0
            &&& q[3] == now % 60 && q[4] == (now / 60) % 60 && q[5] == (now / 3600) % 24
            &&& q[6] == 17 && q[7] == 8
            &&& q[8] + q[9] * 0x100 == 2026
            &&& q[13] == 1
            &&& q[14] == 1 && q[15] == 1
            &&& q[16] + q[17] * 0x100 + q[18] * 0x10000 + q[19] * 0x1000000 == 0
            &&& q[20] + q[21] * 0x100 + q[22] * 0x10000 + q[23] * 0x1000000 == 0
            &&& q[24] + q[25] * 0x100 + q[26] * 0x10000 + q[27] * 0x1000000 == 240
            &&& q[28] + q[29] * 0x100 + q[30] * 0x10000 + q[31] * 0x1000000 == 320
            &&& q[32] + q[33] * 0x100 + q[34] * 0x10000 + q[35] * 0x1000000 == 100
        }),
{
    let regions = seq![corner_region()];
    assert(regions[0] == corner_region());
    law_roi_request_bytes(1, stamp_time(now), regions, 0, 0);
}

/// The corrections that are dumped: four settings of group 3, in order.
pub proof fn law_correction_commands()
    ensures
        correction_table() == seq![
            (2040u16, 3u8, 6u8),
            (2042u16, 3u8, 7u8),
            (2044u16, 3u8, 8u8),
            (2038u16, 3u8, 5u8),
        ],
{
}

} // verus!

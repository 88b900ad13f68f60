//! Radiometric captures: a JPEG and the temperature of every pixel.
//!
//! Temperatures travel as 32-bit IEEE 754 numbers in degrees Celsius and are
//! kept here as their bit patterns; ordering them needs nothing more.
use vstd::prelude::*;

use crate::roi::{no_time, push_stamp, request_stamp, untimed, CHANNEL, GROUP_THERMAL};
use crate::transaction::{
    carries, double_get_replies, joined, law_double_get_reassembles, DoubleGet, DoubleGetView,
    MAX_DOUBLE_LEN,
};
use crate::transfer::{
    transfer_view, CameraError, ControlTransfer, DataView, Device, Reply, ReplyView, TransferView,
};
use crate::wire::{copy_range, filled, lemma_u32_inside, u32_at, u32_bytes, u32_le};

verus! {

/// Thermometry command: picture with appended temperatures.
pub const SUB_CAPTURE: u8 = 9;

/// Bytes of a capture before its JPEG.
pub const CAPTURE_HEAD: usize = 27;

/// Bit pattern of the lowest finite temperature.
pub const LOWEST_FINITE: u32 = 0xff7fffff;

/// One radiometric capture: a JPEG and per-pixel temperatures.
#[derive(Debug, PartialEq, Eq)]
pub struct RadiometricCapture {
    pub jpeg: Vec<u8>,
    pub width: usize,
    pub height: usize,
    /// Row by row, bit patterns of degrees Celsius.
    pub temps: Vec<u32>,
}

/// Mathematical counterpart of [`RadiometricCapture`].
#[verifier::ext_equal]
pub struct CaptureView {
    pub jpeg: Seq<u8>,
    pub width: nat,
    pub height: nat,
    pub temps: Seq<u32>,
}

impl View for RadiometricCapture {
    type V = CaptureView;

    open spec fn view(&self) -> CaptureView {
        CaptureView {
            jpeg: self.jpeg@,
            width: self.width as nat,
            height: self.height as nat,
            temps: self.temps@,
        }
    }
}

impl CaptureView {
    /// There is one temperature per pixel.
    pub open spec fn wf(self) -> bool {
        self.temps.len() == self.width * self.height
    }
}

/// The bit pattern without its sign.
pub open spec fn magnitude(bits: u32) -> int {
    if bits < 0x80000000 { bits as int } else { bits - 0x80000000 }
}

/// The pattern is no number.
pub open spec fn is_nan(bits: u32) -> bool {
    magnitude(bits) > 0x7f800000
}

/// Position of a pattern in the IEEE 754 total order: negative patterns below
/// positive ones, and by magnitude away from zero.
pub open spec fn total_rank(bits: u32) -> int {
    if bits < 0x80000000 { bits as int } else { -(bits - 0x80000000) - 1 }
}

/// Position of a number by its value: both zeros stand together.
pub open spec fn value_rank(bits: u32) -> int {
    if bits < 0x80000000 { bits as int } else { -(bits - 0x80000000) }
}

/// The number with pattern `a` is greater than the one with pattern `b`.
pub open spec fn exceeds(a: u32, b: u32) -> bool {
    !is_nan(a) && !is_nan(b) && value_rank(a) > value_rank(b)
}

/// What a capture says.
pub open spec fn capture_result(s: Seq<u8>) -> Result<CaptureView, CameraError> {
    if s.len() < CAPTURE_HEAD {
        Err(CameraError::CaptureTooShort { len: s.len() as usize })
    } else {
        let jpeg_len = u32_le(s, 1);
        let width = u32_le(s, 5);
        let height = u32_le(s, 9);
        let temp_bytes = u32_le(s, 13);
        let jpeg_end = CAPTURE_HEAD + jpeg_len;
        if temp_bytes != width * height * 4 {
            Err(
                CameraError::CaptureTempSize {
                    temp_bytes: temp_bytes as u32,
                    width: width as u32,
                    height: height as u32,
                },
            )
        } else if s.len() < jpeg_end + temp_bytes {
            Err(
                CameraError::CaptureTruncated {
                    len: s.len() as usize,
                    need: (jpeg_end + temp_bytes) as u64,
                },
            )
        } else {
            Ok(
                CaptureView {
                    jpeg: s.subrange(CAPTURE_HEAD as int, jpeg_end),
                    width: width as nat,
                    height: height as nat,
                    temps: Seq::new(
                        (width * height) as nat,
                        |i: int| u32_le(s, jpeg_end + 4 * i) as u32,
                    ),
                },
            )
        }
    }
}

/// Counterpart of a parsed capture.
pub open spec fn capture_view(r: Result<RadiometricCapture, CameraError>) -> Result<
    CaptureView,
    CameraError,
> {
    match r {
        Ok(v) => Ok(v@),
        Err(e) => Err(e),
    }
}

/// Reads a capture.
pub fn parse_capture(data: &[u8]) -> (r: Result<RadiometricCapture, CameraError>)
    ensures
        capture_view(r) == capture_result(data@),
{
    let len: usize = data.len();
    if len < CAPTURE_HEAD {
        return Err(CameraError::CaptureTooShort { len });
    }
    let jpeg_len: u32 = u32_at(data, 1);
    let width: u32 = u32_at(data, 5);
    let height: u32 = u32_at(data, 9);
    let temp_bytes: u32 = u32_at(data, 13);
    assert(width * height <= 0xffffffff * 0xffffffff) by (nonlinear_arith)
        requires
            0 <= width <= 0xffffffff,
            0 <= height <= 0xffffffff,
    ;
    assert(width * height >= 0) by (nonlinear_arith)
        requires
            width >= 0,
            height >= 0,
    ;
    let pixels: u64 = (width as u64) * (height as u64);
    if temp_bytes % 4 != 0 || pixels != (temp_bytes / 4) as u64 {
        return Err(CameraError::CaptureTempSize { temp_bytes, width, height });
    }
    let need: u64 = 27 + jpeg_len as u64 + temp_bytes as u64;
    if (len as u64) < need {
        return Err(CameraError::CaptureTruncated { len, need });
    }
    let jpeg_end: usize = CAPTURE_HEAD + jpeg_len as usize;
    let jpeg: Vec<u8> = copy_range(data, CAPTURE_HEAD, jpeg_end);
    let count: usize = (temp_bytes / 4) as usize;
    let mut temps: Vec<u32> = Vec::new();
    let mut i: usize = 0;
    while i < count
        invariant
            i <= count,
            len == data@.len(),
            jpeg_end + 4 * count <= len,
            temps@.len() == i,
            forall|j: int|
                0 <= j < i ==> #[trigger] temps@[j] == u32_le(data@, jpeg_end + 4 * j) as u32,
        decreases count - i,
    {
        temps.push(u32_at(data, jpeg_end + 4 * i));
        i = i + 1;
    }
    let cap = RadiometricCapture { jpeg, width: width as usize, height: height as usize, temps };
    proof {
        let want = capture_result(data@);
        assert(want is Ok);
        assert(cap@.temps =~= want->Ok_0.temps);
        assert(cap@ =~= want->Ok_0);
    }
    Ok(cap)
}

/// Position of a pattern in the total order.
fn rank(bits: u32) -> (r: i64)
    ensures
        r == total_rank(bits),
{
    if bits < 0x80000000 {
        bits as i64
    } else {
        -((bits - 0x80000000) as i64) - 1
    }
}

/// The number with pattern `a` is greater than the one with pattern `b`.
pub fn is_greater(a: u32, b: u32) -> (r: bool)
    ensures
        r == exceeds(a, b),
{
    let ma: u32 = if a < 0x80000000 { a } else { a - 0x80000000 };
    let mb: u32 = if b < 0x80000000 { b } else { b - 0x80000000 };
    if ma > 0x7f800000 || mb > 0x7f800000 {
        return false;
    }
    let ra: i64 = if a < 0x80000000 { ma as i64 } else { -(ma as i64) };
    let rb: i64 = if b < 0x80000000 { mb as i64 } else { -(mb as i64) };
    ra > rb
}

/// A capture under way.
pub struct CaptureQuery {
    inner: DoubleGet,
}

impl View for CaptureQuery {
    type V = DoubleGetView;

    closed spec fn view(&self) -> DoubleGetView {
        self.inner@
    }
}

/// The exchange that a capture begins with.
pub open spec fn capture_start() -> DoubleGetView {
    DoubleGetView::start(GROUP_THERMAL, SUB_CAPTURE, request_stamp(CHANNEL, no_time()))
}

/// What an ended exchange delivers as a capture.
pub open spec fn capture_outcome(s: DoubleGetView) -> Result<CaptureView, CameraError> {
    match s.outcome() {
        Ok(buf) => capture_result(buf),
        Err(e) => Err(e),
    }
}

impl CaptureQuery {
    /// The transfer to carry out next; `None` once the capture has ended.
    pub fn pending(&self) -> (t: Option<ControlTransfer>)
        ensures
            transfer_view(t) == self@.pending(),
    {
        self.inner.pending()
    }

    /// Takes the reply to the pending transfer.
    pub fn reply(&mut self, reply: &Reply)
        ensures
            final(self)@ == old(self)@.after(reply@),
    {
        self.inner.reply(reply);
    }

    /// The capture.
    pub fn outcome(self) -> (r: Result<RadiometricCapture, CameraError>)
        requires
            self@.pending() is None,
        ensures
            capture_view(r) == capture_outcome(self@),
    {
        match self.inner.outcome() {
            Ok(buf) => parse_capture(buf.as_slice()),
            Err(e) => Err(e),
        }
    }
}

impl Device {
    /// Starts a capture of a JPEG and the temperature of every pixel. The
    /// stream must be running.
    pub fn capture_radiometric() -> (q: CaptureQuery)
        ensures
            q@ == capture_start(),
    {
        let mut req: Vec<u8> = Vec::new();
        push_stamp(&mut req, CHANNEL, untimed());
        assert(req@ =~= request_stamp(CHANNEL, no_time()));
        CaptureQuery { inner: Device::double_get(GROUP_THERMAL, SUB_CAPTURE, req.as_slice()) }
    }
}

impl RadiometricCapture {
    /// Temperature at matrix coordinates.
    pub fn temp_at(&self, x: usize, y: usize) -> (t: Option<u32>)
        requires
            x < self.width && y < self.height ==> y * self.width + x < self.temps@.len(),
        ensures
            t == (if x < self.width && y < self.height {
                Some(self.temps@[y * self.width + x])
            } else {
                None
            }),
    {
        if x < self.width && y < self.height {
            let len: usize = self.temps.len();
            assert(0 <= y * self.width <= len) by (nonlinear_arith)
                requires
                    y >= 0,
                    self.width >= 0,
                    x >= 0,
                    y * self.width + x < len,
            ;
            Some(self.temps[y * self.width + x])
        } else {
            None
        }
    }

    /// Highest temperature in the total order and its matrix coordinates; the
    /// last pixel of several equally hot ones.
    pub fn max_temp(&self) -> (r: Option<(u32, usize, usize)>)
        requires
            self.temps@.len() > 0 ==> self.width > 0,
        ensures
            r is None <==> self.temps@.len() == 0,
            r matches Some((t, x, y)) ==> {
                let at = y * self.width + x;
                &&& x < self.width
                &&& 0 <= at < self.temps@.len()
                &&& t == self.temps@[at]
                &&& forall|j: int|
                    0 <= j < self.temps@.len() ==> total_rank(#[trigger] self.temps@[j])
                        <= total_rank(t)
                &&& forall|j: int|
                    at < j < self.temps@.len() ==> total_rank(#[trigger] self.temps@[j])
                        < total_rank(t)
            },
    {
        if self.temps.len() == 0 {
            return None;
        }
        let mut best: usize = 0;
        let mut i: usize = 1;
        while i < self.temps.len()
            invariant
                best < i <= self.temps@.len(),
                forall|j: int|
                    0 <= j < i ==> total_rank(#[trigger] self.temps@[j]) <= total_rank(
                        self.temps@[best as int],
                    ),
                forall|j: int|
                    best < j < i ==> total_rank(#[trigger] self.temps@[j]) < total_rank(
                        self.temps@[best as int],
                    ),
            decreases self.temps@.len() - i,
        {
            if rank(self.temps[i]) >= rank(self.temps[best]) {
                best = i;
            }
            i = i + 1;
        }
        let x: usize = best % self.width;
        let y: usize = best / self.width;
        assert(y * self.width + x == best) by {
            vstd::arithmetic::div_mod::lemma_fundamental_div_mod(best as int, self.width as int);
            assert(self.width * y == y * self.width) by (nonlinear_arith);
        }
        Some((self.temps[best], x, y))
    }
}

/// The hottest pixel found so far: bit pattern and matrix coordinates.
pub type Hottest = Option<(u32, usize, usize)>;

/// The smaller of a bound and a size.
pub open spec fn clipped(bound: int, size: nat) -> int {
    if bound < size { bound } else { size as int }
}

/// The hottest pixel once one more was looked at: the first one counts, and a
/// later one only if it is greater.
pub open spec fn hotter(best: Hottest, t: u32, x: int, y: int) -> Hottest {
    match best {
        Some((b, bx, by)) => if exceeds(t, b) {
            Some((t, x as usize, y as usize))
        } else {
            best
        },
        None => Some((t, x as usize, y as usize)),
    }
}

impl CaptureView {
    /// Position of a pixel among the temperatures.
    pub open spec fn position(self, x: int, y: int) -> int {
        y * self.width + x
    }

    /// Bit pattern of the temperature at matrix coordinates.
    pub open spec fn cell(self, x: int, y: int) -> u32 {
        self.temps[self.position(x, y)]
    }

    /// The hottest pixel after columns `x0..x` of row `y` were looked at.
    pub open spec fn scan_row(self, best: Hottest, y: int, x0: int, x: int) -> Hottest
        decreases x - x0,
    {
        if x <= x0 {
            best
        } else {
            hotter(self.scan_row(best, y, x0, x - 1), self.cell(x - 1, y), x - 1, y)
        }
    }

    /// The hottest pixel after columns `x0..x1` of rows `y0..y` were looked at,
    /// row by row.
    pub open spec fn scan(self, best: Hottest, x0: int, x1: int, y0: int, y: int) -> Hottest
        decreases y - y0,
    {
        if y <= y0 {
            best
        } else {
            self.scan_row(self.scan(best, x0, x1, y0, y - 1), y - 1, x0, x1)
        }
    }

    /// The hottest pixel of the part of a rectangle that lies in the matrix.
    pub open spec fn hottest(self, best: Hottest, x0: int, y0: int, x1: int, y1: int) -> Hottest {
        self.scan(best, x0, clipped(x1, self.width), y0, clipped(y1, self.height))
    }

    /// The matrix holds every pixel of the part of a rectangle that lies within
    /// its width and height.
    pub open spec fn covers(self, x0: int, y0: int, x1: int, y1: int) -> bool {
        let (xm, ym) = (clipped(x1, self.width), clipped(y1, self.height));
        x0 < xm && y0 < ym ==> (ym - 1) * self.width + (xm - 1) < self.temps.len()
    }

    /// The temperatures of columns `x0..x1` of rows `y0..y`, row by row.
    pub open spec fn rows(self, x0: int, x1: int, y0: int, y: int) -> Seq<u32>
        decreases y - y0,
    {
        if y <= y0 {
            Seq::empty()
        } else {
            self.rows(x0, x1, y0, y - 1) + self.row(y - 1, x0, x1)
        }
    }

    /// The temperatures of columns `x0..x1` of row `y`.
    pub open spec fn row(self, y: int, x0: int, x1: int) -> Seq<u32> {
        if x1 <= x0 {
            Seq::empty()
        } else {
            Seq::new((x1 - x0) as nat, |i: int| self.cell(x0 + i, y))
        }
    }
}

proof fn lemma_cell_index(x: int, y: int, xm: int, ym: int, width: int)
    requires
        0 <= x < xm <= width,
        0 <= y < ym,
    ensures
        0 <= y * width,
        y * width <= y * width + x <= (ym - 1) * width + (xm - 1),
{
    assert(0 <= y * width <= (ym - 1) * width) by (nonlinear_arith)
        requires
            0 <= y <= ym - 1,
            0 <= width,
    ;
}

proof fn lemma_row_keeps_some(c: CaptureView, best: Hottest, y: int, x0: int, x: int)
    requires
        best is Some,
    ensures
        c.scan_row(best, y, x0, x) is Some,
    decreases x - x0,
{
    if x > x0 {
        lemma_row_keeps_some(c, best, y, x0, x - 1);
    }
}

proof fn lemma_scan_keeps_some(c: CaptureView, best: Hottest, x0: int, x1: int, y0: int, y: int)
    requires
        best is Some,
    ensures
        c.scan(best, x0, x1, y0, y) is Some,
    decreases y - y0,
{
    if y > y0 {
        lemma_scan_keeps_some(c, best, x0, x1, y0, y - 1);
        lemma_row_keeps_some(c, c.scan(best, x0, x1, y0, y - 1), y - 1, x0, x1);
    }
}

/// Matrix coordinate of a display coordinate; the display has twice the
/// resolution of the matrix.
pub open spec fn to_matrix(d: int) -> int {
    d / 2
}

/// The end, in matrix coordinates, of `size` display pixels from `d` on: right
/// behind the pixel that holds the last of them.
pub open spec fn matrix_end(d: int, size: int) -> int {
    if size == 0 {
        to_matrix(d)
    } else {
        to_matrix(d + size - 1) + 1
    }
}

/// Display coordinate of a matrix coordinate.
pub open spec fn to_display(m: int) -> int {
    m * 2
}

/// Matrix coordinates of a display position.
pub fn display_to_matrix(dx: u32, dy: u32) -> (p: (usize, usize))
    ensures
        p.0 == to_matrix(dx as int),
        p.1 == to_matrix(dy as int),
{
    ((dx / 2) as usize, (dy / 2) as usize)
}

/// The end of `size` display pixels from `d` on.
fn display_end(d: u32, size: u32) -> (end: usize)
    requires
        d + size <= u32::MAX,
    ensures
        end == matrix_end(d as int, size as int),
{
    if size == 0 {
        (d / 2) as usize
    } else {
        ((d + (size - 1)) / 2 + 1) as usize
    }
}

/// Display position of matrix coordinates.
pub fn matrix_to_display(x: usize, y: usize) -> (p: (usize, usize))
    requires
        to_display(x as int) <= usize::MAX,
        to_display(y as int) <= usize::MAX,
    ensures
        p.0 == to_display(x as int),
        p.1 == to_display(y as int),
{
    (x * 2, y * 2)
}

impl RadiometricCapture {
    /// Looks for the hottest pixel of a rectangle in matrix coordinates, given
    /// the hottest pixel so far. The end coordinates do not belong to the
    /// rectangle.
    fn hottest_from(&self, best: Hottest, x0: usize, y0: usize, x1: usize, y1: usize) -> (r:
        Hottest)
        requires
            self@.covers(x0 as int, y0 as int, x1 as int, y1 as int),
        ensures
            r == self@.hottest(best, x0 as int, y0 as int, x1 as int, y1 as int),
    {
        let xm: usize = if x1 < self.width { x1 } else { self.width };
        let ym: usize = if y1 < self.height { y1 } else { self.height };
        let len: usize = self.temps.len();
        let mut found: Hottest = best;
        let mut y: usize = y0;
        while y < ym
            invariant
                y0 <= y,
                y <= ym || ym <= y0,
                ym <= y0 ==> y == y0,
                xm <= self.width,
                len == self.temps@.len(),
                x0 < xm && y0 < ym ==> (ym - 1) * self.width + (xm - 1) < len,
                found == self@.scan(best, x0 as int, xm as int, y0 as int, y as int),
            decreases ym - y,
        {
            let ghost row_start = found;
            let mut x: usize = x0;
            while x < xm
                invariant
                    y0 <= y < ym,
                    x0 <= x,
                    x <= xm || xm <= x0,
                    xm <= x0 ==> x == x0,
                    xm <= self.width,
                    len == self.temps@.len(),
                    x0 < xm && y0 < ym ==> (ym - 1) * self.width + (xm - 1) < len,
                    found == self@.scan_row(row_start, y as int, x0 as int, x as int),
                decreases xm - x,
            {
                proof {
                    lemma_cell_index(x as int, y as int, xm as int, ym as int, self.width as int);
                }
                let t: u32 = self.temps[y * self.width + x];
                let take: bool = match found {
                    Some((b, _, _)) => is_greater(t, b),
                    None => true,
                };
                if take {
                    found = Some((t, x, y));
                }
                x = x + 1;
            }
            proof {
                if xm <= x0 {
                    assert(self@.scan_row(row_start, y as int, x0 as int, xm as int) == row_start);
                }
            }
            y = y + 1;
        }
        proof {
            if ym <= y0 {
                assert(self@.scan(best, x0 as int, xm as int, y0 as int, ym as int) == best);
            }
        }
        found
    }

    /// Hottest pixel of a rectangle in 240x320 display coordinates, among all
    /// pixels of which the rectangle covers at least a part; none where the
    /// rectangle is empty or lies outside the matrix.
    pub fn display_max(&self, dx: u32, dy: u32, dw: u32, dh: u32) -> (r: Hottest)
        requires
            dx + dw <= u32::MAX,
            dy + dh <= u32::MAX,
            self@.covers(
                to_matrix(dx as int),
                to_matrix(dy as int),
                matrix_end(dx as int, dw as int),
                matrix_end(dy as int, dh as int),
            ),
        ensures
            r == self@.hottest(
                None,
                to_matrix(dx as int),
                to_matrix(dy as int),
                matrix_end(dx as int, dw as int),
                matrix_end(dy as int, dh as int),
            ),
    {
        let (x0, y0) = display_to_matrix(dx, dy);
        self.hottest_from(None, x0, y0, display_end(dx, dw), display_end(dy, dh))
    }

    /// Hottest pixel of a rectangle in matrix coordinates; the lowest finite
    /// temperature at the origin where no pixel is above that.
    pub fn region_max(&self, x0: usize, y0: usize, x1: usize, y1: usize) -> (r: (u32, usize, usize))
        requires
            self@.covers(x0 as int, y0 as int, x1 as int, y1 as int),
        ensures
            Some(r) == self@.hottest(
                Some((LOWEST_FINITE, 0, 0)),
                x0 as int,
                y0 as int,
                x1 as int,
                y1 as int,
            ),
    {
        proof {
            lemma_scan_keeps_some(
                self@,
                Some((LOWEST_FINITE, 0, 0)),
                x0 as int,
                clipped(x1 as int, self.width as nat),
                y0 as int,
                clipped(y1 as int, self.height as nat),
            );
        }
        match self.hottest_from(Some((LOWEST_FINITE, 0, 0)), x0, y0, x1, y1) {
            Some(r) => r,
            None => (LOWEST_FINITE, 0, 0),
        }
    }
}

impl RadiometricCapture {
    /// The temperatures of the part of a rectangle in matrix coordinates that
    /// lies in the matrix, row by row.
    pub fn region_temps(&self, x0: usize, y0: usize, x1: usize, y1: usize) -> (r: Vec<u32>)
        requires
            self@.covers(x0 as int, y0 as int, x1 as int, y1 as int),
        ensures
            r@ == self@.rows(
                x0 as int,
                clipped(x1 as int, self.width as nat),
                y0 as int,
                clipped(y1 as int, self.height as nat),
            ),
    {
        let xm: usize = if x1 < self.width { x1 } else { self.width };
        let ym: usize = if y1 < self.height { y1 } else { self.height };
        let len: usize = self.temps.len();
        let mut out: Vec<u32> = Vec::new();
        let mut y: usize = y0;
        while y < ym
            invariant
                y0 <= y,
                y <= ym || ym <= y0,
                ym <= y0 ==> y == y0,
                xm <= self.width,
                len == self.temps@.len(),
                x0 < xm && y0 < ym ==> (ym - 1) * self.width + (xm - 1) < len,
                out@ == self@.rows(x0 as int, xm as int, y0 as int, y as int),
            decreases ym - y,
        {
            let ghost before = out@;
            let mut x: usize = x0;
            assert(before + self@.row(y as int, x0 as int, x0 as int) =~= before);
            while x < xm
                invariant
                    y0 <= y < ym,
                    x0 <= x,
                    x <= xm || xm <= x0,
                    xm <= x0 ==> x == x0,
                    xm <= self.width,
                    len == self.temps@.len(),
                    x0 < xm && y0 < ym ==> (ym - 1) * self.width + (xm - 1) < len,
                    out@ == before + self@.row(y as int, x0 as int, x as int),
                decreases xm - x,
            {
                proof {
                    lemma_cell_index(x as int, y as int, xm as int, ym as int, self.width as int);
                }
                out.push(self.temps[y * self.width + x]);
                x = x + 1;
                assert(out@ =~= before + self@.row(y as int, x0 as int, x as int));
            }
            y = y + 1;
            assert(out@ == before + self@.row(y - 1, x0 as int, xm as int));
        }
        out
    }
}

/// Pixel `(px, py)` comes among the columns `x0..xm` of rows `y0..y`, or among
/// the columns `x0..x` of row `y`.
pub open spec fn visited(
    px: int,
    py: int,
    x0: int,
    xm: int,
    y0: int,
    y: int,
    x: int,
) -> bool {
    ||| y0 <= py < y && x0 <= px < xm
    ||| py == y && x0 <= px < x
}

/// `best` is the first of the hottest visited pixels.
pub open spec fn is_first_hottest(
    c: CaptureView,
    best: Hottest,
    x0: int,
    xm: int,
    y0: int,
    y: int,
    x: int,
) -> bool {
    match best {
        None => forall|px: int, py: int| !(#[trigger] visited(px, py, x0, xm, y0, y, x)),
        Some((t, bx, by)) => {
            &&& visited(bx as int, by as int, x0, xm, y0, y, x)
            &&& t == c.cell(bx as int, by as int)
            &&& forall|px: int, py: int| #[trigger]
                visited(px, py, x0, xm, y0, y, x) ==> {
                    &&& !exceeds(c.cell(px, py), t)
                    &&& py < by || (py == by && px < bx) ==> exceeds(t, c.cell(px, py))
                }
        },
    }
}

proof fn lemma_row_first_hottest(
    c: CaptureView,
    best: Hottest,
    x0: int,
    xm: int,
    y0: int,
    y: int,
    x: int,
)
    requires
        0 <= x0 <= x <= xm <= usize::MAX,
        0 <= y0 <= y <= usize::MAX,
        forall|px: int, py: int|
            x0 <= px < xm && y0 <= py <= y ==> !is_nan(#[trigger] c.cell(px, py)),
        is_first_hottest(c, best, x0, xm, y0, y, x0),
    ensures
        is_first_hottest(c, c.scan_row(best, y, x0, x), x0, xm, y0, y, x),
    decreases x - x0,
{
    if x > x0 {
        lemma_row_first_hottest(c, best, x0, xm, y0, y, x - 1);
        let prev = c.scan_row(best, y, x0, x - 1);
        let now = c.scan_row(best, y, x0, x);
        let t = c.cell(x - 1, y);
        assert(!is_nan(t));
        assert(visited(x - 1, y, x0, xm, y0, y, x));
        assert forall|px: int, py: int| #[trigger]
            visited(px, py, x0, xm, y0, y, x) implies (px == x - 1 && py == y) || visited(
            px,
            py,
            x0,
            xm,
            y0,
            y,
            x - 1,
        ) by {}
        assert forall|px: int, py: int| #[trigger]
            visited(px, py, x0, xm, y0, y, x) implies !is_nan(c.cell(px, py)) by {}
        match prev {
            Some((b, bx, by)) => {
                assert(visited(bx as int, by as int, x0, xm, y0, y, x));
            },
            None => {},
        }
    }
}

proof fn lemma_scan_first_hottest(
    c: CaptureView,
    x0: int,
    xm: int,
    y0: int,
    y: int,
)
    requires
        0 <= x0 <= xm <= usize::MAX,
        0 <= y0 <= y <= usize::MAX,
        forall|px: int, py: int|
            x0 <= px < xm && y0 <= py < y ==> !is_nan(#[trigger] c.cell(px, py)),
    ensures
        is_first_hottest(c, c.scan(None, x0, xm, y0, y), x0, xm, y0, y, x0),
    decreases y - y0,
{
    if y > y0 {
        lemma_scan_first_hottest(c, x0, xm, y0, y - 1);
        let prev = c.scan(None, x0, xm, y0, y - 1);
        lemma_row_first_hottest(c, prev, x0, xm, y0, y - 1, xm);
        let now = c.scan(None, x0, xm, y0, y);
        assert forall|px: int, py: int|
            visited(px, py, x0, xm, y0, y, x0) == visited(px, py, x0, xm, y0, y - 1, xm) by {}
    }
}

/// Where every pixel of a rectangle is a number, the hottest pixel is one of
/// the rectangle's, no pixel of the rectangle is hotter, and every pixel that
/// comes before it, row by row, is colder. There is none exactly where no pixel
/// of the rectangle lies in the matrix.
pub proof fn law_hottest_is_first_maximum(c: CaptureView, x0: int, y0: int, x1: int, y1: int)
    requires
        0 <= x0,
        0 <= y0,
        x1 <= usize::MAX,
        y1 <= usize::MAX,
        forall|px: int, py: int|
            x0 <= px < clipped(x1, c.width) && y0 <= py < clipped(y1, c.height) ==> !is_nan(
                #[trigger] c.cell(px, py),
            ),
    ensures
        ({
            let (xm, ym) = (clipped(x1, c.width), clipped(y1, c.height));
            match c.hottest(None, x0, y0, x1, y1) {
                None => xm <= x0 || ym <= y0,
                Some((t, bx, by)) => {
                    &&& x0 <= bx < xm && y0 <= by < ym
                    &&& t == c.cell(bx as int, by as int)
                    &&& forall|px: int, py: int|
                        x0 <= px < xm && y0 <= py < ym ==> !exceeds(#[trigger] c.cell(px, py), t)
                    &&& forall|px: int, py: int|
                        x0 <= px < xm && y0 <= py < ym && (py < by || (py == by && px < bx))
                            ==> exceeds(t, #[trigger] c.cell(px, py))
                },
            }
        }),
{
    let (xm, ym) = (clipped(x1, c.width), clipped(y1, c.height));
    if xm <= x0 || ym <= y0 {
        lemma_scan_nothing(c, None, x0, xm, y0, ym);
    } else {
        lemma_scan_first_hottest(c, x0, xm, y0, ym);
        assert(visited(x0, y0, x0, xm, y0, ym, x0));
        match c.hottest(None, x0, y0, x1, y1) {
            Some((t, bx, by)) => {
                assert forall|px: int, py: int|
                    x0 <= px < xm && y0 <= py < ym implies !exceeds(#[trigger] c.cell(px, py), t)
                    && ((py < by || (py == by && px < bx)) ==> exceeds(t, c.cell(px, py))) by {
                    assert(visited(px, py, x0, xm, y0, ym, x0));
                }
            },
            None => {},
        }
    }
}

/// Where every temperature is a number, the hottest pixel of the whole matrix is
/// as hot as any pixel that none exceeds in the total order: both ways to look
/// for the maximum find the same temperature.
pub proof fn law_whole_matrix_maximum(c: CaptureView, top: int)
    requires
        c.wf(),
        c.width <= usize::MAX,
        c.height <= usize::MAX,
        forall|i: int| 0 <= i < c.temps.len() ==> !is_nan(#[trigger] c.temps[i]),
        0 <= top < c.temps.len(),
        forall|i: int|
            0 <= i < c.temps.len() ==> total_rank(#[trigger] c.temps[i]) <= total_rank(
                c.temps[top],
            ),
    ensures
        c.hottest(None, 0, 0, c.width as int, c.height as int) matches Some((t, x, y))
            && value_rank(t) == value_rank(c.temps[top]),
{
    law_wf_covers(c);
    let (w, h) = (c.width as int, c.height as int);
    assert forall|px: int, py: int| 0 <= px < w && 0 <= py < h implies !is_nan(
        #[trigger] c.cell(px, py),
    ) by {
        assert(0 <= c.position(px, py) < c.temps.len());
    }
    law_hottest_is_first_maximum(c, 0, 0, w, h);
    let (px, py) = (top % w, top / w);
    vstd::arithmetic::div_mod::lemma_fundamental_div_mod(top, w);
    assert(py * w + px == top) by (nonlinear_arith)
        requires
            top == w * py + px,
    ;
    assert(0 <= px < w) by {
        vstd::arithmetic::div_mod::lemma_mod_bound(top, w);
    }
    assert(0 <= py < h) by (nonlinear_arith)
        requires
            top == w * py + px,
            0 <= px < w,
            0 <= top < w * h,
    ;
    assert(c.cell(px, py) == c.temps[top]);
    match c.hottest(None, 0, 0, w, h) {
        Some((t, x, y)) => {
            assert(!exceeds(c.cell(px, py), t));
            assert(0 <= c.position(x as int, y as int) < c.temps.len());
            assert(t == c.temps[c.position(x as int, y as int)]);
        },
        None => {},
    }
}

/// What a search above a floor stands at: nothing visited is above the floor and
/// the floor stays, or `best` is the first of the hottest visited pixels and
/// above the floor.
pub open spec fn is_first_above(
    c: CaptureView,
    floor: (u32, usize, usize),
    best: Hottest,
    x0: int,
    xm: int,
    y0: int,
    y: int,
    x: int,
) -> bool {
    ||| best == Some(floor) && forall|px: int, py: int| #[trigger]
        visited(px, py, x0, xm, y0, y, x) ==> !exceeds(c.cell(px, py), floor.0)
    ||| best is Some && exceeds(best->Some_0.0, floor.0) && is_first_hottest(
        c,
        best,
        x0,
        xm,
        y0,
        y,
        x,
    )
}

proof fn lemma_row_first_above(
    c: CaptureView,
    floor: (u32, usize, usize),
    best: Hottest,
    x0: int,
    xm: int,
    y0: int,
    y: int,
    x: int,
)
    requires
        0 <= x0 <= x <= xm <= usize::MAX,
        0 <= y0 <= y <= usize::MAX,
        !is_nan(floor.0),
        forall|px: int, py: int|
            x0 <= px < xm && y0 <= py <= y ==> !is_nan(#[trigger] c.cell(px, py)),
        is_first_above(c, floor, best, x0, xm, y0, y, x0),
    ensures
        is_first_above(c, floor, c.scan_row(best, y, x0, x), x0, xm, y0, y, x),
    decreases x - x0,
{
    if x > x0 {
        lemma_row_first_above(c, floor, best, x0, xm, y0, y, x - 1);
        let prev = c.scan_row(best, y, x0, x - 1);
        let t = c.cell(x - 1, y);
        assert(!is_nan(t));
        assert(visited(x - 1, y, x0, xm, y0, y, x));
        assert forall|px: int, py: int| #[trigger]
            visited(px, py, x0, xm, y0, y, x) implies !is_nan(c.cell(px, py)) && ((px == x - 1
            && py == y) || visited(px, py, x0, xm, y0, y, x - 1)) by {}
        match prev {
            Some((b, bx, by)) => {
                if exceeds(b, floor.0) {
                    assert(visited(bx as int, by as int, x0, xm, y0, y, x));
                }
            },
            None => {},
        }
    }
}

proof fn lemma_scan_first_above(
    c: CaptureView,
    floor: (u32, usize, usize),
    x0: int,
    xm: int,
    y0: int,
    y: int,
)
    requires
        0 <= x0 <= xm <= usize::MAX,
        0 <= y0 <= y <= usize::MAX,
        !is_nan(floor.0),
        forall|px: int, py: int|
            x0 <= px < xm && y0 <= py < y ==> !is_nan(#[trigger] c.cell(px, py)),
    ensures
        is_first_above(c, floor, c.scan(Some(floor), x0, xm, y0, y), x0, xm, y0, y, x0),
    decreases y - y0,
{
    if y > y0 {
        lemma_scan_first_above(c, floor, x0, xm, y0, y - 1);
        let prev = c.scan(Some(floor), x0, xm, y0, y - 1);
        lemma_row_first_above(c, floor, prev, x0, xm, y0, y - 1, xm);
        assert forall|px: int, py: int|
            visited(px, py, x0, xm, y0, y, x0) == visited(px, py, x0, xm, y0, y - 1, xm) by {}
    }
}

/// Where every pixel of a rectangle is a number, a search above a floor finds
/// the first of the hottest pixels of the rectangle if one of them is above the
/// floor, and else stays at the floor.
pub proof fn law_hottest_above_floor(
    c: CaptureView,
    floor: (u32, usize, usize),
    x0: int,
    y0: int,
    x1: int,
    y1: int,
)
    requires
        0 <= x0,
        0 <= y0,
        x1 <= usize::MAX,
        y1 <= usize::MAX,
        !is_nan(floor.0),
        forall|px: int, py: int|
            x0 <= px < clipped(x1, c.width) && y0 <= py < clipped(y1, c.height) ==> !is_nan(
                #[trigger] c.cell(px, py),
            ),
    ensures
        ({
            let (xm, ym) = (clipped(x1, c.width), clipped(y1, c.height));
            let best = c.hottest(Some(floor), x0, y0, x1, y1);
            if exists|px: int, py: int|
                x0 <= px < xm && y0 <= py < ym && exceeds(#[trigger] c.cell(px, py), floor.0) {
                best matches Some((t, bx, by)) && {
                    &&& x0 <= bx < xm && y0 <= by < ym
                    &&& t == c.cell(bx as int, by as int)
                    &&& forall|px: int, py: int|
                        x0 <= px < xm && y0 <= py < ym ==> !exceeds(#[trigger] c.cell(px, py), t)
                    &&& forall|px: int, py: int|
                        x0 <= px < xm && y0 <= py < ym && (py < by || (py == by && px < bx))
                            ==> exceeds(t, #[trigger] c.cell(px, py))
                }
            } else {
                best == Some(floor)
            }
        }),
{
    let (xm, ym) = (clipped(x1, c.width), clipped(y1, c.height));
    if xm <= x0 || ym <= y0 {
        lemma_scan_nothing(c, Some(floor), x0, xm, y0, ym);
    } else {
        lemma_scan_first_above(c, floor, x0, xm, y0, ym);
        assert forall|px: int, py: int|
            x0 <= px < xm && y0 <= py < ym implies #[trigger] visited(
            px,
            py,
            x0,
            xm,
            y0,
            ym,
            x0,
        ) by {}
        let best = c.hottest(Some(floor), x0, y0, x1, y1);
        assert forall|px: int, py: int|
            x0 <= px < xm && y0 <= py < ym && exceeds(#[trigger] c.cell(px, py), floor.0) implies
            best != Some(floor) by {
            assert(visited(px, py, x0, xm, y0, ym, x0));
        }
        match best {
            Some((t, bx, by)) => {
                if best != Some(floor) {
                    assert(visited(bx as int, by as int, x0, xm, y0, ym, x0));
                    assert(exceeds(c.cell(bx as int, by as int), floor.0));
                    assert forall|px: int, py: int|
                        x0 <= px < xm && y0 <= py < ym implies !exceeds(
                        #[trigger] c.cell(px, py),
                        t,
                    ) && ((py < by || (py == by && px < bx)) ==> exceeds(t, c.cell(px, py))) by {
                        assert(visited(px, py, x0, xm, y0, ym, x0));
                    }
                }
            },
            None => {},
        }
    }
}

/// Looking through no columns or no rows finds nothing new.
proof fn lemma_scan_nothing(c: CaptureView, best: Hottest, x0: int, xm: int, y0: int, y: int)
    requires
        xm <= x0 || y <= y0,
    ensures
        c.scan(best, x0, xm, y0, y) == best,
    decreases y - y0,
{
    if y > y0 {
        lemma_scan_nothing(c, best, x0, xm, y0, y - 1);
    }
}

/// A capture that was read has one temperature per pixel, so every pixel within
/// its width and height has a temperature and every rectangle is covered.
pub proof fn law_capture_wf(s: Seq<u8>)
    requires
        capture_result(s) is Ok,
    ensures
        ({
            let c = capture_result(s)->Ok_0;
            &&& c.wf()
            &&& forall|x: int, y: int|
                0 <= x < c.width && 0 <= y < c.height ==> 0 <= #[trigger] c.position(x, y)
                    < c.temps.len()
            &&& forall|x0: int, y0: int, x1: int, y1: int|
                0 <= x0 && 0 <= y0 ==> #[trigger] c.covers(x0, y0, x1, y1)
        }),
{
    let c = capture_result(s)->Ok_0;
    law_wf_covers(c);
}

/// Where there is one temperature per pixel, every pixel within width and
/// height has a temperature, and every rectangle is covered.
pub proof fn law_wf_covers(c: CaptureView)
    requires
        c.wf(),
    ensures
        forall|x: int, y: int|
            0 <= x < c.width && 0 <= y < c.height ==> 0 <= #[trigger] c.position(x, y)
                < c.temps.len(),
        forall|x0: int, y0: int, x1: int, y1: int|
            0 <= x0 && 0 <= y0 ==> #[trigger] c.covers(x0, y0, x1, y1),
        c.temps.len() > 0 ==> c.width > 0,
{
    assert(c.width == 0 ==> c.width * c.height == 0) by (nonlinear_arith);
    assert forall|x: int, y: int| 0 <= x < c.width && 0 <= y < c.height implies 0
        <= #[trigger] c.position(x, y) < c.temps.len() by {
        lemma_cell_index(x, y, c.width as int, c.height as int, c.width as int);
        assert((c.height - 1) * c.width + (c.width - 1) < c.width * c.height) by (nonlinear_arith);
    }
    assert forall|x0: int, y0: int, x1: int, y1: int| 0 <= x0 && 0 <= y0 implies #[trigger] c.covers(
        x0,
        y0,
        x1,
        y1,
    ) by {
        let (xm, ym) = (clipped(x1, c.width), clipped(y1, c.height));
        if x0 < xm && y0 < ym {
            assert(0 <= c.position(xm - 1, ym - 1) < c.temps.len());
        }
    }
}

/// Going from the matrix to the display and back leads to the same pixel.
pub proof fn law_display_round_trip(m: int)
    ensures
        to_matrix(to_display(m)) == m,
{
}

/// A span of display pixels covers exactly the matrix pixels that hold one of
/// them.
pub proof fn law_display_span(d: int, size: int, m: int)
    requires
        0 <= d,
        0 <= size,
    ensures
        to_matrix(d) <= m < matrix_end(d, size) <==> exists|p: int|
            d <= p < d + size && #[trigger] to_matrix(p) == m,
{
    if to_matrix(d) <= m < matrix_end(d, size) {
        let p = if to_display(m) < d { d } else { to_display(m) };
        assert(d <= p < d + size && to_matrix(p) == m);
    }
}

/// All temperatures in a row, four bytes each.
pub open spec fn temps_bytes(temps: Seq<u32>) -> Seq<u8>
    decreases temps.len(),
{
    if temps.len() == 0 {
        Seq::empty()
    } else {
        temps_bytes(temps.drop_last()) + u32_bytes(temps.last())
    }
}

/// A capture as the camera lays it out.
pub open spec fn capture_bytes(tag: u8, reserved: Seq<u8>, c: CaptureView) -> Seq<u8> {
    seq![tag] + u32_bytes(c.jpeg.len() as u32) + u32_bytes(c.width as u32) + u32_bytes(
        c.height as u32,
    ) + u32_bytes((4 * c.temps.len()) as u32) + reserved + c.jpeg + temps_bytes(c.temps)
}

proof fn lemma_temps_bytes(temps: Seq<u32>, i: int)
    requires
        0 <= i < temps.len(),
    ensures
        temps_bytes(temps).len() == 4 * temps.len(),
        temps_bytes(temps).subrange(4 * i, 4 * i + 4) == u32_bytes(temps[i]),
    decreases temps.len(),
{
    let rest = temps.drop_last();
    lemma_temps_len(temps);
    lemma_temps_len(rest);
    let whole = temps_bytes(temps);
    if i == rest.len() {
        assert(whole.subrange(4 * i, 4 * i + 4) =~= u32_bytes(temps[i]));
    } else {
        lemma_temps_bytes(rest, i);
        assert(whole.subrange(4 * i, 4 * i + 4) =~= temps_bytes(rest).subrange(4 * i, 4 * i + 4));
    }
}

proof fn lemma_temps_len(temps: Seq<u32>)
    ensures
        temps_bytes(temps).len() == 4 * temps.len(),
    decreases temps.len(),
{
    if temps.len() > 0 {
        lemma_temps_len(temps.drop_last());
    }
}

/// A laid out capture reads back as the capture, picture and temperatures
/// alike.
pub proof fn law_capture_round_trip(tag: u8, reserved: Seq<u8>, c: CaptureView)
    requires
        reserved.len() == 10,
        c.wf(),
        c.jpeg.len() <= u32::MAX,
        c.width <= u32::MAX,
        c.height <= u32::MAX,
        4 * c.temps.len() <= u32::MAX,
    ensures
        capture_result(capture_bytes(tag, reserved, c)) == Ok::<CaptureView, CameraError>(c),
{
    let s = capture_bytes(tag, reserved, c);
    lemma_temps_len(c.temps);
    assert(s.subrange(1, 5) =~= u32_bytes(c.jpeg.len() as u32));
    assert(s.subrange(5, 9) =~= u32_bytes(c.width as u32));
    assert(s.subrange(9, 13) =~= u32_bytes(c.height as u32));
    assert(s.subrange(13, 17) =~= u32_bytes((4 * c.temps.len()) as u32));
    lemma_u32_inside(s, 1, c.jpeg.len() as u32);
    lemma_u32_inside(s, 5, c.width as u32);
    lemma_u32_inside(s, 9, c.height as u32);
    lemma_u32_inside(s, 13, (4 * c.temps.len()) as u32);
    let jpeg_end = 27 + c.jpeg.len();
    assert(s.subrange(27, jpeg_end as int) =~= c.jpeg);
    assert forall|i: int| 0 <= i < c.temps.len() implies u32_le(s, jpeg_end + 4 * i)
        == #[trigger] c.temps[i] by {
        lemma_temps_bytes(c.temps, i);
        assert(s.subrange(jpeg_end + 4 * i, jpeg_end + 4 * i + 4) =~= temps_bytes(c.temps).subrange(
            4 * i,
            4 * i + 4,
        ));
        lemma_u32_inside(s, jpeg_end + 4 * i, c.temps[i]);
    }
    let got = capture_result(s);
    assert(got is Ok);
    assert(got->Ok_0.temps =~= c.temps);
    assert(got->Ok_0 =~= c);
}

/// A capture delivers what the camera sends: where it comes in chunks behind a
/// head that announces its length, the outcome is the reading of it.
pub proof fn law_capture_query_outcome(
    acks: (Seq<u8>, Seq<u8>),
    len_reply: Seq<u8>,
    head: Seq<u8>,
    pieces: Seq<Seq<u8>>,
    numbers: Seq<u32>,
)
    requires
        5 <= head.len() == u32_le(filled(4, len_reply), 0),
        u32_le(head, 1) <= MAX_DOUBLE_LEN,
        carries(pieces, u32_le(head, 1)),
        numbers.len() == pieces.len(),
    ensures
        ({
            let replies = double_get_replies(acks, len_reply, head, pieces, numbers);
            let q = capture_start().run(replies);
            &&& q.pending() is None
            &&& capture_outcome(q) == capture_result(joined(pieces).take(u32_le(head, 1)))
        }),
{
    law_double_get_reassembles(
        GROUP_THERMAL,
        SUB_CAPTURE,
        request_stamp(CHANNEL, no_time()),
        acks,
        len_reply,
        head,
        pieces,
        numbers,
    );
}

/// A capture gives back the picture and the temperatures that the camera laid
/// out and sent in chunks.
pub proof fn law_capture_delivered(
    tag: u8,
    reserved: Seq<u8>,
    c: CaptureView,
    acks: (Seq<u8>, Seq<u8>),
    len_reply: Seq<u8>,
    head: Seq<u8>,
    pieces: Seq<Seq<u8>>,
    numbers: Seq<u32>,
)
    requires
        reserved.len() == 10,
        c.wf(),
        5 <= head.len() == u32_le(filled(4, len_reply), 0),
        u32_le(head, 1) == capture_bytes(tag, reserved, c).len() <= MAX_DOUBLE_LEN,
        carries(pieces, u32_le(head, 1)),
        joined(pieces).take(u32_le(head, 1)) == capture_bytes(tag, reserved, c),
        c.width <= u32::MAX,
        c.height <= u32::MAX,
        numbers.len() == pieces.len(),
    ensures
        ({
            let replies = double_get_replies(acks, len_reply, head, pieces, numbers);
            let q = capture_start().run(replies);
            &&& q.pending() is None
            &&& capture_outcome(q) == Ok::<CaptureView, CameraError>(c)
        }),
{
    lemma_temps_len(c.temps);
    law_capture_round_trip(tag, reserved, c);
    law_capture_query_outcome(acks, len_reply, head, pieces, numbers);
}

/// Patterns are ranked as the numbers they stand for: among patterns without the
/// sign bit the greater one ranks higher, among patterns with it the smaller one
/// does, and no pattern with the sign bit ranks above one without it. The two
/// zeros rank apart in the total order and together by value.
pub proof fn law_rank_order(a: u32, b: u32)
    ensures
        a < 0x80000000 && b < 0x80000000 ==> {
            &&& total_rank(a) < total_rank(b) <==> a < b
            &&& value_rank(a) < value_rank(b) <==> a < b
        },
        a >= 0x80000000 && b >= 0x80000000 ==> {
            &&& total_rank(a) < total_rank(b) <==> a > b
            &&& value_rank(a) < value_rank(b) <==> a > b
        },
        a >= 0x80000000 && b < 0x80000000 ==> {
            &&& total_rank(a) < total_rank(b)
            &&& value_rank(a) <= value_rank(b)
            &&& value_rank(a) == value_rank(b) <==> a == 0x80000000 && b == 0
        },
{
}

/// One temperature is greater than another exactly where both are numbers, that
/// is, have a pattern of at most 7f800000 besides the sign bit, and it is the
/// greater number: positive patterns by size, negative ones against it, and
/// positive above negative unless both are zero.
pub proof fn law_greater_temperature(a: u32, b: u32)
    ensures
        is_nan(a) <==> 0x7f800000 < a < 0x80000000 || a > 0xff800000,
        exceeds(a, b) ==> !is_nan(a) && !is_nan(b),
        !is_nan(a) && !is_nan(b) ==> {
            &&& a < 0x80000000 && b < 0x80000000 ==> (exceeds(a, b) <==> a > b)
            &&& a >= 0x80000000 && b >= 0x80000000 ==> (exceeds(a, b) <==> a < b)
            &&& a < 0x80000000 && b >= 0x80000000 ==> (exceeds(a, b) <==> !(a == 0 && b
                == 0x80000000))
            &&& a >= 0x80000000 && b < 0x80000000 ==> !exceeds(a, b)
        },
{
}

/// Greater is an order: nothing is greater than itself, and what is greater than
/// something greater is greater still.
pub proof fn law_greater_is_an_order(a: u32, b: u32, c: u32)
    ensures
        !exceeds(a, a),
        exceeds(a, b) ==> !exceeds(b, a),
        exceeds(a, b) && exceeds(b, c) ==> exceeds(a, c),
{
}

/// What a capture request sends: it points the data channel at command 9 of
/// group 3, and its second transfer writes 13 bytes to selector 3: channel 1, the
/// year 2026 at 8, and zeros.
pub proof fn law_capture_request_bytes(ack: Seq<u8>)
    ensures
        capture_start().pending() == Some(
            TransferView {
                request_type: 0x21,
                request: 0x01,
                value: 0x0500,
                index: 0x0a00,
                data: DataView::Out(seq![3u8, 9u8]),
            },
        ),
        capture_start().after(ReplyView::Data(ack)).pending() matches Some(t) && {
            &&& t.request_type == 0x21 && t.request == 0x01
            &&& t.value == 0x0300 && t.index == 0x0a00
            &&& t.data matches DataView::Out(q) && {
                &&& q.len() == 13
                &&& q[0] == 1
                &&& forall|k: int| 1 <= k < 8 || 10 <= k < 13 ==> #[trigger] q[k] == 0
                &&& q[8] + q[9] * 0x100 == 2026
            }
        },
{
}

/// A capture, byte by byte: length of the picture at 1, width at 5, height at 9
/// and length of the temperatures at 13, as 32-bit integers, least significant
/// byte first; the picture from 27 on, and behind it four bytes per pixel. It is
/// read exactly where the temperatures have four bytes per pixel and all of it
/// came.
pub proof fn law_capture_result_bytes(
    s: Seq<u8>,
    jpeg_len: int,
    width: int,
    height: int,
    temp_bytes: int,
)
    requires
        27 <= s.len() <= usize::MAX,
        jpeg_len == s[1] + s[2] * 0x100 + s[3] * 0x10000 + s[4] * 0x1000000,
        width == s[5] + s[6] * 0x100 + s[7] * 0x10000 + s[8] * 0x1000000,
        height == s[9] + s[10] * 0x100 + s[11] * 0x10000 + s[12] * 0x1000000,
        temp_bytes == s[13] + s[14] * 0x100 + s[15] * 0x10000 + s[16] * 0x1000000,
    ensures
        temp_bytes != 4 * (width * height) ==> (capture_result(s) matches Err(
            CameraError::CaptureTempSize { temp_bytes: t, width: w, height: h },
        ) && t == temp_bytes && w == width && h == height),
        temp_bytes == 4 * (width * height) && s.len() < 27 + jpeg_len + temp_bytes ==> (
        capture_result(s) matches Err(CameraError::CaptureTruncated { len, need }) && len == s.len()
            && need == 27 + jpeg_len + temp_bytes),
        temp_bytes == 4 * (width * height) && s.len() >= 27 + jpeg_len + temp_bytes ==> (
        capture_result(s) matches Ok(c) && {
            &&& c.width == width && c.height == height
            &&& c.jpeg.len() == jpeg_len
            &&& forall|i: int| 0 <= i < jpeg_len ==> #[trigger] c.jpeg[i] == s[27 + i]
            &&& c.temps.len() == width * height
            &&& forall|i: int|
                0 <= i < c.temps.len() ==> {
                    let b = 27 + jpeg_len + 4 * i;
                    #[trigger] c.temps[i] == s[b] + s[b + 1] * 0x100 + s[b + 2] * 0x10000 + s[b + 3]
                        * 0x1000000
                }
        }),
{
    assert(width * height * 4 == 4 * (width * height));
    assert(width * height >= 0) by (nonlinear_arith)
        requires
            width >= 0,
            height >= 0,
    ;
}

/// Fewer than 27 bytes are no capture, and a capture ends with the reading of
/// what was delivered or with the error of the exchange.
pub proof fn law_capture_outcome_of_exchange(s: Seq<u8>, q: DoubleGetView)
    requires
        s.len() <= usize::MAX,
    ensures
        s.len() < 27 ==> capture_result(s) == Err::<CaptureView, CameraError>(
            CameraError::CaptureTooShort { len: s.len() as usize },
        ),
        q.outcome() matches Ok(buf) ==> capture_outcome(q) == capture_result(buf),
        q.outcome() matches Err(e) ==> capture_outcome(q) == Err::<CaptureView, CameraError>(e),
{
}

/// The counterpart of a capture holds all of it.
pub proof fn law_capture_counterpart(c: RadiometricCapture, e: CameraError)
    ensures
        c@.jpeg == c.jpeg@,
        c@.width == c.width,
        c@.height == c.height,
        c@.temps == c.temps@,
        capture_view(Ok(c)) == Ok::<CaptureView, CameraError>(c@),
        capture_view(Err(e)) == Err::<CaptureView, CameraError>(e),
{
}

/// Temperatures lie row by row: pixel `(x, y)` is number `y * width + x`, and
/// bounds are cut off at the size of the matrix.
pub proof fn law_pixel_position(c: CaptureView, x: int, y: int, bound: int, size: nat)
    ensures
        c.cell(x, y) == c.temps[y * c.width + x],
        c.position(x, y) == y * c.width + x,
        clipped(bound, size) <= bound && clipped(bound, size) <= size,
        clipped(bound, size) == bound || clipped(bound, size) == size,
        c.wf() <==> c.temps.len() == c.width * c.height,
{
}

/// A matrix pixel covers two display pixels each way: `2 * m` and `2 * m + 1`.
pub proof fn law_two_display_pixels(m: int, d: int)
    requires
        0 <= d,
    ensures
        to_display(m) == 2 * m,
        to_matrix(d) == m <==> d == 2 * m || d == 2 * m + 1,
{
}

/// The end of a span of display pixels lies right behind the matrix pixel of the
/// last of them; an empty span ends where it begins.
pub proof fn law_span_end(d: int, size: int)
    requires
        0 <= d,
        0 <= size,
    ensures
        size == 0 ==> matrix_end(d, size) <= to_matrix(d),
        size > 0 ==> 2 * (matrix_end(d, size) - 1) <= d + size - 1 < 2 * matrix_end(d, size),
{
}

/// The hottest pixel of a rectangle, whatever its pixels hold: where the first of
/// them is no number, it is that one. Else it is a number of the rectangle that
/// none exceeds, and every pixel before it, row by row, is colder or no number.
pub proof fn law_hottest_of_any_pixels(c: CaptureView, x0: int, y0: int, x1: int, y1: int)
    requires
        0 <= x0 < x1 <= c.width <= usize::MAX,
        0 <= y0 < y1 <= c.height <= usize::MAX,
    ensures
        c.hottest(None, x0, y0, x1, y1) matches Some((t, bx, by)) && {
            &&& x0 <= bx < x1 && y0 <= by < y1
            &&& t == c.temps[by * c.width + bx]
            &&& is_nan(c.cell(x0, y0)) ==> bx == x0 && by == y0
            &&& !is_nan(c.cell(x0, y0)) ==> !is_nan(t) && forall|px: int, py: int|
                x0 <= px < x1 && y0 <= py < y1 ==> {
                    &&& !exceeds(#[trigger] c.cell(px, py), t)
                    &&& py < by || (py == by && px < bx) ==> is_nan(c.cell(px, py)) || exceeds(
                        t,
                        c.cell(px, py),
                    )
                }
        },
{
    lemma_scan_first(c, x0, x1, y0, y1);
    assert forall|px: int, py: int| x0 <= px < x1 && y0 <= py < y1 implies #[trigger] visited(
        px,
        py,
        x0,
        x1,
        y0,
        y1,
        x0,
    ) by {}
    match c.hottest(None, x0, y0, x1, y1) {
        Some((t, bx, by)) => {
            assert forall|px: int, py: int| x0 <= px < x1 && y0 <= py < y1 implies {
                &&& is_nan(c.cell(x0, y0)) || !exceeds(#[trigger] c.cell(px, py), t)
                &&& is_nan(c.cell(x0, y0)) || (py < by || (py == by && px < bx) ==> is_nan(
                    c.cell(px, py),
                ) || exceeds(t, c.cell(px, py)))
            } by {
                assert(visited(px, py, x0, x1, y0, y1, x0));
            }
        },
        None => {},
    }
}

/// `best` is the first visited pixel where that is no number, and else the first
/// of the hottest visited ones that are numbers.
spec fn is_first_number(
    c: CaptureView,
    best: Hottest,
    x0: int,
    xm: int,
    y0: int,
    y: int,
    x: int,
) -> bool {
    best matches Some((t, bx, by)) && {
        &&& visited(bx as int, by as int, x0, xm, y0, y, x)
        &&& t == c.cell(bx as int, by as int)
        &&& is_nan(c.cell(x0, y0)) ==> bx == x0 && by == y0
        &&& !is_nan(c.cell(x0, y0)) ==> !is_nan(t) && forall|px: int, py: int| #[trigger]
            visited(px, py, x0, xm, y0, y, x) ==> {
                &&& !exceeds(c.cell(px, py), t)
                &&& py < by || (py == by && px < bx) ==> is_nan(c.cell(px, py)) || exceeds(
                    t,
                    c.cell(px, py),
                )
            }
    }
}

proof fn lemma_row_first(
    c: CaptureView,
    best: Hottest,
    x0: int,
    xm: int,
    y0: int,
    y: int,
    x: int,
)
    requires
        0 <= x0 < x <= xm <= usize::MAX,
        0 <= y0 <= y <= usize::MAX,
        if y == y0 {
            best is None
        } else {
            is_first_number(c, best, x0, xm, y0, y, x0)
        },
    ensures
        is_first_number(c, c.scan_row(best, y, x0, x), x0, xm, y0, y, x),
    decreases x - x0,
{
    assert(visited(x - 1, y, x0, xm, y0, y, x));
    if x - 1 > x0 {
        lemma_row_first(c, best, x0, xm, y0, y, x - 1);
    }
    let prev = c.scan_row(best, y, x0, x - 1);
    assert(x - 1 == x0 ==> prev == best);
    let t = c.cell(x - 1, y);
    assert forall|px: int, py: int| #[trigger] visited(px, py, x0, xm, y0, y, x) implies (px == x
        - 1 && py == y) || visited(px, py, x0, xm, y0, y, x - 1) by {}
    match prev {
        Some((b, bx, by)) => {
            assert(visited(bx as int, by as int, x0, xm, y0, y, x));
        },
        None => {},
    }
}

proof fn lemma_scan_first(c: CaptureView, x0: int, xm: int, y0: int, y: int)
    requires
        0 <= x0 < xm <= usize::MAX,
        0 <= y0 < y <= usize::MAX,
    ensures
        is_first_number(c, c.scan(None, x0, xm, y0, y), x0, xm, y0, y, x0),
    decreases y - y0,
{
    if y - 1 > y0 {
        lemma_scan_first(c, x0, xm, y0, y - 1);
    }
    let prev = c.scan(None, x0, xm, y0, y - 1);
    lemma_row_first(c, prev, x0, xm, y0, y - 1, xm);
    let now = c.scan(None, x0, xm, y0, y);
    assert forall|px: int, py: int|
        visited(px, py, x0, xm, y0, y, x0) == visited(px, py, x0, xm, y0, y - 1, xm) by {}
    match now {
        Some((t, bx, by)) => {
            assert(visited(bx as int, by as int, x0, xm, y0, y, x0));
        },
        None => {},
    }
}

/// A search above a floor that is a number, whatever the pixels hold: pixels that
/// are no numbers do not count. The floor stays where no pixel is above it; else
/// the search ends at a pixel above it that none exceeds, and every pixel before
/// that one, row by row, is colder or no number.
pub proof fn law_above_floor_of_any_pixels(
    c: CaptureView,
    floor: (u32, usize, usize),
    x0: int,
    y0: int,
    x1: int,
    y1: int,
)
    requires
        0 <= x0,
        0 <= y0,
        x1 <= c.width <= usize::MAX,
        y1 <= c.height <= usize::MAX,
        !is_nan(floor.0),
    ensures
        c.hottest(Some(floor), x0, y0, x1, y1) matches Some((t, bx, by)) && {
            &&& forall|px: int, py: int|
                x0 <= px < x1 && y0 <= py < y1 ==> !exceeds(#[trigger] c.cell(px, py), t)
            &&& (t, bx, by) == floor || {
                &&& exceeds(t, floor.0)
                &&& x0 <= bx < x1 && y0 <= by < y1
                &&& t == c.temps[by * c.width + bx]
                &&& forall|px: int, py: int|
                    x0 <= px < x1 && y0 <= py < y1 && (py < by || (py == by && px < bx)) ==> is_nan(
                        #[trigger] c.cell(px, py),
                    ) || exceeds(t, c.cell(px, py))
            }
        },
{
    if x1 <= x0 || y1 <= y0 {
        lemma_scan_nothing(c, Some(floor), x0, x1, y0, y1);
    } else {
        lemma_scan_above(c, floor, x0, x1, y0, y1);
        assert forall|px: int, py: int| x0 <= px < x1 && y0 <= py < y1 implies #[trigger] visited(
            px,
            py,
            x0,
            x1,
            y0,
            y1,
            x0,
        ) by {}
        match c.hottest(Some(floor), x0, y0, x1, y1) {
            Some((t, bx, by)) => {
                assert forall|px: int, py: int| x0 <= px < x1 && y0 <= py < y1 implies {
                    &&& !exceeds(#[trigger] c.cell(px, py), t)
                    &&& (t, bx, by) == floor || (py < by || (py == by && px < bx) ==> is_nan(
                        c.cell(px, py),
                    ) || exceeds(t, c.cell(px, py)))
                } by {
                    assert(visited(px, py, x0, x1, y0, y1, x0));
                }
            },
            None => {},
        }
    }
}

/// `best` is the floor or above it, no visited pixel exceeds it, and where it is
/// not the floor it is the first such pixel among the visited numbers.
spec fn is_number_above(
    c: CaptureView,
    floor: (u32, usize, usize),
    best: Hottest,
    x0: int,
    xm: int,
    y0: int,
    y: int,
    x: int,
) -> bool {
    best matches Some((t, bx, by)) && {
        &&& !is_nan(t)
        &&& forall|px: int, py: int| #[trigger]
            visited(px, py, x0, xm, y0, y, x) ==> !exceeds(c.cell(px, py), t)
        &&& best == Some(floor) || {
            &&& exceeds(t, floor.0)
            &&& visited(bx as int, by as int, x0, xm, y0, y, x)
            &&& t == c.cell(bx as int, by as int)
            &&& forall|px: int, py: int| #[trigger]
                visited(px, py, x0, xm, y0, y, x) && (py < by || (py == by && px < bx)) ==> is_nan(
                    c.cell(px, py),
                ) || exceeds(t, c.cell(px, py))
        }
    }
}

proof fn lemma_row_above(
    c: CaptureView,
    floor: (u32, usize, usize),
    best: Hottest,
    x0: int,
    xm: int,
    y0: int,
    y: int,
    x: int,
)
    requires
        0 <= x0 <= x <= xm <= usize::MAX,
        0 <= y0 <= y <= usize::MAX,
        !is_nan(floor.0),
        is_number_above(c, floor, best, x0, xm, y0, y, x0),
    ensures
        is_number_above(c, floor, c.scan_row(best, y, x0, x), x0, xm, y0, y, x),
    decreases x - x0,
{
    if x > x0 {
        lemma_row_above(c, floor, best, x0, xm, y0, y, x - 1);
        let prev = c.scan_row(best, y, x0, x - 1);
        assert(visited(x - 1, y, x0, xm, y0, y, x));
        assert forall|px: int, py: int| #[trigger] visited(px, py, x0, xm, y0, y, x) implies (px
            == x - 1 && py == y) || visited(px, py, x0, xm, y0, y, x - 1) by {}
        match prev {
            Some((b, bx, by)) => {
                if prev != Some(floor) {
                    assert(visited(bx as int, by as int, x0, xm, y0, y, x));
                }
            },
            None => {},
        }
    }
}

proof fn lemma_scan_above(
    c: CaptureView,
    floor: (u32, usize, usize),
    x0: int,
    xm: int,
    y0: int,
    y: int,
)
    requires
        0 <= x0 <= xm <= usize::MAX,
        0 <= y0 <= y <= usize::MAX,
        !is_nan(floor.0),
    ensures
        is_number_above(c, floor, c.scan(Some(floor), x0, xm, y0, y), x0, xm, y0, y, x0),
    decreases y - y0,
{
    if y > y0 {
        lemma_scan_above(c, floor, x0, xm, y0, y - 1);
        let prev = c.scan(Some(floor), x0, xm, y0, y - 1);
        lemma_row_above(c, floor, prev, x0, xm, y0, y - 1, xm);
        assert forall|px: int, py: int|
            visited(px, py, x0, xm, y0, y, x0) == visited(px, py, x0, xm, y0, y - 1, xm) by {}
    }
}

/// The temperatures of a rectangle that is `w` pixels wide: one for each of its
/// pixels, row by row.
pub proof fn law_rows_hold_rectangle(
    c: CaptureView,
    x0: int,
    x1: int,
    y0: int,
    y1: int,
    w: int,
    x: int,
    y: int,
)
    requires
        0 <= w == x1 - x0,
        y0 <= y1,
    ensures
        c.rows(x0, x1, y0, y1).len() == (y1 - y0) * w,
        x0 <= x < x1 && y0 <= y < y1 ==> {
            &&& 0 <= (y - y0) * w + (x - x0) < (y1 - y0) * w
            &&& c.rows(x0, x1, y0, y1)[(y - y0) * w + (x - x0)] == c.temps[y * c.width + x]
        },
    decreases y1 - y0,
{
    if y1 > y0 {
        law_rows_hold_rectangle(c, x0, x1, y0, y1 - 1, w, x, y);
        let last = c.row(y1 - 1, x0, x1);
        assert(last.len() == w);
        assert((y1 - 1 - y0) * w + w == (y1 - y0) * w) by (nonlinear_arith);
        if x0 <= x < x1 && y == y1 - 1 {
            assert(last[x - x0] == c.cell(x, y));
            assert(0 <= (y1 - 1 - y0) * w) by (nonlinear_arith)
                requires
                    y1 - 1 - y0 >= 0,
                    w >= 0,
            ;
        }
    } else {
        assert((y1 - y0) * w == 0) by (nonlinear_arith)
            requires
                y1 == y0,
        ;
    }
}

/// A rectangle without columns or without rows has no temperatures.
pub proof fn law_rows_of_nothing(c: CaptureView, x0: int, x1: int, y0: int, y1: int)
    requires
        x1 <= x0 || y1 <= y0,
    ensures
        c.rows(x0, x1, y0, y1) == Seq::<u32>::empty(),
    decreases y1 - y0,
{
    if y1 > y0 {
        law_rows_of_nothing(c, x0, x1, y0, y1 - 1);
    }
}

/// Of a rectangle that reaches beyond the matrix only the part inside counts, and
/// a rectangle with no pixel inside changes nothing.
pub proof fn law_rectangle_is_cut_off(
    c: CaptureView,
    best: Hottest,
    x0: int,
    y0: int,
    x1: int,
    y1: int,
)
    ensures
        x1 >= c.width ==> c.hottest(best, x0, y0, x1, y1) == c.hottest(
            best,
            x0,
            y0,
            c.width as int,
            y1,
        ),
        y1 >= c.height ==> c.hottest(best, x0, y0, x1, y1) == c.hottest(
            best,
            x0,
            y0,
            x1,
            c.height as int,
        ),
        x1 <= x0 || y1 <= y0 || c.width <= x0 || c.height <= y0 ==> c.hottest(best, x0, y0, x1, y1)
            == best,
{
    let (xm, ym) = (clipped(x1, c.width), clipped(y1, c.height));
    if xm <= x0 || ym <= y0 {
        lemma_scan_nothing(c, best, x0, xm, y0, ym);
    }
}

} // verus!

//! USB control transfers, their replies, and the errors of the protocol.
use vstd::prelude::*;

use crate::wire::{copy_bytes, fill, filled, u16_at, u16_le, u32_at, u32_le};

verus! {

/// USB vendor id of the camera.
pub const VID: u16 = 0x2bdf;

/// USB product id of the camera.
pub const PID: u16 = 0x0101;

/// Video control interface.
pub const IF_CONTROL: u8 = 0;

/// Video streaming interface.
pub const IF_STREAM: u8 = 1;

/// Bulk endpoint that carries the video.
pub const EP_VIDEO_IN: u8 = 0x81;

/// Interrupt endpoint that carries status notifications.
pub const EP_STATUS_IN: u8 = 0x83;

/// Id of the vendor extension unit.
pub const XU_UNIT_ID: u8 = 10;

/// Time limit of a transfer, in milliseconds.
pub const DEFAULT_TIMEOUT_MS: u64 = 2000;

pub const SET_CUR: u8 = 0x01;

pub const GET_CUR: u8 = 0x81;

pub const GET_MIN: u8 = 0x82;

pub const GET_MAX: u8 = 0x83;

pub const GET_RES: u8 = 0x84;

pub const GET_LEN: u8 = 0x85;

pub const GET_INFO: u8 = 0x86;

pub const GET_DEF: u8 = 0x87;

pub const VS_PROBE_CONTROL: u16 = 0x0100;

pub const VS_COMMIT_CONTROL: u16 = 0x0200;

/// Class request to an interface, host to device.
pub const REQ_CLASS_OUT: u8 = 0x21;

/// Class request to an interface, device to host.
pub const REQ_CLASS_IN: u8 = 0xa1;

/// Extension unit selector of the "current command" register.
pub const SEL_COMMAND: u8 = 5;

/// Extension unit selector of the last error code.
pub const SEL_ERROR: u8 = 6;

/// Data stage of a control transfer: bytes to send, or how many to read.
#[derive(Debug, PartialEq, Eq)]
pub enum TransferData {
    Out(Vec<u8>),
    In(usize),
}

/// One control transfer for the caller to carry out.
#[derive(Debug, PartialEq, Eq)]
pub struct ControlTransfer {
    pub request_type: u8,
    pub request: u8,
    pub value: u16,
    pub index: u16,
    pub data: TransferData,
}

/// Mathematical counterpart of [`TransferData`].
pub enum DataView {
    Out(Seq<u8>),
    In(nat),
}

/// Mathematical counterpart of [`ControlTransfer`].
pub struct TransferView {
    pub request_type: u8,
    pub request: u8,
    pub value: int,
    pub index: int,
    pub data: DataView,
}

impl View for TransferData {
    type V = DataView;

    open spec fn view(&self) -> DataView {
        match *self {
            TransferData::Out(bytes) => DataView::Out(bytes@),
            TransferData::In(len) => DataView::In(len as nat),
        }
    }
}

impl View for ControlTransfer {
    type V = TransferView;

    open spec fn view(&self) -> TransferView {
        TransferView {
            request_type: self.request_type,
            request: self.request,
            value: self.value as int,
            index: self.index as int,
            data: self.data@,
        }
    }
}

/// Why a transfer did not complete.
#[derive(Debug, Clone, Copy, PartialEq, Eq, Structural)]
pub enum TransferError {
    Io,
    InvalidParam,
    Access,
    NoDevice,
    NotFound,
    Busy,
    Timeout,
    Overflow,
    Pipe,
    Interrupted,
    NoMem,
    NotSupported,
    BadDescriptor,
    Other,
}

/// What came of a transfer. `Data` holds the bytes that were read; a completed
/// write reads none.
#[derive(Debug, PartialEq, Eq)]
pub enum Reply {
    Data(Vec<u8>),
    Failed(TransferError),
}

/// Mathematical counterpart of [`Reply`].
pub enum ReplyView {
    Data(Seq<u8>),
    Failed(TransferError),
}

impl View for Reply {
    type V = ReplyView;

    open spec fn view(&self) -> ReplyView {
        match *self {
            Reply::Data(bytes) => ReplyView::Data(bytes@),
            Reply::Failed(e) => ReplyView::Failed(e),
        }
    }
}

/// Everything that can go wrong in an exchange with the camera.
#[derive(Debug, Clone, Copy, PartialEq, Eq)]
pub enum CameraError {
    /// Bulk read of the video endpoint failed.
    BulkRead(TransferError),
    /// A stream negotiation transfer failed.
    Negotiation(TransferError),
    /// Writing the command register failed; mostly the stream is not running.
    Select(TransferError),
    /// Reading the data length of a group failed.
    Length { group: u8, error: TransferError },
    /// The announced data length is zero or absurd.
    ImplausibleLength { announced: u32, group: u8, sub: u8 },
    /// Reading the data of a group failed.
    Data { group: u8, error: TransferError },
    /// Sending the request of a two-phase read failed.
    Request(TransferError),
    /// Reading the head length of a two-phase read failed.
    HeadLength(TransferError),
    /// Reading the head of a two-phase read failed.
    Head(TransferError),
    /// The head has fewer than five bytes; `bytes` holds them as a
    /// little-endian integer.
    HeadTooShort { head_len: u32, bytes: u32 },
    /// The head announces an empty or an absurdly long payload.
    ImplausibleTotal(u32),
    /// Reading a chunk failed.
    Chunk(TransferError),
    /// The camera stopped sending before the payload was complete.
    Truncated { got: usize, total: usize },
    /// A region search takes one to ten regions.
    RegionCount,
    /// The region search result lacks its fixed part.
    RoiTooShort { len: usize },
    /// The region search result ends before the block of this region.
    RoiTruncated { region: usize },
    /// The compensation settings lack the enable byte; holds the first byte.
    ConfigTooShort(Option<u8>),
    /// Writing settings failed.
    ConfigWrite(TransferError),
    /// The capture lacks its fixed part.
    CaptureTooShort { len: usize },
    /// The temperature data does not have four bytes per pixel.
    CaptureTempSize { temp_bytes: u32, width: u32, height: u32 },
    /// The capture ends before its temperature data does.
    CaptureTruncated { len: usize, need: u64 },
}

/// Counterpart of an optional transfer.
pub open spec fn transfer_view(t: Option<ControlTransfer>) -> Option<TransferView> {
    match t {
        Some(t) => Some(t@),
        None => None,
    }
}

/// A class request for the extension unit: the selector stands in the high byte
/// of the value, the unit id in the high byte of the index.
pub open spec fn xu_transfer(
    request_type: u8,
    request: u8,
    selector: u8,
    data: DataView,
) -> TransferView {
    TransferView {
        request_type,
        request,
        value: selector * 256,
        index: XU_UNIT_ID * 256 + IF_CONTROL,
        data,
    }
}

/// Read of `len` bytes from an extension unit selector.
pub open spec fn xu_read_view(request: u8, selector: u8, len: nat) -> TransferView {
    xu_transfer(REQ_CLASS_IN, request, selector, DataView::In(len))
}

/// Read of the current value of a selector.
pub open spec fn xu_get_view(selector: u8, len: nat) -> TransferView {
    xu_read_view(GET_CUR, selector, len)
}

/// Write of the current value of a selector.
pub open spec fn xu_set_view(selector: u8, data: Seq<u8>) -> TransferView {
    xu_transfer(REQ_CLASS_OUT, SET_CUR, selector, DataView::Out(data))
}

/// Read of the 32-bit data length of a selector.
pub open spec fn xu_get_len_view(selector: u8) -> TransferView {
    xu_read_view(GET_LEN, selector, 4)
}

/// Write of `(group, sub)` to the command register.
pub open spec fn select_view(group: u8, sub: u8) -> TransferView {
    xu_set_view(SEL_COMMAND, seq![group, sub])
}

/// A transfer on the video streaming interface.
pub open spec fn stream_view(
    request_type: u8,
    request: u8,
    control: u16,
    data: DataView,
) -> TransferView {
    TransferView { request_type, request, value: control as int, index: IF_STREAM as int, data }
}

/// The camera. Each method starts the exchange of that name, or gives the
/// transfer of that name; the caller carries the transfers out.
pub struct Device;

/// Every extension unit transfer goes to unit 10 on interface 0.
pub proof fn law_xu_index(request_type: u8, request: u8, selector: u8, data: DataView)
    ensures
        xu_transfer(request_type, request, selector, data).index == 0x0a00,
{
}

impl Device {
    /// Read of `len` bytes from an extension unit selector with any of the
    /// GET requests.
    pub fn xu_read(request: u8, selector: u8, len: usize) -> (t: ControlTransfer)
        ensures
            t@ == xu_read_view(request, selector, len as nat),
    {
        ControlTransfer {
            request_type: REQ_CLASS_IN,
            request,
            value: (selector as u16) * 256,
            index: (XU_UNIT_ID as u16) * 256 + IF_CONTROL as u16,
            data: TransferData::In(len),
        }
    }

    /// Read of `len` bytes of the current value of an extension unit selector.
    pub fn xu_get(selector: u8, len: usize) -> (t: ControlTransfer)
        ensures
            t@ == xu_get_view(selector, len as nat),
    {
        Device::xu_read(GET_CUR, selector, len)
    }

    /// Write of the current value of an extension unit selector.
    pub fn xu_set(selector: u8, data: &[u8]) -> (t: ControlTransfer)
        ensures
            t@ == xu_set_view(selector, data@),
    {
        ControlTransfer {
            request_type: REQ_CLASS_OUT,
            request: SET_CUR,
            value: (selector as u16) * 256,
            index: (XU_UNIT_ID as u16) * 256 + IF_CONTROL as u16,
            data: TransferData::Out(copy_bytes(data)),
        }
    }

    /// Read of the 32-bit data length of an extension unit selector.
    pub fn xu_get_len(selector: u8) -> (t: ControlTransfer)
        ensures
            t@ == xu_get_len_view(selector),
    {
        Device::xu_read(GET_LEN, selector, 4)
    }

    /// Read of the error code of the last command.
    pub fn xu_last_error() -> (t: ControlTransfer)
        ensures
            t@ == xu_get_view(SEL_ERROR, 1),
    {
        Device::xu_get(SEL_ERROR, 1)
    }

    /// Points the data channel of `group` at command `sub`. The video stream
    /// must be running, or the write times out.
    pub fn select_command(group: u8, sub: u8) -> (t: ControlTransfer)
        ensures
            t@ == select_view(group, sub),
    {
        let mut data: Vec<u8> = Vec::new();
        data.push(group);
        data.push(sub);
        assert(data@ =~= seq![group, sub]);
        Device::xu_set(SEL_COMMAND, data.as_slice())
    }
}

impl Reply {
    /// The byte that was read; zero where none came.
    pub fn byte(&self) -> (r: Result<u8, TransferError>)
        ensures
            r == (match self@ {
                ReplyView::Data(d) => Ok(filled(1, d)[0]),
                ReplyView::Failed(e) => Err(e),
            }),
    {
        match self {
            Reply::Data(d) => {
                let buf: Vec<u8> = fill(1, d.as_slice());
                Ok(buf[0])
            },
            Reply::Failed(e) => Err(*e),
        }
    }

    /// The 16-bit integer that was read; missing bytes are zero.
    pub fn u16_value(&self) -> (r: Result<u16, TransferError>)
        ensures
            match self@ {
                ReplyView::Data(d) => r matches Ok(v) && v == u16_le(filled(2, d), 0),
                ReplyView::Failed(e) => r == Err::<u16, TransferError>(e),
            },
    {
        match self {
            Reply::Data(d) => {
                let buf: Vec<u8> = fill(2, d.as_slice());
                Ok(u16_at(buf.as_slice(), 0))
            },
            Reply::Failed(e) => Err(*e),
        }
    }

    /// The 32-bit integer that was read; missing bytes are zero.
    pub fn u32_value(&self) -> (r: Result<u32, TransferError>)
        ensures
            match self@ {
                ReplyView::Data(d) => r matches Ok(v) && v == u32_le(filled(4, d), 0),
                ReplyView::Failed(e) => r == Err::<u32, TransferError>(e),
            },
    {
        match self {
            Reply::Data(d) => {
                let buf: Vec<u8> = fill(4, d.as_slice());
                Ok(u32_at(buf.as_slice(), 0))
            },
            Reply::Failed(e) => Err(*e),
        }
    }

    /// The error code of the last command, from the reply to
    /// [`Device::xu_last_error`]; none where it could not be read.
    pub fn error_code(&self) -> (r: Option<u8>)
        ensures
            r == (match self@ {
                ReplyView::Data(d) => Some(filled(1, d)[0]),
                ReplyView::Failed(_) => None,
            }),
    {
        match self.byte() {
            Ok(code) => Some(code),
            Err(_) => None,
        }
    }
}

/// The transfers of the extension unit: reads are class requests a1 to unit 10
/// with the selector in the high byte of the value, and ask for the current
/// value by 81 and for the data length by 85; writes are class requests 21 with
/// request 01; the command register is selector 5 and the last error selector 6.
pub proof fn law_xu_transfers(selector: u8, len: nat, data: Seq<u8>, group: u8, sub: u8)
    ensures
        xu_get_view(selector, len) == (TransferView {
            request_type: 0xa1,
            request: 0x81,
            value: selector * 0x100,
            index: 0x0a00,
            data: DataView::In(len),
        }),
        xu_get_len_view(selector) == (TransferView {
            request_type: 0xa1,
            request: 0x85,
            value: selector * 0x100,
            index: 0x0a00,
            data: DataView::In(4),
        }),
        xu_set_view(selector, data) == (TransferView {
            request_type: 0x21,
            request: 0x01,
            value: selector * 0x100,
            index: 0x0a00,
            data: DataView::Out(data),
        }),
        select_view(group, sub) == (TransferView {
            request_type: 0x21,
            request: 0x01,
            value: 0x0500,
            index: 0x0a00,
            data: DataView::Out(seq![group, sub]),
        }),
        xu_get_view(SEL_ERROR, 1).value == 0x0600,
{
}

/// Any request can be read from any selector of the extension unit, and stream
/// transfers go to interface 1 with the control as their value.
pub proof fn law_reads_and_stream_transfers(
    request_type: u8,
    request: u8,
    selector: u8,
    len: nat,
    control: u16,
    data: DataView,
)
    ensures
        xu_read_view(request, selector, len) == (TransferView {
            request_type: 0xa1,
            request,
            value: selector * 0x100,
            index: 0x0a00,
            data: DataView::In(len),
        }),
        stream_view(request_type, request, control, data) == (TransferView {
            request_type,
            request,
            value: control as int,
            index: 1,
            data,
        }),
{
}

/// The counterpart of a transfer holds all of it.
pub proof fn law_transfer_counterpart(t: ControlTransfer)
    ensures
        transfer_view(Some(t)) == Some(t@),
        transfer_view(None) is None,
        t@.request_type == t.request_type,
        t@.request == t.request,
        t@.value == t.value,
        t@.index == t.index,
        match t.data {
            TransferData::Out(bytes) => t@.data == DataView::Out(bytes@),
            TransferData::In(len) => t@.data == DataView::In(len as nat),
        },
{
}

/// The counterpart of a reply holds all of it.
pub proof fn law_reply_counterpart(r: Reply)
    ensures
        match r {
            Reply::Data(bytes) => r@ == ReplyView::Data(bytes@),
            Reply::Failed(e) => r@ == ReplyView::Failed(e),
        },
{
}

/// The camera on the bus: its ids, the endpoints of video and status, and the
/// time that a transfer may take.
pub proof fn law_camera_on_the_bus()
    ensures
        VID == 0x2bdf,
        PID == 0x0101,
        IF_CONTROL == 0,
        IF_STREAM == 1,
        EP_VIDEO_IN == 0x81,
        EP_STATUS_IN == 0x83,
        DEFAULT_TIMEOUT_MS == 2000,
{
}

} // verus!

use thermal_camera::transfer::{
    CameraError, ControlTransfer, Device, Reply, TransferData, TransferError, DEFAULT_TIMEOUT_MS,
    EP_STATUS_IN, EP_VIDEO_IN, GET_INFO, GET_LEN, IF_CONTROL, IF_STREAM, PID, VID, XU_UNIT_ID,
};
use thermal_camera::transaction::{has_header, push_chunk, DoubleGet, SimpleGet};
use thermal_camera::wire::{
    copy_bytes, copy_range, fill, push_range, push_u16, push_u32, push_zeros, receive, u16_at,
    u32_at,
};

fn data(bytes: &[u8]) -> Reply {
    Reply::Data(bytes.to_vec())
}

fn read_of(selector: u8, len: usize) -> Option<ControlTransfer> {
    Some(ControlTransfer {
        request_type: 0xa1,
        request: 0x81,
        value: (selector as u16) << 8,
        index: 0x0a00,
        data: TransferData::In(len),
    })
}

fn length_of(selector: u8) -> Option<ControlTransfer> {
    Some(ControlTransfer {
        request_type: 0xa1,
        request: 0x85,
        value: (selector as u16) << 8,
        index: 0x0a00,
        data: TransferData::In(4),
    })
}

fn write_of(selector: u8, bytes: &[u8]) -> Option<ControlTransfer> {
    Some(ControlTransfer {
        request_type: 0x21,
        request: 0x01,
        value: (selector as u16) << 8,
        index: 0x0a00,
        data: TransferData::Out(bytes.to_vec()),
    })
}

fn framed(number: u32, payload: &[u8]) -> Vec<u8> {
    let mut chunk = vec![2u8];
    chunk.extend_from_slice(&number.to_le_bytes());
    chunk.extend_from_slice(payload);
    chunk
}

#[test]
fn integers_are_little_endian() {
    assert_eq!(u32_at(&[9, 0x78, 0x56, 0x34, 0x12, 7], 1), 0x12345678);
    assert_eq!(u16_at(&[0, 0xfe, 0xca], 1), 0xcafe);
    let mut out = Vec::new();
    push_u16(&mut out, 2026);
    push_u32(&mut out, 333_333);
    push_zeros(&mut out, 2);
    assert_eq!(out, vec![0xea, 0x07, 0x15, 0x16, 0x05, 0x00, 0, 0]);
    assert_eq!(u32_at(&out, 2), 333_333);
    assert_eq!(u16_at(&out, 0), 2026);
}

#[test]
fn integers_written_are_read_back() {
    for v in [0u32, 1, 255, 256, 0xdeadbeef, u32::MAX] {
        let mut out = Vec::new();
        push_u32(&mut out, v);
        assert_eq!(out, v.to_le_bytes().to_vec());
        assert_eq!(u32_at(&out, 0), v);
    }
}

#[test]
fn buffers_are_filled_and_cut() {
    assert_eq!(fill(4, &[1, 2]), vec![1, 2, 0, 0]);
    assert_eq!(fill(2, &[1, 2, 3]), vec![1, 2]);
    assert_eq!(receive(4, &[1, 2]), vec![1, 2]);
    assert_eq!(receive(2, &[1, 2, 3]), vec![1, 2]);
    assert_eq!(copy_bytes(&[5, 6]), vec![5, 6]);
    assert_eq!(copy_range(&[5, 6, 7], 1, 3), vec![6, 7]);
    let mut out = vec![1];
    push_range(&mut out, &[5, 6, 7], 0, 2);
    assert_eq!(out, vec![1, 5, 6]);
}

#[test]
fn device_constants() {
    assert_eq!((VID, PID), (0x2bdf, 0x0101));
    assert_eq!((IF_CONTROL, IF_STREAM), (0, 1));
    assert_eq!((EP_VIDEO_IN, EP_STATUS_IN), (0x81, 0x83));
    assert_eq!(XU_UNIT_ID, 10);
    assert_eq!(DEFAULT_TIMEOUT_MS, 2000);
}

#[test]
fn extension_unit_transfers() {
    assert_eq!(Some(Device::xu_get(3, 5)), read_of(3, 5));
    assert_eq!(Some(Device::xu_set(3, &[1, 2])), write_of(3, &[1, 2]));
    assert_eq!(Some(Device::xu_get_len(4)), length_of(4));
    assert_eq!(Some(Device::xu_last_error()), read_of(6, 1));
    assert_eq!(Some(Device::select_command(3, 10)), write_of(5, &[3, 10]));
    let t = Device::xu_read(GET_INFO, 15, 1);
    assert_eq!((t.request_type, t.request, t.value, t.index), (0xa1, 0x86, 0x0f00, 0x0a00));
    assert_eq!(Device::xu_read(GET_LEN, 15, 2).data, TransferData::In(2));
}

#[test]
fn replies_as_integers() {
    assert_eq!(data(&[7]).byte(), Ok(7));
    assert_eq!(data(&[]).byte(), Ok(0));
    assert_eq!(data(&[1, 2]).u16_value(), Ok(0x0201));
    assert_eq!(data(&[1]).u16_value(), Ok(1));
    assert_eq!(data(&[1, 2, 3, 4]).u32_value(), Ok(0x04030201));
    assert_eq!(data(&[5, 1]).u32_value(), Ok(0x0105));
    let failed = Reply::Failed(TransferError::Pipe);
    assert_eq!(failed.byte(), Err(TransferError::Pipe));
    assert_eq!(failed.u16_value(), Err(TransferError::Pipe));
    assert_eq!(failed.u32_value(), Err(TransferError::Pipe));
    assert_eq!(data(&[7]).error_code(), Some(7));
    assert_eq!(failed.error_code(), None);
}

fn simple(replies: &[Reply]) -> SimpleGet {
    let mut get = Device::simple_get(3, 8);
    for r in replies {
        get.reply(r);
    }
    get
}

#[test]
fn plain_read_delivers_the_data() {
    let mut get = Device::simple_get(3, 8);
    assert_eq!(get.pending(), write_of(5, &[3, 8]));
    get.reply(&data(&[]));
    assert_eq!(get.pending(), length_of(3));
    get.reply(&data(&[4, 0, 0, 0]));
    assert_eq!(get.pending(), read_of(3, 4));
    assert!(!get.ended());
    get.reply(&data(&[9, 8, 7, 6]));
    assert!(get.ended());
    assert_eq!(get.pending(), None);
    assert_eq!(get.outcome(), Ok(vec![9, 8, 7, 6]));
}

#[test]
fn plain_read_keeps_a_short_answer() {
    let get = simple(&[data(&[]), data(&[4, 0, 0, 0]), data(&[9])]);
    assert_eq!(get.outcome(), Ok(vec![9]));
}

#[test]
fn plain_read_errors() {
    let e = TransferError::Timeout;
    let failed = || Reply::Failed(TransferError::Timeout);
    assert_eq!(simple(&[failed()]).outcome(), Err(CameraError::Select(e)));
    assert_eq!(
        simple(&[data(&[]), failed()]).outcome(),
        Err(CameraError::Length { group: 3, error: e })
    );
    assert_eq!(
        simple(&[data(&[]), data(&[0, 0, 0, 0])]).outcome(),
        Err(CameraError::ImplausibleLength { announced: 0, group: 3, sub: 8 })
    );
    assert_eq!(
        simple(&[data(&[]), data(&[1, 0, 1, 0])]).outcome(),
        Err(CameraError::ImplausibleLength { announced: 0x10001, group: 3, sub: 8 })
    );
    assert_eq!(
        simple(&[data(&[]), data(&[4]), failed()]).outcome(),
        Err(CameraError::Data { group: 3, error: e })
    );
}

#[test]
fn plain_read_accepts_the_longest_length() {
    let get = simple(&[data(&[]), data(&[0, 0, 1, 0])]);
    assert_eq!(get.pending(), read_of(3, 0x10000));
}

#[test]
fn ended_reads_stay_as_they_are() {
    let mut get = simple(&[Reply::Failed(TransferError::Io)]);
    get.reply(&data(&[1]));
    assert_eq!(get.outcome(), Err(CameraError::Select(TransferError::Io)));
    let mut double = double(&[Reply::Failed(TransferError::Io)]);
    double.reply(&data(&[1]));
    assert_eq!(double.outcome(), Err(CameraError::Select(TransferError::Io)));
}

fn double(replies: &[Reply]) -> DoubleGet {
    let mut get = Device::double_get(3, 9, &[1, 2, 3]);
    for r in replies {
        get.reply(r);
    }
    get
}

#[test]
fn two_phase_read_puts_chunks_together() {
    let mut get = Device::double_get(3, 9, &[1, 2, 3]);
    assert_eq!(get.pending(), write_of(5, &[3, 9]));
    get.reply(&data(&[]));
    assert_eq!(get.pending(), write_of(3, &[1, 2, 3]));
    get.reply(&data(&[]));
    assert_eq!(get.pending(), length_of(3));
    get.reply(&data(&[5, 0, 0, 0]));
    assert_eq!(get.pending(), read_of(3, 5));
    get.reply(&data(&[1, 7, 0, 0, 0]));
    assert_eq!(get.pending(), read_of(3, 512));
    get.reply(&Reply::Data(framed(1, &[10, 11, 12])));
    assert_eq!(get.pending(), read_of(3, 512));
    get.reply(&Reply::Data(framed(2, &[13, 14, 15, 16])));
    assert_eq!(get.pending(), None);
    assert_eq!(get.outcome(), Ok(vec![10, 11, 12, 13, 14, 15, 16]));
}

#[test]
fn two_phase_read_over_many_chunks() {
    let payload: Vec<u8> = (0..2000u32).map(|i| (i % 251) as u8).collect();
    let mut replies = vec![data(&[]), data(&[]), data(&[5, 0, 0, 0])];
    let mut head = vec![1u8];
    head.extend_from_slice(&2000u32.to_le_bytes());
    replies.push(Reply::Data(head));
    for (i, piece) in payload.chunks(507).enumerate() {
        replies.push(Reply::Data(framed(i as u32 + 1, piece)));
    }
    assert_eq!(double(&replies).outcome(), Ok(payload));
}

#[test]
fn two_phase_read_cuts_what_is_past_the_total() {
    let get = double(&[
        data(&[]),
        data(&[]),
        data(&[5]),
        data(&[1, 2, 0, 0, 0]),
        Reply::Data(framed(1, &[10, 11, 12])),
    ]);
    assert_eq!(get.outcome(), Ok(vec![10, 11]));
}

#[test]
fn chunk_without_header_is_taken_whole() {
    let start = || vec![data(&[]), data(&[]), data(&[5]), data(&[1, 5, 0, 0, 0])];
    let mut replies = start();
    replies.push(data(&[1, 2, 3, 4, 5, 6]));
    assert_eq!(double(&replies).outcome(), Ok(vec![1, 2, 3, 4, 5]));
    let mut replies = start();
    replies.push(data(&[2, 9, 9, 9]));
    replies.push(data(&[3]));
    assert_eq!(double(&replies).outcome(), Ok(vec![2, 9, 9, 9, 3]));
}

#[test]
fn bare_chunk_header_adds_nothing() {
    let mut get = Device::double_get(3, 9, &[1]);
    for r in [data(&[]), data(&[]), data(&[5, 0, 0, 0]), data(&[1, 2, 0, 0, 0])] {
        get.reply(&r);
    }
    get.reply(&data(&[2, 1, 0, 0, 0]));
    assert_eq!(get.pending(), read_of(3, 512));
    get.reply(&data(&[2, 2, 0, 0, 0, 0xaa, 0xbb]));
    assert_eq!(get.pending(), None);
    assert_eq!(get.outcome(), Ok(vec![0xaa, 0xbb]));
}

#[test]
fn chunk_parts() {
    assert!(has_header(&[2, 0, 0, 0, 0]));
    assert!(!has_header(&[2, 0, 0, 0]));
    assert!(!has_header(&[1, 0, 0, 0, 0, 0]));
    let mut out = vec![7];
    push_chunk(&mut out, &framed(3, &[8, 9]));
    push_chunk(&mut out, &framed(4, &[]));
    push_chunk(&mut out, &[1, 2]);
    assert_eq!(out, vec![7, 8, 9, 1, 2]);
}

#[test]
fn two_phase_read_errors() {
    let e = TransferError::Pipe;
    let failed = || Reply::Failed(TransferError::Pipe);
    assert_eq!(double(&[failed()]).outcome(), Err(CameraError::Select(e)));
    assert_eq!(double(&[data(&[]), failed()]).outcome(), Err(CameraError::Request(e)));
    assert_eq!(
        double(&[data(&[]), data(&[]), failed()]).outcome(),
        Err(CameraError::HeadLength(e))
    );
    assert_eq!(
        double(&[data(&[]), data(&[]), data(&[5]), failed()]).outcome(),
        Err(CameraError::Head(e))
    );
    assert_eq!(
        double(&[data(&[]), data(&[]), data(&[4]), data(&[1, 2, 3, 4])]).outcome(),
        Err(CameraError::HeadTooShort { head_len: 4, bytes: 0x04030201 })
    );
    assert_eq!(
        double(&[data(&[]), data(&[]), data(&[5]), data(&[1, 0, 0, 0, 0])]).outcome(),
        Err(CameraError::ImplausibleTotal(0))
    );
    assert_eq!(
        double(&[data(&[]), data(&[]), data(&[5]), data(&[1, 1, 0, 0x80, 0])]).outcome(),
        Err(CameraError::ImplausibleTotal(0x800001))
    );
    assert_eq!(
        double(&[data(&[]), data(&[]), data(&[5]), data(&[1, 9, 0, 0, 0]), failed()]).outcome(),
        Err(CameraError::Chunk(e))
    );
    assert_eq!(
        double(&[
            data(&[]),
            data(&[]),
            data(&[5]),
            data(&[1, 9, 0, 0, 0]),
            Reply::Data(framed(1, &[1, 2])),
            data(&[]),
        ])
        .outcome(),
        Err(CameraError::Truncated { got: 2, total: 9 })
    );
}

#[test]
fn integers_read_are_written_back() {
    let bytes = [0x01u8, 0x80, 0xff, 0x7f];
    let mut out = Vec::new();
    push_u32(&mut out, u32_at(&bytes, 0));
    assert_eq!(out, bytes.to_vec());
}

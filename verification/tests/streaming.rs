use thermal_camera::args::DumpMode;
use thermal_camera::compensation::{
    is_compensating, switch_config, BeforeRecording, CompensationOff, CompensationSwitch,
};
use thermal_camera::session::{
    has_time, sleeps_on, wait_for_frame, BurstFilter, DumpWrite, FailureCount, FrameSaver,
    StreamDump, Wait, DRAIN_SECONDS,
};
use thermal_camera::stream::{
    read_negotiated, ClaimStep, FrameStep, Negotiated, ReleaseStep, StreamStart, BULK_READ_LEN,
};
use thermal_camera::transfer::{CameraError, Device, Reply, TransferData, TransferError};

fn data(bytes: &[u8]) -> Reply {
    Reply::Data(bytes.to_vec())
}

fn bulk(payload: &[u8]) -> Reply {
    let mut raw = vec![4u8, 0x80, 1, 2];
    raw.extend_from_slice(payload);
    Reply::Data(raw)
}

#[test]
fn interfaces_are_claimed_and_released() {
    let order = Device::open();
    assert_eq!(order, vec![0, 1]);
    assert_eq!(
        Device::release_steps(&order),
        vec![
            ReleaseStep::Release(1),
            ReleaseStep::AttachDriver(1),
            ReleaseStep::Release(0),
            ReleaseStep::AttachDriver(0),
        ]
    );
    assert_eq!(
        Device::release_steps(&[0]),
        vec![ReleaseStep::Release(0), ReleaseStep::AttachDriver(0)]
    );
    assert!(Device::release_steps(&[]).is_empty());
    assert_eq!(
        Device::claim_steps(1, true),
        vec![ClaimStep::DetachDriver(1), ClaimStep::Claim(1)]
    );
    assert_eq!(Device::claim_steps(0, false), vec![ClaimStep::Claim(0)]);
}

#[test]
fn negotiation_commits_the_answer() {
    let mut s = Device::start_stream();
    let ask = s.pending().unwrap();
    assert_eq!((ask.request_type, ask.request, ask.value, ask.index), (0x21, 0x01, 0x0100, 1));
    let mut probe = vec![0u8; 26];
    probe[2] = 2;
    probe[3] = 2;
    probe[4..8].copy_from_slice(&333_333u32.to_le_bytes());
    assert_eq!(ask.data, TransferData::Out(probe));
    s.reply(&data(&[]));
    let read = s.pending().unwrap();
    assert_eq!((read.request_type, read.request, read.value, read.index), (0xa1, 0x81, 0x0100, 1));
    assert_eq!(read.data, TransferData::In(26));
    let mut answer: Vec<u8> = (0..26).collect();
    answer[4..8].copy_from_slice(&400_000u32.to_le_bytes());
    s.reply(&data(&answer));
    let commit = s.pending().unwrap();
    assert_eq!(
        (commit.request_type, commit.request, commit.value, commit.index),
        (0x21, 0x01, 0x0200, 1)
    );
    assert_eq!(commit.data, TransferData::Out(answer));
    let (got, said) = s.answer();
    assert_eq!(got, 26);
    assert_eq!(
        said,
        Negotiated {
            format: 2,
            frame: 3,
            interval: 400_000,
            fps: 25,
            max_frame_size: 0x15141312,
            max_payload: 0x19181716,
        }
    );
    s.reply(&data(&[]));
    assert_eq!(s.pending(), None);
    assert_eq!(s.outcome(), Ok(()));
}

#[test]
fn short_answer_is_completed_with_zeros() {
    let mut s = StreamStart::new(1, 1, 200_000);
    s.reply(&data(&[]));
    s.reply(&data(&[0, 0, 1]));
    let (got, said) = s.answer();
    assert_eq!(got, 3);
    assert_eq!((said.format, said.frame, said.interval, said.fps), (1, 0, 0, 10_000_000));
    let mut want = vec![0u8; 26];
    want[2] = 1;
    assert_eq!(s.pending().unwrap().data, TransferData::Out(want));
}

#[test]
fn negotiation_errors() {
    for k in 0..3 {
        let mut s = Device::start_stream();
        for _ in 0..k {
            s.reply(&data(&[0; 26]));
        }
        s.reply(&Reply::Failed(TransferError::Busy));
        assert_eq!(s.pending(), None);
        assert_eq!(s.outcome(), Err(CameraError::Negotiation(TransferError::Busy)));
    }
}

#[test]
fn negotiation_block_fields() {
    let mut block = vec![0u8; 26];
    block[2] = 7;
    block[3] = 8;
    block[4..8].copy_from_slice(&333_333u32.to_le_bytes());
    let n = read_negotiated(&block);
    assert_eq!((n.format, n.frame, n.interval, n.fps), (7, 8, 333_333, 30));
}

#[test]
fn payload_is_behind_its_header() {
    assert_eq!(BULK_READ_LEN, 65536);
    assert_eq!(Device::read_payload(&data(&[2, 0, 9, 8])), Ok(vec![9, 8]));
    assert_eq!(Device::read_payload(&data(&[2, 0])), Ok(vec![]));
    assert_eq!(Device::read_payload(&data(&[3, 0])), Ok(vec![]));
    assert_eq!(Device::read_payload(&data(&[0])), Ok(vec![]));
    assert_eq!(Device::read_payload(&data(&[0, 5])), Ok(vec![0, 5]));
    assert_eq!(Device::read_payload(&Reply::Failed(TransferError::Timeout)), Ok(vec![]));
    assert_eq!(
        Device::read_payload(&Reply::Failed(TransferError::NoDevice)),
        Err(CameraError::BulkRead(TransferError::NoDevice))
    );
}

#[test]
fn frames_are_put_together() {
    let mut f = Device::frames();
    assert_eq!(f.next(&bulk(&[1, 2, 3])), FrameStep::More);
    assert!(f.partial().is_empty());
    assert_eq!(f.next(&bulk(&[0xff, 0xd8, 1])), FrameStep::More);
    assert_eq!(f.next(&Reply::Failed(TransferError::Timeout)), FrameStep::More);
    assert_eq!(f.next(&bulk(&[])), FrameStep::More);
    assert_eq!(f.partial(), vec![0xff, 0xd8, 1]);
    assert_eq!(
        f.next(&Reply::Failed(TransferError::Overflow)),
        FrameStep::Failed(CameraError::BulkRead(TransferError::Overflow))
    );
    assert_eq!(
        f.next(&bulk(&[2, 0xff, 0xd9])),
        FrameStep::Frame(vec![0xff, 0xd8, 1, 2, 0xff, 0xd9])
    );
    assert_eq!(f.next(&bulk(&[3, 0xff, 0xd9])), FrameStep::More);
}

#[test]
fn end_marker_across_payloads() {
    let mut f = Device::frames();
    assert_eq!(f.next(&bulk(&[0xff, 0xd8, 0xff])), FrameStep::More);
    assert_eq!(f.next(&bulk(&[0xd9])), FrameStep::Frame(vec![0xff, 0xd8, 0xff, 0xd9]));
}

#[test]
fn frame_ends_with_its_end_marker() {
    let mut f = Device::frames();
    assert_eq!(
        f.next(&data(&[2, 0, 0xff, 0xd8, 1, 0xff, 0xd9, 0, 0])),
        FrameStep::Frame(vec![0xff, 0xd8, 1, 0xff, 0xd9])
    );
    assert!(f.partial().is_empty());
    assert_eq!(
        f.next(&bulk(&[0xff, 0xd8, 2, 0xff, 0xd9, 3, 0xff, 0xd9])),
        FrameStep::Frame(vec![0xff, 0xd8, 2, 0xff, 0xd9])
    );
}

#[test]
fn start_marker_begins_anew() {
    let mut f = Device::frames();
    assert_eq!(f.next(&bulk(&[0xff, 0xd8, 1, 1])), FrameStep::More);
    assert_eq!(
        f.next(&bulk(&[0xff, 0xd8, 2, 0xff, 0xd9])),
        FrameStep::Frame(vec![0xff, 0xd8, 2, 0xff, 0xd9])
    );
}

#[test]
fn pictures_come_out_in_order() {
    let mut f = Device::frames();
    let mut out = Vec::new();
    for i in 0..5u8 {
        for part in [vec![0xff, 0xd8, i], vec![i, i], vec![0xff, 0xd9]] {
            if let FrameStep::Frame(jpeg) = f.next(&bulk(&part)) {
                out.push(jpeg);
            }
        }
    }
    let want: Vec<Vec<u8>> = (0..5u8).map(|i| vec![0xff, 0xd8, i, i, i, 0xff, 0xd9]).collect();
    assert_eq!(out, want);
}

fn switch(enabled: bool, replies: &[Reply]) -> CompensationSwitch {
    let mut s = Device::set_body_temp_compensation(enabled);
    for r in replies {
        s.reply(r);
    }
    s
}

#[test]
fn compensation_settings() {
    assert_eq!(switch_config(&[0, 1, 2, 3], false), vec![1, 0, 2, 3]);
    assert_eq!(switch_config(&[9, 0], true), vec![1, 1]);
    assert!(is_compensating(&[0, 1, 2]));
    assert!(!is_compensating(&[0, 0, 2]));
    assert!(!is_compensating(&[1]));
    assert!(!is_compensating(&[0, 2]));
}

#[test]
fn compensation_is_switched() {
    let mut s = Device::set_body_temp_compensation(false);
    let mut sent = Vec::new();
    for r in [data(&[]), data(&[4]), data(&[0, 1, 5, 6]), data(&[]), data(&[])] {
        sent.push(s.pending().unwrap());
        s.reply(&r);
    }
    assert_eq!(
        sent,
        vec![
            Device::select_command(3, 8),
            Device::xu_get_len(3),
            Device::xu_get(3, 4),
            Device::select_command(3, 8),
            Device::xu_set(3, &[1, 0, 5, 6]),
        ]
    );
    assert_eq!(s.pending(), None);
    assert_eq!(s.outcome(), Ok(()));
}

#[test]
fn compensation_is_restored() {
    let mut s = Device::restore_body_temp_compensation(&[7, 1, 5]);
    assert_eq!(s.pending(), Some(Device::select_command(3, 8)));
    s.reply(&data(&[]));
    assert_eq!(s.pending(), Some(Device::xu_set(3, &[7, 1, 5])));
    s.reply(&data(&[]));
    assert_eq!(s.pending(), None);
    assert_eq!(s.outcome(), Ok(()));
}

#[test]
fn compensation_is_read() {
    let mut get = Device::body_temp_compensation();
    for r in [data(&[]), data(&[3]), data(&[0, 1, 9])] {
        get.reply(&r);
    }
    assert_eq!(get.outcome(), Ok(vec![0, 1, 9]));
}

#[test]
fn compensation_errors() {
    let e = TransferError::Access;
    let failed = || Reply::Failed(TransferError::Access);
    let read = || vec![data(&[]), data(&[2]), data(&[0, 1])];
    assert_eq!(switch(true, &[failed()]).outcome(), Err(CameraError::Select(e)));
    assert_eq!(
        switch(true, &[data(&[]), data(&[2]), data(&[5])]).outcome(),
        Err(CameraError::ConfigTooShort(Some(5)))
    );
    assert_eq!(
        switch(true, &[data(&[]), data(&[2]), data(&[])]).outcome(),
        Err(CameraError::ConfigTooShort(None))
    );
    let mut replies = read();
    replies.push(failed());
    assert_eq!(switch(true, &replies).outcome(), Err(CameraError::Select(e)));
    let mut replies = read();
    replies.push(data(&[]));
    replies.push(failed());
    assert_eq!(switch(true, &replies).outcome(), Err(CameraError::ConfigWrite(e)));
}

#[test]
fn saved_frames_are_counted() {
    let mut s = FrameSaver::new(2);
    assert!(s.wants());
    s.count();
    assert!(s.wants());
    s.count();
    assert!(!s.wants());
    assert_eq!(s.saved, 2);
    assert!(!FrameSaver::new(0).wants());
}

#[test]
fn stale_frames_are_left_out() {
    let mut f = BurstFilter::new();
    let fresh: Vec<bool> = (0..12).map(|_| f.is_fresh()).collect();
    assert_eq!(fresh.iter().filter(|&&b| !b).count(), 9);
    assert_eq!(&fresh[8..], &[false, true, true, true]);
}

#[test]
fn recording_gives_up_after_six_failures() {
    let mut c = FailureCount::new();
    for _ in 0..5 {
        assert!(!c.failed());
    }
    assert!(c.failed());
    c.succeeded();
    assert_eq!(c.failures, 0);
    assert!(!c.failed());
}

#[test]
fn frame_dump_stops_after_three() {
    let mut d = StreamDump::new(DumpMode::Jpeg);
    assert_eq!(d.take(&bulk(&[1, 2])), DumpWrite::Nothing);
    for n in 0..3 {
        assert!(d.goes_on(14_999_999_999));
        assert!(!d.goes_on(15_000_000_000));
        assert_eq!(
            d.take(&bulk(&[0xff, 0xd8, n as u8, 0xff, 0xd9, 0])),
            DumpWrite::Frame(n, vec![0xff, 0xd8, n as u8, 0xff, 0xd9])
        );
    }
    assert!(!d.goes_on(0));
    assert_eq!(d.outcome(), Ok(0));
}

#[test]
fn frame_dump_without_a_frame() {
    let mut d = StreamDump::new(DumpMode::Jpeg);
    assert_eq!(d.outcome(), Err(vec![]));
    let mut head = vec![0xff, 0xd8];
    head.extend_from_slice(&[7; 20]);
    assert_eq!(d.take(&bulk(&head)), DumpWrite::Nothing);
    assert_eq!(d.take(&Reply::Failed(TransferError::Timeout)), DumpWrite::Nothing);
    assert_eq!(
        d.take(&Reply::Failed(TransferError::Io)),
        DumpWrite::Failed(CameraError::BulkRead(TransferError::Io))
    );
    assert_eq!(d.outcome(), Err(head[..16].to_vec()));
}

#[test]
fn raw_dump_stops_after_eight_mebibytes() {
    let mut d = StreamDump::new(DumpMode::Raw);
    assert_eq!(d.take(&bulk(&[1, 2, 3])), DumpWrite::Payload(vec![1, 2, 3]));
    assert_eq!(d.take(&bulk(&[])), DumpWrite::Nothing);
    assert_eq!(d.outcome(), Ok(3));
    let big = bulk(&vec![0; (8 << 20) - 4]);
    assert!(matches!(d.take(&big), DumpWrite::Payload(_)));
    assert!(d.goes_on(0));
    d.take(&bulk(&[9]));
    assert!(!d.goes_on(0));
    assert_eq!(d.outcome(), Ok(8 << 20));
}

fn off(replies: &[Reply]) -> CompensationOff {
    let mut s = CompensationOff::new();
    for r in replies {
        s.reply(r);
    }
    s
}

#[test]
fn compensation_is_off_before_a_recording() {
    let mut s = CompensationOff::new();
    let mut sent = Vec::new();
    let config = [9, 1, 5];
    for r in [
        data(&[]),
        data(&[3]),
        data(&config),
        data(&[]),
        data(&[3]),
        data(&config),
        data(&[]),
        data(&[]),
    ] {
        sent.push(s.pending().unwrap());
        s.reply(&r);
    }
    assert_eq!(sent[7], Device::xu_set(3, &[1, 0, 5]));
    assert_eq!(s.pending(), None);
    assert_eq!(s.outcome(), Ok(BeforeRecording::SwitchedOff(config.to_vec())));
}

#[test]
fn compensation_before_a_recording_may_stay() {
    let s = off(&[data(&[]), data(&[3]), data(&[9, 0, 5])]);
    assert_eq!(s.pending(), None);
    assert_eq!(s.outcome(), Ok(BeforeRecording::AlreadyOff));
    let e = TransferError::Pipe;
    let s = off(&[Reply::Failed(e)]);
    assert_eq!(s.outcome(), Ok(BeforeRecording::Unknown(CameraError::Select(e))));
    let s = off(&[data(&[]), data(&[3]), data(&[9, 1, 5]), Reply::Failed(e)]);
    assert_eq!(s.outcome(), Err(CameraError::Select(e)));
}

#[test]
fn waiting_for_the_first_frame() {
    assert_eq!(wait_for_frame(true, 9_000_000_000), Wait::Go);
    assert_eq!(wait_for_frame(false, 5_000_000_000), Wait::Again);
    assert_eq!(wait_for_frame(false, 5_000_000_001), Wait::GiveUp);
}

#[test]
fn waiting_for_saved_frames() {
    let mut s = FrameSaver::new(1);
    assert_eq!(s.wait(0), Wait::Again);
    assert_eq!(s.wait(49), Wait::Again);
    assert_eq!(s.wait(50), Wait::GiveUp);
    s.count();
    assert_eq!(s.wait(50), Wait::Go);
}

#[test]
fn time_limits() {
    assert!(has_time(11_999_999_999, DRAIN_SECONDS));
    assert!(!has_time(12_000_000_000, DRAIN_SECONDS));
    assert!(sleeps_on(true, 59_999_999_999));
    assert!(!sleeps_on(true, 60_000_000_000));
    assert!(!sleeps_on(false, 0));
}

#[test]
fn frames_come_through_disturbed_reads() {
    let mut f = Device::frames();
    let mut out = Vec::new();
    let reads = [
        bulk(&[0xff, 0xd8, 1]),
        Reply::Failed(TransferError::Timeout),
        bulk(&[]),
        data(&[9]),
        bulk(&[2]),
        Reply::Failed(TransferError::Io),
        bulk(&[0xff, 0xd9]),
        Reply::Failed(TransferError::Timeout),
        bulk(&[0xff, 0xd8, 0xff, 0xd9]),
    ];
    for r in &reads {
        if let FrameStep::Frame(jpeg) = f.next(r) {
            out.push(jpeg);
        }
    }
    assert_eq!(
        out,
        vec![vec![0xff, 0xd8, 1, 2, 0xff, 0xd9], vec![0xff, 0xd8, 0xff, 0xd9]]
    );
}

#[test]
fn compensation_with_a_short_reply() {
    let mut s = Device::set_body_temp_compensation(true);
    for r in [data(&[]), data(&[18]), data(&[0, 0, 5]), data(&[])] {
        s.reply(&r);
    }
    assert_eq!(s.pending(), Some(Device::xu_set(3, &[1, 1, 5])));
    let s = off(&[data(&[]), data(&[18]), data(&[0])]);
    assert_eq!(s.outcome(), Ok(BeforeRecording::AlreadyOff));
}

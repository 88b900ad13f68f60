use thermal_camera::probe::PhaseError;
use thermal_camera::readout::{ProbeRead, ReadError, ReadPlan};
use thermal_camera::transfer::{ControlTransfer, Device, Reply, TransferError};

const REQUEST: [u8; 7] = [1, 2, 3, 4, 5, 6, 7];

fn data(bytes: &[u8]) -> Reply {
    Reply::Data(bytes.to_vec())
}

fn failed() -> Reply {
    Reply::Failed(TransferError::Pipe)
}

/// Runs the first phase, which announces `total` bytes.
fn begun(plan: ReadPlan, total: u8) -> ProbeRead {
    let mut p = ProbeRead::new(plan, &REQUEST);
    for r in [data(&[]), data(&[]), data(&[5]), data(&[1, total, 0, 0, 0])] {
        p.reply(&r);
    }
    p
}

fn transfers(p: &mut ProbeRead, replies: &[Reply]) -> Vec<ControlTransfer> {
    let mut sent = Vec::new();
    for r in replies {
        sent.push(p.pending().unwrap());
        p.reply(r);
    }
    assert_eq!(p.pending(), None);
    sent
}

#[test]
fn first_transfers_of_a_readout() {
    for (plan, sub) in [(ReadPlan::Once, 10), (ReadPlan::Resend, 10), (ReadPlan::Numbered, 9)] {
        let mut p = ProbeRead::new(plan, &REQUEST);
        assert_eq!(p.pending(), Some(Device::select_command(3, sub)));
        p.reply(&data(&[]));
        assert!(!p.settles());
        assert_eq!(p.pending(), Some(Device::xu_set(3, &REQUEST)));
        p.reply(&data(&[]));
        assert!(p.settles());
        assert_eq!(p.pending(), Some(Device::xu_get_len(3)));
        p.reply(&data(&[5]));
        assert_eq!(p.head_len(), Some(5));
        assert_eq!(p.pending(), Some(Device::xu_get(3, 5)));
        p.reply(&data(&[1, 3, 0, 0, 0]));
        assert_eq!(p.head_len(), None);
        assert_eq!(p.head(), &vec![1, 3, 0, 0, 0]);
        assert_eq!(p.result().unwrap().total(), 3);
    }
}

#[test]
fn direct_readout() {
    let mut p = begun(ReadPlan::Direct, 3);
    assert_eq!(transfers(&mut p, &[data(&[2, 1])]), vec![Device::xu_get(3, 3)]);
    assert_eq!(p.result().unwrap().data(), Some(vec![2, 1]));
    let mut p = begun(ReadPlan::Direct, 3);
    assert_eq!(
        transfers(&mut p, &[failed(), data(&[7])]),
        vec![Device::xu_get(3, 3), Device::xu_last_error()]
    );
    let result = p.result().unwrap();
    assert_eq!(result.failures(), &vec![(ReadError::Get(TransferError::Pipe), Some(7))]);
    assert_eq!(result.data(), None);
}

#[test]
fn single_readout_does_not_look_into_failures() {
    let mut p = begun(ReadPlan::Once, 3);
    assert_eq!(transfers(&mut p, &[failed()]), vec![Device::xu_get(3, 3)]);
    assert_eq!(
        p.result().unwrap().failures(),
        &vec![(ReadError::Get(TransferError::Pipe), None)]
    );
    let mut p = begun(ReadPlan::Once, 0);
    assert_eq!(transfers(&mut p, &[data(&[])]), vec![Device::xu_get(3, 0)]);
    assert_eq!(p.result().unwrap().data(), Some(vec![]));
}

#[test]
fn readout_after_a_second_request() {
    let mut p = begun(ReadPlan::Resend, 3);
    assert!(!p.settles());
    p.reply(&data(&[]));
    assert!(p.settles());
    p.reply(&data(&[1, 2, 3]));
    assert_eq!(p.result().unwrap().data(), Some(vec![1, 2, 3]));
    let mut p = begun(ReadPlan::Resend, 3);
    assert_eq!(
        transfers(&mut p, &[failed(), failed()]),
        vec![Device::xu_set(3, &REQUEST), Device::xu_last_error()]
    );
    let result = p.result().unwrap();
    assert_eq!(result.failures(), &vec![(ReadError::Send(TransferError::Pipe), None)]);
}

#[test]
fn measured_readout_is_capped() {
    let mut p = begun(ReadPlan::Measured, 3);
    assert_eq!(
        transfers(&mut p, &[data(&[]), data(&[0, 0x20]), data(&[4])]),
        vec![Device::xu_set(3, &REQUEST), Device::xu_get_len(3), Device::xu_get(3, 4096)]
    );
    assert_eq!(p.result().unwrap().measured(), Some(0x2000));
    assert_eq!(p.result().unwrap().data(), Some(vec![4]));
    let mut p = begun(ReadPlan::Measured, 3);
    transfers(&mut p, &[data(&[]), failed(), data(&[1])]);
    let result = p.result().unwrap();
    assert_eq!(result.failures(), &vec![(ReadError::Length(TransferError::Pipe), Some(1))]);
    assert_eq!(result.measured(), None);
}

#[test]
fn stripped_readout_goes_on_without_its_request() {
    let mut p = begun(ReadPlan::Stripped, 9);
    let sent = transfers(
        &mut p,
        &[
            failed(),
            data(&[7]),
            data(&[8, 9]),
            data(&[2, 1, 0, 0, 0]),
            data(&[2, 2, 0, 0, 0, 3, 4]),
            data(&[5, 6, 7, 8, 9]),
        ],
    );
    assert_eq!(
        sent,
        vec![
            Device::xu_set(3, &REQUEST[..5]),
            Device::xu_last_error(),
            Device::xu_get(3, 9),
            Device::xu_get(3, 7),
            Device::xu_get(3, 7),
            Device::xu_get(3, 5),
        ]
    );
    let result = p.result().unwrap();
    assert_eq!(result.failures(), &vec![(ReadError::Send(TransferError::Pipe), Some(7))]);
    assert_eq!(result.data(), Some(vec![8, 9, 3, 4, 5, 6, 7, 8, 9]));
    let mut p = begun(ReadPlan::Stripped, 6);
    transfers(&mut p, &[data(&[]), data(&[])]);
    assert_eq!(p.result().unwrap().data(), None);
}

#[test]
fn numbered_readout() {
    let mut p = begun(ReadPlan::Numbered, 4);
    let sent = transfers(&mut p, &[data(&[2, 1, 0, 0, 0, 10, 11]), data(&[2, 2, 0, 0, 0, 12, 13])]);
    assert_eq!(sent, vec![Device::xu_get(3, 512), Device::xu_get(3, 512)]);
    let result = p.result().unwrap();
    assert_eq!(result.data(), Some(vec![10, 11, 12, 13]));
    assert!(result.jumps().is_empty() && result.failures().is_empty());
    let mut p = begun(ReadPlan::Numbered, 4);
    transfers(&mut p, &[data(&[2, 3, 0, 0, 0, 10]), failed(), data(&[9])]);
    let result = p.result().unwrap();
    assert_eq!(result.jumps(), &vec![(0, 3)]);
    assert_eq!(result.failures(), &vec![(ReadError::Get(TransferError::Pipe), Some(9))]);
    assert_eq!(result.collected(), 1);
    assert_eq!(begun(ReadPlan::Numbered, 0).pending(), None);
}

#[test]
fn failed_first_phases() {
    let e = TransferError::Pipe;
    let mut p = ProbeRead::new(ReadPlan::Direct, &REQUEST);
    p.reply(&failed());
    assert_eq!(p.pending(), None);
    assert_eq!(p.failure(), Some((PhaseError::Select(e), None)));
    let mut p = ProbeRead::new(ReadPlan::Direct, &REQUEST);
    let sent = transfers(&mut p, &[data(&[]), data(&[]), data(&[6]), data(&[3])]);
    assert_eq!(sent[3], Device::xu_last_error());
    assert_eq!(p.failure(), Some((PhaseError::UnexpectedLength(6), Some(3))));
    let mut p = ProbeRead::new(ReadPlan::Numbered, &REQUEST);
    transfers(&mut p, &[data(&[]), failed()]);
    assert_eq!(p.failure(), Some((PhaseError::Request(e), None)));
    assert!(p.result().is_none());
    let mut p = ProbeRead::new(ReadPlan::Once, &REQUEST);
    transfers(&mut p, &[data(&[]), data(&[]), data(&[2]), data(&[8, 9])]);
    assert_eq!(p.failure(), Some((PhaseError::ShortHead(2), None)));
    assert_eq!(p.head(), &vec![8, 9]);
}

use thermal_camera::inspect::timed_request;
use thermal_camera::survey::{
    correction_queries, rules_queries, therm_queries, Answer, Query, Survey,
};
use thermal_camera::transfer::{CameraError, Device, Reply, TransferError};
use thermal_camera::trial::{CompensationTrial, TrialStage};

fn data(bytes: &[u8]) -> Reply {
    Reply::Data(bytes.to_vec())
}

fn capture_replies(temp: f32) -> Vec<Reply> {
    let mut payload = vec![1u8];
    for v in [0u32, 1, 1, 4] {
        payload.extend_from_slice(&v.to_le_bytes());
    }
    payload.extend_from_slice(&[0; 10]);
    payload.extend_from_slice(&temp.to_le_bytes());
    let mut head = vec![1u8];
    head.extend_from_slice(&(payload.len() as u32).to_le_bytes());
    let mut chunk = vec![2u8, 1, 0, 0, 0];
    chunk.extend_from_slice(&payload);
    vec![data(&[]), data(&[]), data(&[5]), Reply::Data(head), Reply::Data(chunk)]
}

fn settings_replies(config: &[u8]) -> Vec<Reply> {
    vec![data(&[]), data(&[config.len() as u8]), data(config)]
}

#[test]
fn query_lists() {
    let plain = |group, sub| Query::Plain { group, sub };
    assert_eq!(therm_queries(), vec![plain(1, 1), plain(3, 1), plain(3, 2), Query::TimedSearch]);
    assert_eq!(rules_queries(), vec![plain(3, 3)]);
    assert_eq!(correction_queries(), vec![plain(3, 6), plain(3, 7), plain(3, 8), plain(3, 5)]);
}

#[test]
fn survey_goes_on_after_failures() {
    let e = TransferError::Pipe;
    let mut s = Survey::new(therm_queries(), 0);
    assert_eq!(s.pending(), Some(Device::select_command(1, 1)));
    for r in settings_replies(&[7, 8]) {
        s.reply(&r);
    }
    assert_eq!(s.answers()[0], Answer::Data(vec![7, 8]));

    assert_eq!(s.pending(), Some(Device::select_command(3, 1)));
    s.reply(&Reply::Failed(e));
    assert_eq!(s.pending(), Some(Device::xu_last_error()));
    s.reply(&data(&[7]));
    assert_eq!(s.answers()[1], Answer::Failed { error: CameraError::Select(e), code: Some(7) });

    assert_eq!(s.pending(), Some(Device::select_command(3, 2)));
    s.set_time(90_061);
    s.reply(&data(&[]));
    s.reply(&data(&[0]));
    assert_eq!(s.pending(), Some(Device::xu_last_error()));
    s.reply(&Reply::Failed(e));
    let error = CameraError::ImplausibleLength { announced: 0, group: 3, sub: 2 };
    assert_eq!(s.answers()[2], Answer::Failed { error, code: None });

    assert_eq!(s.pending(), Some(Device::select_command(3, 10)));
    s.reply(&data(&[]));
    assert_eq!(s.pending(), Some(Device::xu_set(3, &timed_request(90_061))));
    for r in [data(&[]), data(&[5]), data(&[1, 2, 0, 0, 0]), data(&[2, 1, 0, 0, 0, 4, 5])] {
        s.reply(&r);
    }
    assert_eq!(s.pending(), None);
    assert_eq!(s.answers().len(), 4);
    assert_eq!(s.answers()[3], Answer::Data(vec![4, 5]));
}

#[test]
fn survey_of_nothing() {
    let mut s = Survey::new(vec![], 0);
    assert_eq!(s.pending(), None);
    s.reply(&data(&[1]));
    assert!(s.answers().is_empty());
}

#[test]
fn trial_restores_what_it_found() {
    let mut t = CompensationTrial::new();
    let found = [9u8, 1, 5, 6];
    let mut script = settings_replies(&found);
    script.extend(capture_replies(36.5));
    script.extend([data(&[]), data(&[])]);
    script.extend(capture_replies(30.5));
    script.extend([data(&[]), data(&[])]);
    script.extend(settings_replies(&[0, 1, 5, 7]));
    script.extend(capture_replies(36.0));
    let mut stages = vec![t.stage()];
    let mut written = Vec::new();
    for r in &script {
        let sent = t.pending().unwrap();
        if matches!(t.stage(), TrialStage::SwitchOff | TrialStage::Restore) {
            written.push(sent);
        }
        t.reply(r);
        if *stages.last().unwrap() != t.stage() {
            stages.push(t.stage());
        }
    }
    assert_eq!(t.pending(), None);
    assert_eq!(t.outcome(), Ok(()));
    assert_eq!(
        stages,
        vec![
            TrialStage::ReadSaved,
            TrialStage::CaptureOn,
            TrialStage::SwitchOff,
            TrialStage::CaptureOff,
            TrialStage::Restore,
            TrialStage::ReadBack,
            TrialStage::CaptureRestored,
            TrialStage::Done,
        ]
    );
    assert_eq!(
        written,
        vec![
            Device::select_command(3, 8),
            Device::xu_set(3, &[1, 0, 5, 6]),
            Device::select_command(3, 8),
            Device::xu_set(3, &found),
        ]
    );
    assert_eq!(t.saved(), &found.to_vec());
    assert_eq!(t.back(), &vec![0, 1, 5, 7]);
    let temps: Vec<f32> = t.captures().iter().map(|c| f32::from_bits(c.temps[0])).collect();
    assert_eq!(temps, vec![36.5, 30.5, 36.0]);
}

#[test]
fn trial_errors() {
    let e = TransferError::NoDevice;
    let mut t = CompensationTrial::new();
    t.reply(&Reply::Failed(e));
    assert_eq!(t.pending(), None);
    assert_eq!(t.outcome(), Err(CameraError::Select(e)));

    let mut t = CompensationTrial::new();
    for r in settings_replies(&[4]) {
        t.reply(&r);
    }
    for r in capture_replies(1.0) {
        t.reply(&r);
    }
    assert_eq!(t.pending(), None);
    assert_eq!(t.outcome(), Err(CameraError::ConfigTooShort(Some(4))));
}

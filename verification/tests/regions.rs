use thermal_camera::inspect::{
    basic_param, correction_commands, dump_block, info_field, report, report_raw,
    timed_request, BasicParam, WireBlock,
};
use thermal_camera::probe;
use thermal_camera::roi::{
    build_req, encode_roi_request, parse_roi_result, untimed, RequestTime, RoiBlock, RoiRegion,
};
use thermal_camera::transfer::{CameraError, Device, Reply, TransferError};

fn region(x: u32, y: u32, width: u32, height: u32, distance: u32) -> RoiRegion {
    RoiRegion { x, y, width, height, distance }
}

fn block(id: u8, temp: u32, vx: u32, vy: u32, tx: u32, ty: u32) -> Vec<u8> {
    let mut b = vec![id];
    for v in [temp, vx, vy, tx, ty] {
        b.extend_from_slice(&v.to_le_bytes());
    }
    b
}

fn result_of(global: Vec<u8>, slots: u8, blocks: &[Vec<u8>]) -> Vec<u8> {
    let mut out = global;
    out.push(slots);
    out.extend_from_slice(&0u32.to_le_bytes());
    for b in blocks {
        out.extend_from_slice(b);
    }
    out
}

fn framed(number: u32, payload: &[u8]) -> Vec<u8> {
    let mut chunk = vec![2u8];
    chunk.extend_from_slice(&number.to_le_bytes());
    chunk.extend_from_slice(payload);
    chunk
}

fn announced(payload: &[u8]) -> Vec<Reply> {
    let mut head = vec![1u8];
    head.extend_from_slice(&(payload.len() as u32).to_le_bytes());
    let mut replies = vec![
        Reply::Data(vec![]),
        Reply::Data(vec![]),
        Reply::Data(vec![5, 0, 0, 0]),
        Reply::Data(head),
    ];
    for (i, piece) in payload.chunks(507).enumerate() {
        replies.push(Reply::Data(framed(i as u32 + 1, piece)));
    }
    replies
}

#[test]
fn request_layout() {
    let req = encode_roi_request(
        1,
        untimed(),
        &[region(2, 3, 4, 5, 100), region(0x01020304, 6, 7, 8, 9)],
    );
    assert_eq!(req.len(), 234);
    assert_eq!(&req[..14], &[1, 0, 0, 0, 0, 0, 0, 0, 0xea, 0x07, 0, 0, 0, 2]);
    assert_eq!(
        &req[14..36],
        &[1, 1, 2, 0, 0, 0, 3, 0, 0, 0, 4, 0, 0, 0, 5, 0, 0, 0, 100, 0, 0, 0]
    );
    assert_eq!(
        &req[36..58],
        &[2, 1, 4, 3, 2, 1, 6, 0, 0, 0, 7, 0, 0, 0, 8, 0, 0, 0, 9, 0, 0, 0]
    );
    assert!(req[58..].iter().all(|&b| b == 0));
}

#[test]
fn request_time_fields() {
    let time = RequestTime {
        millisecond: 0x0102,
        second: 3,
        minute: 4,
        hour: 5,
        day: 6,
        month: 7,
        year: 2026,
    };
    let req = encode_roi_request(9, time, &[]);
    assert_eq!(&req[..14], &[9, 2, 1, 3, 4, 5, 6, 7, 0xea, 0x07, 0, 0, 0, 0]);
    assert!(req[14..].iter().all(|&b| b == 0));
    assert_eq!(req.len(), 234);
}

#[test]
fn ten_regions_fill_the_request() {
    let regions: Vec<RoiRegion> = (0..10).map(|i| region(i, i, 1, 1, 100)).collect();
    let req = encode_roi_request(1, untimed(), &regions);
    assert_eq!(req.len(), 234);
    assert_eq!(req[13], 10);
    assert_eq!(req[14 + 9 * 22], 10);
    assert_eq!(&req[212 + 2..212 + 6], &[9, 0, 0, 0]);
}

#[test]
fn requests_from_tuples() {
    assert_eq!(
        build_req(1, &[(1, 1, 240, 320, 100)]),
        encode_roi_request(1, untimed(), &[region(1, 1, 240, 320, 100)])
    );
    assert_eq!(probe::build_req(1, true), build_req(1, &[(0, 0, 240, 320, 100)]));
    let empty = probe::build_req(2, false);
    assert_eq!(empty.len(), 234);
    assert_eq!(empty[0], 2);
    assert_eq!(empty[13], 0);
    assert!(empty[14..].iter().all(|&b| b == 0));
}

#[test]
fn timed_request_stamp() {
    let req = timed_request(90_061);
    assert_eq!(&req[..14], &[1, 0, 0, 1, 1, 1, 17, 8, 0xea, 0x07, 0, 0, 0, 1]);
    assert_eq!(&req[24..36], &[240, 0, 0, 0, 0x40, 1, 0, 0, 100, 0, 0, 0]);
}

#[test]
fn result_is_read_in_request_order() {
    let data = result_of(
        block(1, 367, 1, 2, 3, 4),
        10,
        &[block(1, 300, 5, 6, 7, 8), block(2, 405, 9, 10, 11, 12)],
    );
    let found = parse_roi_result(&data, 2).unwrap();
    assert_eq!(
        found.global,
        RoiBlock { id: 1, max_temp_raw: 367, thermal_x: 3, thermal_y: 4 }
    );
    assert_eq!(
        found.regions,
        vec![
            RoiBlock { id: 1, max_temp_raw: 300, thermal_x: 7, thermal_y: 8 },
            RoiBlock { id: 2, max_temp_raw: 405, thermal_x: 11, thermal_y: 12 },
        ]
    );
}

#[test]
fn stale_slots_do_not_count() {
    let fresh = block(1, 300, 0, 0, 7, 8);
    let a = result_of(block(1, 1, 0, 0, 0, 0), 10, &[fresh.clone(), block(0, 999, 1, 1, 1, 1)]);
    let b = result_of(block(1, 1, 0, 0, 0, 0), 10, &[fresh]);
    assert_eq!(parse_roi_result(&a, 1), parse_roi_result(&b, 1));
    let mut c = b.clone();
    for k in (5..13).chain(21..26) {
        c[k] = 0xee;
    }
    assert_eq!(parse_roi_result(&c, 1), parse_roi_result(&b, 1));
}

#[test]
fn short_results_are_refused() {
    assert_eq!(parse_roi_result(&[0; 25], 1), Err(CameraError::RoiTooShort { len: 25 }));
    assert_eq!(parse_roi_result(&[0; 26], 1), Err(CameraError::RoiTruncated { region: 0 }));
    assert_eq!(
        parse_roi_result(&[0; 26 + 21 + 20], 3),
        Err(CameraError::RoiTruncated { region: 1 })
    );
    assert!(parse_roi_result(&[0; 26 + 21], 1).is_ok());
}

#[test]
fn temperature_in_tenths() {
    let b = RoiBlock { id: 1, max_temp_raw: 367, thermal_x: 0, thermal_y: 0 };
    assert_eq!(b.temperature_c(), (36, 7));
    let (whole, tenths) = b.temperature_c();
    assert_eq!((whole as f64 * 10.0 + tenths as f64) / 10.0, 36.7);
}

#[test]
fn search_through_the_camera() {
    let data = result_of(block(1, 367, 0, 0, 3, 4), 10, &[block(1, 309, 0, 0, 5, 6)]);
    let mut q = match Device::roi_max_temperatures(&[region(0, 0, 480, 640, 100)]) {
        Ok(q) => q,
        Err(e) => panic!("{e:?}"),
    };
    let mut sent = Vec::new();
    for r in announced(&data) {
        sent.push(q.pending().unwrap());
        q.reply(&r);
    }
    assert_eq!(sent[0], Device::select_command(3, 10));
    assert_eq!(
        sent[1],
        Device::xu_set(3, &encode_roi_request(1, untimed(), &[region(0, 0, 480, 640, 100)]))
    );
    assert_eq!(q.pending(), None);
    let found = q.outcome().unwrap();
    assert_eq!(found.global.max_temp_raw, 367);
    assert_eq!(found.regions[0].max_temp_raw, 309);
}

#[test]
fn searches_take_one_to_ten_regions() {
    assert!(matches!(Device::roi_max_temperatures(&[]), Err(CameraError::RegionCount)));
    let eleven = vec![region(0, 0, 1, 1, 100); 11];
    assert!(matches!(Device::roi_max_temperatures(&eleven), Err(CameraError::RegionCount)));
    assert!(Device::roi_max_temperatures(&eleven[..10]).is_ok());
}

#[test]
fn search_reports_a_failed_transfer() {
    let mut q = Device::pixel_temperature(1, 2);
    q.reply(&Reply::Failed(TransferError::Timeout));
    assert_eq!(q.pending(), None);
    assert_eq!(q.outcome(), Err(CameraError::Select(TransferError::Timeout)));
}

#[test]
fn pixel_search_doubles_coordinates() {
    let mut q = Device::pixel_temperature(120, 160);
    let data = result_of(block(1, 400, 0, 0, 0, 0), 10, &[block(1, 309, 0, 0, 240, 320)]);
    let mut sent = Vec::new();
    for r in announced(&data) {
        sent.push(q.pending().unwrap());
        q.reply(&r);
    }
    assert_eq!(
        sent[1],
        Device::xu_set(3, &encode_roi_request(1, untimed(), &[region(240, 320, 1, 1, 100)]))
    );
    assert_eq!(q.outcome(), Ok((30, 9)));
}

#[test]
fn blocks_with_all_fields() {
    let b = block(3, 367, 1, 2, 3, 4);
    let want = WireBlock {
        id: 3,
        temp_raw: 367,
        visible_x: 1,
        visible_y: 2,
        thermal_x: 3,
        thermal_y: 4,
    };
    assert_eq!(dump_block(&b), Some(want));
    assert_eq!(dump_block(&b[..20]), None);
}

#[test]
fn reports_of_a_result() {
    let data = result_of(
        block(1, 367, 1, 2, 3, 4),
        10,
        &[block(1, 300, 5, 6, 7, 8), block(2, 405, 9, 10, 11, 12)],
    );
    assert!(report(&data[..25], 1).is_none());
    let all = report(&data, 2).unwrap();
    assert_eq!(all.roi_num, 10);
    assert_eq!(all.jpeg_len, 0);
    assert_eq!(all.global.thermal_y, 4);
    assert_eq!(all.regions.len(), 2);
    assert_eq!(all.regions[1].temp_raw, 405);
    assert_eq!((all.regions[1].thermal_x, all.regions[1].thermal_y), (11, 12));
    let first = report(&data, 1).unwrap();
    assert_eq!(first.roi_num, 10);
    assert_eq!(first.regions.len(), 1);
    assert_eq!(first.regions[0].thermal_x, 7);
    assert_eq!(report(&data, 5).unwrap().regions.len(), 2);
    assert!(report(&data[..26], 1).unwrap().regions.is_empty());
}

#[test]
fn report_behind_a_chunk_header() {
    let data = result_of(block(1, 367, 1, 2, 3, 4), 10, &[block(1, 300, 5, 6, 7, 8)]);
    let raw = report_raw(&framed(1, &data), 3).unwrap();
    assert_eq!((raw.tag, raw.number), (2, 1));
    assert_eq!(raw.report.global.temp_raw, 367);
    assert_eq!(raw.report.roi_num, 10);
    assert_eq!(raw.report.regions.len(), 1);
    assert_eq!(raw.report.regions[0].thermal_y, 8);
    assert!(report_raw(&[0; 51], 1).is_none());
}

#[test]
fn basic_parameters() {
    let mut p = vec![0u8; 47];
    p[1] = 1;
    p[5] = 2;
    p[6] = 3;
    p[16] = 98;
    p[20] = 4;
    p[21] = 100;
    p[32] = 5;
    p[36] = 6;
    assert_eq!(
        basic_param(&p),
        Some(BasicParam {
            enabled: 1,
            unit: 2,
            range: 3,
            emissivity: 98,
            distance_unit: 4,
            distance: 100,
            alert: 5,
            alarm: 6,
        })
    );
    assert_eq!(basic_param(&p[..46]), None);
}

#[test]
fn device_info_fields() {
    let mut info = vec![0u8; 485];
    info[1..4].copy_from_slice(b"SN1");
    info[1 + 0xc0..1 + 0xc0 + 2].copy_from_slice(b"hw");
    info[1 + 0x104..1 + 0x104 + 2].copy_from_slice(b"fw");
    info[1 + 0x144..1 + 0x144 + 3].copy_from_slice(b"hw2");
    assert_eq!(info_field(&info, 0), Some("SN1".to_string()));
    assert_eq!(info_field(&info, 1), Some("".to_string()));
    assert_eq!(info_field(&info, 3), Some("hw".to_string()));
    assert_eq!(info_field(&info, 4), Some("fw".to_string()));
    assert_eq!(info_field(&info, 5), Some("hw2".to_string()));
    assert_eq!(info_field(&info[..0x40], 0), None);
    assert_eq!(info_field(&info[..0x41], 0), Some("SN1".to_string()));
}

#[test]
fn correction_command_table() {
    assert_eq!(
        correction_commands(),
        vec![(2040, 3, 6), (2042, 3, 7), (2044, 3, 8), (2038, 3, 5)]
    );
}

#[test]
fn both_readings_of_a_block_agree() {
    let data = result_of(block(1, 367, 1, 2, 3, 4), 10, &[]);
    let plain = parse_roi_result(&data, 0).unwrap().global;
    let full = dump_block(&data).unwrap();
    assert_eq!(
        (plain.id, plain.max_temp_raw, plain.thermal_x, plain.thermal_y),
        (full.id, full.temp_raw, full.thermal_x, full.thermal_y)
    );
}

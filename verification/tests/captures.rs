use thermal_camera::query::{face_stats, run_queries};
use thermal_camera::radiometric::{
    display_to_matrix, is_greater, matrix_to_display, parse_capture, RadiometricCapture,
    LOWEST_FINITE,
};
use thermal_camera::text::matrix_csv;
use thermal_camera::transfer::{CameraError, Device, Reply, TransferError};

fn capture(width: usize, height: usize, temps: &[f32]) -> RadiometricCapture {
    RadiometricCapture {
        jpeg: vec![0xff, 0xd8, 0xff, 0xd9],
        width,
        height,
        temps: temps.iter().map(|t| t.to_bits()).collect(),
    }
}

fn wire_capture(jpeg: &[u8], width: u32, height: u32, temps: &[f32]) -> Vec<u8> {
    let mut out = vec![1u8];
    for v in [jpeg.len() as u32, width, height, (temps.len() * 4) as u32] {
        out.extend_from_slice(&v.to_le_bytes());
    }
    out.extend_from_slice(&[0x2c, 1, 4, 1, 0, 0, 0, 0, 0, 0]);
    out.extend_from_slice(jpeg);
    for t in temps {
        out.extend_from_slice(&t.to_le_bytes());
    }
    out
}

fn framed(number: u32, payload: &[u8]) -> Vec<u8> {
    let mut chunk = vec![2u8];
    chunk.extend_from_slice(&number.to_le_bytes());
    chunk.extend_from_slice(payload);
    chunk
}

#[test]
fn capture_is_read_back() {
    let temps = [36.5f32, -3.25, 0.0, 40.59, 21.0, 22.0];
    let cap = parse_capture(&wire_capture(&[9, 8, 7], 3, 2, &temps)).unwrap();
    assert_eq!(cap.jpeg, vec![9, 8, 7]);
    assert_eq!((cap.width, cap.height), (3, 2));
    let back: Vec<f32> = cap.temps.iter().map(|&b| f32::from_bits(b)).collect();
    assert_eq!(back, temps.to_vec());
}

#[test]
fn capture_errors() {
    assert_eq!(parse_capture(&[0; 26]), Err(CameraError::CaptureTooShort { len: 26 }));
    let mut wrong = wire_capture(&[], 2, 2, &[1.0, 2.0, 3.0, 4.0]);
    wrong[5] = 3;
    assert_eq!(
        parse_capture(&wrong),
        Err(CameraError::CaptureTempSize { temp_bytes: 16, width: 3, height: 2 })
    );
    let whole = wire_capture(&[1, 2], 2, 2, &[1.0, 2.0, 3.0, 4.0]);
    assert_eq!(whole.len(), 45);
    assert_eq!(
        parse_capture(&whole[..44]),
        Err(CameraError::CaptureTruncated { len: 44, need: 45 })
    );
}

#[test]
fn absurd_capture_sizes_are_refused() {
    let mut head = vec![1u8];
    for v in [0u32, 0x8000_0000, 0x8000_0000, 0] {
        head.extend_from_slice(&v.to_le_bytes());
    }
    head.extend_from_slice(&[0; 10]);
    assert_eq!(
        parse_capture(&head),
        Err(CameraError::CaptureTempSize {
            temp_bytes: 0,
            width: 0x8000_0000,
            height: 0x8000_0000
        })
    );
}

#[test]
fn bytes_behind_a_capture_do_not_count() {
    let mut data = wire_capture(&[5], 1, 1, &[20.5]);
    data.extend_from_slice(&[1, 2, 3]);
    let cap = parse_capture(&data).unwrap();
    assert_eq!(cap.temps, vec![20.5f32.to_bits()]);
}

#[test]
fn capture_through_the_camera() {
    let jpeg: Vec<u8> = (0..700u32).map(|i| i as u8).collect();
    let temps: Vec<f32> = (0..300).map(|i| 20.0 + i as f32 / 10.0).collect();
    let data = wire_capture(&jpeg, 20, 15, &temps);
    let mut q = Device::capture_radiometric();
    let mut head = vec![1u8];
    head.extend_from_slice(&(data.len() as u32).to_le_bytes());
    let mut replies = vec![
        Reply::Data(vec![]),
        Reply::Data(vec![]),
        Reply::Data(vec![5, 0, 0, 0]),
        Reply::Data(head),
    ];
    for (i, piece) in data.chunks(507).enumerate() {
        replies.push(Reply::Data(framed(i as u32 + 1, piece)));
    }
    let mut sent = Vec::new();
    for r in &replies {
        sent.push(q.pending().unwrap());
        q.reply(r);
    }
    assert_eq!(sent[0], Device::select_command(3, 9));
    assert_eq!(sent[1], Device::xu_set(3, &[1, 0, 0, 0, 0, 0, 0, 0, 0xea, 0x07, 0, 0, 0]));
    assert_eq!(q.pending(), None);
    let cap = q.outcome().unwrap();
    assert_eq!(cap.jpeg, jpeg);
    assert_eq!(cap.temps.len(), 300);
    assert_eq!(cap.max_temp(), Some((49.9f32.to_bits(), 19, 14)));
}

#[test]
fn failed_capture() {
    let mut q = Device::capture_radiometric();
    q.reply(&Reply::Data(vec![]));
    q.reply(&Reply::Failed(TransferError::Pipe));
    assert_eq!(q.outcome(), Err(CameraError::Request(TransferError::Pipe)));
}

#[test]
fn temperature_at_coordinates() {
    let cap = capture(3, 2, &[1.0, 2.0, 3.0, 4.0, 5.0, 6.0]);
    assert_eq!(cap.temp_at(2, 0), Some(3.0f32.to_bits()));
    assert_eq!(cap.temp_at(0, 1), Some(4.0f32.to_bits()));
    assert_eq!(cap.temp_at(3, 0), None);
    assert_eq!(cap.temp_at(0, 2), None);
}

#[test]
fn maximum_is_the_last_in_total_order() {
    assert_eq!(capture(0, 0, &[]).max_temp(), None);
    let cap = capture(2, 2, &[7.0, 9.0, 9.0, 8.0]);
    assert_eq!(cap.max_temp(), Some((9.0f32.to_bits(), 0, 1)));
    let cap = capture(2, 1, &[0.0, -0.0]);
    assert_eq!(cap.max_temp(), Some((0.0f32.to_bits(), 0, 0)));
    let cap = capture(3, 1, &[f32::INFINITY, f32::NAN, 1.0]);
    assert_eq!(cap.max_temp(), Some((f32::NAN.to_bits(), 1, 0)));
}

#[test]
fn maximum_agrees_with_float_order() {
    let values = [
        0.0f32,
        -0.0,
        1.0,
        -1.0,
        36.6,
        -40.0,
        f32::MIN,
        f32::MAX,
        f32::INFINITY,
        f32::NEG_INFINITY,
        f32::NAN,
        -f32::NAN,
        f32::MIN_POSITIVE,
        1e-42,
    ];
    for &a in &values {
        for &b in &values {
            assert_eq!(is_greater(a.to_bits(), b.to_bits()), a > b, "{a} {b}");
            let (t, x, _) = capture(2, 1, &[a, b]).max_temp().unwrap();
            let want = if b.total_cmp(&a).is_ge() { (b, 1) } else { (a, 0) };
            assert_eq!((t, x), (want.0.to_bits(), want.1), "{a} {b}");
        }
    }
    assert_eq!(LOWEST_FINITE, f32::MIN.to_bits());
}

#[test]
fn display_and_matrix_coordinates() {
    assert_eq!(display_to_matrix(120, 161), (60, 80));
    assert_eq!(matrix_to_display(60, 80), (120, 160));
    for m in [0usize, 1, 59, 119] {
        let (dx, dy) = matrix_to_display(m, m);
        assert_eq!(display_to_matrix(dx as u32, dy as u32), (m, m));
    }
}

#[test]
fn rectangle_maximum_is_the_first() {
    let cap = capture(3, 3, &[1.0, 9.0, 2.0, 9.0, 5.0, 9.0, 0.0, 3.0, 4.0]);
    assert_eq!(cap.display_max(0, 0, 6, 6), Some((9.0f32.to_bits(), 1, 0)));
    assert_eq!(cap.display_max(0, 2, 2, 4), Some((9.0f32.to_bits(), 0, 1)));
    assert_eq!(cap.display_max(2, 4, 200, 200), Some((4.0f32.to_bits(), 2, 2)));
    assert_eq!(cap.display_max(6, 0, 2, 2), None);
    assert_eq!(cap.display_max(0, 0, 1, 6), Some((9.0f32.to_bits(), 0, 1)));
    assert_eq!(cap.display_max(1, 0, 2, 1), Some((9.0f32.to_bits(), 1, 0)));
    assert_eq!(cap.display_max(4, 4, 0, 2), None);
    assert_eq!(cap.display_max(1, 1, 0, 0), None);
    assert_eq!(cap.display_max(5, 5, 1, 1), Some((4.0f32.to_bits(), 2, 2)));
    let odd = capture(2, 1, &[f32::NAN, 7.0]);
    assert_eq!(odd.display_max(0, 0, 4, 2), Some((f32::NAN.to_bits(), 0, 0)));
}

#[test]
fn whole_display_has_the_frame_maximum() {
    let temps: Vec<f32> = (0..12).map(|i| ((i * 7) % 12) as f32).collect();
    let cap = capture(4, 3, &temps);
    let (top, _, _) = cap.max_temp().unwrap();
    let (found, _, _) = cap.display_max(0, 0, 8, 6).unwrap();
    assert_eq!(top, found);
    assert_eq!(f32::from_bits(top), 11.0);
}

#[test]
fn region_maximum_and_temperatures() {
    let cap = capture(3, 2, &[1.0, 2.0, 3.0, 4.0, 6.0, 5.0]);
    assert_eq!(cap.region_max(0, 0, 3, 2), (6.0f32.to_bits(), 1, 1));
    assert_eq!(cap.region_max(1, 0, 9, 1), (3.0f32.to_bits(), 2, 0));
    assert_eq!(cap.region_max(3, 0, 9, 9), (f32::MIN.to_bits(), 0, 0));
    let temps: Vec<f32> = cap.region_temps(1, 0, 9, 9).iter().map(|&b| f32::from_bits(b)).collect();
    assert_eq!(temps, vec![2.0, 3.0, 6.0, 5.0]);
    assert!(cap.region_temps(0, 2, 3, 4).is_empty());
}

#[test]
fn answers_about_a_capture() {
    let cap = capture(3, 2, &[1.0, 2.0, 3.0, 4.0, 6.0, 5.0]);
    let a = run_queries(&cap, &[(4, 0), (1, 3), (6, 0)], &[(0, 0, 6, 4), (0, 0, 0, 0)]);
    assert_eq!(a.frame_max, Some((6.0f32.to_bits(), 2, 2)));
    assert_eq!(a.points, vec![Some(3.0f32.to_bits()), Some(4.0f32.to_bits()), None]);
    assert_eq!(a.rois, vec![Some((6.0f32.to_bits(), 2, 2)), None]);
    let none = run_queries(&capture(0, 0, &[]), &[(0, 0)], &[(0, 0, 2, 2)]);
    assert_eq!(none.frame_max, None);
    assert_eq!(none.points, vec![None]);
    assert_eq!(none.rois, vec![None]);
}

#[test]
fn one_display_pixel_has_an_answer() {
    let cap = capture(2, 2, &[1.0, 2.0, 3.0, 4.0]);
    let a = run_queries(&cap, &[], &[(0, 0, 1, 1), (1, 1, 1, 1), (1, 1, 2, 1), (3, 3, 1, 1)]);
    assert_eq!(
        a.rois,
        vec![
            Some((1.0f32.to_bits(), 0, 0)),
            Some((1.0f32.to_bits(), 0, 0)),
            Some((2.0f32.to_bits(), 2, 0)),
            Some((4.0f32.to_bits(), 2, 2)),
        ]
    );
}

#[test]
fn region_without_anything_above_the_floor() {
    let s = face_stats(&capture(120, 160, &vec![f32::NEG_INFINITY; 120 * 160]));
    assert_eq!(s.face, (f32::MIN.to_bits(), 0, 0));
    let s = face_stats(&capture(50, 10, &vec![-5.0; 500]));
    assert_eq!(s.face, ((-5.0f32).to_bits(), 84, 0));
    assert_eq!(s.cup, (f32::MIN.to_bits(), 0, 0));
}

#[test]
fn face_and_cup() {
    let mut temps = vec![20.0f32; 120 * 160];
    temps[10 * 120 + 50] = 36.6;
    temps[100 * 120 + 20] = 60.0;
    temps[150 * 120 + 100] = 90.0;
    let s = face_stats(&capture(120, 160, &temps));
    assert_eq!(s.face, (36.6f32.to_bits(), 100, 20));
    assert_eq!(s.cup, (60.0f32.to_bits(), 40, 200));
    assert_eq!(s.face_temps.len(), 46 * 38);
}

#[test]
fn matrix_as_table() {
    let cells: Vec<String> = [1.0f32, 2.5, 3.125, 4.0].iter().map(|t| format!("{t:.2}")).collect();
    assert_eq!(matrix_csv(&cells, 2), "1.00,2.50\n3.12,4.00\n");
    assert_eq!(matrix_csv(&cells, 3), "1.00,2.50,3.12\n4.00\n");
    assert_eq!(matrix_csv(&vec![], 3), "");
}

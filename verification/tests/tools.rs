use thermal_camera::args::{
    dump_mode, parse_nums, parse_regions, ArgError, DumpArgError, DumpArgs, DumpMode, ListKind,
    NumsError, Options,
};
use thermal_camera::probe::{
    brute_reads, find_soi, picture_at, picture_head, shown_value, streaming_reads, tail_samples,
    BulkStats, ChunkCollector, DumpLine, HeadPhase, PhaseA, PhaseError, PictureHead, SelectorDump,
};
use thermal_camera::text::{
    ascii, ascii_trimmed, field_text, hex, numbered_name, parse_number, same_text, split_commas,
    strip,
};
use thermal_camera::transfer::{Device, Reply, TransferError};

fn args(list: &[&str]) -> Vec<String> {
    list.iter().map(|s| s.to_string()).collect()
}

fn data(bytes: &[u8]) -> Reply {
    Reply::Data(bytes.to_vec())
}

#[test]
fn hex_dumps() {
    assert_eq!(hex(&[]), "");
    assert_eq!(hex(&[0x0a]), "0a");
    assert_eq!(hex(&[0x00, 0xff, 0x5b]), "00 ff 5b");
    let all: Vec<u8> = (0..=255).collect();
    let want: Vec<String> = all.iter().map(|b| format!("{b:02x}")).collect();
    assert_eq!(hex(&all), want.join(" "));
}

#[test]
fn printable_characters() {
    assert_eq!(ascii(b"a\x00~\x7f z"), "a.~. z");
    assert_eq!(ascii_trimmed(b"2.0\x00\x01."), "2.0");
    assert_eq!(ascii_trimmed(b"..."), "");
    assert_eq!(ascii_trimmed(b"a. "), "a. ");
    assert_eq!(field_text(b"TB-4117\x00junk"), "TB-4117");
    assert_eq!(field_text(&[0x41, 0xe9]), "A\u{e9}");
    assert_eq!(field_text(&[]), "");
}

#[test]
fn numbers() {
    assert_eq!(parse_number("0", 255), Some(0));
    assert_eq!(parse_number("+7", 255), Some(7));
    assert_eq!(parse_number("007", 255), Some(7));
    assert_eq!(parse_number("255", 255), Some(255));
    assert_eq!(parse_number("256", 255), None);
    assert_eq!(parse_number("4294967295", u32::MAX as u64), Some(4294967295));
    assert_eq!(parse_number("4294967296", u32::MAX as u64), None);
    assert_eq!(parse_number("18446744073709551615", u64::MAX), Some(u64::MAX));
    assert_eq!(parse_number("18446744073709551616", u64::MAX), None);
    for bad in ["", "+", "-1", " 1", "1 ", "1a", "++1", "\u{661}"] {
        assert_eq!(parse_number(bad, 255), None, "{bad:?}");
        assert!(bad.parse::<u8>().is_err());
    }
}

#[test]
fn splitting_and_stripping() {
    assert_eq!(split_commas("a,b,,c"), args(&["a", "b", "", "c"]));
    assert_eq!(split_commas(""), args(&[""]));
    assert_eq!(split_commas(","), args(&["", ""]));
    assert_eq!(split_commas("\u{e9},x").join(","), "\u{e9},x");
    assert_eq!(strip("out=dir", "out="), Some("dir"));
    assert_eq!(strip("out=", "out="), Some(""));
    assert_eq!(strip("ou", "out="), None);
    assert_eq!(strip("xout=", "out="), None);
    assert!(same_text("raw", "raw"));
    assert!(!same_text("raws", "raw"));
    assert!(!same_text("ra", "raw"));
}

#[test]
fn numbered_file_names() {
    assert_eq!(numbered_name("captures/frame_", 7, 3, ".jpg"), "captures/frame_007.jpg");
    assert_eq!(numbered_name("f_", 1234, 3, ""), "f_1234");
    assert_eq!(numbered_name("", 0, 0, ".x"), "0.x");
    assert_eq!(numbered_name("o_", 0, 2, ".jpg"), "o_00.jpg");
    for n in [0usize, 9, 10, 99, 100, 65535] {
        assert_eq!(numbered_name("", n, 2, ""), format!("{n:02}"));
        assert_eq!(parse_number(&numbered_name("", n, 6, ""), u64::MAX), Some(n as u64));
    }
}

#[test]
fn lists_of_numbers() {
    assert_eq!(parse_nums("point=1,2", "point=", 2), Ok(Some(vec![1, 2])));
    assert_eq!(parse_nums("roi=1,2,3,4", "roi=", 4), Ok(Some(vec![1, 2, 3, 4])));
    assert_eq!(parse_nums("roi=1,2", "point=", 2), Ok(None));
    assert_eq!(parse_nums("point=1", "point=", 2), Err(NumsError::WrongCount));
    assert_eq!(parse_nums("point=1,2,3", "point=", 2), Err(NumsError::WrongCount));
    assert_eq!(parse_nums("point=1,x", "point=", 2), Err(NumsError::BadValue));
    assert_eq!(parse_nums("point=1,2,", "point=", 2), Err(NumsError::BadValue));
    assert_eq!(parse_nums("point=", "point=", 2), Err(NumsError::BadValue));
    assert_eq!(parse_nums("point=1,4294967296", "point=", 2), Err(NumsError::BadValue));
}

#[test]
fn default_options() {
    let o = Options::parse(&args(&[])).ok().unwrap();
    assert_eq!(o.frames_wanted, 3);
    assert_eq!(o.out_dir, "captures");
    assert!(o.points.is_empty() && o.rois.is_empty() && o.temps_file.is_none());
    assert!(!o.needs_radiometric());
}

#[test]
fn options_of_the_example() {
    let o = Options::parse(&args(&["frames=1", "out=/tmp", "point=120,160", "roi=0,0,240,320"]))
        .ok()
        .unwrap();
    assert_eq!(o.frames_wanted, 1);
    assert_eq!(o.out_dir, "/tmp");
    assert_eq!(o.points, vec![(120, 160)]);
    assert_eq!(o.rois, vec![(0, 0, 240, 320)]);
    assert!(o.needs_radiometric());
}

#[test]
fn later_options_override_and_lists_add_up() {
    let o = Options::parse(&args(&[
        "frames=1",
        "frames=0",
        "point=1,2",
        "temps=a.csv",
        "point=3,4",
        "temps=b.csv",
    ]))
    .ok()
    .unwrap();
    assert_eq!(o.frames_wanted, 0);
    assert_eq!(o.points, vec![(1, 2), (3, 4)]);
    assert_eq!(o.temps_file, Some("b.csv".to_string()));
}

#[test]
fn option_errors() {
    assert_eq!(
        Options::parse(&args(&["frames=x"])).err(),
        Some(ArgError::BadFrames { at: 0 })
    );
    assert_eq!(
        Options::parse(&args(&["out=a", "point=1"])).err(),
        Some(ArgError::BadList { at: 1, kind: ListKind::Point, error: NumsError::WrongCount })
    );
    assert_eq!(
        Options::parse(&args(&["roi=1,2,3,x"])).err(),
        Some(ArgError::BadList { at: 0, kind: ListKind::Roi, error: NumsError::BadValue })
    );
    assert_eq!(
        Options::parse(&args(&["out=a", "help", "frames=x"])).err(),
        Some(ArgError::Unknown { at: 1 })
    );
}

#[test]
fn dump_arguments() {
    let a = DumpArgs::parse(&args(&["2", "1", "333333", "jpeg", "out"])).ok().unwrap();
    assert_eq!((a.format, a.frame, a.interval), (2, 1, 333_333));
    assert_eq!((a.mode.as_str(), a.out.as_str()), ("jpeg", "out"));
    let err = |list: &[&str]| DumpArgs::parse(&args(list)).err();
    assert_eq!(err(&["2", "1", "333333", "jpeg"]), Some(DumpArgError::Usage));
    assert_eq!(err(&["256", "x", "1", "jpeg", "o"]), Some(DumpArgError::BadFormat));
    assert_eq!(err(&["2", "x", "y", "jpeg", "o"]), Some(DumpArgError::BadFrame));
    assert_eq!(err(&["2", "1", "-1", "jpeg", "o"]), Some(DumpArgError::BadInterval));
    assert_eq!(dump_mode("jpeg"), Some(DumpMode::Jpeg));
    assert_eq!(dump_mode("raw"), Some(DumpMode::Raw));
    assert_eq!(dump_mode("png"), None);
}

#[test]
fn regions_to_search() {
    assert_eq!(parse_regions(&args(&[])), Some(vec![(0, 0, 480, 640, 100)]));
    assert_eq!(parse_regions(&args(&["1", "2", "3", "4"])), Some(vec![(0, 0, 480, 640, 100)]));
    assert_eq!(
        parse_regions(&args(&["1", "2", "3", "4", "5", "6", "7", "8", "9", "10", "x"])),
        Some(vec![(1, 2, 3, 4, 5), (6, 7, 8, 9, 10)])
    );
    assert_eq!(parse_regions(&args(&["1", "2", "x", "4", "5"])), None);
}

#[test]
fn first_phase_learns_the_length() {
    let mut p = PhaseA::new(&[1, 2]);
    let mut sent = Vec::new();
    for r in [data(&[]), data(&[]), data(&[5, 0, 0, 0]), data(&[1, 0xec, 0, 0, 0])] {
        sent.push(p.pending().unwrap());
        p.reply(&r);
    }
    assert_eq!(
        sent,
        vec![
            Device::select_command(3, 10),
            Device::xu_set(3, &[1, 2]),
            Device::xu_get_len(3),
            Device::xu_get(3, 5),
        ]
    );
    assert_eq!(p.pending(), None);
    assert_eq!(p.outcome(), Ok(236));
}

#[test]
fn first_phase_errors() {
    let run = |replies: &[Reply]| {
        let mut p = PhaseA::new(&[1]);
        for r in replies {
            p.reply(r);
        }
        assert_eq!(p.pending(), None);
        p.outcome()
    };
    let e = TransferError::Pipe;
    let failed = || Reply::Failed(TransferError::Pipe);
    assert_eq!(run(&[failed()]), Err(PhaseError::Select(e)));
    assert_eq!(run(&[data(&[]), failed()]), Err(PhaseError::Request(e)));
    assert_eq!(run(&[data(&[]), data(&[]), failed()]), Err(PhaseError::Length(e)));
    assert_eq!(
        run(&[data(&[]), data(&[]), data(&[234])]),
        Err(PhaseError::UnexpectedLength(234))
    );
    assert_eq!(run(&[data(&[]), data(&[]), data(&[5]), failed()]), Err(PhaseError::Head(e)));
}

#[test]
fn chunks_are_collected() {
    let mut c = ChunkCollector::new(6);
    assert_eq!(c.missing(), 6);
    c.push(&[2, 1, 0, 0, 0, 10, 11]);
    c.push(&[7, 8]);
    c.push(&[2, 0, 0, 0, 0]);
    assert_eq!((c.collected(), c.missing()), (4, 2));
    c.push(&[2, 3, 0, 0, 0, 12, 13, 14]);
    assert_eq!((c.collected(), c.missing()), (7, 0));
    assert_eq!(c.payload(), vec![10, 11, 7, 8, 12, 13]);
}

#[test]
fn chunk_numbers_are_watched() {
    let mut c = ChunkCollector::new(100);
    assert_eq!(c.push_numbered(&[2, 1, 0, 0, 0, 10]), None);
    assert_eq!(c.push_numbered(&[2, 2, 0, 0, 0]), None);
    assert_eq!(c.push_numbered(&[2, 5, 0, 0, 0, 11]), Some((2, 5)));
    assert_eq!(c.push_numbered(&[2, 1, 0, 0, 0, 12]), None);
    assert_eq!(c.push_numbered(&[9, 9]), None);
    assert_eq!(c.last_number(), 1);
    assert_eq!(c.missing(), 95);
    assert_eq!(c.all(), vec![10, 11, 12, 9, 9]);
}

#[test]
fn short_collection_stays_whole() {
    let mut c = ChunkCollector::new(10);
    c.push(&[1, 2]);
    assert_eq!(c.payload(), vec![1, 2]);
}

#[test]
fn picture_in_a_capture() {
    let mut out = vec![1u8];
    for v in [4u32, 120, 160, 76800] {
        out.extend_from_slice(&v.to_le_bytes());
    }
    out.extend_from_slice(&[0; 10]);
    out.extend_from_slice(&[0xff, 0xd8, 0xff, 0xd9]);
    assert_eq!(
        picture_head(&out),
        PictureHead { tag: 1, jpeg_len: 4, fields: (120, 160, 76800) }
    );
    assert_eq!(find_soi(&out), Some(27));
    assert_eq!(find_soi(&[0xff]), None);
    assert_eq!(find_soi(&[0, 0xff, 0xff, 0xd8, 0xff, 0xd8]), Some(2));
    assert_eq!(picture_at(&out, 27, 4), Some(vec![0xff, 0xd8, 0xff, 0xd9]));
    assert_eq!(picture_at(&out, 27, 5), None);
}

#[test]
fn temperatures_at_the_end() {
    let mut out = vec![0u8; 3];
    for i in 0..19200u32 {
        out.extend_from_slice(&(i as f32).to_le_bytes());
    }
    let t = tail_samples(&out).unwrap();
    let as_float = |b: u32| f32::from_bits(b);
    assert_eq!(
        [as_float(t.0), as_float(t.1), as_float(t.2), as_float(t.3), as_float(t.4)],
        [0.0, 100.0, 5000.0, 10000.0, 19199.0]
    );
    assert_eq!(tail_samples(&out[3..]), None);
}

#[test]
fn selector_dump_reads_everything() {
    let mut d = SelectorDump::new(3);
    assert_eq!(d.pending(), Some(Device::xu_read(0x86, 3, 1)));
    assert_eq!(d.reply(&data(&[3])), DumpLine::Info(3, true, true));
    assert_eq!(d.pending(), Some(Device::xu_read(0x85, 3, 2)));
    assert_eq!(d.reply(&data(&[2, 0])), DumpLine::Length(2));
    for request in [0x81u8, 0x82, 0x83, 0x84, 0x87] {
        assert_eq!(d.pending(), Some(Device::xu_read(request, 3, 2)));
        if request == 0x84 {
            assert_eq!(d.reply(&Reply::Failed(TransferError::Pipe)), DumpLine::NoValue);
        } else {
            assert_eq!(d.reply(&data(&[request, 1])), DumpLine::Value(request, vec![request, 1]));
        }
    }
    assert_eq!(d.pending(), None);
}

#[test]
fn selector_dump_stops_early() {
    let e = TransferError::Pipe;
    let mut d = SelectorDump::new(1);
    assert_eq!(d.reply(&Reply::Failed(e)), DumpLine::InfoFailed(e));
    assert_eq!(d.pending(), None);
    let mut d = SelectorDump::new(1);
    assert_eq!(d.reply(&data(&[2])), DumpLine::Info(2, false, true));
    assert_eq!(d.reply(&Reply::Failed(e)), DumpLine::LengthFailed(e));
    assert_eq!(d.pending(), None);
    for len in [0u16, 4097] {
        let mut d = SelectorDump::new(1);
        assert_eq!(d.reply(&data(&[1])), DumpLine::Info(1, true, false));
        assert_eq!(d.reply(&data(&len.to_le_bytes())), DumpLine::Length(len));
        assert_eq!(d.pending(), None);
    }
    let mut d = SelectorDump::new(1);
    d.reply(&data(&[1]));
    d.reply(&data(&4096u16.to_le_bytes()));
    assert!(d.pending().is_some());
}

#[test]
fn bulk_reads_are_counted() {
    let mut s = BulkStats::new();
    for _ in 0..10 {
        assert!(s.count(&[2, 0]));
    }
    assert!(!s.count(&[2, 0x02]));
    assert!(s.count(&[2, 0x82, 0, 0]));
    assert!(!s.count(&[2]));
    assert_eq!((s.reads, s.total, s.frame_marks), (13, 27, 2));
}

#[test]
fn different_bytes_have_different_dumps() {
    let mut seen = Vec::new();
    for bytes in [vec![], vec![0], vec![0, 0], vec![1], vec![0x10], vec![0, 1], vec![1, 0]] {
        let text = hex(&bytes);
        assert!(!seen.contains(&text), "{bytes:?}");
        seen.push(text);
    }
}

#[test]
fn different_numbers_have_different_names() {
    let names: Vec<String> = (0..1200).map(|n| numbered_name("f1", n, 3, "0.jpg")).collect();
    for n in 1..names.len() {
        assert!(!names[..n].contains(&names[n]));
    }
}

#[test]
fn written_lists_are_read_back() {
    for nums in [vec![0u32, 7], vec![4294967295, 10], vec![120, 160]] {
        let arg = format!("point={},{}", nums[0], nums[1]);
        assert_eq!(parse_nums(&arg, "point=", 2), Ok(Some(nums)));
    }
}

#[test]
fn split_parts_join_to_the_text() {
    for text in ["", ",", "a", "a,b", ",a,,b,"] {
        assert_eq!(split_commas(text).join(","), text);
    }
}

#[test]
fn first_phase_begins_a_whole_search() {
    let mut p = PhaseA::new(&[1, 2]);
    let mut d = Device::double_get(3, 10, &[1, 2]);
    for r in [data(&[]), data(&[]), data(&[5]), data(&[1, 9, 0, 0, 0])] {
        assert_eq!(p.pending(), d.pending());
        p.reply(&r);
        d.reply(&r);
    }
    assert_eq!(p.outcome(), Ok(9));
    assert_eq!(d.pending(), Some(Device::xu_get(3, 512)));
}

#[test]
fn first_phase_with_any_head() {
    let mut p = PhaseA::with_any_head(9, &[1]);
    assert_eq!(p.pending(), Some(Device::select_command(3, 9)));
    for r in [data(&[]), data(&[]), data(&[7])] {
        p.reply(&r);
    }
    assert_eq!(p.phase(), HeadPhase::Head { len: 7 });
    assert_eq!(p.pending(), Some(Device::xu_get(3, 7)));
    p.reply(&data(&[1, 3, 0, 0, 0, 8]));
    assert_eq!(p.outcome(), Ok(3));
    assert_eq!(p.head(), vec![1, 3, 0, 0, 0, 8, 0]);
    let mut p = PhaseA::with_any_head(9, &[1]);
    for r in [data(&[]), data(&[]), data(&[4]), data(&[1, 2])] {
        p.reply(&r);
    }
    assert_eq!(p.outcome(), Err(PhaseError::ShortHead(4)));
}

#[test]
fn chunk_numbers_at_their_limit() {
    let mut c = ChunkCollector::new(100);
    assert_eq!(c.push_numbered(&[2, 0xff, 0xff, 0xff, 0xff]), Some((0, u32::MAX)));
    assert_eq!(c.push_numbered(&[2, 0, 0, 0, 0]), Some((u32::MAX, 0)));
    assert_eq!(c.push_numbered(&[2, 1, 0, 0, 0]), None);
    assert_eq!(c.total(), 100);
}

#[test]
fn reads_of_a_selector() {
    assert_eq!(
        brute_reads(4),
        vec![
            Device::xu_read(0x81, 4, 512),
            Device::xu_read(0x82, 4, 512),
            Device::xu_read(0x83, 4, 512),
            Device::xu_read(0x87, 4, 512),
        ]
    );
    assert_eq!(
        streaming_reads(4),
        vec![
            Device::xu_read(0x86, 4, 1),
            Device::xu_read(0x85, 4, 2),
            Device::xu_get(4, 512),
        ]
    );
    assert_eq!(shown_value(&data(&[1, 2])), Some(vec![1, 2]));
    assert_eq!(shown_value(&data(&[])), None);
    assert_eq!(shown_value(&Reply::Failed(TransferError::Pipe)), None);
}

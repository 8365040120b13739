//! Bluetooth logs.

use logcrab::filetype::btsnoop::{
    convert_packets, has_date, packet_timestamp, parse_btsnoop_to_lines,
    try_parse_btsnoop_to_lines, BtPacket, BtsnoopFileType, BtsnoopLogLine, HciPacketInfo,
};
use logcrab::filetype::{CalibrationResult, LineType, SimpleFileState};
use logcrab::time::{TimeSpan, Timestamp};

/// Microseconds from the year 0 to 1970.
const EPOCH: i64 = 0x00dc_ddb3_0f2f_8000;

fn decode(p: &BtPacket, t: Timestamp) -> Option<HciPacketInfo> {
    if p.data.is_empty() {
        return None;
    }
    Some(HciPacketInfo {
        timestamp: t,
        message: format!("HCI {}", p.data[0]),
        raw: format!("HCI {} of {}", p.data.len(), p.original_length),
    })
}

fn span_text(d: TimeSpan) -> String {
    format!("{} ms", d.num_milliseconds())
}

fn log(packets: &[(i64, Vec<u8>)]) -> Vec<u8> {
    let mut d = b"btsnoop\0".to_vec();
    d.extend_from_slice(&1u32.to_be_bytes());
    d.extend_from_slice(&1002u32.to_be_bytes());
    for (t, data) in packets {
        d.extend_from_slice(&(data.len() as u32).to_be_bytes());
        d.extend_from_slice(&(data.len() as u32).to_be_bytes());
        d.extend_from_slice(&0u32.to_be_bytes());
        d.extend_from_slice(&0u32.to_be_bytes());
        d.extend_from_slice(&t.to_be_bytes());
        d.extend_from_slice(data);
    }
    d
}

fn packet(t: i64, data: Vec<u8>) -> BtPacket {
    BtPacket {
        timestamp_microseconds: t,
        direction: 0,
        command: 0,
        original_length: data.len() as u32,
        data,
    }
}

#[test]
fn bluetooth_log_is_read() {
    let d = log(&[(EPOCH + 1_500_000, vec![7, 8]), (EPOCH, vec![]), (EPOCH + 2_000_000, vec![9])]);
    let lines = try_parse_btsnoop_to_lines(&d, &decode).unwrap().unwrap();
    assert_eq!(lines.len(), 2);
    assert_eq!(lines[0].hci_info.timestamp, Timestamp { secs: 1, nanos: 500_000_000 });
    assert_eq!(lines[0].message(), "HCI 7");
    assert_eq!(lines[0].raw(), "HCI 2 of 2");
    assert_eq!(lines[0].line_number(), 1);
    assert_eq!(lines[1].message(), "HCI 9");
    assert_eq!(lines[1].line_number(), 3);
    assert_eq!(parse_btsnoop_to_lines(&d, &decode).unwrap().len(), 2);
}

#[test]
fn other_bytes_are_refused() {
    assert!(try_parse_btsnoop_to_lines(b"not a log", &decode).unwrap().is_err());
}

#[test]
fn log_without_packets_has_no_lines() {
    assert!(try_parse_btsnoop_to_lines(&log(&[(EPOCH, vec![])]), &decode)
        .unwrap()
        .unwrap()
        .is_empty());
}

#[test]
fn packets_before_1970_are_refused() {
    assert!(!has_date(&packet(EPOCH - 1, vec![1])));
    assert!(try_parse_btsnoop_to_lines(&log(&[(EPOCH - 1, vec![1])]), &decode).is_none());
}

#[test]
fn dates_of_packets_are_read() {
    assert!(has_date(&packet(EPOCH, vec![1])));
    assert_eq!(packet_timestamp(&packet(EPOCH, vec![1])), Timestamp { secs: 0, nanos: 0 });
    assert_eq!(
        packet_timestamp(&packet(EPOCH + 1_674_874_116_395_644, vec![1])),
        Timestamp { secs: 1_674_874_116, nanos: 395_644_000 }
    );
    let lines = convert_packets(&vec![packet(EPOCH, vec![3])], &decode);
    assert_eq!(lines[0].message(), "HCI 3");
}

#[test]
fn bluetooth_lines_show_an_offset() {
    let info = decode(&packet(EPOCH, vec![3]), Timestamp { secs: 10, nanos: 0 }).unwrap();
    let line = BtsnoopLogLine::new(info, 4);
    let mut state = SimpleFileState { time_offset_ms: -250, calibration: None };
    assert_eq!(line.timestamp(&(), &state), Timestamp { secs: 9, nanos: 750_000_000 });
    assert_eq!(line.display_message(&(), &mut state, &span_text), "[-250 ms] HCI 3");
    state.set_time_offset_ms(0);
    assert_eq!(line.display_message(&(), &mut state, &span_text), "HCI 3");
    line.start_calibration(&mut state);
    assert_eq!(state.calibration.unwrap().0, Timestamp { secs: 10, nanos: 0 });
    let result = CalibrationResult::Confirmed {
        target_time: Timestamp { secs: 7, nanos: 500_000_000 },
        apply_to_all_apps: false,
    };
    assert!(state.can_finish_calibration(result));
    assert!(state.finish_calibration(result));
    assert_eq!(state.time_offset_ms, -2500);
    assert_eq!(line.timestamp(&(), &state), Timestamp { secs: 7, nanos: 500_000_000 });
    line.start_calibration(&mut state);
    assert!(!state.finish_calibration(CalibrationResult::Cancelled));
    assert!(state.calibration.is_none());
    assert!(!state.finish_calibration(CalibrationResult::Pending));
    assert_eq!(BtsnoopLogLine::file_state_from_v2(5).time_offset_ms(), 5);
}

#[test]
fn bluetooth_file_is_handed_out_in_chunks() {
    let d = log(&[(EPOCH, vec![1]), (EPOCH, vec![2]), (EPOCH, vec![3])]);
    let lines = try_parse_btsnoop_to_lines(&d, &decode).unwrap().unwrap();
    let mut file = BtsnoopFileType::open(lines, 12);
    assert_eq!(file.read(2).len(), 2);
    assert_eq!(file.progress(), (2, 3));
    assert_eq!(file.read(9).len(), 1);
    assert!(file.read(9).is_empty());
    assert_eq!(file.file_size(), 12);
}

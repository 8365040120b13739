//! Logs of control units.

use logcrab::config::DltTimestampSource;
use logcrab::filetype::dlt::boot_times::BootTimes;
use logcrab::filetype::dlt::file::DltFileType;
use logcrab::filetype::dlt::line::DltLogLine;
use logcrab::filetype::dlt::message::{
    DltArgument, DltExtendedHeader, DltMessage, DltPayload, DltStorageHeader, DltValue,
};
use logcrab::filetype::dlt::reader::{
    convert_dlt_message, storage_time_to_datetime, DltBatch, DltRead,
};
use logcrab::filetype::dlt::state::{DltFileState, SyncPanelAction, SyncPoint};
use logcrab::filetype::{CalibrationResult, LineType};
use logcrab::loader::chunked::{ChunkedLoader, LoadEnd};
use logcrab::store::source::SourceData;
use logcrab::time::{TimeSpan, Timestamp};

fn s(t: &str) -> String {
    t.to_string()
}

fn at(secs: i64) -> Timestamp {
    Timestamp { secs, nanos: 0 }
}

fn span_text(d: TimeSpan) -> String {
    format!("{} ms", d.num_milliseconds())
}

fn message(seconds: u32, ticks: Option<u32>, payload: DltPayload) -> DltMessage {
    DltMessage {
        storage_header: Some(DltStorageHeader { seconds, microseconds: 0, ecu_id: s("STO") }),
        ecu_id: Some(s("ECU1")),
        session_id: Some(7),
        timestamp: ticks,
        extended_header: Some(DltExtendedHeader {
            message_type: s("Log(Info)"),
            application_id: s("APP"),
            context_id: s("CTX"),
        }),
        payload,
        detail: s("detail"),
    }
}

fn text_payload(t: &str) -> DltPayload {
    DltPayload::Verbose(vec![DltArgument { name: None, value: DltValue::Text(s(t)) }])
}

fn state() -> DltFileState {
    DltFileState::restore(0, &vec![], vec![])
}

#[test]
fn payloads_are_written() {
    let args = DltPayload::Verbose(vec![
        DltArgument { name: Some(s("n")), value: DltValue::Unsigned(5) },
        DltArgument { name: None, value: DltValue::Signed(-6) },
        DltArgument { name: None, value: DltValue::Raw(vec![1, 0xab]) },
        DltArgument { name: None, value: DltValue::Float(s("1.5")) },
    ]);
    let line = convert_dlt_message(message(1, None, args), 1).unwrap();
    assert_eq!(line.message(), "ECU1 7 APP CTX Log(Info) n: 5 || -6 || [01, ab] || 1.5");
    let line = convert_dlt_message(message(1, None, DltPayload::NonVerbose(vec![0x0f])), 1).unwrap();
    assert_eq!(line.message(), "ECU1 7 APP CTX Log(Info) [0f]");
    let line = convert_dlt_message(message(1, None, DltPayload::ControlMsg(vec![])), 1).unwrap();
    assert_eq!(line.message(), "ECU1 7 APP CTX Log(Info) ControlMsg: []");
    let line = convert_dlt_message(message(1, None, DltPayload::NetworkTrace(3)), 1).unwrap();
    assert_eq!(line.message(), "ECU1 7 APP CTX Log(Info) NetworkTrace: 3 traces");
}

#[test]
fn incomplete_messages_are_left_out() {
    let mut m = message(1, None, text_payload("x"));
    m.extended_header = None;
    assert!(convert_dlt_message(m, 1).is_none());
    let mut m = message(1, None, text_payload("x"));
    m.storage_header = None;
    assert!(convert_dlt_message(m, 1).is_none());
    let mut m = message(1, Some(20), text_payload("x"));
    m.ecu_id = None;
    let line = convert_dlt_message(m, 9).unwrap();
    assert_eq!(line.ecu_id, "");
    assert_eq!(line.header_timestamp_us, Some(2_000));
    assert_eq!(line.line_number(), 9);
    assert!(line.message().starts_with("UnknownECU 7 "));
}

#[test]
fn storage_times_are_read() {
    assert_eq!(storage_time_to_datetime(5, 250), Some(Timestamp { secs: 5, nanos: 250_000 }));
    assert_eq!(storage_time_to_datetime(5, 2_000_000), None);
}

#[test]
fn lines_go_by_the_start_of_their_sender() {
    let line = convert_dlt_message(message(100, Some(10_000), text_payload("x")), 1).unwrap();
    let mut st = state();
    let inferred = DltTimestampSource::InferredMonotonic;
    assert_eq!(line.timestamp(&DltTimestampSource::StorageTime, &st), at(100));
    assert_eq!(line.timestamp(&inferred, &st), at(100));
    st.seed_boot_time(&s("ECU1"), &s("APP"), at(50));
    assert_eq!(line.timestamp(&inferred, &st), at(51));
    st.seed_boot_time(&s("ECU1"), &s("APP"), at(60));
    assert_eq!(line.timestamp(&inferred, &st), at(51));
    assert!(line.display_message(&inferred, &mut st, &span_text).contains("(49000 ms) STO]"));
}

#[test]
fn sync_points_hold_from_their_lines_on() {
    let points = vec![
        SyncPoint { from_line: 5, offset_ms: 100 },
        SyncPoint { from_line: 10, offset_ms: -3 },
    ];
    let st = DltFileState::restore(1, &vec![], points);
    assert_eq!(st.sync_point_offset_ms(4), 0);
    assert_eq!(st.sync_point_offset_ms(5), 100);
    assert_eq!(st.sync_point_offset_ms(9), 100);
    assert_eq!(st.sync_point_offset_ms(10), -3);
    assert_eq!(st.storage_offset_ms(), 1);
    assert_eq!(st.sync_point_list().len(), 2);
}

#[test]
fn panel_changes_sync_points() {
    let points = vec![
        SyncPoint { from_line: 5, offset_ms: 100 },
        SyncPoint { from_line: 10, offset_ms: -3 },
    ];
    let mut st = DltFileState::restore(0, &vec![], points);
    st.toggle_sync_points_window();
    assert!(st.shows_sync_points());
    assert!(!st.apply_panel_action(SyncPanelAction::Jump(1)));
    assert_eq!(st.take_pending_jump_line(), Some(9));
    assert_eq!(st.take_pending_jump_line(), None);
    assert!(st.apply_panel_action(SyncPanelAction::Edit(0, 42)));
    assert_eq!(st.sync_point_offset_ms(5), 42);
    assert!(st.apply_panel_action(SyncPanelAction::Remove(0)));
    assert_eq!(st.sync_point_offset_ms(5), 0);
    assert!(st.apply_panel_action(SyncPanelAction::ClearAll));
    assert!(st.sync_point_list().is_empty());
    assert!(!st.apply_panel_action(SyncPanelAction::Close));
    assert!(!st.shows_sync_points());
}

#[test]
fn calibration_moves_a_log() {
    let line = convert_dlt_message(message(100, None, text_payload("x")), 1).unwrap();
    let config = DltTimestampSource::StorageTime;
    let mut st = state();
    assert!(line.can_start_calibration(&config, &st));
    line.start_calibration(&config, &mut st);
    assert_eq!(st.calibration_window().unwrap().target_time, at(100));
    let confirmed = CalibrationResult::Confirmed { target_time: at(130), apply_to_all_apps: false };
    assert!(st.can_finish_calibration(confirmed));
    assert!(st.finish_calibration(confirmed));
    assert_eq!(st.storage_offset_ms(), 30_000);
    assert!(st.calibration_window().is_none());
    assert_eq!(line.timestamp(&config, &st), at(130));
    assert!(!st.finish_calibration(CalibrationResult::Pending));
}

#[test]
fn calibration_sets_start_times() {
    let line = convert_dlt_message(message(100, Some(10_000), text_payload("x")), 1).unwrap();
    let config = DltTimestampSource::InferredMonotonic;
    let mut st = state();
    st.seed_boot_time(&s("ECU1"), &s("APP"), at(50));
    st.seed_boot_time(&s("ECU1"), &s("OTHER"), at(40));
    line.start_calibration(&config, &mut st);
    assert!(st.calibration_window().unwrap().asks_for_all_apps);
    let confirmed = CalibrationResult::Confirmed { target_time: at(201), apply_to_all_apps: true };
    assert!(st.finish_calibration(confirmed));
    assert_eq!(st.boot_time(&s("ECU1"), &s("APP")), Some(at(200)));
    assert_eq!(st.boot_time(&s("ECU1"), &s("OTHER")), Some(at(200)));
    assert_eq!(line.timestamp(&config, &st), at(201));
}

#[test]
fn sync_calibration_adds_a_point() {
    let line = convert_dlt_message(message(100, None, text_payload("x")), 6).unwrap();
    let config = DltTimestampSource::StorageTime;
    let mut st = state();
    line.start_sync_calibration(&config, &mut st);
    assert!(st.sync_calibration_window().is_some());
    let confirmed = CalibrationResult::Confirmed { target_time: at(103), apply_to_all_apps: false };
    assert!(st.can_finish_sync_calibration(confirmed));
    assert!(st.finish_sync_calibration(confirmed));
    assert_eq!(st.sync_point_list(), vec![SyncPoint { from_line: 6, offset_ms: 3_000 }]);
    assert!(st.shows_sync_points());
    assert_eq!(line.timestamp(&config, &st), at(103));
    line.start_sync_calibration(&config, &mut st);
    assert!(!st.finish_sync_calibration(CalibrationResult::Cancelled));
    assert!(st.sync_calibration_window().is_none());
}

#[test]
fn start_times_are_kept_and_come_back() {
    let mut b = BootTimes::new();
    b.insert(s("E"), s("A"), at(1));
    b.insert_if_absent(&s("E"), &s("A"), at(2));
    b.insert_if_absent(&s("E"), &s("B"), at(3));
    assert_eq!(b.get(&s("E"), &s("A")), Some(at(1)));
    let saved = b.to_saved();
    assert_eq!(saved.len(), 2);
    let back = BootTimes::from_saved(&saved);
    assert_eq!(back.get(&s("E"), &s("A")), Some(at(1)));
    assert_eq!(back.get(&s("E"), &s("B")), Some(at(3)));
    assert_eq!(back.get(&s("X"), &s("B")), None);
    b.set_all_apps(&s("E"), at(9));
    assert_eq!(b.duplicate().get(&s("E"), &s("B")), Some(at(9)));
    assert_eq!(back.get(&s("E"), &s("B")), Some(at(3)));
}

#[test]
fn batches_end_in_time() {
    let mut st = state();
    let mut batch = DltBatch::new(2, 1);
    assert!(batch.wants_more());
    batch.take(&mut st, DltRead::Skipped);
    batch.take(&mut st, DltRead::Failed);
    batch.take(&mut st, DltRead::Message(message(100, Some(10_000), text_payload("a"))));
    batch.take(&mut st, DltRead::Message(message(200, Some(20_000), text_payload("b"))));
    assert!(!batch.wants_more());
    let (lines, next) = batch.into_lines();
    assert_eq!(lines.len(), 2);
    assert_eq!(lines[1].line_number(), 2);
    assert_eq!(next, 3);
    assert_eq!(st.boot_time(&s("ECU1"), &s("APP")), Some(at(99)));

    let mut batch = DltBatch::new(2, 1);
    batch.take(&mut st, DltRead::End);
    assert!(!batch.wants_more());
    let mut batch = DltBatch::new(0, 1);
    assert!(!batch.wants_more());
    let (lines, next) = { batch.take(&mut st, DltRead::End); batch.into_lines() };
    assert!(lines.is_empty());
    assert_eq!(next, 1);

    let mut batch = DltBatch::new(1, 1);
    let mut n = 0;
    while batch.wants_more() {
        batch.take(&mut st, DltRead::Failed);
        n += 1;
    }
    assert_eq!(n, 74);
}

#[test]
fn lines_show_their_offset() {
    let line = convert_dlt_message(message(100, None, text_payload("hello")), 1).unwrap();
    let config = DltTimestampSource::StorageTime;
    let mut st = DltFileState::restore(500, &vec![], vec![]);
    let shown = line.display_message(&config, &mut st, &span_text);
    assert!(shown.contains("500 ms"));
    assert!(shown.ends_with("ECU1 7 APP CTX Log(Info) hello"));
    assert_eq!(line.raw(), "detail");
    assert_eq!(DltLogLine::file_state_from_v2(11).storage_offset_ms(), 11);
    assert_eq!(st.duplicate().storage_offset_ms(), 500);
    assert!(st.saved_boot_times().is_empty());
}

fn stored(seconds: u32, message: &[u8]) -> Vec<u8> {
    let mut d = b"DLT\x01".to_vec();
    d.extend_from_slice(&seconds.to_le_bytes());
    d.extend_from_slice(&250u32.to_le_bytes());
    d.extend_from_slice(b"STO\0");
    d.extend_from_slice(message);
    d
}

fn log_message(ticks: u32, arguments: &[Vec<u8>]) -> Vec<u8> {
    let payload: Vec<u8> = arguments.concat();
    let mut d = vec![0x35, 0];
    d.extend_from_slice(&((22 + payload.len()) as u16).to_be_bytes());
    d.extend_from_slice(b"ECU1");
    d.extend_from_slice(&ticks.to_be_bytes());
    d.extend_from_slice(&[0x41, arguments.len() as u8]);
    d.extend_from_slice(b"APP\0CTX\0");
    d.extend_from_slice(&payload);
    d
}

fn number(kind: u32, bytes: &[u8]) -> Vec<u8> {
    let mut d = kind.to_le_bytes().to_vec();
    d.extend_from_slice(bytes);
    d
}

fn words(t: &str) -> Vec<u8> {
    let mut d = 0x200u32.to_le_bytes().to_vec();
    d.extend_from_slice(&((t.len() + 1) as u16).to_le_bytes());
    d.extend_from_slice(t.as_bytes());
    d.push(0);
    d
}

#[test]
fn control_message_is_read() {
    let d: Vec<u8> = vec![
        0x44, 0x4c, 0x54, 0x01, 0x26, 0x2c, 0xc9, 0x4d, 0xd8, 0xa2, 0x0c, 0x00, 0x45, 0x43, 0x55,
        0x00, 0x35, 0x00, 0x00, 0x1f, 0x45, 0x43, 0x55, 0x00, 0x3f, 0x88, 0x62, 0x3a, 0x16, 0x01,
        0x41, 0x50, 0x50, 0x00, 0x43, 0x4f, 0x4e, 0x00, 0x11, 0x00, 0x00, 0x00, 0x04, 0x72, 0x65,
        0x6d, 0x6f,
    ];
    let mut st = state();
    let mut cut_off = DltFileType::open(d[..46].to_vec());
    assert!(cut_off.read(5, &mut st).is_empty());
    let mut file = DltFileType::open(d);
    let lines = file.read(5, &mut st);
    assert_eq!(lines.len(), 1);
    assert_eq!(
        lines[0].message(),
        "ECU 0 APP CON Control(Request) ControlMsg: [00, 00, 00, 04, 72, 65, 6d, 6f]"
    );
    assert_eq!(lines[0].storage_time, Timestamp { secs: 0x4dc9_2c26, nanos: 0x000c_a2d8 * 1000 });
    assert_eq!(lines[0].header_timestamp_us, Some(0x3f88_623a * 100));
    assert_eq!(file.progress(), (47, 47));
}

#[test]
fn arguments_are_read() {
    let arguments = vec![
        number(0x43, &7u32.to_le_bytes()),
        number(0x21, &(-3i8).to_le_bytes()),
        number(0x83, &1.5f32.to_le_bytes()),
        number(0x11, &[1]),
        words("hello"),
    ];
    let mut file = DltFileType::open(stored(100, &log_message(10_000, &arguments)));
    let mut st = state();
    let lines = file.read(1, &mut st);
    assert_eq!(lines.len(), 1);
    assert_eq!(lines[0].message(), "ECU1 0 APP CTX Log(Info) 7 || -3 || 1.5 || 1 || hello");
    assert!(lines[0].raw().starts_with("Message {"));
    assert_eq!(lines[0].dlt_message.storage_header.as_ref().unwrap().ecu_id, "STO");
    assert_eq!(
        st.boot_time(&s("ECU1"), &s("APP")),
        Some(Timestamp { secs: 99, nanos: 250_000 })
    );
}

#[test]
fn file_is_read_in_batches() {
    let mut d = b"DLT\x00 and rubbish".to_vec();
    for i in 0..3u32 {
        d.extend_from_slice(&stored(i, &log_message(1, &[words("m")])));
    }
    d.extend_from_slice(b"DLT\x01cut off");
    let mut file = DltFileType::open(d);
    let mut st = state();
    let first = file.read(2, &mut st);
    assert_eq!(first.len(), 2);
    assert_eq!(first[1].line_number(), 2);
    let second = file.read(2, &mut st);
    assert_eq!(second.len(), 1);
    assert_eq!(second[0].line_number(), 3);
    assert_eq!(second[0].storage_time.secs, 2);
    assert!(file.read(2, &mut st).is_empty());
    let (at, all) = file.progress();
    assert_eq!(at, all);
}

#[test]
fn broken_messages_are_passed_over() {
    let mut d = stored(1, &[0x35, 0, 0, 3]);
    d.extend_from_slice(&stored(2, &[0x35, 0, 0, 5, 9]));
    d.extend_from_slice(&stored(3, &log_message(1, &[words("ok")])));
    let mut file = DltFileType::open(d);
    let mut st = state();
    let lines = file.read(5, &mut st);
    assert_eq!(lines.len(), 1);
    assert!(lines[0].message().ends_with(" ok"));
}

#[test]
fn headers_are_looked_for_in_steps_of_their_length() {
    let mut st = state();
    let mut d = b"seven b".to_vec();
    d.extend_from_slice(&stored(1, &log_message(1, &[words("hidden")])));
    assert!(DltFileType::open(d).read(5, &mut st).is_empty());
    let mut d = b"sixteen bytes...".to_vec();
    d.extend_from_slice(&stored(1, &log_message(1, &[words("found")])));
    assert_eq!(DltFileType::open(d).read(5, &mut st).len(), 1);
    let mut d = stored(1, &log_message(1, &[words("whole")]));
    let cut_off = stored(2, &log_message(1, &[words("cut off")]));
    d.extend_from_slice(&cut_off[..cut_off.len() - 1]);
    let mut file = DltFileType::open(d);
    assert_eq!(file.read(1, &mut st).len(), 1);
    assert!(file.read(1, &mut st).is_empty());
    let (at, all) = file.progress();
    assert_eq!(at, all);
}

#[test]
fn loaded_logs_are_in_time_order() {
    let mut d = Vec::new();
    for (seconds, ticks) in [(100, 900_000), (101, 100_000), (102, 950_000), (103, 50_000)] {
        d.extend_from_slice(&stored(seconds, &log_message(ticks, &[words("m")])));
    }
    let loader =
        ChunkedLoader { initial_chunk_size: 1, max_chunk_size: 1, chunks_before_growth: 1 };
    for (config, order) in [
        (DltTimestampSource::StorageTime, vec![0, 1, 2, 3]),
        (DltTimestampSource::InferredMonotonic, vec![3, 1, 0, 2]),
    ] {
        let mut sd: SourceData<DltLogLine> =
            SourceData::new(1, s("f"), s("f"), config, state(), &vec![], true);
        let mut file = DltFileType::open(d.clone());
        let end = loader.run(&mut file, &mut sd, "f", &|| false, &|_: String| {});
        assert_eq!(end, LoadEnd::Done { loaded: true });
        let found = sd.filter_sorted_by_search(&span_text, &|_: &str, _: &str| true, &|| false);
        assert_eq!(found, Some(order));
    }
}

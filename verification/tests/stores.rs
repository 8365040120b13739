//! Log files in one order of time.

use logcrab::config::DltTimestampSource;
use logcrab::filetype::btsnoop::{BtsnoopLogLine, HciPacketInfo};
use logcrab::filetype::dlt::line::DltLogLine;
use logcrab::filetype::dlt::message::{
    DltArgument, DltExtendedHeader, DltMessage, DltPayload, DltStorageHeader, DltValue,
};
use logcrab::filetype::dlt::reader::convert_dlt_message;
use logcrab::filetype::dlt::state::DltFileState;
use logcrab::filetype::SimpleFileState;
use logcrab::store::crab::{
    crab_file_name, open_crab_file, open_source, CrabFile, CrabOpening, SessionError,
};
use logcrab::store::ids::{SourceIds, StoreID, StoreVersion};
use logcrab::store::kway::merge_lists;
use logcrab::store::log_store::LogStore;
use logcrab::store::order::{merge, sort_from};
use logcrab::store::scores::ScoreStore;
use logcrab::store::source::{Bookmark, SourceData};
use logcrab::store::variant::{DataSourceVariant, GlobalFileConfig};
use logcrab::time::{TimeSpan, Timestamp};
use std::cmp::Ordering;

fn s(t: &str) -> String {
    t.to_string()
}

fn at(secs: i64) -> Timestamp {
    Timestamp { secs, nanos: 0 }
}

fn span_text(d: TimeSpan) -> String {
    format!("{} ms", d.num_milliseconds())
}

fn never() -> bool {
    false
}

fn always() -> bool {
    true
}

fn line(secs: i64, text: &str, number: usize) -> BtsnoopLogLine {
    BtsnoopLogLine::new(
        HciPacketInfo { timestamp: at(secs), message: s(text), raw: format!("raw {text}") },
        number,
    )
}

fn lines(times: &[i64]) -> Vec<BtsnoopLogLine> {
    times.iter().enumerate().map(|(i, t)| line(*t, &format!("line {i}"), i + 1)).collect()
}

fn source(id: u64, times: &[i64]) -> SourceData<BtsnoopLogLine> {
    let state = SimpleFileState { time_offset_ms: 0, calibration: None };
    let mut sd = SourceData::new(
        id,
        format!("/logs/file{id}"),
        format!("file{id}"),
        (),
        state,
        &vec![],
        true,
    );
    sd.append_lines(lines(times));
    sd
}

fn dlt_line(seconds: u32, ticks: u32, number: usize) -> DltLogLine {
    let m = DltMessage {
        storage_header: Some(DltStorageHeader { seconds, microseconds: 0, ecu_id: s("E") }),
        ecu_id: Some(s("E")),
        session_id: None,
        timestamp: Some(ticks),
        extended_header: Some(DltExtendedHeader {
            message_type: s("T"),
            application_id: s("A"),
            context_id: s("C"),
        }),
        payload: DltPayload::Verbose(vec![DltArgument {
            name: None,
            value: DltValue::Text(s("x")),
        }]),
        detail: s("d"),
    };
    convert_dlt_message(m, number).unwrap()
}

fn found(sd: &mut SourceData<BtsnoopLogLine>) -> Vec<usize> {
    sd.filter_sorted_by_search(&span_text, &|_: &str, _: &str| true, &never).unwrap()
}

fn store() -> LogStore {
    let mut st = LogStore::new();
    st.add_source(DataSourceVariant::Btsnoop(source(1, &[10, 30, 20])));
    st.add_source(DataSourceVariant::Btsnoop(source(2, &[20, 5])));
    st
}

#[test]
fn lines_are_put_in_order() {
    assert_eq!(sort_from(&vec![at(3), at(1), at(3), at(2)], 0), vec![1, 3, 0, 2]);
    assert_eq!(sort_from(&vec![at(3), at(1), at(3), at(2)], 2), vec![3, 2]);
    let times = vec![at(1), at(5), at(1), at(3)];
    assert_eq!(merge(&times, &vec![0, 1], &vec![2, 3]), vec![0, 2, 3, 1]);
    assert_eq!(merge(&times, &vec![], &vec![2, 3]), vec![2, 3]);
}

#[test]
fn many_lines_are_put_in_order() {
    let times: Vec<Timestamp> = (0..20_000i64).map(|i| at((i * 7919) % 1000)).collect();
    let order = sort_from(&times, 0);
    for w in order.windows(2) {
        let (a, b) = (times[w[0]], times[w[1]]);
        assert!(a.is_before(&b) || (a == b && w[0] < w[1]));
    }
    assert_eq!(order.len(), 20_000);
}

#[test]
fn appended_lines_keep_the_order_of_time() {
    let mut sd = source(1, &[10, 30, 20]);
    assert_eq!(found(&mut sd), vec![0, 2, 1]);
    let v = sd.version();
    sd.append_lines(lines(&[25, 10]));
    assert_eq!(found(&mut sd), vec![0, 4, 2, 3, 1]);
    assert_eq!(sd.version(), v + 1);
    sd.append_lines(vec![]);
    assert_eq!(sd.version(), v + 1);
    assert_eq!(sd.len(), 5);
    assert!(!sd.is_empty());
}

#[test]
fn lines_are_put_in_order_anew() {
    let state = DltFileState::restore(0, &vec![(s("E\u{1f}A"), at(0))], vec![]);
    let mut sd: SourceData<DltLogLine> = SourceData::new(
        1,
        s("f"),
        s("f"),
        DltTimestampSource::StorageTime,
        state,
        &vec![],
        true,
    );
    sd.append_lines(vec![dlt_line(100, 50_000, 1), dlt_line(200, 40_000, 2)]);
    assert_eq!(sd.adjusted_timestamp(0), Some(at(100)));
    let mut st = LogStore::new();
    st.add_source(DataSourceVariant::Dlt(sd));
    let all = st.get_matching_ids(&span_text, &|_: &str, _: &str| true, &never).unwrap();
    assert_eq!(all, vec![StoreID::make(1, 0), StoreID::make(1, 1)]);
    let mut config = GlobalFileConfig::default();
    config.dlt = DltTimestampSource::InferredMonotonic;
    assert!(st.check_timed_with(&config));
    st.rebuild_all_time_indices(&config);
    let all = st.get_matching_ids(&span_text, &|_: &str, _: &str| true, &never).unwrap();
    assert_eq!(all, vec![StoreID::make(1, 1), StoreID::make(1, 0)]);
    assert_eq!(st.adjusted_timestamp(&StoreID::make(1, 1)), Some(at(4)));
}

#[test]
fn lines_are_shown_and_searched() {
    let mut sd = source(1, &[10, 30]);
    let shown = sd.get_as_log_line(1, &span_text).unwrap();
    assert_eq!(shown.timestamp, at(30));
    assert_eq!(shown.message, "line 1");
    assert_eq!(shown.raw, "raw line 1");
    assert_eq!(shown.line_number, 2);
    assert!(sd.get_as_log_line(2, &span_text).is_none());
    let hits = sd.filter_sorted_by_search(
        &span_text,
        &|shown: &str, raw: &str| shown == "line 1" && raw == "raw line 1",
        &never,
    );
    assert_eq!(hits, Some(vec![1]));
    assert_eq!(
        sd.filter_sorted_by_search(&span_text, &|_: &str, _: &str| true, &always),
        None
    );
    assert_eq!(sd.get_sidecar_message(0), Some((10_000, s("line 0"))));
    assert_eq!(sd.get_sidecar_message(9), None);
    assert_eq!(source(1, &[-5]).get_sidecar_message(0), Some((0, s("line 0"))));
    assert!(sd.check_timed() && sd.check_searchable());
}

#[test]
fn bookmarks_are_kept() {
    let mut sd = source(1, &[10, 30]);
    assert!(!sd.has_bookmark(1));
    sd.set_bookmark(1, s("a"));
    sd.set_bookmark(1, s("b"));
    assert!(sd.has_bookmark(1));
    assert_eq!(sd.get_bookmark(1).unwrap().name, "b");
    assert_eq!(sd.get_bookmarks().len(), 1);
    assert_eq!(sd.remove_bookmark(1).unwrap().name, "b");
    assert!(sd.remove_bookmark(1).is_none());
    assert!(sd.get_bookmarks().is_empty());
}

#[test]
fn frames_end() {
    let mut sd = source(7, &[10, 30]);
    let v = sd.version();
    assert_eq!(sd.finish_frame(false, Some(1)), (false, Some(StoreID::make(7, 1))));
    assert_eq!(sd.version(), v);
    assert_eq!(sd.finish_frame(true, None), (true, None));
    assert_eq!(sd.version(), v + 1);
}

#[test]
fn saved_bookmarks_are_restored() {
    let mut sd = source(1, &[10, 30]);
    sd.set_bookmark(0, s("first"));
    sd.set_bookmark(1, s("second"));
    let (filters, highlights): (Vec<u8>, Vec<u8>) = (vec![1], vec![2]);
    let record = sd.crab_record(3, &filters, &highlights).unwrap();
    assert_eq!(record.version, 3);
    let crab = CrabFile {
        version: 3,
        bookmarks: record.bookmarks,
        filters: filters.clone(),
        highlights: highlights.clone(),
        file_state: SimpleFileState { time_offset_ms: 8, calibration: None },
    };
    let opening = open_crab_file(Ok(crab), "f.crab");
    let (back, f, h, w) = open_source::<BtsnoopLogLine, u8, u8>(
        2,
        s("f"),
        s("f"),
        (),
        SimpleFileState { time_offset_ms: 0, calibration: None },
        Some(opening),
    );
    assert_eq!(back.get_bookmark(0).unwrap().name, "first");
    assert_eq!(back.get_bookmark(1).unwrap().name, "second");
    assert_eq!(back.file_state().time_offset_ms, 8);
    assert!(back.can_save());
    assert_eq!((f, h, w), (vec![1], vec![2], None));
}

#[test]
fn session_files_are_opened() {
    let o: CrabOpening<u8> = open_crab_file(Err(SessionError::UnexpectedEof), "p");
    assert!(o.keeps_lock && o.data.is_none() && o.warning.is_none());
    let o: CrabOpening<u8> = open_crab_file(Err(SessionError::Parse), "p");
    assert!(o.keeps_lock && o.data.is_none() && o.warning.is_none());
    let o: CrabOpening<u8> = open_crab_file(Err(SessionError::Io), "p");
    assert!(o.keeps_lock && o.data.is_none() && o.warning.is_none());
    let o: CrabOpening<u8> =
        open_crab_file(Err(SessionError::VersionTooNew { found: 12, supported: 3 }), "p");
    assert!(!o.keeps_lock);
    assert_eq!(
        o.warning.as_deref(),
        Some(".crab file p was written by a newer LogCrab (v12, app supports up to v3); bookmarks and file state not loaded")
    );
    let o: CrabOpening<u8> = open_crab_file(
        Err(SessionError::StateVersionTooNew { slug: s("dlt"), found: 5, supported: 4 }),
        "p",
    );
    assert!(!o.keeps_lock && o.data.is_none());
    assert_eq!(
        o.warning.as_deref(),
        Some(".crab file p: dlt state was written by a newer LogCrab (state v5, app supports up to v4); calibration and file state not loaded")
    );
    assert_eq!(crab_file_name("a.log"), "a.log.crab");
}

#[test]
fn locked_files_are_read_only() {
    let (sd, f, h, w) = open_source::<BtsnoopLogLine, u8, u8>(
        2,
        s("/x/f"),
        s("f"),
        (),
        SimpleFileState { time_offset_ms: 0, calibration: None },
        None,
    );
    assert!(!sd.can_save());
    assert!(sd.crab_record(1, &f, &h).is_none());
    assert_eq!(
        w.as_deref(),
        Some("'f' is already open in another LogCrab instance \u{2014} opened read-only (bookmarks and filters not loaded)")
    );
    let newer: CrabOpening<CrabFile<u8, u8, SimpleFileState>> =
        open_crab_file(Err(SessionError::VersionTooNew { found: 2, supported: 1 }), "p");
    let (sd, ..) = open_source::<BtsnoopLogLine, u8, u8>(
        2,
        s("f"),
        s("f"),
        (),
        SimpleFileState { time_offset_ms: 0, calibration: None },
        Some(newer),
    );
    assert!(sd.crab_record(1, &f, &h).is_none());
}

#[test]
fn of_two_saved_bookmarks_the_later_counts() {
    let marks = vec![
        Bookmark { line_index: 4, name: s("a") },
        Bookmark { line_index: 4, name: s("b") },
    ];
    let sd: SourceData<BtsnoopLogLine> = SourceData::new(
        1,
        s("f"),
        s("f"),
        (),
        SimpleFileState { time_offset_ms: 0, calibration: None },
        &marks,
        true,
    );
    assert_eq!(sd.get_bookmarks().len(), 1);
    assert_eq!(sd.get_bookmark(4).unwrap().name, "b");
}

#[test]
fn sources_are_merged_by_time() {
    let mut st = store();
    let all = st.get_matching_ids(&span_text, &|_: &str, _: &str| true, &never).unwrap();
    let want: Vec<StoreID> = [(2, 1), (1, 0), (1, 2), (2, 0), (1, 1)]
        .iter()
        .map(|(a, b)| StoreID::make(*a, *b))
        .collect();
    assert_eq!(all, want);
    assert!(st.get_matching_ids(&span_text, &|_: &str, _: &str| true, &always).is_none());
    let only = st.get_matching_ids(&span_text, &|m: &str, _: &str| m == "line 1", &never).unwrap();
    assert_eq!(only, vec![StoreID::make(2, 1), StoreID::make(1, 1)]);
}

#[test]
fn lists_are_merged() {
    let id = StoreID::make;
    let merged = merge_lists(
        &vec![
            vec![(at(2), id(1, 0)), (at(4), id(1, 1))],
            vec![],
            vec![(at(2), id(3, 0)), (at(3), id(3, 1))],
        ],
        &never,
    );
    assert_eq!(merged, Some(vec![id(1, 0), id(3, 0), id(3, 1), id(1, 1)]));
    let st = store();
    let gone = st.merge_sorted_sources(&vec![vec![id(9, 0), id(1, 0)], vec![id(1, 99)]], &never);
    assert_eq!(gone, Some(vec![id(1, 0)]));
}

#[test]
fn sources_come_and_go() {
    let mut st = store();
    let v = st.version();
    assert_eq!(v, StoreVersion { sources: 3, lines: 4 });
    assert_eq!(st.total_lines(), 5);
    assert_eq!(st.get_source_filenames(), vec![(1, s("file1")), (2, s("file2"))]);
    assert_eq!(st.get_source_file_paths(), vec!["/logs/file1", "/logs/file2"]);
    assert_eq!(st.get_source_name(&StoreID::make(2, 0)).as_deref(), Some("file2"));
    let absolute = |p: &String| {
        std::path::absolute(p).ok().map(|a| a.to_string_lossy().into_owned())
    };
    assert_eq!(
        st.get_source_path(&StoreID::make(2, 0), &absolute).as_deref(),
        Some("/logs/file2")
    );
    let mounted = |p: &String| Some(format!("/mnt{p}"));
    assert_eq!(
        st.get_source_path(&StoreID::make(2, 0), &mounted).as_deref(),
        Some("/mnt/logs/file2")
    );
    assert_eq!(
        st.get_source_path(&StoreID::make(2, 0), &|_: &String| None).as_deref(),
        Some("/logs/file2")
    );
    assert_eq!(st.get_source_path(&StoreID::make(5, 0), &mounted), None);
    assert_eq!(st.get_source_name(&StoreID::make(5, 0)), None);
    st.add_source(DataSourceVariant::Btsnoop(source(3, &[1])));
    assert_eq!(st.remove_source(1).as_deref(), Some("/logs/file1"));
    assert_eq!(st.get_source_filenames(), vec![(2, s("file2")), (3, s("file3"))]);
    assert_eq!(st.remove_source(1), None);
    assert_ne!(st.version(), v);
    st.add_source(DataSourceVariant::Btsnoop(source(2, &[1, 2, 3])));
    assert_eq!(st.get_source_filenames(), vec![(2, s("file2")), (3, s("file3"))]);
    assert_eq!(st.total_lines(), 4);
}

#[test]
fn files_are_found_by_path() {
    let st = store();
    let none = vec![None, None];
    assert!(st.contains_file(&s("/logs/file2"), &None, &none));
    assert!(!st.contains_file(&s("/logs/file3"), &None, &none));
    let known = vec![Some(s("/real/1")), None];
    assert!(st.contains_file(&s("x"), &Some(s("/real/1")), &known));
    assert!(!st.contains_file(&s("/logs/file1"), &Some(s("/real/9")), &known));
    assert!(st.contains_file(&s("/logs/file2"), &Some(s("/real/9")), &known));
}

#[test]
fn scores_are_kept_by_source() {
    let mut st = store();
    assert_eq!(st.get_score(1, 0), 0);
    st.set_scores(1, &[7, 8]);
    assert_eq!(st.get_score(1, 1), 8);
    assert_eq!(st.get_score(1, 2), 0);
    assert_eq!(st.get_score(2, 1), 0);
    assert!(!st.has_sidecar_scores(1));
    st.set_sidecar_scores(2, &[5]);
    assert!(st.has_sidecar_scores(2));
    assert!(!st.get_sidecar_scored(2, 0));
    st.set_sidecar_scores_with_unk(1, &[9, 4], &[true, false], &[false, true], &[true, true]);
    assert_eq!(st.get_sidecar_score(1, 0), 9);
    assert!(st.get_sidecar_unk(1, 0) && !st.get_sidecar_unk(1, 1));
    assert!(st.get_sidecar_rare(1, 1) && st.get_sidecar_scored(1, 1));
    assert!(!st.get_sidecar_scored(1, 2));
    let shown = st.get_by_id(&StoreID::make(1, 0), &span_text).unwrap();
    assert_eq!((shown.anomaly_score, shown.sidecar_anomaly_score), (7, 9));
    assert!(shown.sidecar_score_is_unk && shown.sidecar_scored && !shown.sidecar_score_is_rare);
    assert!(st.get_by_id(&StoreID::make(1, 3), &span_text).is_none());
    assert!(st.get_by_id(&StoreID::make(4, 0), &span_text).is_none());
    st.remove_source(1);
    assert_eq!(st.get_score(1, 1), 0);
    assert!(!st.has_sidecar_scores(1));
}

#[test]
fn score_stores_grow() {
    let mut sc = ScoreStore::new();
    sc.set_all_with_unk(&[1], &[true], &[true], &[true]);
    let copy = sc.duplicate();
    sc.resize(3);
    assert_eq!(sc.get_all(0), (1, true, true, true));
    assert_eq!(sc.get_all(2), (0, false, false, false));
    sc.set_all(&[4, 5]);
    assert_eq!(sc.get_all(0), (4, false, false, false));
    assert_eq!(copy.get(0), 1);
    sc.resize(1);
    assert_eq!(sc.get(1), 5);
}

#[test]
fn bookmarks_are_kept_by_source() {
    let mut st = store();
    let id = StoreID::make(2, 1);
    st.set_bookmark(&id, s("here"));
    st.set_bookmark(&StoreID::make(9, 1), s("nowhere"));
    assert!(st.has_bookmark(&id));
    assert!(!st.has_bookmark(&StoreID::make(9, 1)));
    let b = st.get_bookmark(&id).unwrap();
    assert_eq!((b.store_id, b.name.as_str()), (id, "here"));
    let all = st.get_all_bookmarks();
    assert_eq!(all.len(), 1);
    assert_eq!(all[0].store_id, id);
    assert_eq!(st.remove_bookmark(&id).unwrap().name, "here");
    assert!(st.remove_bookmark(&id).is_none());
    assert!(st.get_all_bookmarks().is_empty());
}

#[test]
fn closest_line_is_found() {
    let st = store();
    let list = vec![
        StoreID::make(2, 1),
        StoreID::make(1, 0),
        StoreID::make(1, 2),
        StoreID::make(1, 1),
    ];
    assert_eq!(st.find_closest_line_position_by_time(&vec![], at(0)), None);
    assert_eq!(st.find_closest_line_position_by_time(&list, at(0)), Some(0));
    assert_eq!(st.find_closest_line_position_by_time(&list, at(99)), Some(3));
    assert_eq!(st.find_closest_line_position_by_time(&list, at(14)), Some(1));
    assert_eq!(st.find_closest_line_position_by_time(&list, at(15)), Some(1));
    assert_eq!(st.find_closest_line_position_by_time(&list, at(16)), Some(2));
    assert_eq!(st.find_closest_line_position_by_time(&list, at(20)), Some(2));
}

#[test]
fn lines_are_compared() {
    let st = store();
    let id = StoreID::make;
    assert_eq!(id(2, 1).cmp(&id(1, 0), &st), Ordering::Less);
    assert_eq!(id(1, 1).cmp(&id(1, 0), &st), Ordering::Greater);
    assert_eq!(id(1, 2).cmp(&id(2, 0), &st), Ordering::Less);
    assert_eq!(id(1, 2).cmp(&id(1, 2), &st), Ordering::Equal);
    assert_eq!(id(1, 2).cmp(&id(7, 0), &st), Ordering::Less);
    assert_eq!(id(7, 0).cmp(&id(1, 2), &st), Ordering::Greater);
    assert_eq!(id(7, 0).cmp(&id(7, 1), &st), Ordering::Less);
}

#[test]
fn lines_are_made_ready_for_scoring() {
    let st = store();
    let lines = st
        .get_sidecar_input_lines_for_source(1, &|m: &str| m.to_uppercase())
        .unwrap();
    assert_eq!(lines.len(), 3);
    assert_eq!(lines[1].line_id.source_id, 0);
    assert_eq!(lines[1].line_id.line_number, 1);
    assert_eq!(lines[1].line_id.timestamp_unix_ms, 30_000);
    assert_eq!(lines[1].message, "line 1");
    assert_eq!(lines[1].template_key.as_deref(), Some("LINE 1"));
    assert_eq!(lines[1].source_file, None);
    assert_eq!(lines[1].filetype.as_deref(), Some("btsnoop"));
    assert!(st.get_sidecar_input_lines_for_source(8, &|m: &str| m.to_string()).is_none());
}

#[test]
fn frames_of_all_sources_end() {
    let mut st = store();
    let v = st.version();
    let r = st.finish_frames(&vec![(false, Some(2)), (true, None)]);
    assert_eq!(r, (true, Some(StoreID::make(1, 2))));
    assert_eq!(st.version().lines, v.lines + 1);
    let r = st.finish_frames(&vec![(false, Some(2)), (false, Some(1))]);
    assert_eq!(r, (false, Some(StoreID::make(2, 1))));
    assert!(st.check_timed() && st.check_searchable());
}

#[test]
fn numbers_of_sources_are_used_once() {
    let mut ids = SourceIds::new();
    assert_eq!(ids.allocate(), 1);
    assert_eq!(ids.allocate(), 2);
}

#[test]
fn sources_keep_the_order_in_which_they_came() {
    let mut st = LogStore::new();
    for id in [4, 2, 9, 7] {
        st.add_source(DataSourceVariant::Btsnoop(source(id, &[1])));
    }
    st.set_scores(4, &[5]);
    st.set_scores(9, &[6]);
    assert_eq!(st.remove_source(4), Some(s("/logs/file4")));
    assert_eq!(
        st.get_source_filenames(),
        vec![(2, s("file2")), (9, s("file9")), (7, s("file7"))]
    );
    assert_eq!(st.remove_source(9), Some(s("/logs/file9")));
    assert_eq!(st.get_source_filenames(), vec![(2, s("file2")), (7, s("file7"))]);
    let version = st.version();
    assert_eq!(st.remove_source(9), None);
    assert_eq!(st.version(), version);
    assert_eq!(st.get_score(4, 0), 0);
    assert!(st.get_by_id(&StoreID::make(9, 0), &span_text).is_none());
    assert_eq!(st.get_by_id(&StoreID::make(7, 0), &span_text).unwrap().message, "line 0");
}

#[test]
fn searches_are_cancelled() {
    let yes = |_: &str, _: &str| true;
    let mut empty = source(1, &[]);
    assert_eq!(empty.filter_sorted_by_search(&span_text, &yes, &always), Some(vec![]));
    let mut nothing = LogStore::new();
    assert_eq!(nothing.get_matching_ids(&span_text, &yes, &always), Some(vec![]));
    let mut st = store();
    assert_eq!(st.get_matching_ids(&span_text, &yes, &always), None);
    assert_eq!(st.get_matching_ids(&span_text, &yes, &never).unwrap().len(), 5);
    assert_eq!(st.merge_sorted_sources(&vec![vec![], vec![]], &always), Some(vec![]));
    assert_eq!(st.merge_sorted_sources(&vec![vec![StoreID::make(1, 0)]], &always), None);
    assert_eq!(merge_lists(&vec![vec![]], &always), Some(vec![]));
    assert_eq!(merge_lists(&vec![vec![(at(1), StoreID::make(1, 0))]], &always), None);
}

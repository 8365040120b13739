//! Loading and scoring.

use logcrab::filetype::btsnoop::{BtsnoopFileType, BtsnoopLogLine, HciPacketInfo};
use logcrab::filetype::{LineType, SimpleFileState};
use logcrab::loader::chunked::{
    ChunkedLoader, InputFileType, LoadAction, LoadEnd, LoadEvent, LoadState,
};
use logcrab::loader::heuristic::{pad_scores, score_heuristic};
use logcrab::loader::log_file::{AfterLoad, FileKind, LogFileLoader};
use logcrab::sidecar::explain::{
    poll_status, AttentionMessage, ExplainAction, ExplainEvent, ExplainPhase, ExplainPollStatus,
    ExplainSession, ExplanationMessage, Received, TemplateEntry,
};
use logcrab::sidecar::model::{
    model_info, ChunkPolicyMessage, InputLine, ModelMessage, OutputInfo, SampleLabel,
    SidecarClient, TrainingCorpus,
};
use logcrab::sidecar::run::{RunAction, RunPhase, SidecarRun};
use logcrab::sidecar::scoring::{prepare_input_lines, wanted_sidecar, ScoreSheet, ScoringConfig};
use logcrab::sidecar::stream::{
    after_wait, before_wait, handle_server_msg, score_frames, ClientFrame, ScoreError,
    ScoreStreamResult, ScoredMessage, ServerPayload, StreamEvent, LINES_PER_CHUNK,
};
use logcrab::store::log_store::LogStore;
use logcrab::store::source::{LogLine, SourceData};
use logcrab::store::variant::DataSourceVariant;
use logcrab::time::{TimeSpan, Timestamp};
use std::collections::HashMap;

fn s(t: &str) -> String {
    t.to_string()
}

fn never() -> bool {
    false
}

fn always() -> bool {
    true
}

fn span_text(d: TimeSpan) -> String {
    format!("{} ms", d.num_milliseconds())
}

fn five_times(bits: u64) -> u64 {
    (f64::from_bits(bits) * 5.0).to_bits()
}

fn lines(n: usize) -> Vec<BtsnoopLogLine> {
    (0..n)
        .map(|i| {
            BtsnoopLogLine::new(
                HciPacketInfo {
                    timestamp: Timestamp { secs: i as i64, nanos: 0 },
                    message: format!("m{i}"),
                    raw: format!("r{i}"),
                },
                i + 1,
            )
        })
        .collect()
}

fn source(n: usize) -> SourceData<BtsnoopLogLine> {
    let mut sd = SourceData::new(
        70_000,
        s("/x/f"),
        s("f"),
        (),
        SimpleFileState { time_offset_ms: 0, calibration: None },
        &vec![],
        true,
    );
    sd.append_lines(lines(n));
    sd
}

fn input(i: usize) -> InputLine {
    InputLine::new(1, i, 5, format!("m{i}"), None, None, Some(s("pcap")))
}

fn scored(line: Option<u64>, score: f64, unk: bool) -> ScoredMessage {
    ScoredMessage {
        line_number: line,
        score: score.to_bits(),
        target_is_unk: unk,
        target_is_rare: !unk,
    }
}

#[test]
fn chunks_grow() {
    let loader = ChunkedLoader::standard();
    let mut state = loader.start();
    assert_eq!(state, LoadState { chunk_size: 8192, chunk_count: 0 });
    let mut sd = source(0);
    let mut sizes = Vec::new();
    for i in 0..20 {
        sizes.push(state.chunk_size);
        let action = loader.step(&mut state, &mut sd, "f", LoadEvent::Lines(lines(1)));
        match action {
            LoadAction::Report { status } => {
                assert_eq!(status, format!("Loading f\u{2026} ({} lines)", i + 1));
            }
            other => panic!("{other:?}"),
        }
    }
    assert_eq!(
        sizes,
        vec![
            8192, 8192, 8192, 16384, 16384, 16384, 32768, 32768, 32768, 65536, 65536, 65536, 131072,
            131072, 131072, 262144, 262144, 262144, 262144, 262144
        ]
    );
    assert_eq!(sd.len(), 20);
}

#[test]
fn growth_can_be_switched_off() {
    let loader =
        ChunkedLoader { initial_chunk_size: 2, max_chunk_size: 100, chunks_before_growth: 0 };
    let mut state = loader.start();
    let mut sd = source(0);
    for _ in 0..5 {
        loader.step(&mut state, &mut sd, "f", LoadEvent::Lines(lines(1)));
    }
    assert_eq!(state, LoadState { chunk_size: 2, chunk_count: 5 });
}

#[test]
fn loading_ends() {
    let loader = ChunkedLoader::standard();
    let mut state = loader.start();
    let mut sd = source(0);
    let r = loader.step(&mut state, &mut sd, "f", LoadEvent::Ready { cancelled: false });
    assert!(matches!(r, LoadAction::Read(8192)));
    let r = loader.step(&mut state, &mut sd, "f", LoadEvent::Ready { cancelled: true });
    assert!(matches!(r, LoadAction::Done { loaded: false }));
    let r = loader.step(&mut state, &mut sd, "f", LoadEvent::Lines(vec![]));
    assert!(matches!(r, LoadAction::Done { loaded: false }));
    loader.step(&mut state, &mut sd, "f", LoadEvent::Lines(lines(1)));
    let r = loader.step(&mut state, &mut sd, "f", LoadEvent::Lines(vec![]));
    assert!(matches!(r, LoadAction::Done { loaded: true }));
    match loader.step(&mut state, &mut sd, "f", LoadEvent::Failed(s("bad"))) {
        LoadAction::Fail { error } => assert_eq!(error, "Read error: bad"),
        other => panic!("{other:?}"),
    }
}

#[test]
fn files_are_read_to_their_end() {
    let loader =
        ChunkedLoader { initial_chunk_size: 2, max_chunk_size: 8, chunks_before_growth: 1 };
    let mut file = BtsnoopFileType::open(lines(17), 100);
    let mut sd = source(0);
    let reports = std::cell::RefCell::new(Vec::new());
    let end = loader.run(&mut file, &mut sd, "f", &never, &|t: String| {
        reports.borrow_mut().push(t);
    });
    assert_eq!(end, LoadEnd::Done { loaded: true });
    assert_eq!(sd.len(), 17);
    assert_eq!(sd.line(16).unwrap().line_number(), 17);
    assert_eq!(
        reports.into_inner(),
        vec![
            "Loading f\u{2026} (2 lines)",
            "Loading f\u{2026} (6 lines)",
            "Loading f\u{2026} (14 lines)",
            "Loading f\u{2026} (17 lines)"
        ]
    );
    let mut file = BtsnoopFileType::open(lines(17), 100);
    let mut sd = source(0);
    let end = loader.run(&mut file, &mut sd, "f", &always, &|_: String| {});
    assert_eq!(end, LoadEnd::Done { loaded: false });
    assert_eq!(file.progress(), (0, 17));
}

#[test]
fn lines_out_of_the_calendar_are_refused() {
    let loader = ChunkedLoader::standard();
    let mut file = BtsnoopFileType::open(lines(1), 100);
    let mut sd = source(0);
    sd.file_state_mut().set_time_offset_ms(i64::MAX);
    assert!(file.check_read(1));
    let end = loader.run(&mut file, &mut sd, "f", &never, &|_: String| {});
    assert_eq!(end, LoadEnd::OutOfRange);
    assert_eq!(sd.len(), 0);
}

#[test]
fn kinds_of_files_are_told() {
    assert_eq!(LogFileLoader::detect(b"DLT\x01rest"), FileKind::Dlt);
    assert_eq!(LogFileLoader::detect(b"btsnoop\0"), FileKind::Btsnoop);
    assert_eq!(LogFileLoader::detect(b"btsnoop"), FileKind::Text);
    assert_eq!(LogFileLoader::detect(&[0x0a, 0x0d, 0x0d, 0x0a]), FileKind::Pcap);
    assert_eq!(LogFileLoader::detect(&[0xa1, 0xb2, 0xc3, 0xd4, 1]), FileKind::Pcap);
    assert_eq!(LogFileLoader::detect(b"plain"), FileKind::Text);
    assert_eq!(LogFileLoader::detect(&[]), FileKind::Text);
}

#[test]
fn loaded_files_are_scored_or_removed() {
    assert_eq!(LogFileLoader::after_load(true, true, false), AfterLoad::Remove);
    assert_eq!(LogFileLoader::after_load(false, true, false), AfterLoad::Score);
    assert_eq!(LogFileLoader::after_load(false, false, true), AfterLoad::TellNoLines);
    assert_eq!(LogFileLoader::after_load(false, false, false), AfterLoad::Keep);
    assert_eq!(LogFileLoader::after_scoring(true), AfterLoad::Remove);
    assert_eq!(LogFileLoader::after_scoring(false), AfterLoad::Keep);
    assert_eq!(LogFileLoader::open_error("gone"), "Failed to open file: gone");
}

#[test]
fn lines_are_scored_by_those_before_them() {
    let mut sd = source(13);
    let score = |seen: &u64, l: &LogLine| seen * 100 + l.line_number as u64;
    let update = |seen: u64, _: &LogLine| seen + 1;
    let normalize = |raw: &Vec<u64>| raw.iter().map(|x| x + 1).collect::<Vec<u64>>();
    let r = score_heuristic(&mut sd, 0u64, &score, &update, &normalize, &span_text, &never);
    let mut want = vec![0; 10];
    want.extend_from_slice(&[1012, 1113, 1214]);
    assert_eq!(r, Some(want));
    let r = score_heuristic(&mut sd, 0u64, &score, &update, &normalize, &span_text, &always);
    assert_eq!(r, None);
    let mut short = source(3);
    let r = score_heuristic(&mut short, 0u64, &score, &update, &normalize, &span_text, &never);
    assert_eq!(r, Some(vec![0; 3]));
    assert_eq!(pad_scores(11, &vec![5]), vec![0, 0, 0, 0, 0, 0, 0, 0, 0, 0, 5]);
    assert_eq!(pad_scores(10, &vec![]), vec![0; 10]);
    let mut empty = source(0);
    let r = score_heuristic(&mut empty, 0u64, &score, &update, &normalize, &span_text, &always);
    assert_eq!(r, Some(vec![]));
}

#[test]
fn lines_are_prepared() {
    let sd = source(3);
    let r = prepare_input_lines(&sd, 70_000, &Some(s("f")), "pcap", &never).unwrap();
    assert_eq!(r.len(), 3);
    assert_eq!(r[2].line_id.source_id, 4464);
    assert_eq!(r[2].line_id.line_number, 2);
    assert_eq!(r[2].line_id.timestamp_unix_ms, 2000);
    assert_eq!(r[2].message, "m2");
    assert_eq!(r[2].template_key, None);
    assert_eq!(r[2].source_file.as_deref(), Some("f"));
    assert_eq!(r[2].filetype.as_deref(), Some("pcap"));
    assert!(prepare_input_lines(&sd, 1, &None, "pcap", &always).is_none());
}

#[test]
fn frames_are_built() {
    let input_lines: Vec<InputLine> = (0..LINES_PER_CHUNK + 1).map(input).collect();
    let frames = score_frames("m", vec![(s("dlt"), 2)], &input_lines, &never).unwrap();
    assert_eq!(frames.len(), 4);
    match &frames[0] {
        ClientFrame::Start { api_version, model_id, filtering_mode, normalization_versions } => {
            assert_eq!(api_version, "2");
            assert_eq!(model_id, "m");
            assert_eq!(filtering_mode, "backend_authoritative");
            assert_eq!(normalization_versions, &vec![(s("dlt"), 2)]);
        }
        other => panic!("{other:?}"),
    }
    match (&frames[1], &frames[2]) {
        (
            ClientFrame::Lines { chunk_index: 0, lines: a },
            ClientFrame::Lines { chunk_index: 1, lines: b },
        ) => {
            assert_eq!(a.len(), 512);
            assert_eq!(b.len(), 1);
            assert_eq!(b[0].line_number, 512);
            assert_eq!(b[0].message, "m512");
            assert_eq!(b[0].filetype.as_deref(), Some("pcap"));
        }
        other => panic!("{other:?}"),
    }
    assert!(matches!(frames[3], ClientFrame::End));
    assert_eq!(score_frames("m", vec![], &[], &never).unwrap().len(), 2);
    let r = score_frames("m", vec![], &[], &always);
    assert_eq!(r.unwrap_err().to_text(), "score stream cancelled");
}

#[test]
fn messages_of_the_service_are_taken() {
    let mut r = ScoreStreamResult::new();
    let o = handle_server_msg(Some(ServerPayload::Accepted { run_id: s("x") }), &mut r).unwrap();
    assert!(!o.complete && o.new_entries.is_none());
    handle_server_msg(
        Some(ServerPayload::Warning { code: s("W1"), message: s("careful") }),
        &mut r,
    )
    .unwrap();
    assert_eq!(r.warnings, vec!["[W1] careful"]);
    let frame = ServerPayload::Scores {
        chunk_index: 0,
        scored: vec![scored(Some(3), 1.0, true), scored(None, 2.0, false), scored(Some(3), 4.0, false)],
    };
    let o = handle_server_msg(Some(frame), &mut r).unwrap();
    assert_eq!(o.new_entries.unwrap().len(), 2);
    assert_eq!(r.scored[&3].score, 4.0f64.to_bits());
    assert!(r.scored[&3].target_is_rare);
    assert_eq!(r.scored[&0].score, 2.0f64.to_bits());
    assert!(handle_server_msg(Some(ServerPayload::Complete), &mut r).unwrap().complete);
    assert!(!handle_server_msg(None, &mut r).unwrap().complete);
    let e = handle_server_msg(
        Some(ServerPayload::Error { code: s("E"), message: s("no") }),
        &mut r,
    )
    .unwrap_err();
    assert_eq!(e.to_text(), "sidecar error [E]: no");
    assert_eq!(r.scored.len(), 2);
}

#[test]
fn waiting_ends() {
    let mut r = ScoreStreamResult::new();
    assert!(before_wait(false).is_ok());
    assert!(matches!(before_wait(true), Err(ScoreError::Cancelled)));
    assert!(!after_wait(StreamEvent::Timeout, &mut r).unwrap().complete);
    let e = after_wait(StreamEvent::Closed, &mut r).unwrap_err();
    assert_eq!(e.to_text(), "sidecar stream closed before Complete frame");
    let e = after_wait(StreamEvent::Failed, &mut r).unwrap_err();
    assert_eq!(e.to_text(), "stream read error");
    assert_eq!(ScoreError::Refused.to_text(), "ScoreStream RPC failed");
}

#[test]
fn sheets_take_scores_over() {
    let mut sheet = ScoreSheet::new(3);
    let mut result = ScoreStreamResult::new();
    for frame in [
        vec![scored(Some(1), 2.0, true), scored(Some(9), 1.0, false)],
        vec![scored(Some(1), 3.0, false), scored(Some(2), 4.0, true)],
    ] {
        let o = handle_server_msg(
            Some(ServerPayload::Scores { chunk_index: 0, scored: frame }),
            &mut result,
        )
        .unwrap();
        sheet.patch(&o.new_entries.unwrap(), &five_times);
        let whole = ScoreSheet::from_result(&result, 3, &five_times);
        assert_eq!(sheet.raw_scores, whole.raw_scores);
        assert_eq!(sheet.unk_flags, whole.unk_flags);
        assert_eq!(sheet.rare_flags, whole.rare_flags);
        assert_eq!(sheet.scored_flags, whole.scored_flags);
    }
    assert_eq!(sheet.raw_scores, vec![0, 15.0f64.to_bits(), 20.0f64.to_bits()]);
    assert_eq!(sheet.unk_flags, vec![false, false, true]);
    assert_eq!(sheet.rare_flags, vec![false, true, false]);
    assert_eq!(sheet.scored_flags, vec![false, true, true]);
    sheet.patch(&HashMap::new(), &five_times);
    assert_eq!(sheet.raw_scores[2], 20.0f64.to_bits());
}

fn config(model: Option<&str>) -> ScoringConfig {
    ScoringConfig {
        use_sidecar: true,
        sidecar_host: s("host"),
        sidecar_port: 99,
        model_id: model.map(s),
    }
}

#[test]
fn scoring_runs_to_its_end() {
    let (mut run, action) = SidecarRun::begin(&config(Some("m")), 2, &five_times);
    match action {
        RunAction::Connect { title, status } => {
            assert_eq!(title, "ML Scoring (m)");
            assert_eq!(status, "Connecting to sidecar...");
        }
        other => panic!("{other:?}"),
    }
    assert!(matches!(run.connected(Ok(())), RunAction::CheckHealth));
    match run.health_checked(Ok(())) {
        RunAction::Prepare { status } => assert_eq!(status, "Preparing lines..."),
        other => panic!("{other:?}"),
    }
    match run.prepared(Some(2)) {
        RunAction::Send { status } => assert_eq!(status, "Scoring 2 lines..."),
        other => panic!("{other:?}"),
    }
    assert!(matches!(run.received(StreamEvent::Timeout, false, &five_times), RunAction::Await));
    let frame = ServerPayload::Scores { chunk_index: 0, scored: vec![scored(Some(1), 2.0, true)] };
    match run.received(StreamEvent::Message(Some(frame)), false, &five_times) {
        RunAction::Keep { status } => assert_eq!(status, "ML scoring... (1/2)"),
        other => panic!("{other:?}"),
    }
    assert_eq!(run.sheet().raw_scores, vec![0, 10.0f64.to_bits()]);
    assert_eq!(run.phase(), RunPhase::Streaming);
    match run.received(StreamEvent::Message(Some(ServerPayload::Complete)), false, &five_times) {
        RunAction::Finish { status } => assert_eq!(status, "ML scoring done!"),
        other => panic!("{other:?}"),
    }
    assert_eq!(run.phase(), RunPhase::Over);
    assert_eq!(run.sheet().raw_scores, vec![0, 10.0f64.to_bits()]);
    assert_eq!(run.result().scored.len(), 1);
}

fn stopped(action: RunAction) -> Option<String> {
    match action {
        RunAction::Stop { error } => error,
        other => panic!("{other:?}"),
    }
}

#[test]
fn scoring_stops_on_errors() {
    let (run, action) = SidecarRun::begin(&config(None), 2, &five_times);
    assert_eq!(run.phase(), RunPhase::Over);
    assert_eq!(stopped(action), None);
    assert!(run.result().warnings.is_empty() && run.result().scored.is_empty());
    let (mut run, _) = SidecarRun::begin(&config(Some("m")), 2, &five_times);
    assert_eq!(
        stopped(run.connected(Err(s("no")))).as_deref(),
        Some("Failed to connect to sidecar at host:99: no")
    );
    let (mut run, _) = SidecarRun::begin(&config(Some("m")), 2, &five_times);
    run.connected(Ok(()));
    assert_eq!(
        stopped(run.health_checked(Err(s("ill")))).as_deref(),
        Some("Sidecar not responding: ill")
    );
    let (mut run, _) = SidecarRun::begin(&config(Some("m")), 2, &five_times);
    run.connected(Ok(()));
    run.health_checked(Ok(()));
    assert_eq!(stopped(run.prepared(None)), None);
    let (mut run, _) = SidecarRun::begin(&config(Some("m")), 2, &five_times);
    run.connected(Ok(()));
    run.health_checked(Ok(()));
    run.prepared(Some(2));
    assert_eq!(
        stopped(run.received(StreamEvent::Closed, false, &five_times)).as_deref(),
        Some("Sidecar scoring error: sidecar stream closed before Complete frame")
    );
    let (mut run, _) = SidecarRun::begin(&config(Some("m")), 2, &five_times);
    run.connected(Ok(()));
    run.health_checked(Ok(()));
    run.prepared(Some(2));
    assert_eq!(stopped(run.failed(&ScoreError::Cancelled, true)), None);
}

#[test]
fn service_is_used_where_wanted() {
    assert!(wanted_sidecar(Some(config(None))).is_some());
    let mut off = config(None);
    off.use_sidecar = false;
    assert!(wanted_sidecar(Some(off)).is_none());
    assert!(wanted_sidecar(None).is_none());
}

#[test]
fn models_are_read() {
    let m = ModelMessage {
        id: s("i"),
        name: s("n"),
        architecture: s("a"),
        kind: s("k"),
        version: s("v"),
        input_mode: s("im"),
        training_corpus: None,
        chunk_policy: Some(ChunkPolicyMessage {
            recommended_lines_per_chunk: 3,
            max_lines_per_chunk: 4,
        }),
        output: None,
    };
    let r = model_info(m);
    assert_eq!((r.id.as_str(), r.name.as_str()), ("i", "n"));
    assert_eq!(r.training_corpus.filter_profile, "");
    assert!(r.training_corpus.normalization_versions.is_empty());
    assert_eq!(r.chunk_policy.recommended_lines_per_chunk, 3);
    assert_eq!(r.chunk_policy.max_lines_per_chunk, 4);
    assert!(!r.output.supports_explanations);
    let m = ModelMessage {
        id: s(""),
        name: s(""),
        architecture: s(""),
        kind: s(""),
        version: s(""),
        input_mode: s(""),
        training_corpus: Some(TrainingCorpus {
            filter_profile: s("p"),
            description: s("d"),
            normalization_versions: HashMap::new(),
        }),
        chunk_policy: None,
        output: Some(OutputInfo {
            score_kind: s("k"),
            higher_is_more_anomalous: true,
            supports_explanations: true,
        }),
    };
    let r = model_info(m);
    assert_eq!(r.training_corpus.description, "d");
    assert_eq!(r.chunk_policy.max_lines_per_chunk, 0);
    assert!(r.output.higher_is_more_anomalous);
}

#[test]
fn samples_are_sent() {
    let c = SidecarClient::connect(SidecarClient::default_host(), SidecarClient::default_port());
    assert_eq!(c.endpoint(), "http://127.0.0.1:8765");
    let r = c.submit_sample("m", SampleLabel::Anomalous, 4, &[input(4)]);
    assert_eq!(r.model_id, "m");
    assert_eq!(r.label, "anomalous");
    assert_eq!(r.classified_line_number, 4);
    assert_eq!(r.lines[0].source_id, 1);
    assert_eq!(r.lines[0].timestamp_unix_ms, 5);
    assert_eq!(SampleLabel::Benign.as_str(), "benign");
}

fn explanation(line: u64) -> ExplanationMessage {
    ExplanationMessage {
        target_line_number: line,
        target_in_corpus: true,
        target_score: Some(2.0f64.to_bits()),
        target_is_unk: false,
        target_is_rare: true,
        attention: vec![AttentionMessage { line_number: 8, weight: 0.5f32.to_bits() }],
        top_templates: vec![TemplateEntry { template: s("t"), probability: 1 }],
    }
}

#[test]
fn explanations_are_asked_for_one_by_one() {
    let mut e = ExplainSession::new();
    assert_eq!(e.phase(), ExplainPhase::Idle);
    assert!(matches!(e.step(ExplainEvent::NothingRequested), ExplainAction::AwaitRequest));
    match e.step(ExplainEvent::Requested(7)) {
        ExplainAction::Ask(ClientFrame::Explain { target_line_number: 7 }) => {}
        other => panic!("{other:?}"),
    }
    assert_eq!(e.phase(), ExplainPhase::Asked);
    let other = ServerPayload::Warning { code: s("c"), message: s("m") };
    assert!(matches!(e.step(ExplainEvent::Message(Some(other))), ExplainAction::AwaitMessage));
    let answer = ServerPayload::Explanation(explanation(7));
    match e.step(ExplainEvent::Message(Some(answer))) {
        ExplainAction::Deliver(r) => {
            assert_eq!(r.target_line_number, 7);
            assert_eq!(r.attention[0].line_number, 8);
            assert_eq!(r.attention[0].weight, 0.5f32.to_bits());
            assert_eq!(r.top_templates[0].template, "t");
            assert!(r.target_is_rare);
        }
        other => panic!("{other:?}"),
    }
    assert_eq!(e.phase(), ExplainPhase::Idle);
    match e.step(ExplainEvent::RequestersGone) {
        ExplainAction::Leave(ClientFrame::Close) => {}
        other => panic!("{other:?}"),
    }
    assert_eq!(e.phase(), ExplainPhase::Ended);
    let mut e = ExplainSession::new();
    e.step(ExplainEvent::Requested(1));
    assert!(matches!(e.step(ExplainEvent::StreamEnded), ExplainAction::Stop));
    assert_eq!(e.phase(), ExplainPhase::Ended);
}

#[test]
fn explanations_are_looked_for() {
    assert!(matches!(poll_status(Received::Empty), ExplainPollStatus::Pending));
    assert!(matches!(poll_status(Received::Disconnected), ExplainPollStatus::Dead));
    let mut e = ExplainSession::new();
    e.step(ExplainEvent::Requested(3));
    let answer = ServerPayload::Explanation(explanation(3));
    if let ExplainAction::Deliver(r) = e.step(ExplainEvent::Message(Some(answer))) {
        match poll_status(Received::Result(r)) {
            ExplainPollStatus::Ready(r) => assert_eq!(r.target_line_number, 3),
            other => panic!("{other:?}"),
        }
    }
}

#[test]
fn refused_chunks_are_left_out() {
    let loader =
        ChunkedLoader { initial_chunk_size: 2, max_chunk_size: 2, chunks_before_growth: 1 };
    let mut all = lines(3);
    all.push(BtsnoopLogLine::new(
        HciPacketInfo {
            timestamp: Timestamp { secs: 8_210_266_876_799, nanos: 0 },
            message: s("late"),
            raw: s("late"),
        },
        4,
    ));
    let mut file = BtsnoopFileType::open(all, 100);
    let mut sd = source(0);
    sd.file_state_mut().set_time_offset_ms(1000);
    let end = loader.run(&mut file, &mut sd, "f", &never, &|_: String| {});
    assert_eq!(end, LoadEnd::OutOfRange);
    assert_eq!(sd.len(), 2);
    assert_eq!(file.progress(), (4, 4));
}

#[test]
fn cancelled_work_gives_nothing() {
    let r = score_frames("m", vec![], &[], &always);
    assert!(matches!(r, Err(ScoreError::Cancelled)));
    assert_eq!(score_frames("m", vec![], &[], &never).unwrap().len(), 2);
    assert!(prepare_input_lines(&source(1), 1, &None, "btsnoop", &always).is_none());
    assert_eq!(prepare_input_lines(&source(0), 1, &None, "btsnoop", &always).unwrap().len(), 0);
}

#[test]
fn explanations_go_by_the_sessions_of_sources() {
    let mut st = LogStore::new();
    st.add_source(DataSourceVariant::Btsnoop(source(2)));
    assert!(!st.request_explanation(70_000, true));
    assert!(matches!(
        st.poll_explain_status(70_000, Received::Empty),
        ExplainPollStatus::Dead
    ));
    st.set_explain_session(70_000);
    assert!(st.request_explanation(70_000, true));
    assert!(!st.request_explanation(70_000, false));
    assert!(matches!(
        st.poll_explain_status(70_000, Received::Empty),
        ExplainPollStatus::Pending
    ));
    assert!(st.poll_explanation(70_000, Received::Empty).is_none());
    let mut e = ExplainSession::new();
    e.step(ExplainEvent::Requested(3));
    let answer = ServerPayload::Explanation(explanation(3));
    match e.step(ExplainEvent::Message(Some(answer))) {
        ExplainAction::Deliver(r) => {
            let got = st.poll_explanation(70_000, Received::Result(r)).unwrap();
            assert_eq!(got.target_line_number, 3);
            assert!(st.poll_explanation(1, Received::Result(got)).is_none());
        }
        other => panic!("{other:?}"),
    }
    assert_eq!(st.remove_source(70_000), Some(s("/x/f")));
    assert!(matches!(
        st.poll_explain_status(70_000, Received::Empty),
        ExplainPollStatus::Dead
    ));
}

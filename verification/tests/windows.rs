//! Decisions of the user interface.

use logcrab::config::GlobalConfig;
use logcrab::ui::files::{
    drop_preview, file_not_found, import_failed, job_name, open_files_as_new_session,
    part_dropped_files, process_dropped_files, resolve_log_path, window_title, DroppedFile,
    FileTask,
};
use logcrab::ui::frame::{jobs_heading, AppState, MenuEffect};
use logcrab::ui::input::{
    count_open_requests, default_palette, leaves_keys_to_text, remove_consumed, KeyModifiers,
    PaneDirection, ShortcutAction,
};
use logcrab::ui::menu::{file_menu, help_menu, view_menu, ConfigChange, MenuItem};
use logcrab::ui::sessions::{
    is_recorded, just_the_files_label, offer_question, offered_sessions, PendingSessionOffer,
    RecordedSession, SessionOfferAction,
};
use logcrab::ui::toasts::{shorten, ProgressToastState, ToastQueue, ToastText};

fn s(t: &str) -> String {
    t.to_string()
}

fn task(t: &FileTask) -> String {
    match t {
        FileTask::StartSession => s("start"),
        FileTask::Add(p) => format!("add {p}"),
        FileTask::AddIfThere(p) => format!("add if there {p}"),
        FileTask::AddOrTell(p) => format!("add or tell {p}"),
        FileTask::ImportFilters(p) => format!("import {p}"),
        FileTask::Tell(t) => format!("tell {t}"),
    }
}

fn tasks(v: &[FileTask]) -> Vec<String> {
    v.iter().map(task).collect()
}

#[test]
fn long_messages_are_shortened() {
    let fifty = "x".repeat(50);
    assert_eq!(shorten(&fifty), fifty);
    let long = format!("{}{}", "a".repeat(4), "\u{e9}".repeat(47));
    assert_eq!(shorten(&long), format!("...{}", "\u{e9}".repeat(47)));
}

#[test]
fn notices_change() {
    let d = ProgressToastState::default();
    assert_eq!((d.title.as_str(), d.progress, d.message.as_str()), ("Loading", Some(0), ""));
    let mut t = ProgressToastState::new(s("t"), s("m"));
    assert!(!t.should_remove());
    t.update(0.5f32.to_bits(), s("half"));
    t.set_title(s("new"));
    assert_eq!(t.title, "new");
    assert_eq!(t.progress, Some(0.5f32.to_bits()));
    assert!(matches!(t.text(), ToastText::Message(m) if m == "half"));
    t.set_error(s("bad"));
    assert!(matches!(t.text(), ToastText::Error(m) if m == "bad"));
    t.dismiss();
    assert!(t.should_remove());
    let mut q = ToastQueue::new();
    q.send(s("e"));
    q.send_success(s("ok"));
    assert_eq!(q.drain(), (vec![s("e")], vec![s("ok")]));
    assert_eq!(q.drain(), (vec![], vec![]));
}

#[test]
fn keys_go_to_text_fields() {
    let plain = KeyModifiers { ctrl: false, alt: false, command: false };
    let ctrl = KeyModifiers { ctrl: true, alt: false, command: false };
    assert!(leaves_keys_to_text(true, &vec![plain]));
    assert!(!leaves_keys_to_text(true, &vec![plain, ctrl]));
    assert!(!leaves_keys_to_text(false, &vec![plain]));
    assert!(leaves_keys_to_text(true, &vec![]));
    assert_eq!(
        count_open_requests(&vec![
            ShortcutAction::OpenFile,
            ShortcutAction::MoveUp,
            ShortcutAction::OpenFile
        ]),
        2
    );
    assert_ne!(PaneDirection::Left, PaneDirection::Right);
}

#[test]
fn used_events_are_removed() {
    let mut v = vec!['a', 'b', 'c', 'd', 'e'];
    remove_consumed(&mut v, &vec![0, 2, 4]);
    assert_eq!(v, vec!['b', 'd']);
    remove_consumed(&mut v, &vec![]);
    assert_eq!(v, vec!['b', 'd']);
}

#[test]
fn colours_are_given() {
    let p = default_palette();
    assert_eq!(p.len(), 8);
    assert_eq!(p[0], (230, 190, 50));
    assert_eq!(p[7], (140, 110, 200));
}

#[test]
fn window_is_titled() {
    assert_eq!(window_title(&vec![]), "LogCrab");
    assert_eq!(window_title(&vec![s("a"), s("b")]), "a, b - LogCrab");
    assert_eq!(drop_preview(&vec![s("/a"), s("/b")]), "Drop to open:\n\n/a\n/b");
    assert_eq!(jobs_heading(3), "Jobs (3)");
}

#[test]
fn session_files_lead_to_log_files() {
    assert_eq!(resolve_log_path(&s("/a.log.crab")), (s("/a.log"), true));
    assert_eq!(resolve_log_path(&s("/a.crab.crab")), (s("/a"), true));
    assert_eq!(resolve_log_path(&s("/a.log")), (s("/a.log"), false));
    assert_eq!(resolve_log_path(&s(".crab")), (s(""), true));
    assert_eq!(file_not_found("/x"), "File not found: /x");
    assert_eq!(import_failed(&None, "bad"), "Failed to import filters: bad");
    assert_eq!(import_failed(&Some(s("f")), "bad"), "Failed to import f: bad");
    assert_eq!(job_name(&None), "file");
    assert_eq!(job_name(&Some(s("f"))), "f");
}

#[test]
fn dropped_files_are_taken_over() {
    let files = vec![
        DroppedFile { path: s("a.log"), extension: Some(s("log")) },
        DroppedFile { path: s("x.crab-filters"), extension: Some(s("crab-filters")) },
        DroppedFile { path: s("b"), extension: None },
    ];
    let (logs, filters) = part_dropped_files(&files);
    assert_eq!(logs, vec!["a.log", "b"]);
    assert_eq!(filters, vec!["x.crab-filters"]);
    let r = process_dropped_files(&logs, &filters, false, false);
    assert_eq!(tasks(&r), vec!["start", "add a.log", "add b", "import x.crab-filters"]);
    let r = process_dropped_files(&logs, &filters, false, true);
    assert_eq!(tasks(&r), vec!["tell Cannot import filters - open a log file first"]);
    let r = process_dropped_files(&logs, &vec![], true, false);
    assert_eq!(tasks(&r), vec!["add a.log", "add b"]);
    let r = process_dropped_files(&vec![], &filters, true, false);
    assert_eq!(tasks(&r), vec!["import x.crab-filters"]);
    let r = open_files_as_new_session(&vec![s("q")]);
    assert_eq!(tasks(&r), vec!["start", "add or tell q"]);
}

#[test]
fn useful_sessions_are_offered() {
    let same = vec![
        vec![true, false, true, false],
        vec![false, true, false, false],
        vec![true, false, true, false],
        vec![false, false, false, true],
    ];
    let as_requested = vec![false, true, false, false];
    let all_there = vec![true, true, true, false];
    let r = offered_sessions(&vec![0, 1, 2, 3, 0], &as_requested, &all_there, &same);
    assert_eq!(r, vec![0]);
    let r = offered_sessions(&vec![], &as_requested, &all_there, &same);
    assert!(r.is_empty());
}

fn offer() -> PendingSessionOffer {
    PendingSessionOffer {
        files: vec![s("a")],
        matching_sessions: vec![RecordedSession {
            files: vec![s("a"), s("b")],
            label: s("a + b"),
            last_used: s("2024-01-02 03:04"),
        }],
    }
}

#[test]
fn offers_are_answered() {
    let mut app = AppState::new(GlobalConfig::default());
    assert!(app.offer(offer()));
    let r = app.answer_offer(SessionOfferAction::JustTheFiles, false);
    assert_eq!(tasks(&r), vec!["start", "add or tell a"]);
    assert!(app.pending_session_offer.is_none());
    assert!(app.answer_offer(SessionOfferAction::Cancel, false).is_empty());
    let o = offer();
    assert_eq!(tasks(&o.answer(SessionOfferAction::JustTheFiles, true)), vec!["add a"]);
    assert_eq!(
        tasks(&o.answer(SessionOfferAction::RestoreSession(0), true)),
        vec!["start", "add or tell a", "add or tell b"]
    );
    assert_eq!(
        tasks(&o.answer(SessionOfferAction::MergeSession(0), true)),
        vec!["add if there a", "add if there b"]
    );
    assert_eq!(
        tasks(&o.answer(SessionOfferAction::MergeSession(0), false)),
        vec!["start", "add if there a", "add if there b"]
    );
    assert!(o.answer(SessionOfferAction::Cancel, true).is_empty());
    assert!(!app.offer(PendingSessionOffer { files: vec![s("a")], matching_sessions: vec![] }));
    assert!(app.pending_session_offer.is_none());
}

#[test]
fn offers_are_described() {
    let o = offer();
    let session = &o.matching_sessions[0];
    assert_eq!(session.entry(), "a + b  (2024-01-02 03:04)");
    assert_eq!(session.tooltip(), "a\nb");
    assert_eq!(session.tooltip_under("Close:"), "Close:\na\nb");
    assert_eq!(session.welcome_tooltip(), "a\nb\n\nLast used: 2024-01-02 03:04");
    assert_eq!(
        offer_question(&vec![s("a"), s("b")]),
        "The file(s) you selected (a, b) appeared in previous sessions."
    );
    assert_eq!(just_the_files_label(&vec![s("a")]), "Open only: a");
    assert!(is_recorded(&vec![s("a")]));
    assert!(!is_recorded(&vec![]));
}

#[test]
fn menus_are_built() {
    assert_eq!(
        file_menu(false, 1, &vec![(4, s("f"))]),
        vec![
            MenuItem::OpenLogFile,
            MenuItem::RecentSession(0),
            MenuItem::Separator,
            MenuItem::SidecarSettings,
            MenuItem::Separator,
            MenuItem::Quit
        ]
    );
    assert_eq!(
        file_menu(true, 0, &vec![(4, s("f"))]),
        vec![
            MenuItem::OpenLogFile,
            MenuItem::AddFile,
            MenuItem::RemoveFile(4),
            MenuItem::Separator,
            MenuItem::ExportFilters,
            MenuItem::ImportFilters,
            MenuItem::Separator,
            MenuItem::SidecarSettings,
            MenuItem::Separator,
            MenuItem::Quit
        ]
    );
    assert!(view_menu(true, true).contains(&MenuItem::GreyOutRareLines));
    assert!(!view_menu(true, false).contains(&MenuItem::GreyOutRareLines));
    assert_eq!(view_menu(true, false)[0], MenuItem::AddFilterTab);
    assert_eq!(view_menu(false, false)[0], MenuItem::ShowBookmarks);
    assert_eq!(help_menu().len(), 4);
    assert_eq!(MenuItem::Quit.label(), Some("Quit"));
    assert_eq!(MenuItem::Separator.label(), None);
}

#[test]
fn menu_entries_act() {
    let mut app = AppState::new(GlobalConfig::default());
    assert!(matches!(app.select(MenuItem::OpenLogFile), MenuEffect::OpenDialog));
    assert!(matches!(app.select(MenuItem::RecentSession(3)), MenuEffect::Restore(3)));
    app.select(MenuItem::RemoveFile(8));
    app.select(MenuItem::About);
    assert!(app.show_about_window);
    app.dropped(vec![DroppedFile { path: s("p"), extension: None }]);
    let (files, removal) = app.begin_frame();
    assert_eq!(files.len(), 1);
    assert_eq!(removal, Some(8));
    let (files, removal) = app.begin_frame();
    assert!(files.is_empty() && removal.is_none());
    match app.select(MenuItem::BrightMode) {
        MenuEffect::Save(ConfigChange::BrightMode(true)) => {}
        other => panic!("{other:?}"),
    }
    assert!(app.config.bright_mode);
    app.select(MenuItem::BrightMode);
    assert!(!app.config.bright_mode);
}

#[test]
fn settings_change_one_by_one() {
    let mut c = GlobalConfig::default();
    ConfigChange::Sidecar {
        host: s("h"),
        port: 1,
        use_sidecar: true,
        model: Some(s("m")),
    }
    .apply(&mut c);
    assert_eq!((c.sidecar_host.as_str(), c.sidecar_port), ("h", 1));
    assert!(c.use_sidecar_scoring);
    assert_eq!(c.selected_model.as_deref(), Some("m"));
    ConfigChange::LogDirectory(s("/d")).apply(&mut c);
    assert_eq!(c.last_log_directory.as_deref(), Some("/d"));
    assert_eq!(c.last_filters_directory, None);
    assert!(!c.bright_mode);
    c.read_only = true;
    ConfigChange::BrightMode(true).apply(&mut c);
    assert!(c.read_only && c.bright_mode);
}

//! The menus, and what their entries do.

use crate::config::GlobalConfig;
use crate::store::variant::GlobalFileConfig;
use std::collections::HashMap;
use vstd::prelude::*;

verus! {

/// An entry of a menu.
#[derive(Debug, Clone, Copy, PartialEq, Eq, Structural)]
pub enum MenuItem {
    Separator,
    OpenLogFile,
    AddFile,
    /// An earlier session, by its place in the history.
    RecentSession(usize),
    /// A file of the session, by the number of its source.
    RemoveFile(u64),
    ExportFilters,
    ImportFilters,
    SidecarSettings,
    Quit,
    AddFilterTab,
    AddBookmarksTab,
    AddHighlightsTab,
    ShowBookmarks,
    BrightMode,
    /// The settings for each kind of file.
    FileSettings,
    EnableMlScoring,
    ColorByMlScore,
    GreyOutRareLines,
    HideDuplicateLines,
    AnomalyHelp,
    ShortcutsHelp,
    About,
}

/// The entries for earlier sessions.
pub open spec fn recent_items(n: nat) -> Seq<MenuItem> {
    Seq::new(n, |i: int| MenuItem::RecentSession(i as usize))
}

/// The entries that take files out of the session.
pub open spec fn remove_items(sources: Seq<(u64, String)>) -> Seq<MenuItem> {
    sources.map_values(|s: (u64, String)| MenuItem::RemoveFile(s.0))
}

/// Entries that are there only on a condition.
pub open spec fn only_if(condition: bool, items: Seq<MenuItem>) -> Seq<MenuItem> {
    if condition {
        items
    } else {
        Seq::empty()
    }
}

/// The menu for files. Without a session nothing can be added to it or taken out of it,
/// and no filters can be exported or imported.
pub open spec fn file_items(
    has_session: bool,
    recent: nat,
    sources: Seq<(u64, String)>,
) -> Seq<MenuItem> {
    seq![MenuItem::OpenLogFile] + only_if(has_session, seq![MenuItem::AddFile]) + recent_items(
        recent,
    ) + only_if(has_session, remove_items(sources)) + seq![MenuItem::Separator] + only_if(
        has_session,
        seq![MenuItem::ExportFilters, MenuItem::ImportFilters, MenuItem::Separator],
    ) + seq![MenuItem::SidecarSettings, MenuItem::Separator, MenuItem::Quit]
}

/// The menu for what is shown. Rare lines can be greyed out only where lines are coloured
/// by the scores of the scoring service.
pub open spec fn view_items(has_session: bool, color_by_ml_score: bool) -> Seq<MenuItem> {
    only_if(
        has_session,
        seq![
            MenuItem::AddFilterTab,
            MenuItem::AddBookmarksTab,
            MenuItem::AddHighlightsTab,
            MenuItem::Separator,
        ],
    ) + seq![
        MenuItem::ShowBookmarks,
        MenuItem::Separator,
        MenuItem::BrightMode,
        MenuItem::Separator,
        MenuItem::FileSettings,
        MenuItem::Separator,
        MenuItem::EnableMlScoring,
        MenuItem::ColorByMlScore,
    ] + only_if(color_by_ml_score, seq![MenuItem::GreyOutRareLines]) + seq![
        MenuItem::Separator,
        MenuItem::HideDuplicateLines,
    ]
}

/// The menu for files.
pub fn file_menu(has_session: bool, recent: usize, sources: &Vec<(u64, String)>) -> (r: Vec<
    MenuItem,
>)
    ensures
        r@ == file_items(has_session, recent as nat, sources@),
{
    let mut out: Vec<MenuItem> = Vec::new();
    out.push(MenuItem::OpenLogFile);
    if has_session {
        out.push(MenuItem::AddFile);
    }
    let ghost start = seq![MenuItem::OpenLogFile] + only_if(has_session, seq![MenuItem::AddFile]);
    assert(out@ =~= start + recent_items(0));
    let mut i: usize = 0;
    while i < recent
        invariant
            i <= recent,
            out@ == start + recent_items(i as nat),
        decreases recent - i,
    {
        out.push(MenuItem::RecentSession(i));
        assert(out@ =~= start + recent_items((i + 1) as nat));
        i += 1;
    }
    let ghost middle = start + recent_items(recent as nat);
    if has_session {
        let mut k: usize = 0;
        assert(out@ =~= middle + remove_items(sources@).take(0));
        while k < sources.len()
            invariant
                k <= sources@.len(),
                out@ == middle + remove_items(sources@).take(k as int),
            decreases sources.len() - k,
        {
            out.push(MenuItem::RemoveFile(sources[k].0));
            assert(out@ =~= middle + remove_items(sources@).take(k + 1));
            k += 1;
        }
        assert(remove_items(sources@).take(k as int) =~= remove_items(sources@));
    }
    assert(out@ =~= middle + only_if(has_session, remove_items(sources@)));
    out.push(MenuItem::Separator);
    if has_session {
        out.push(MenuItem::ExportFilters);
        out.push(MenuItem::ImportFilters);
        out.push(MenuItem::Separator);
    }
    out.push(MenuItem::SidecarSettings);
    out.push(MenuItem::Separator);
    out.push(MenuItem::Quit);
    assert(out@ =~= file_items(has_session, recent as nat, sources@));
    out
}

/// The menu for what is shown.
pub fn view_menu(has_session: bool, color_by_ml_score: bool) -> (r: Vec<MenuItem>)
    ensures
        r@ == view_items(has_session, color_by_ml_score),
{
    let mut out: Vec<MenuItem> = Vec::new();
    if has_session {
        out.push(MenuItem::AddFilterTab);
        out.push(MenuItem::AddBookmarksTab);
        out.push(MenuItem::AddHighlightsTab);
        out.push(MenuItem::Separator);
    }
    out.push(MenuItem::ShowBookmarks);
    out.push(MenuItem::Separator);
    out.push(MenuItem::BrightMode);
    out.push(MenuItem::Separator);
    out.push(MenuItem::FileSettings);
    out.push(MenuItem::Separator);
    out.push(MenuItem::EnableMlScoring);
    out.push(MenuItem::ColorByMlScore);
    if color_by_ml_score {
        out.push(MenuItem::GreyOutRareLines);
    }
    out.push(MenuItem::Separator);
    out.push(MenuItem::HideDuplicateLines);
    assert(out@ =~= view_items(has_session, color_by_ml_score));
    out
}

/// The menu for help.
pub fn help_menu() -> (r: Vec<MenuItem>)
    ensures
        r@ == seq![
            MenuItem::AnomalyHelp,
            MenuItem::ShortcutsHelp,
            MenuItem::Separator,
            MenuItem::About,
        ],
{
    let out: Vec<MenuItem> = vec![
        MenuItem::AnomalyHelp,
        MenuItem::ShortcutsHelp,
        MenuItem::Separator,
        MenuItem::About,
    ];
    assert(out@ =~= seq![
        MenuItem::AnomalyHelp,
        MenuItem::ShortcutsHelp,
        MenuItem::Separator,
        MenuItem::About,
    ]);
    out
}

impl MenuItem {
    /// The text of the entry; none where it depends on a session, a file or its kind.
    pub open spec fn label_text(self) -> Option<Seq<char>> {
        match self {
            MenuItem::Separator => None,
            MenuItem::OpenLogFile => Some("Open Log File..."@),
            MenuItem::AddFile => Some("Add File to session..."@),
            MenuItem::RecentSession(_) => None,
            MenuItem::RemoveFile(_) => None,
            MenuItem::ExportFilters => Some("Export Filters..."@),
            MenuItem::ImportFilters => Some("Import Filters..."@),
            MenuItem::SidecarSettings => Some("Sidecar Settings..."@),
            MenuItem::Quit => Some("Quit"@),
            MenuItem::AddFilterTab => Some("Add Filter Tab"@),
            MenuItem::AddBookmarksTab => Some("Add Bookmarks Tab"@),
            MenuItem::AddHighlightsTab => Some("Add Highlights Tab"@),
            MenuItem::ShowBookmarks => Some("Show Bookmarks in Timeline"@),
            MenuItem::BrightMode => Some("Bright Mode"@),
            MenuItem::FileSettings => None,
            MenuItem::EnableMlScoring => Some("Enable ML Scoring"@),
            MenuItem::ColorByMlScore => Some("Color by ML Score"@),
            MenuItem::GreyOutRareLines => Some("Grey out rare lines"@),
            MenuItem::HideDuplicateLines => Some("Hide Duplicate Lines"@),
            MenuItem::AnomalyHelp => Some("Anomaly Score Calculation"@),
            MenuItem::ShortcutsHelp => Some("Keyboard Shortcuts"@),
            MenuItem::About => Some("About LogCrab"@),
        }
    }

    /// The text of the entry; none where it depends on a session, a file or its kind.
    pub fn label(self) -> (r: Option<&'static str>)
        ensures
            match r {
                Some(t) => self.label_text() == Some(t@),
                None => self.label_text() is None,
            },
    {
        match self {
            MenuItem::Separator => None,
            MenuItem::OpenLogFile => Some("Open Log File..."),
            MenuItem::AddFile => Some("Add File to session..."),
            MenuItem::RecentSession(_) => None,
            MenuItem::RemoveFile(_) => None,
            MenuItem::ExportFilters => Some("Export Filters..."),
            MenuItem::ImportFilters => Some("Import Filters..."),
            MenuItem::SidecarSettings => Some("Sidecar Settings..."),
            MenuItem::Quit => Some("Quit"),
            MenuItem::AddFilterTab => Some("Add Filter Tab"),
            MenuItem::AddBookmarksTab => Some("Add Bookmarks Tab"),
            MenuItem::AddHighlightsTab => Some("Add Highlights Tab"),
            MenuItem::ShowBookmarks => Some("Show Bookmarks in Timeline"),
            MenuItem::BrightMode => Some("Bright Mode"),
            MenuItem::FileSettings => None,
            MenuItem::EnableMlScoring => Some("Enable ML Scoring"),
            MenuItem::ColorByMlScore => Some("Color by ML Score"),
            MenuItem::GreyOutRareLines => Some("Grey out rare lines"),
            MenuItem::HideDuplicateLines => Some("Hide Duplicate Lines"),
            MenuItem::AnomalyHelp => Some("Anomaly Score Calculation"),
            MenuItem::ShortcutsHelp => Some("Keyboard Shortcuts"),
            MenuItem::About => Some("About LogCrab"),
        }
    }
}

/// A change of the settings.
#[derive(Debug)]
pub enum ConfigChange {
    ShowBookmarks(bool),
    BrightMode(bool),
    FileConfig(GlobalFileConfig),
    UseSidecar(bool),
    ColorByMlScore(bool),
    GreyRareLines(bool),
    HideDuplicates(bool),
    Shortcuts(HashMap<String, String>),
    LogDirectory(String),
    FiltersDirectory(String),
    Sidecar { host: String, port: u16, use_sidecar: bool, model: Option<String> },
}

/// The settings after a change: all others stay.
pub open spec fn changed(c: GlobalConfig, change: ConfigChange) -> GlobalConfig {
    match change {
        ConfigChange::ShowBookmarks(v) => GlobalConfig { show_bookmarks_in_timeline: v, ..c },
        ConfigChange::BrightMode(v) => GlobalConfig { bright_mode: v, ..c },
        ConfigChange::FileConfig(v) => GlobalConfig { file_config: v, ..c },
        ConfigChange::UseSidecar(v) => GlobalConfig { use_sidecar_scoring: v, ..c },
        ConfigChange::ColorByMlScore(v) => GlobalConfig { color_by_ml_score: v, ..c },
        ConfigChange::GreyRareLines(v) => GlobalConfig { grey_rare_ml_lines: v, ..c },
        ConfigChange::HideDuplicates(v) => GlobalConfig { hide_duplicates: v, ..c },
        ConfigChange::Shortcuts(v) => GlobalConfig { shortcuts: v, ..c },
        ConfigChange::LogDirectory(v) => GlobalConfig { last_log_directory: Some(v), ..c },
        ConfigChange::FiltersDirectory(v) => GlobalConfig { last_filters_directory: Some(v), ..c },
        ConfigChange::Sidecar { host, port, use_sidecar, model } => GlobalConfig {
            sidecar_host: host,
            sidecar_port: port,
            use_sidecar_scoring: use_sidecar,
            selected_model: model,
            ..c
        },
    }
}

impl ConfigChange {
    /// Changes the settings.
    pub fn apply(self, config: &mut GlobalConfig)
        ensures
            *final(config) == changed(*old(config), self),
    {
        match self {
            ConfigChange::ShowBookmarks(v) => {
                config.show_bookmarks_in_timeline = v;
            },
            ConfigChange::BrightMode(v) => {
                config.bright_mode = v;
            },
            ConfigChange::FileConfig(v) => {
                config.file_config = v;
            },
            ConfigChange::UseSidecar(v) => {
                config.use_sidecar_scoring = v;
            },
            ConfigChange::ColorByMlScore(v) => {
                config.color_by_ml_score = v;
            },
            ConfigChange::GreyRareLines(v) => {
                config.grey_rare_ml_lines = v;
            },
            ConfigChange::HideDuplicates(v) => {
                config.hide_duplicates = v;
            },
            ConfigChange::Shortcuts(v) => {
                config.shortcuts = v;
            },
            ConfigChange::LogDirectory(v) => {
                config.last_log_directory = Some(v);
            },
            ConfigChange::FiltersDirectory(v) => {
                config.last_filters_directory = Some(v);
            },
            ConfigChange::Sidecar { host, port, use_sidecar, model } => {
                config.sidecar_host = host;
                config.sidecar_port = port;
                config.use_sidecar_scoring = use_sidecar;
                config.selected_model = model;
            },
        }
    }
}

/// No change of settings makes those writable that must not be saved, or changes their
/// version.
pub proof fn changes_keep_protection(c: GlobalConfig, change: ConfigChange)
    ensures
        changed(c, change).read_only == c.read_only,
        changed(c, change).schema_version == c.schema_version,
{
}

/// The menu for files offers each earlier session, and each file of the session to be
/// taken out. What needs a session is there just where there is one; opening a file, the
/// settings of the scoring service and the end are always there.
pub proof fn file_menus_offer_what_can_be_done(
    has_session: bool,
    recent: nat,
    sources: Seq<(u64, String)>,
    i: int,
)
    requires
        recent <= usize::MAX,
    ensures
        file_items(has_session, recent, sources)[0] is OpenLogFile,
        file_items(has_session, recent, sources).last() is Quit,
        file_items(has_session, recent, sources).contains(MenuItem::SidecarSettings),
        file_items(has_session, recent, sources).contains(MenuItem::AddFile) == has_session,
        file_items(has_session, recent, sources).contains(MenuItem::ExportFilters) == has_session,
        file_items(has_session, recent, sources).contains(MenuItem::ImportFilters) == has_session,
        0 <= i < recent ==> file_items(has_session, recent, sources).contains(
            MenuItem::RecentSession(i as usize),
        ),
        recent <= i <= usize::MAX ==> !file_items(has_session, recent, sources).contains(
            MenuItem::RecentSession(i as usize),
        ),
        has_session && 0 <= i < sources.len() ==> file_items(
            has_session,
            recent,
            sources,
        ).contains(MenuItem::RemoveFile(sources[i].0)),
        !has_session ==> forall|k: int|
            0 <= k < file_items(has_session, recent, sources).len() ==> !(#[trigger] file_items(
                has_session,
                recent,
                sources,
            )[k] is RemoveFile),
        file_items(has_session, recent, sources).len() == if has_session {
            9 + recent + sources.len()
        } else {
            5 + recent
        },
{
    let r = file_items(has_session, recent, sources);
    if has_session {
        let n: int = 2 + recent as int + sources.len();
        assert(r[1] is AddFile);
        assert(r[n] is Separator);
        assert(r[n + 1] is ExportFilters);
        assert(r[n + 2] is ImportFilters);
        assert(r[n + 4] is SidecarSettings);
        if 0 <= i < recent {
            assert(r[2 + i] == MenuItem::RecentSession(i as usize));
        }
        if 0 <= i < sources.len() {
            assert(r[2 + recent + i] == MenuItem::RemoveFile(sources[i].0));
        }
    } else {
        assert(r[recent as int + 2] is SidecarSettings);
        if 0 <= i < recent {
            assert(r[1 + i] == MenuItem::RecentSession(i as usize));
        }
        assert forall|k: int| 0 <= k < r.len() implies !(#[trigger] r[k] is AddFile
            || r[k] is ExportFilters || r[k] is ImportFilters || r[k] is RemoveFile) by {}
    }
    if recent <= i <= usize::MAX {
        assert forall|k: int| 0 <= k < r.len() implies #[trigger] r[k] != MenuItem::RecentSession(
            i as usize,
        ) by {}
    }
}

/// The menu for what is shown offers new tabs just where there is a session, and the
/// greying of rare lines just where lines have their colours from scores. The switches are
/// always there, each once.
pub proof fn view_menus_offer_what_can_be_done(has_session: bool, color_by_ml_score: bool)
    ensures
        view_items(has_session, color_by_ml_score).contains(MenuItem::AddFilterTab) == has_session,
        view_items(has_session, color_by_ml_score).contains(MenuItem::AddBookmarksTab)
            == has_session,
        view_items(has_session, color_by_ml_score).contains(MenuItem::AddHighlightsTab)
            == has_session,
        view_items(has_session, color_by_ml_score).contains(MenuItem::GreyOutRareLines)
            == color_by_ml_score,
        view_items(has_session, color_by_ml_score).contains(MenuItem::ShowBookmarks),
        view_items(has_session, color_by_ml_score).contains(MenuItem::BrightMode),
        view_items(has_session, color_by_ml_score).contains(MenuItem::FileSettings),
        view_items(has_session, color_by_ml_score).contains(MenuItem::EnableMlScoring),
        view_items(has_session, color_by_ml_score).contains(MenuItem::ColorByMlScore),
        view_items(has_session, color_by_ml_score).last() is HideDuplicateLines,
        view_items(has_session, color_by_ml_score).len() == 10 + (if has_session {
            4int
        } else {
            0
        }) + (if color_by_ml_score {
            1int
        } else {
            0
        }),
{
    let r = view_items(has_session, color_by_ml_score);
    let n: int = if has_session {
        4
    } else {
        0
    };
    if has_session {
        assert(r[0] is AddFilterTab && r[1] is AddBookmarksTab && r[2] is AddHighlightsTab);
    }
    assert(r[n] is ShowBookmarks);
    assert(r[n + 2] is BrightMode);
    assert(r[n + 4] is FileSettings);
    assert(r[n + 6] is EnableMlScoring);
    assert(r[n + 7] is ColorByMlScore);
    if color_by_ml_score {
        assert(r[n + 8] is GreyOutRareLines);
    }
}

/// A change of settings sets what it speaks of and nothing else, so that two changes of
/// different settings can be made in either order, and of two of one setting the later
/// counts.
pub proof fn changes_set_what_they_speak_of(
    c: GlobalConfig,
    v: bool,
    w: bool,
    text: String,
    files: GlobalFileConfig,
    keys: HashMap<String, String>,
)
    ensures
        changed(c, ConfigChange::ShowBookmarks(v)) == (GlobalConfig {
            show_bookmarks_in_timeline: v,
            ..c
        }),
        changed(c, ConfigChange::BrightMode(v)) == (GlobalConfig { bright_mode: v, ..c }),
        changed(c, ConfigChange::FileConfig(files)) == (GlobalConfig { file_config: files, ..c }),
        changed(c, ConfigChange::UseSidecar(v)) == (GlobalConfig { use_sidecar_scoring: v, ..c }),
        changed(c, ConfigChange::ColorByMlScore(v)) == (GlobalConfig { color_by_ml_score: v, ..c }),
        changed(c, ConfigChange::GreyRareLines(v)) == (GlobalConfig { grey_rare_ml_lines: v, ..c }),
        changed(c, ConfigChange::HideDuplicates(v)) == (GlobalConfig { hide_duplicates: v, ..c }),
        changed(c, ConfigChange::Shortcuts(keys)) == (GlobalConfig { shortcuts: keys, ..c }),
        changed(c, ConfigChange::LogDirectory(text)) == (GlobalConfig {
            last_log_directory: Some(text),
            ..c
        }),
        changed(c, ConfigChange::FiltersDirectory(text)) == (GlobalConfig {
            last_filters_directory: Some(text),
            ..c
        }),
        changed(changed(c, ConfigChange::BrightMode(v)), ConfigChange::BrightMode(w)) == changed(
            c,
            ConfigChange::BrightMode(w),
        ),
        changed(changed(c, ConfigChange::BrightMode(v)), ConfigChange::HideDuplicates(w))
            == changed(
            changed(c, ConfigChange::HideDuplicates(w)),
            ConfigChange::BrightMode(v),
        ),
{
}

/// The settings of the scoring service are changed together, and no other.
pub proof fn service_settings_change_together(
    c: GlobalConfig,
    host: String,
    port: u16,
    use_sidecar: bool,
    model: Option<String>,
)
    ensures
        changed(c, ConfigChange::Sidecar { host, port, use_sidecar, model }) == (GlobalConfig {
            sidecar_host: host,
            sidecar_port: port,
            use_sidecar_scoring: use_sidecar,
            selected_model: model,
            ..c
        }),
{
}

/// Entries are called by what they do. Only those that stand for a file, a session or the
/// settings of files, and the lines between entries, have no name of their own.
pub proof fn entries_are_called_by_what_they_do()
    ensures
        MenuItem::OpenLogFile.label_text() == Some("Open Log File..."@),
        MenuItem::AddFile.label_text() == Some("Add File to session..."@),
        MenuItem::ExportFilters.label_text() == Some("Export Filters..."@),
        MenuItem::ImportFilters.label_text() == Some("Import Filters..."@),
        MenuItem::SidecarSettings.label_text() == Some("Sidecar Settings..."@),
        MenuItem::Quit.label_text() == Some("Quit"@),
        MenuItem::AddFilterTab.label_text() == Some("Add Filter Tab"@),
        MenuItem::AddBookmarksTab.label_text() == Some("Add Bookmarks Tab"@),
        MenuItem::AddHighlightsTab.label_text() == Some("Add Highlights Tab"@),
        MenuItem::ShowBookmarks.label_text() == Some("Show Bookmarks in Timeline"@),
        MenuItem::BrightMode.label_text() == Some("Bright Mode"@),
        MenuItem::EnableMlScoring.label_text() == Some("Enable ML Scoring"@),
        MenuItem::ColorByMlScore.label_text() == Some("Color by ML Score"@),
        MenuItem::GreyOutRareLines.label_text() == Some("Grey out rare lines"@),
        MenuItem::HideDuplicateLines.label_text() == Some("Hide Duplicate Lines"@),
        MenuItem::AnomalyHelp.label_text() == Some("Anomaly Score Calculation"@),
        MenuItem::ShortcutsHelp.label_text() == Some("Keyboard Shortcuts"@),
        MenuItem::About.label_text() == Some("About LogCrab"@),
        forall|item: MenuItem|
            (#[trigger] item.label_text() is None) == (item is Separator || item is RecentSession
                || item is RemoveFile || item is FileSettings),
{
}

} // verus!

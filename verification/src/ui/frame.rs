//! What happens from one frame to the next.

use super::files::{DroppedFile, FileTask};
use super::menu;
use super::menu::{ConfigChange, MenuItem};
use super::sessions;
use super::sessions::{PendingSessionOffer, SessionOfferAction};
use crate::config::GlobalConfig;
use crate::text;
use vstd::prelude::*;

verus! {

/// What a menu entry leads to.
#[derive(Debug)]
pub enum MenuEffect {
    Nothing,
    /// Ask for files and open them.
    OpenDialog,
    /// Ask for files and add them to the session.
    AddDialog,
    /// Open an earlier session.
    Restore(usize),
    ExportDialog,
    ImportDialog,
    OpenSidecarSettings,
    CloseWindow,
    AddFilterTab,
    AddBookmarksTab,
    AddHighlightsTab,
    /// Show the settings for each kind of file.
    FileSettings,
    /// Save a change of the settings.
    Save(ConfigChange),
}

/// What is kept from one frame to the next.
#[derive(Debug)]
pub struct AppState {
    pub config: GlobalConfig,
    pub show_anomaly_explanation: bool,
    pub show_shortcuts_window: bool,
    pub show_about_window: bool,
    /// Files that were dropped on the window.
    pub pending_drop_files: Vec<DroppedFile>,
    /// The number of a source that is to be taken out.
    pub pending_source_removal: Option<u64>,
    pub pending_session_offer: Option<PendingSessionOffer>,
}

/// What the settings are after a menu entry was chosen.
pub open spec fn toggled(c: GlobalConfig, item: MenuItem) -> Option<ConfigChange> {
    match item {
        MenuItem::ShowBookmarks => Some(
            ConfigChange::ShowBookmarks(!c.show_bookmarks_in_timeline),
        ),
        MenuItem::BrightMode => Some(ConfigChange::BrightMode(!c.bright_mode)),
        MenuItem::EnableMlScoring => Some(ConfigChange::UseSidecar(!c.use_sidecar_scoring)),
        MenuItem::ColorByMlScore => Some(ConfigChange::ColorByMlScore(!c.color_by_ml_score)),
        MenuItem::GreyOutRareLines => Some(ConfigChange::GreyRareLines(!c.grey_rare_ml_lines)),
        MenuItem::HideDuplicateLines => Some(ConfigChange::HideDuplicates(!c.hide_duplicates)),
        _ => None,
    }
}

/// The change that a menu entry makes to the settings: it turns one of them round.
pub fn toggle(c: &GlobalConfig, item: MenuItem) -> (r: Option<ConfigChange>)
    ensures
        r == toggled(*c, item),
{
    match item {
        MenuItem::ShowBookmarks => Some(
            ConfigChange::ShowBookmarks(!c.show_bookmarks_in_timeline),
        ),
        MenuItem::BrightMode => Some(ConfigChange::BrightMode(!c.bright_mode)),
        MenuItem::EnableMlScoring => Some(ConfigChange::UseSidecar(!c.use_sidecar_scoring)),
        MenuItem::ColorByMlScore => Some(ConfigChange::ColorByMlScore(!c.color_by_ml_score)),
        MenuItem::GreyOutRareLines => Some(ConfigChange::GreyRareLines(!c.grey_rare_ml_lines)),
        MenuItem::HideDuplicateLines => Some(ConfigChange::HideDuplicates(!c.hide_duplicates)),
        _ => None,
    }
}

/// What a menu entry leads to.
pub open spec fn effect_of(c: GlobalConfig, item: MenuItem) -> MenuEffect {
    match item {
        MenuItem::OpenLogFile => MenuEffect::OpenDialog,
        MenuItem::AddFile => MenuEffect::AddDialog,
        MenuItem::RecentSession(i) => MenuEffect::Restore(i),
        MenuItem::ExportFilters => MenuEffect::ExportDialog,
        MenuItem::ImportFilters => MenuEffect::ImportDialog,
        MenuItem::SidecarSettings => MenuEffect::OpenSidecarSettings,
        MenuItem::Quit => MenuEffect::CloseWindow,
        MenuItem::AddFilterTab => MenuEffect::AddFilterTab,
        MenuItem::AddBookmarksTab => MenuEffect::AddBookmarksTab,
        MenuItem::AddHighlightsTab => MenuEffect::AddHighlightsTab,
        MenuItem::FileSettings => MenuEffect::FileSettings,
        _ => match toggled(c, item) {
            Some(change) => MenuEffect::Save(change),
            None => MenuEffect::Nothing,
        },
    }
}

/// What is kept after a menu entry was chosen.
pub open spec fn after_choice(s: AppState, item: MenuItem) -> AppState {
    match item {
        MenuItem::RemoveFile(id) => AppState { pending_source_removal: Some(id), ..s },
        MenuItem::AnomalyHelp => AppState { show_anomaly_explanation: true, ..s },
        MenuItem::ShortcutsHelp => AppState { show_shortcuts_window: true, ..s },
        MenuItem::About => AppState { show_about_window: true, ..s },
        _ => match toggled(s.config, item) {
            Some(change) => AppState { config: menu::changed(s.config, change), ..s },
            None => s,
        },
    }
}

impl AppState {
    /// Nothing has happened yet.
    pub fn new(config: GlobalConfig) -> (r: Self)
        ensures
            r.config == config,
            !r.show_anomaly_explanation,
            !r.show_shortcuts_window,
            !r.show_about_window,
            r.pending_drop_files@ == Seq::<DroppedFile>::empty(),
            r.pending_source_removal is None,
            r.pending_session_offer is None,
    {
        AppState {
            config,
            show_anomaly_explanation: false,
            show_shortcuts_window: false,
            show_about_window: false,
            pending_drop_files: Vec::new(),
            pending_source_removal: None,
            pending_session_offer: None,
        }
    }

    /// Decides what a menu entry leads to.
    pub fn select(&mut self, item: MenuItem) -> (r: MenuEffect)
        ensures
            *final(self) == after_choice(*old(self), item),
            r == effect_of(old(self).config, item),
    {
        match item {
            MenuItem::OpenLogFile => MenuEffect::OpenDialog,
            MenuItem::AddFile => MenuEffect::AddDialog,
            MenuItem::RecentSession(i) => MenuEffect::Restore(i),
            MenuItem::RemoveFile(id) => {
                self.pending_source_removal = Some(id);
                MenuEffect::Nothing
            },
            MenuItem::ExportFilters => MenuEffect::ExportDialog,
            MenuItem::ImportFilters => MenuEffect::ImportDialog,
            MenuItem::SidecarSettings => MenuEffect::OpenSidecarSettings,
            MenuItem::Quit => MenuEffect::CloseWindow,
            MenuItem::AddFilterTab => MenuEffect::AddFilterTab,
            MenuItem::AddBookmarksTab => MenuEffect::AddBookmarksTab,
            MenuItem::AddHighlightsTab => MenuEffect::AddHighlightsTab,
            MenuItem::FileSettings => MenuEffect::FileSettings,
            MenuItem::AnomalyHelp => {
                self.show_anomaly_explanation = true;
                MenuEffect::Nothing
            },
            MenuItem::ShortcutsHelp => {
                self.show_shortcuts_window = true;
                MenuEffect::Nothing
            },
            MenuItem::About => {
                self.show_about_window = true;
                MenuEffect::Nothing
            },
            _ => match toggle(&self.config, item) {
                Some(change) => {
                    if let Some(same) = toggle(&self.config, item) {
                        same.apply(&mut self.config);
                    }
                    MenuEffect::Save(change)
                },
                None => MenuEffect::Nothing,
            },
        }
    }

    /// Keeps files that were dropped until the next frame.
    pub fn dropped(&mut self, files: Vec<DroppedFile>)
        ensures
            final(self).pending_drop_files@ == old(self).pending_drop_files@ + files@,
            final(self).config == old(self).config,
            final(self).show_anomaly_explanation == old(self).show_anomaly_explanation,
            final(self).show_shortcuts_window == old(self).show_shortcuts_window,
            final(self).show_about_window == old(self).show_about_window,
            final(self).pending_source_removal == old(self).pending_source_removal,
            final(self).pending_session_offer == old(self).pending_session_offer,
    {
        let mut more = files;
        self.pending_drop_files.append(&mut more);
    }

    /// Begins a frame: gives the files that were dropped and the source that is to be taken
    /// out, each once.
    pub fn begin_frame(&mut self) -> (r: (Vec<DroppedFile>, Option<u64>))
        ensures
            r.0@ == old(self).pending_drop_files@,
            r.1 == old(self).pending_source_removal,
            final(self).pending_drop_files@ == Seq::<DroppedFile>::empty(),
            final(self).pending_source_removal is None,
            final(self).config == old(self).config,
            final(self).show_anomaly_explanation == old(self).show_anomaly_explanation,
            final(self).show_shortcuts_window == old(self).show_shortcuts_window,
            final(self).show_about_window == old(self).show_about_window,
            final(self).pending_session_offer == old(self).pending_session_offer,
    {
        let mut files: Vec<DroppedFile> = Vec::new();
        files.append(&mut self.pending_drop_files);
        assert(files@ =~= old(self).pending_drop_files@);
        let removal = self.pending_source_removal;
        self.pending_source_removal = None;
        (files, removal)
    }

    /// Offers earlier sessions, if there are any to offer; says whether there are.
    pub fn offer(&mut self, offer: PendingSessionOffer) -> (r: bool)
        ensures
            r == (offer.matching_sessions@.len() > 0),
            *final(self) == if r {
                AppState { pending_session_offer: Some(offer), ..*old(self) }
            } else {
                *old(self)
            },
    {
        if offer.matching_sessions.len() == 0 {
            return false;
        }
        self.pending_session_offer = Some(offer);
        true
    }

    /// Takes the answer to an offer, which is then no longer made.
    pub fn answer_offer(&mut self, action: SessionOfferAction, has_session: bool) -> (r: Vec<
        FileTask,
    >)
        requires
            old(self).pending_session_offer matches Some(offer) ==> sessions::is_answer(
                offer,
                action,
            ),
        ensures
            r@ == match old(self).pending_session_offer {
                Some(offer) => sessions::answered(offer, action, has_session),
                None => Seq::empty(),
            },
            *final(self) == (AppState { pending_session_offer: None, ..*old(self) }),
    {
        let tasks = match &self.pending_session_offer {
            Some(offer) => offer.answer(action, has_session),
            None => Vec::new(),
        };
        self.pending_session_offer = None;
        tasks
    }
}

/// A switch that is chosen twice is as it was.
pub proof fn switches_turn_back(s: AppState, item: MenuItem)
    requires
        toggled(s.config, item) is Some,
    ensures
        after_choice(after_choice(s, item), item) == s,
{
}

/// The heading of the list of work that goes on.
pub fn jobs_heading(count: usize) -> (r: String)
    ensures
        r@ == "Jobs ("@ + text::dec(count as nat) + ")"@,
{
    let mut r = String::from_str("Jobs (");
    text::push_dec(&mut r, count as u64);
    r.append(")");
    r
}

/// Each switch turns its own setting round and leaves all else as it was, and the change
/// that is saved is the one that was made.
pub proof fn switches_turn_their_own_setting(s: AppState)
    ensures
        after_choice(s, MenuItem::BrightMode) == (AppState {
            config: GlobalConfig { bright_mode: !s.config.bright_mode, ..s.config },
            ..s
        }),
        after_choice(s, MenuItem::ShowBookmarks) == (AppState {
            config: GlobalConfig {
                show_bookmarks_in_timeline: !s.config.show_bookmarks_in_timeline,
                ..s.config
            },
            ..s
        }),
        after_choice(s, MenuItem::EnableMlScoring) == (AppState {
            config: GlobalConfig { use_sidecar_scoring: !s.config.use_sidecar_scoring, ..s.config },
            ..s
        }),
        after_choice(s, MenuItem::ColorByMlScore) == (AppState {
            config: GlobalConfig { color_by_ml_score: !s.config.color_by_ml_score, ..s.config },
            ..s
        }),
        after_choice(s, MenuItem::GreyOutRareLines) == (AppState {
            config: GlobalConfig { grey_rare_ml_lines: !s.config.grey_rare_ml_lines, ..s.config },
            ..s
        }),
        after_choice(s, MenuItem::HideDuplicateLines) == (AppState {
            config: GlobalConfig { hide_duplicates: !s.config.hide_duplicates, ..s.config },
            ..s
        }),
        forall|item: MenuItem|
            {
                &&& (#[trigger] effect_of(s.config, item) matches MenuEffect::Save(change) ==> {
                    &&& toggled(s.config, item) == Some(change)
                    &&& after_choice(s, item).config == menu::changed(s.config, change)
                })
                &&& (effect_of(s.config, item) is Save) == (item is BrightMode
                    || item is ShowBookmarks || item is EnableMlScoring || item is ColorByMlScore
                    || item is GreyOutRareLines || item is HideDuplicateLines)
            },
{
}

/// A menu entry that is no switch changes no setting. It opens what it is called after,
/// and a file that is to be taken out is remembered until the next frame.
pub proof fn other_entries_change_no_setting(s: AppState, i: usize, id: u64)
    ensures
        forall|item: MenuItem|
            !(item is BrightMode || item is ShowBookmarks || item is EnableMlScoring
                || item is ColorByMlScore || item is GreyOutRareLines || item is HideDuplicateLines)
                ==> (#[trigger] after_choice(s, item)).config == s.config,
        after_choice(s, MenuItem::RemoveFile(id)) == (AppState {
            pending_source_removal: Some(id),
            ..s
        }),
        after_choice(s, MenuItem::AnomalyHelp) == (AppState {
            show_anomaly_explanation: true,
            ..s
        }),
        after_choice(s, MenuItem::ShortcutsHelp) == (AppState { show_shortcuts_window: true, ..s }),
        after_choice(s, MenuItem::About) == (AppState { show_about_window: true, ..s }),
        forall|item: MenuItem|
            !(effect_of(s.config, item) is Save || item is RemoveFile || item is AnomalyHelp
                || item is ShortcutsHelp || item is About) ==> #[trigger] after_choice(s, item)
                == s,
        effect_of(s.config, MenuItem::OpenLogFile) is OpenDialog,
        effect_of(s.config, MenuItem::AddFile) is AddDialog,
        effect_of(s.config, MenuItem::RecentSession(i)) == MenuEffect::Restore(i),
        effect_of(s.config, MenuItem::ExportFilters) is ExportDialog,
        effect_of(s.config, MenuItem::ImportFilters) is ImportDialog,
        effect_of(s.config, MenuItem::SidecarSettings) is OpenSidecarSettings,
        effect_of(s.config, MenuItem::Quit) is CloseWindow,
        effect_of(s.config, MenuItem::AddFilterTab) is AddFilterTab,
        effect_of(s.config, MenuItem::AddBookmarksTab) is AddBookmarksTab,
        effect_of(s.config, MenuItem::AddHighlightsTab) is AddHighlightsTab,
        effect_of(s.config, MenuItem::FileSettings) is FileSettings,
        effect_of(s.config, MenuItem::RemoveFile(id)) is Nothing,
        effect_of(s.config, MenuItem::Separator) is Nothing,
        effect_of(s.config, MenuItem::AnomalyHelp) is Nothing,
        effect_of(s.config, MenuItem::ShortcutsHelp) is Nothing,
        effect_of(s.config, MenuItem::About) is Nothing,
{
}

} // verus!

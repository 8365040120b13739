//! The settings of the program.

use crate::sidecar::model;
use crate::sidecar::model::SidecarClient;
use crate::sidecar::scoring::ScoringConfig;
use crate::store::variant::GlobalFileConfig;
use crate::text;
use std::collections::HashMap;
use vstd::prelude::*;

verus! {

/// Which clock the lines of a DLT log go by.
#[derive(Debug, Clone, Copy, PartialEq, Eq, Structural)]
pub enum DltTimestampSource {
    /// The clock of the device that stored the log.
    StorageTime,
    /// The time since the start of the device that sent the line.
    InferredMonotonic,
}

impl Default for DltTimestampSource {
    fn default() -> (r: Self)
        ensures
            r == DltTimestampSource::StorageTime,
    {
        DltTimestampSource::StorageTime
    }
}

/// The version of the form in which settings are saved.
///
/// A version that a newer program wrote is not read, and not written over.
pub const SCHEMA_VERSION: u32 = 4;

/// The settings that hold for all sessions.
#[derive(Debug)]
pub struct GlobalConfig {
    pub schema_version: u32,
    /// The keys of shortcuts, by the names of what they do.
    pub shortcuts: HashMap<String, String>,
    pub favorite_filters: Vec<FavoriteFilter>,
    pub bright_mode: bool,
    pub last_log_directory: Option<String>,
    pub last_filters_directory: Option<String>,
    pub file_config: GlobalFileConfig,
    pub show_bookmarks_in_timeline: bool,
    /// Whether the settings must not be saved.
    pub read_only: bool,
    pub use_sidecar_scoring: bool,
    pub color_by_ml_score: bool,
    pub grey_rare_ml_lines: bool,
    pub sidecar_host: String,
    pub sidecar_port: u16,
    pub hide_duplicates: bool,
    /// The model that scores lines; without one the scoring service is not asked.
    pub selected_model: Option<String>,
}

impl GlobalConfig {
    /// Whether the settings are those that hold when none were saved, but that they may
    /// be marked as not to be saved.
    pub open spec fn is_default(&self, read_only: bool) -> bool {
        &&& self.schema_version == SCHEMA_VERSION
        &&& self.shortcuts@ == Map::<String, String>::empty()
        &&& self.favorite_filters@ == Seq::<FavoriteFilter>::empty()
        &&& !self.bright_mode
        &&& self.last_log_directory is None
        &&& self.last_filters_directory is None
        &&& self.file_config.dlt == DltTimestampSource::StorageTime
        &&& !self.file_config.pcap.show_mac_addresses
        &&& !self.show_bookmarks_in_timeline
        &&& self.read_only == read_only
        &&& !self.use_sidecar_scoring
        &&& !self.color_by_ml_score
        &&& self.grey_rare_ml_lines
        &&& self.sidecar_host@ == "127.0.0.1"@
        &&& self.sidecar_port == model::DEFAULT_PORT
        &&& !self.hide_duplicates
        &&& self.selected_model is None
    }

    fn defaults(read_only: bool) -> (r: Self)
        ensures
            r.is_default(read_only),
    {
        let r = GlobalConfig {
            schema_version: SCHEMA_VERSION,
            shortcuts: HashMap::new(),
            favorite_filters: Vec::new(),
            bright_mode: false,
            last_log_directory: None,
            last_filters_directory: None,
            file_config: GlobalFileConfig::default(),
            show_bookmarks_in_timeline: false,
            read_only,
            use_sidecar_scoring: false,
            color_by_ml_score: false,
            grey_rare_ml_lines: true,
            sidecar_host: String::from_str(SidecarClient::default_host()),
            sidecar_port: SidecarClient::default_port(),
            hide_duplicates: false,
            selected_model: None,
        };
        assert(r.favorite_filters@ =~= Seq::empty());
        r
    }

    /// Settings of the present version, otherwise unchanged.
    pub open spec fn migrated(self) -> GlobalConfig {
        if self.schema_version < SCHEMA_VERSION {
            GlobalConfig { schema_version: SCHEMA_VERSION, ..self }
        } else {
            self
        }
    }

    /// Reads saved settings.
    ///
    /// `probe` is the version that the saved text says, if it can be read and says one.
    /// `parse` reads the text; where it is told to, it takes the version to be zero,
    /// whatever the text says.
    ///
    /// Settings that a newer program saved are not read, and will not be written over. Those
    /// that cannot be read are lost. Those of older versions are taken over.
    pub fn parse_contents<P: Fn(bool) -> Option<GlobalConfig>>(
        probe: Option<Option<u32>>,
        parse: &P,
    ) -> (r: Self)
        requires
            forall|b: bool| #[trigger] call_requires(*parse, (b,)),
        ensures
            is_read(probe, *parse, r),
    {
        let version: u32 = match probe {
            Some(Some(v)) => v,
            _ => 0,
        };
        if version > SCHEMA_VERSION {
            return GlobalConfig::defaults(true);
        }
        let parsed = parse(version == 0);
        assert(call_ensures(*parse, (is_unversioned(probe),), parsed));
        match parsed {
            Some(c) => {
                let mut config = c;
                if config.schema_version < SCHEMA_VERSION {
                    config.schema_version = SCHEMA_VERSION;
                }
                config
            },
            None => GlobalConfig::defaults(false),
        }
    }

    /// Changes the settings in the text of the file that holds them, and gives them; an empty
    /// text holds none.
    pub fn update<P: Fn(bool) -> Option<GlobalConfig>, F: FnOnce(GlobalConfig) -> GlobalConfig>(
        empty: bool,
        probe: Option<Option<u32>>,
        parse: &P,
        f: F,
    ) -> (r: Self)
        requires
            forall|b: bool| #[trigger] call_requires(*parse, (b,)),
            forall|c: GlobalConfig| #[trigger] call_requires(f, (c,)),
        ensures
            exists|before: GlobalConfig|
                is_held(empty, probe, *parse, before) && #[trigger] call_ensures(f, (before,), r),
    {
        let before = if empty {
            GlobalConfig::defaults(false)
        } else {
            GlobalConfig::parse_contents(probe, parse)
        };
        let ghost held = before;
        assert(is_held(empty, probe, *parse, held));
        f(before)
    }

    /// Decides whether settings that were changed are saved.
    pub fn is_saved(&self) -> (r: bool)
        ensures
            r == !self.read_only,
    {
        !self.read_only
    }

    /// How the scoring service is used.
    pub fn scoring_config(&self) -> (r: ScoringConfig)
        ensures
            r == (ScoringConfig {
                use_sidecar: self.use_sidecar_scoring,
                sidecar_host: self.sidecar_host,
                sidecar_port: self.sidecar_port,
                model_id: self.selected_model,
            }),
    {
        ScoringConfig {
            use_sidecar: self.use_sidecar_scoring,
            sidecar_host: self.sidecar_host.clone(),
            sidecar_port: self.sidecar_port,
            model_id: text::clone_opt(&self.selected_model),
        }
    }
}

impl Default for GlobalConfig {
    fn default() -> (r: Self)
        ensures
            r.is_default(false),
    {
        GlobalConfig::defaults(false)
    }
}

/// The version of saved settings; zero where the text does not say one.
pub open spec fn saved_version(probe: Option<Option<u32>>) -> u32 {
    match probe {
        Some(Some(v)) => v,
        _ => 0,
    }
}

/// Whether saved settings say no version, as those of the first programs do not.
pub open spec fn is_unversioned(probe: Option<Option<u32>>) -> bool {
    saved_version(probe) == 0
}

/// Whether settings are those that are read from a saved text.
pub open spec fn is_read<P: Fn(bool) -> Option<GlobalConfig>>(
    probe: Option<Option<u32>>,
    parse: P,
    r: GlobalConfig,
) -> bool {
    if saved_version(probe) > SCHEMA_VERSION {
        r.is_default(true)
    } else {
        exists|parsed: Option<GlobalConfig>|
            {
                &&& #[trigger] call_ensures(parse, (is_unversioned(probe),), parsed)
                &&& match parsed {
                    Some(c) => r == c.migrated(),
                    None => r.is_default(false),
                }
            }
    }
}

/// Whether settings are those that a file holds; an empty one holds none.
pub open spec fn is_held<P: Fn(bool) -> Option<GlobalConfig>>(
    empty: bool,
    probe: Option<Option<u32>>,
    parse: P,
    r: GlobalConfig,
) -> bool {
    if empty {
        r.is_default(false)
    } else {
        is_read(probe, parse, r)
    }
}

/// Saved settings come back: where the version of a text is the present one, and the text
/// can only be read as given settings of that version, these are what is read, and what
/// the next change starts from.
pub proof fn saved_settings_come_back<P: Fn(bool) -> Option<GlobalConfig>>(
    c: GlobalConfig,
    probe: Option<Option<u32>>,
    parse: P,
    r: GlobalConfig,
)
    requires
        c.schema_version == SCHEMA_VERSION,
        probe == Some(Some(c.schema_version)),
        forall|parsed: Option<GlobalConfig>| #[trigger]
            call_ensures(parse, (false,), parsed) ==> parsed == Some(c),
    ensures
        is_read(probe, parse, r) ==> r == c,
        is_held(false, probe, parse, r) ==> r == c,
{
}

/// Settings that a newer program saved come out as the defaults that must not be saved,
/// whatever else the text holds.
pub proof fn newer_settings_are_protected<P: Fn(bool) -> Option<GlobalConfig>>(
    version: u32,
    parse: P,
    r: GlobalConfig,
)
    requires
        version > SCHEMA_VERSION,
        is_held(false, Some(Some(version)), parse, r),
    ensures
        r.is_default(true),
        r.read_only,
{
}

/// Taking settings over leaves every setting as it was but the version, and taking them
/// over again changes nothing.
pub proof fn migration_keeps_settings(c: GlobalConfig)
    requires
        c.schema_version <= SCHEMA_VERSION,
    ensures
        c.migrated().schema_version == SCHEMA_VERSION,
        c.migrated() == (GlobalConfig { schema_version: SCHEMA_VERSION, ..c }),
        c.migrated().migrated() == c.migrated(),
{
}

/// A filter that the user keeps for all sessions.
#[derive(Debug)]
pub struct FavoriteFilter {
    pub search_text: String,
    pub case_sensitive: bool,
    pub name: String,
}

/// What a filter searches for.
#[derive(Debug)]
pub struct SearchRule {
    pub search_text: String,
    pub case_sensitive: bool,
}

impl SearchRule {
    /// Decides whether the rule searches for a text in a given way.
    pub fn matches_search(&self, search_text: &str, case_sensitive: bool) -> (r: bool)
        ensures
            r == (self.search_text@ == search_text@ && self.case_sensitive == case_sensitive),
    {
        self.search_text == String::from_str(search_text) && self.case_sensitive == case_sensitive
    }
}

impl FavoriteFilter {
    /// A favorite that is called by what it searches for.
    pub fn new(search_text: String, case_sensitive: bool) -> (r: Self)
        ensures
            r == (FavoriteFilter { search_text, case_sensitive, name: search_text }),
    {
        let name = search_text.clone();
        FavoriteFilter { search_text, case_sensitive, name }
    }

    /// The name, or what is searched for where there is none.
    pub fn display_name(&self) -> (r: &str)
        ensures
            r@ == if self.name@.len() == 0 {
                self.search_text@
            } else {
                self.name@
            },
    {
        if self.name.as_str().unicode_len() == 0 {
            self.search_text.as_str()
        } else {
            self.name.as_str()
        }
    }

    /// Decides whether a rule searches for the same in the same way.
    pub fn matches(&self, rule: &SearchRule) -> (r: bool)
        ensures
            r == (rule.search_text@ == self.search_text@ && rule.case_sensitive
                == self.case_sensitive),
    {
        rule.matches_search(self.search_text.as_str(), self.case_sensitive)
    }
}

/// Settings that were never saved are those that the program begins with.
pub proof fn settings_begin_plain(c: GlobalConfig, read_only: bool)
    requires
        c.is_default(read_only),
    ensures
        c.schema_version == 4,
        c.read_only == read_only,
        c.shortcuts@ == Map::<String, String>::empty(),
        c.favorite_filters@.len() == 0,
        c.last_log_directory is None && c.last_filters_directory is None,
        c.file_config.dlt is StorageTime && !c.file_config.pcap.show_mac_addresses,
        !c.bright_mode && !c.show_bookmarks_in_timeline && !c.hide_duplicates,
        !c.use_sidecar_scoring && c.selected_model is None,
        !c.color_by_ml_score && c.grey_rare_ml_lines,
        c.sidecar_host@ == "127.0.0.1"@ && c.sidecar_port == 8765,
{
}

/// Which text is read, and as what, goes by its version: one above 4 is not read, one
/// without a version or with zero is read as one without, and any other as it stands. A
/// text that cannot be read leaves plain settings, which may be saved.
pub proof fn texts_are_read_by_their_version<P: Fn(bool) -> Option<GlobalConfig>>(
    probe: Option<Option<u32>>,
    parse: P,
    r: GlobalConfig,
    unversioned: bool,
)
    requires
        is_held(false, probe, parse, r),
        unversioned == !(probe matches Some(Some(v)) && v > 0),
    ensures
        (probe matches Some(Some(v)) && v > 4) ==> r.read_only,
        !(probe matches Some(Some(v)) && v > 4) ==> exists|parsed: Option<GlobalConfig>|
            #[trigger] call_ensures(parse, (unversioned,), parsed) && match parsed {
                Some(c) => {
                    &&& c.schema_version <= 4 ==> r == (GlobalConfig { schema_version: 4, ..c })
                    &&& c.schema_version > 4 ==> r == c
                },
                None => !r.read_only && r.schema_version == 4,
            },
{
    if saved_version(probe) <= SCHEMA_VERSION {
        let parsed = choose|parsed: Option<GlobalConfig>|
            {
                &&& #[trigger] call_ensures(parse, (is_unversioned(probe),), parsed)
                &&& match parsed {
                    Some(c) => r == c.migrated(),
                    None => r.is_default(false),
                }
            };
        assert(call_ensures(parse, (unversioned,), parsed));
    }
}

/// A file without a text holds the settings that the program begins with, and they may be
/// saved.
pub proof fn empty_files_hold_plain_settings<P: Fn(bool) -> Option<GlobalConfig>>(
    probe: Option<Option<u32>>,
    parse: P,
    r: GlobalConfig,
)
    requires
        is_held(true, probe, parse, r),
    ensures
        !r.read_only,
        r.schema_version == 4,
        r.favorite_filters@.len() == 0,
        r.sidecar_port == 8765,
{
}

} // verus!

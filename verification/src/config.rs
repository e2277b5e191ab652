//! User-facing configuration: diagnostics strategy, tsserver launch knobs,
//! and the inlay-hint gate. Workspace settings arrive as JSON and are merged
//! into the typed structures here; the merge reports whether anything
//! recognised actually changed.

use vstd::prelude::*;

use crate::json::{json_get, json_as_str, json_as_bool, json_as_u64, json_as_array};
use crate::utils::{str_eq, str_to_string, clone_opt_string};

verus! {

/// When diagnostics are requested.
#[derive(Debug, Clone, Copy, PartialEq, Eq, Structural)]
pub enum DiagnosticPublishMode {
    InsertLeave,
    Change,
}

/// The mode a setting string selects; anything unrecognised keeps the
/// default of requesting on leaving insert mode.
pub open spec fn spec_publish_mode(value: Seq<char>) -> DiagnosticPublishMode {
    if value == "change"@ {
        DiagnosticPublishMode::Change
    } else {
        DiagnosticPublishMode::InsertLeave
    }
}

impl DiagnosticPublishMode {
    /// Parses a string-based setting into the enum.
    pub fn from_str(value: &str) -> (r: DiagnosticPublishMode)
        ensures
            r == spec_publish_mode(value@),
    {
        if str_eq(value, "change") {
            DiagnosticPublishMode::Change
        } else {
            DiagnosticPublishMode::InsertLeave
        }
    }
}

/// tsserver's log verbosity levels.
#[derive(Debug, Clone, Copy, PartialEq, Eq, Structural)]
pub enum TsserverLogVerbosity {
    Terse,
    Normal,
    RequestTime,
    Verbose,
}

/// The verbosity a setting string selects, if any.
pub open spec fn spec_verbosity(value: Seq<char>) -> Option<TsserverLogVerbosity> {
    if value == "terse"@ {
        Some(TsserverLogVerbosity::Terse)
    } else if value == "normal"@ {
        Some(TsserverLogVerbosity::Normal)
    } else if value == "requestTime"@ || value == "request_time"@ {
        Some(TsserverLogVerbosity::RequestTime)
    } else if value == "verbose"@ {
        Some(TsserverLogVerbosity::Verbose)
    } else {
        None
    }
}

/// The flag text each verbosity passes to tsserver.
pub open spec fn spec_cli_flag(v: TsserverLogVerbosity) -> Seq<char> {
    match v {
        TsserverLogVerbosity::Terse => "terse"@,
        TsserverLogVerbosity::Normal => "normal"@,
        TsserverLogVerbosity::RequestTime => "requestTime"@,
        TsserverLogVerbosity::Verbose => "verbose"@,
    }
}

impl TsserverLogVerbosity {
    /// Parses a verbosity setting.
    pub fn from_str(value: &str) -> (r: Option<TsserverLogVerbosity>)
        ensures
            r == spec_verbosity(value@),
    {
        if str_eq(value, "terse") {
            Some(TsserverLogVerbosity::Terse)
        } else if str_eq(value, "normal") {
            Some(TsserverLogVerbosity::Normal)
        } else if str_eq(value, "requestTime") || str_eq(value, "request_time") {
            Some(TsserverLogVerbosity::RequestTime)
        } else if str_eq(value, "verbose") {
            Some(TsserverLogVerbosity::Verbose)
        } else {
            None
        }
    }

    /// The value passed to tsserver's log-verbosity flag.
    pub fn as_cli_flag(&self) -> (r: &'static str)
        ensures
            r@ == spec_cli_flag(*self),
    {
        match self {
            TsserverLogVerbosity::Terse => "terse",
            TsserverLogVerbosity::Normal => "normal",
            TsserverLogVerbosity::RequestTime => "requestTime",
            TsserverLogVerbosity::Verbose => "verbose",
        }
    }
}

/// Launch-related knobs for the underlying tsserver Node process.
#[derive(Debug)]
pub struct TsserverLaunchOptions {
    pub locale: Option<String>,
    pub log_directory: Option<String>,
    pub log_verbosity: Option<TsserverLogVerbosity>,
    pub max_old_space_size: Option<u32>,
    pub global_plugins: Vec<String>,
    pub plugin_probe_dirs: Vec<String>,
    pub extra_args: Vec<String>,
}

/// Two optional strings hold the same text.
pub open spec fn opt_string_eq(a: Option<String>, b: Option<String>) -> bool {
    match (a, b) {
        (Some(x), Some(y)) => x@ == y@,
        (None, None) => true,
        _ => false,
    }
}

/// Two string lists hold the same texts in the same order.
pub open spec fn string_list_eq(a: Seq<String>, b: Seq<String>) -> bool {
    a.len() == b.len() && forall|i: int| 0 <= i < a.len() ==> (#[trigger] a[i])@ == b[i]@
}

/// Two launch-option records describe the same launch.
pub open spec fn launch_options_eq(a: TsserverLaunchOptions, b: TsserverLaunchOptions) -> bool {
    &&& opt_string_eq(a.locale, b.locale)
    &&& opt_string_eq(a.log_directory, b.log_directory)
    &&& a.log_verbosity == b.log_verbosity
    &&& a.max_old_space_size == b.max_old_space_size
    &&& string_list_eq(a.global_plugins@, b.global_plugins@)
    &&& string_list_eq(a.plugin_probe_dirs@, b.plugin_probe_dirs@)
    &&& string_list_eq(a.extra_args@, b.extra_args@)
}

/// Compares two optional strings by text.
pub fn opt_string_equal(a: &Option<String>, b: &Option<String>) -> (r: bool)
    ensures
        r == opt_string_eq(*a, *b),
{
    match (a, b) {
        (Some(x), Some(y)) => str_eq(x.as_str(), y.as_str()),
        (None, None) => true,
        _ => false,
    }
}

/// Compares two string lists by text, element for element.
pub fn string_list_equal(a: &Vec<String>, b: &Vec<String>) -> (r: bool)
    ensures
        r == string_list_eq(a@, b@),
{
    if a.len() != b.len() {
        return false;
    }
    let mut i: usize = 0;
    while i < a.len()
        invariant
            i <= a@.len(),
            a@.len() == b@.len(),
            forall|j: int| 0 <= j < i ==> (#[trigger] a@[j])@ == b@[j]@,
        decreases a@.len() - i,
    {
        if !str_eq(a[i].as_str(), b[i].as_str()) {
            return false;
        }
        i += 1;
    }
    true
}

/// Copies a string list.
pub fn copy_string_list(v: &Vec<String>) -> (r: Vec<String>)
    ensures
        r@.len() == v@.len(),
        forall|i: int| 0 <= i < v@.len() ==> (#[trigger] r@[i])@ == v@[i]@,
{
    let mut out: Vec<String> = Vec::new();
    let mut i: usize = 0;
    while i < v.len()
        invariant
            i <= v@.len(),
            out@.len() == i,
            forall|j: int| 0 <= j < i ==> (#[trigger] out@[j])@ == v@[j]@,
        decreases v@.len() - i,
    {
        out.push(v[i].clone());
        i += 1;
    }
    out
}

impl TsserverLaunchOptions {
    /// All knobs at their defaults: nothing configured.
    pub fn new() -> (r: TsserverLaunchOptions)
        ensures
            r.locale is None,
            r.log_directory is None,
            r.log_verbosity is None,
            r.max_old_space_size is None,
            r.global_plugins@.len() == 0,
            r.plugin_probe_dirs@.len() == 0,
            r.extra_args@.len() == 0,
    {
        TsserverLaunchOptions {
            locale: None,
            log_directory: None,
            log_verbosity: None,
            max_old_space_size: None,
            global_plugins: Vec::new(),
            plugin_probe_dirs: Vec::new(),
            extra_args: Vec::new(),
        }
    }

    /// A copy of these options, equal text for text.
    pub fn duplicate(&self) -> (r: TsserverLaunchOptions)
        ensures
            launch_options_eq(r, *self),
    {
        TsserverLaunchOptions {
            locale: clone_opt_string(&self.locale),
            log_directory: clone_opt_string(&self.log_directory),
            log_verbosity: self.log_verbosity,
            max_old_space_size: self.max_old_space_size,
            global_plugins: copy_string_list(&self.global_plugins),
            plugin_probe_dirs: copy_string_list(&self.plugin_probe_dirs),
            extra_args: copy_string_list(&self.extra_args),
        }
    }

    /// Text-for-text comparison of two launch-option records.
    pub fn equals(&self, other: &TsserverLaunchOptions) -> (r: bool)
        ensures
            r == launch_options_eq(*self, *other),
    {
        opt_string_equal(&self.locale, &other.locale) && opt_string_equal(
            &self.log_directory,
            &other.log_directory,
        ) && self.log_verbosity == other.log_verbosity && self.max_old_space_size
            == other.max_old_space_size && string_list_equal(
            &self.global_plugins,
            &other.global_plugins,
        ) && string_list_equal(&self.plugin_probe_dirs, &other.plugin_probe_dirs)
            && string_list_equal(&self.extra_args, &other.extra_args)
    }

    /// Merges the `tsserver` section of a settings document into these
    /// options. Only recognised keys are read; the JSON itself stays opaque,
    /// so nothing is promised about which values arrive, only that the record
    /// ends up holding what was read.
    pub fn update_from_value(&mut self, value: &serde_json::Value)
    {
        if let Some(locale_value) = json_get(value, "locale") {
            self.locale = json_as_str(locale_value);
        }
        if let Some(dir_value) = json_get(value, "log_directory") {
            self.log_directory = json_as_str(dir_value);
        }
        if let Some(verbosity_value) = json_get(value, "log_verbosity") {
            self.log_verbosity = match json_as_str(verbosity_value) {
                Some(text) => TsserverLogVerbosity::from_str(text.as_str()),
                None => None,
            };
        }
        if let Some(size_value) = json_get(value, "max_old_space_size") {
            self.max_old_space_size = match json_as_u64(size_value) {
                Some(size) => {
                    if size <= u32::MAX as u64 {
                        Some(size as u32)
                    } else {
                        None
                    }
                },
                None => None,
            };
        }
        if let Some(list_value) = json_get(value, "global_plugins") {
            if let Some(list) = string_list(list_value) {
                self.global_plugins = list;
            }
        }
        if let Some(list_value) = json_get(value, "plugin_probe_dirs") {
            if let Some(list) = string_list(list_value) {
                self.plugin_probe_dirs = list;
            }
        }
        if let Some(list_value) = json_get(value, "extra_args") {
            if let Some(list) = string_list(list_value) {
                self.extra_args = list;
            }
        }
    }
}

/// The string elements of a JSON array value; anything that is not an array
/// yields nothing, and non-string elements are skipped.
pub fn string_list(value: &serde_json::Value) -> (r: Option<Vec<String>>)
{
    let array = match json_as_array(value) {
        Some(array) => array,
        None => {
            return None;
        },
    };
    let mut result: Vec<String> = Vec::new();
    let mut i: usize = 0;
    while i < array.len()
        decreases array@.len() - i,
    {
        if let Some(text) = json_as_str(&array[i]) {
            result.push(text);
        }
        i += 1;
    }
    Some(result)
}

/// Settings evaluated during plugin setup.
#[derive(Debug)]
pub struct PluginSettings {
    /// Whether a paired semantic tsserver dedicated to diagnostics runs.
    pub separate_diagnostic_server: bool,
    /// When diagnostics are requested.
    pub publish_diagnostic_on: DiagnosticPublishMode,
    /// Launch arguments and logging preferences forwarded to tsserver.
    pub tsserver: TsserverLaunchOptions,
    /// Gate for tsserver-backed inlay hints.
    pub enable_inlay_hints: bool,
}

/// Two settings records agree on every knob.
pub open spec fn settings_eq(a: PluginSettings, b: PluginSettings) -> bool {
    &&& a.separate_diagnostic_server == b.separate_diagnostic_server
    &&& a.publish_diagnostic_on == b.publish_diagnostic_on
    &&& launch_options_eq(a.tsserver, b.tsserver)
    &&& a.enable_inlay_hints == b.enable_inlay_hints
}

impl PluginSettings {
    /// The defaults: paired diagnostics server on, diagnostics on leaving
    /// insert mode, inlay hints enabled, no extra launch options.
    pub fn new() -> (r: PluginSettings)
        ensures
            r.separate_diagnostic_server == true,
            r.publish_diagnostic_on == DiagnosticPublishMode::InsertLeave,
            r.enable_inlay_hints == true,
            r.tsserver.locale is None,
            r.tsserver.log_directory is None,
            r.tsserver.log_verbosity is None,
            r.tsserver.max_old_space_size is None,
            r.tsserver.global_plugins@.len() == 0,
            r.tsserver.plugin_probe_dirs@.len() == 0,
            r.tsserver.extra_args@.len() == 0,
    {
        PluginSettings {
            separate_diagnostic_server: true,
            publish_diagnostic_on: DiagnosticPublishMode::InsertLeave,
            tsserver: TsserverLaunchOptions::new(),
            enable_inlay_hints: true,
        }
    }

    /// A copy of these settings, equal knob for knob.
    pub fn duplicate(&self) -> (r: PluginSettings)
        ensures
            settings_eq(r, *self),
    {
        PluginSettings {
            separate_diagnostic_server: self.separate_diagnostic_server,
            publish_diagnostic_on: self.publish_diagnostic_on,
            tsserver: self.tsserver.duplicate(),
            enable_inlay_hints: self.enable_inlay_hints,
        }
    }

    /// Knob-for-knob comparison.
    pub fn equals(&self, other: &PluginSettings) -> (r: bool)
        ensures
            r == settings_eq(*self, *other),
    {
        self.separate_diagnostic_server == other.separate_diagnostic_server
            && self.publish_diagnostic_on == other.publish_diagnostic_on && self.tsserver.equals(
            &other.tsserver,
        ) && self.enable_inlay_hints == other.enable_inlay_hints
    }

    /// Merges one settings object into these settings: recognised keys
    /// overwrite the corresponding knobs.
    pub fn update_from_map(&mut self, map: &serde_json::Value)
    {
        if let Some(value) = json_get(map, "separate_diagnostic_server") {
            if let Some(flag) = json_as_bool(value) {
                self.separate_diagnostic_server = flag;
            }
        }
        if let Some(value) = json_get(map, "publish_diagnostic_on") {
            if let Some(text) = json_as_str(value) {
                self.publish_diagnostic_on = DiagnosticPublishMode::from_str(text.as_str());
            }
        }
        if let Some(tsserver_value) = json_get(map, "tsserver") {
            self.tsserver.update_from_value(tsserver_value);
        }
        if let Some(value) = json_get(map, "enable_inlay_hints") {
            if let Some(flag) = json_as_bool(value) {
                self.enable_inlay_hints = flag;
            }
        }
    }
}

/// Global configuration facade.
#[derive(Debug)]
pub struct Config {
    plugin: PluginSettings,
}

impl Config {
    /// Wraps the given settings.
    pub fn new(plugin: PluginSettings) -> (r: Config)
        ensures
            r.view_plugin() == plugin,
    {
        Config { plugin }
    }

    /// The settings held.
    pub closed spec fn view_plugin(self) -> PluginSettings {
        self.plugin
    }

    /// Read access to the settings.
    pub fn plugin(&self) -> (r: &PluginSettings)
        ensures
            *r == self.view_plugin(),
    {
        &self.plugin
    }

    /// A copy of this configuration.
    pub fn duplicate(&self) -> (r: Config)
        ensures
            settings_eq(r.view_plugin(), self.view_plugin()),
    {
        Config { plugin: self.plugin.duplicate() }
    }

    /// Applies a workspace configuration payload: settings found at the
    /// document root, under the recognised vendor keys, or under `plugin` are
    /// merged. Returns whether any recognised knob changed.
    pub fn apply_workspace_settings(&mut self, settings: &serde_json::Value) -> (r: bool)
        ensures
            r == !settings_eq(final(self).view_plugin(), old(self).view_plugin()),
    {
        let snapshot = self.plugin.duplicate();
        self.plugin.update_from_map(settings);
        if let Some(section) = json_get(settings, "ts-bridge") {
            self.plugin.update_from_map(section);
        }
        if let Some(section) = json_get(settings, "tsBridge") {
            self.plugin.update_from_map(section);
        }
        if let Some(section) = json_get(settings, "tsbridge") {
            self.plugin.update_from_map(section);
        }
        if let Some(section) = json_get(settings, "ts_bridge") {
            self.plugin.update_from_map(section);
        }
        if let Some(section) = json_get(settings, "plugin") {
            self.plugin.update_from_map(section);
        }
        let unchanged = self.plugin.equals(&snapshot);
        proof {
            lemma_settings_eq_transitive_via(self.view_plugin(), snapshot, old(self).view_plugin());
        }
        !unchanged
    }
}

/// Settings equal to a snapshot that itself mirrors the original are equal to
/// the original, and conversely.
proof fn lemma_settings_eq_transitive_via(a: PluginSettings, snap: PluginSettings, orig: PluginSettings)
    requires
        settings_eq(snap, orig),
    ensures
        settings_eq(a, snap) == settings_eq(a, orig),
{
}

} // verus!

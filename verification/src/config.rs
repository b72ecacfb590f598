//! Configuration: the settings the sampler and the file indexer read, the
//! update messages the UI sends, and the plugin registry. Reading and
//! writing the configuration file is the caller's I/O; this module holds
//! the values and their rules.

use vstd::prelude::*;

use crate::string_factory::{spec_starts_with, starts_with_str, push_char};

verus! {

/// The base settings.
#[derive(Debug)]
pub struct BaseConfig {
    pub app_name: String,
    pub version: String,
    pub hotkey_awaken: String,
    pub hotkey_clipboard: String,
    pub clipboard_record_count_switch: bool,
    pub clipboard_record_count: Option<i32>,
    pub clipboard_record_text_switch: bool,
    pub clipboard_record_text_time: Option<i32>,
    pub clipboard_record_image_switch: bool,
    pub clipboard_record_image_time: Option<i32>,
    pub clipboard_record_file_switch: bool,
    pub clipboard_record_file_time: Option<i32>,
    pub local_file_search_exclude_paths: Vec<String>,
    pub local_file_search_exclude_types: Vec<String>,
}

impl Default for BaseConfig {
    /// The out-of-the-box settings: clipboard history capped at one
    /// hundred records, and the usual system and build directories kept
    /// out of the file index.
    fn default() -> (r: BaseConfig)
        ensures
            r.app_name@ == "lark"@,
            r.version@ == "1.0.0"@,
            r.hotkey_awaken@ == "Option+Space"@,
            r.hotkey_clipboard@ == "Shift+Meta+V"@,
            !r.clipboard_record_count_switch,
            r.clipboard_record_count == Some(100i32),
            !r.clipboard_record_text_switch,
            r.clipboard_record_text_time == Some(10i32),
            !r.clipboard_record_image_switch,
            r.clipboard_record_image_time == Some(5i32),
            !r.clipboard_record_file_switch,
            r.clipboard_record_file_time == Some(1i32),
            r.local_file_search_exclude_paths@.len() == 13,
            r.local_file_search_exclude_paths@[0]@ == "/Library"@,
            r.local_file_search_exclude_paths@[8]@ == "~/Library"@,
            r.local_file_search_exclude_paths@[9]@ == "*/node_modules"@,
            r.local_file_search_exclude_types@.len() == 10,
            r.local_file_search_exclude_types@[0]@ == "plist"@,
    {
        let mut paths: Vec<String> = Vec::new();
        paths.push("/Library".to_owned());
        paths.push("/System".to_owned());
        paths.push("/private".to_owned());
        paths.push("/usr".to_owned());
        paths.push("/etc".to_owned());
        paths.push("/cores".to_owned());
        paths.push("/Volumes".to_owned());
        paths.push("/dev".to_owned());
        paths.push("~/Library".to_owned());
        paths.push("*/node_modules".to_owned());
        paths.push("*/src-tauri/target".to_owned());
        paths.push("*/venv".to_owned());
        paths.push("*/dist".to_owned());
        let mut types: Vec<String> = Vec::new();
        types.push("plist".to_owned());
        types.push("dylib".to_owned());
        types.push("kext".to_owned());
        types.push("framework".to_owned());
        types.push("app".to_owned());
        types.push("ds_store".to_owned());
        types.push("crash".to_owned());
        types.push("sparseimage".to_owned());
        types.push("kernel".to_owned());
        types.push("xpc".to_owned());
        BaseConfig {
            app_name: "lark".to_owned(),
            version: "1.0.0".to_owned(),
            hotkey_awaken: "Option+Space".to_owned(),
            hotkey_clipboard: "Shift+Meta+V".to_owned(),
            clipboard_record_count_switch: false,
            clipboard_record_count: Some(100),
            clipboard_record_text_switch: false,
            clipboard_record_text_time: Some(10),
            clipboard_record_image_switch: false,
            clipboard_record_image_time: Some(5),
            clipboard_record_file_switch: false,
            clipboard_record_file_time: Some(1),
            local_file_search_exclude_paths: paths,
            local_file_search_exclude_types: types,
        }
    }
}

/// One settings update message.
#[derive(Debug)]
pub enum ConfigUpdate {
    AppName(String),
    Version(String),
    HotkeyAwaken(String),
    HotkeyClipboard(String),
    ClipboardRecordCountSwitch(bool),
    ClipboardRecordCount(Option<i32>),
    ClipboardRecordTextSwitch(bool),
    ClipboardRecordTextTime(Option<i32>),
    ClipboardRecordImageSwitch(bool),
    ClipboardRecordImageTime(Option<i32>),
    ClipboardRecordFileSwitch(bool),
    ClipboardRecordFileTime(Option<i32>),
    LocalFileSearchExcludePaths(Vec<String>),
    LocalFileSearchExcludeTypes(Vec<String>),
}

/// The whole configuration: the base settings and each plugin's raw
/// configuration text, keyed by plugin name.
#[derive(Debug)]
pub struct ConfigData {
    pub base: BaseConfig,
    pub plugins: Vec<(String, String)>,
}

impl Default for ConfigData {
    /// The out-of-the-box configuration: default settings, no plugins.
    fn default() -> (r: ConfigData)
        ensures
            r.plugins@.len() == 0,
            r.base.clipboard_record_count == Some(100i32),
    {
        ConfigData { base: BaseConfig::default(), plugins: Vec::new() }
    }
}

/// The configuration as loaded at startup.
#[derive(Debug)]
pub struct Config {
    pub config: ConfigData,
}

/// Every character of `s`, with each tilde replaced by `home`.
pub open spec fn spec_replace_tilde(s: Seq<char>, home: Seq<char>) -> Seq<char>
    decreases s.len(),
{
    if s.len() == 0 {
        Seq::empty()
    } else {
        spec_replace_tilde(s.drop_last(), home) + (if s.last() == '~' {
            home
        } else {
            seq![s.last()]
        })
    }
}

/// An exclude path made absolute: one anchored at the user's home has its
/// tildes expanded; any other stands as it is.
pub open spec fn spec_exclude_path(p: Seq<char>, home: Seq<char>) -> Seq<char> {
    if spec_starts_with(p, "~/"@) {
        spec_replace_tilde(p, home)
    } else {
        p
    }
}

/// Replace every tilde in `s` with `home`.
fn replace_tilde(s: &str, home: &str) -> (r: String)
    ensures
        r@ == spec_replace_tilde(s@, home@),
{
    let n = s.unicode_len();
    let mut out = String::new();
    let mut i: usize = 0;
    while i < n
        invariant
            i <= n,
            n == s@.len(),
            out@ == spec_replace_tilde(s@.take(i as int), home@),
        decreases n - i,
    {
        let c = s.get_char(i);
        if c == '~' {
            out.append(home);
        } else {
            push_char(&mut out, c);
        }
        proof {
            assert(s@.take(i + 1).drop_last() =~= s@.take(i as int));
            assert(s@.take(i + 1).last() == s@[i as int]);
        }
        i += 1;
    }
    proof {
        assert(s@.take(n as int) =~= s@);
    }
    out
}

impl Config {
    /// Wrap a loaded configuration.
    pub fn new(config: ConfigData) -> (r: Self)
        ensures
            r.config == config,
    {
        Config { config }
    }

    /// The retention limit for the clipboard history; an unset value reads
    /// as unlimited, signalled by a negative count.
    pub fn get_clipboard_record_limit(&self) -> (r: i32)
        ensures
            r == match self.config.base.clipboard_record_count {
                Some(c) => c,
                None => -1i32,
            },
    {
        match self.config.base.clipboard_record_count {
            Some(c) => c,
            None => -1,
        }
    }

    /// The configured exclude paths, each made absolute against the given
    /// home directory.
    pub fn get_file_search_exclude_paths(&self, home_dir: &str) -> (r: Vec<String>)
        ensures
            r@.len() == self.config.base.local_file_search_exclude_paths@.len(),
            forall|i: int|
                0 <= i < r@.len() ==> (#[trigger] r@[i])@ == spec_exclude_path(
                    self.config.base.local_file_search_exclude_paths@[i]@,
                    home_dir@,
                ),
    {
        let src = &self.config.base.local_file_search_exclude_paths;
        let n = src.len();
        let mut out: Vec<String> = Vec::new();
        let mut i: usize = 0;
        while i < n
            invariant
                i <= n,
                n == src@.len(),
                out@.len() == i,
                forall|k: int|
                    0 <= k < i ==> (#[trigger] out@[k])@ == spec_exclude_path(
                        src@[k]@,
                        home_dir@,
                    ),
            decreases n - i,
        {
            let p = &src[i];
            if starts_with_str(p.as_str(), "~/") {
                out.push(replace_tilde(p.as_str(), home_dir));
            } else {
                out.push(p.clone());
            }
            i += 1;
        }
        out
    }

    /// Apply one settings update; every other setting keeps its value.
    pub fn update_local_config(&mut self, update: ConfigUpdate)
        ensures
            match update {
                ConfigUpdate::AppName(v) => final(self).config.base == BaseConfig {
                    app_name: v,
                    ..old(self).config.base
                },
                ConfigUpdate::Version(v) => final(self).config.base == BaseConfig {
                    version: v,
                    ..old(self).config.base
                },
                ConfigUpdate::HotkeyAwaken(v) => final(self).config.base == BaseConfig {
                    hotkey_awaken: v,
                    ..old(self).config.base
                },
                ConfigUpdate::HotkeyClipboard(v) => final(self).config.base == BaseConfig {
                    hotkey_clipboard: v,
                    ..old(self).config.base
                },
                ConfigUpdate::ClipboardRecordCountSwitch(v) => final(self).config.base
                    == (BaseConfig { clipboard_record_count_switch: v, ..old(self).config.base }),
                ConfigUpdate::ClipboardRecordCount(v) => final(self).config.base == (BaseConfig {
                    clipboard_record_count: v,
                    ..old(self).config.base
                }),
                ConfigUpdate::ClipboardRecordTextSwitch(v) => final(self).config.base
                    == (BaseConfig { clipboard_record_text_switch: v, ..old(self).config.base }),
                ConfigUpdate::ClipboardRecordTextTime(v) => final(self).config.base == (BaseConfig {
                    clipboard_record_text_time: v,
                    ..old(self).config.base
                }),
                ConfigUpdate::ClipboardRecordImageSwitch(v) => final(self).config.base
                    == (BaseConfig { clipboard_record_image_switch: v, ..old(self).config.base }),
                ConfigUpdate::ClipboardRecordImageTime(v) => final(self).config.base
                    == (BaseConfig { clipboard_record_image_time: v, ..old(self).config.base }),
                ConfigUpdate::ClipboardRecordFileSwitch(v) => final(self).config.base
                    == (BaseConfig { clipboard_record_file_switch: v, ..old(self).config.base }),
                ConfigUpdate::ClipboardRecordFileTime(v) => final(self).config.base == (BaseConfig {
                    clipboard_record_file_time: v,
                    ..old(self).config.base
                }),
                ConfigUpdate::LocalFileSearchExcludePaths(v) => final(self).config.base
                    == (BaseConfig { local_file_search_exclude_paths: v, ..old(self).config.base }),
                ConfigUpdate::LocalFileSearchExcludeTypes(v) => final(self).config.base
                    == (BaseConfig { local_file_search_exclude_types: v, ..old(self).config.base }),
            },
            final(self).config.plugins == old(self).config.plugins,
    {
        match update {
            ConfigUpdate::AppName(value) => self.config.base.app_name = value,
            ConfigUpdate::Version(value) => self.config.base.version = value,
            ConfigUpdate::HotkeyAwaken(value) => self.config.base.hotkey_awaken = value,
            ConfigUpdate::HotkeyClipboard(value) => self.config.base.hotkey_clipboard = value,
            ConfigUpdate::ClipboardRecordCountSwitch(value) => self.config.base
                .clipboard_record_count_switch = value,
            ConfigUpdate::ClipboardRecordCount(value) => self.config.base.clipboard_record_count =
                value,
            ConfigUpdate::ClipboardRecordTextSwitch(value) => self.config.base
                .clipboard_record_text_switch = value,
            ConfigUpdate::ClipboardRecordTextTime(value) => self.config.base
                .clipboard_record_text_time = value,
            ConfigUpdate::ClipboardRecordImageSwitch(value) => self.config.base
                .clipboard_record_image_switch = value,
            ConfigUpdate::ClipboardRecordImageTime(value) => self.config.base
                .clipboard_record_image_time = value,
            ConfigUpdate::ClipboardRecordFileSwitch(value) => self.config.base
                .clipboard_record_file_switch = value,
            ConfigUpdate::ClipboardRecordFileTime(value) => self.config.base
                .clipboard_record_file_time = value,
            ConfigUpdate::LocalFileSearchExcludePaths(value) => self.config.base
                .local_file_search_exclude_paths = value,
            ConfigUpdate::LocalFileSearchExcludeTypes(value) => self.config.base
                .local_file_search_exclude_types = value,
        }
    }

    /// Register a plugin's raw configuration text: an already-registered
    /// plugin has its text replaced, a new one is appended, and every entry
    /// under another name keeps its place and its text.
    pub fn register_plugin_config(&mut self, plugin_name: &str, config: String)
        ensures
            final(self).config.base == old(self).config.base,
            ({
                let before = old(self).config.plugins@;
                let after = final(self).config.plugins@;
                &&& after.len() == (if exists|i: int|
                    0 <= i < before.len() && (#[trigger] before[i]).0@ == plugin_name@ {
                    before.len() as int
                } else {
                    before.len() + 1int
                })
                &&& exists|i: int|
                    0 <= i < after.len() && (#[trigger] after[i]).0@ == plugin_name@ && after[i].1
                        == config
                &&& forall|i: int|
                    0 <= i < before.len() && (#[trigger] before[i]).0@ != plugin_name@ ==> after[i]
                        == before[i]
            }),
    {
        let n = self.config.plugins.len();
        let mut i: usize = 0;
        while i < n
            invariant
                i <= n,
                n == self.config.plugins@.len(),
                self == old(self),
                forall|k: int|
                    0 <= k < i ==> (#[trigger] self.config.plugins@[k]).0@ != plugin_name@,
            decreases n - i,
        {
            if crate::string_factory::str_eq(
                self.config.plugins[i].0.as_str(),
                plugin_name,
            ) {
                let name = plugin_name.to_owned();
                self.config.plugins.set(i, (name, config));
                proof {
                    assert((self.config.plugins@[i as int]).0@ == plugin_name@);
                }
                return ;
            }
            i += 1;
        }
        self.config.plugins.push((plugin_name.to_owned(), config));
        proof {
            let m = self.config.plugins@.len() - 1;
            assert((self.config.plugins@[m]).0@ == plugin_name@);
        }
    }
}

} // verus!

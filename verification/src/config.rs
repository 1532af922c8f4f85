//! Settings of the application, their defaults, and where the settings file
//! lives (`WisprFree` under the platform's configuration directory).

use vstd::prelude::*;

verus! {

/// Top-level configuration.
#[derive(Debug)]
pub struct AppConfig {
    pub general: GeneralConfig,
    pub audio: AudioConfig,
    pub whisper: WhisperConfig,
    pub hotkey: HotkeyConfig,
    pub injection: InjectionConfig,
}

#[derive(Debug)]
pub struct GeneralConfig {
    /// Show a desktop notification after each transcription.
    pub show_notifications: bool,
    /// Log level: "error", "warn", "info", "debug", "trace".
    pub log_level: String,
}

#[derive(Debug)]
pub struct AudioConfig {
    /// Name substring of the preferred input device (empty = system default).
    pub device_name: String,
    /// Internal buffer duration in milliseconds before Whisper gets data.
    pub buffer_ms: u32,
}

#[derive(Debug)]
pub struct WhisperConfig {
    /// Path to the GGML model file. Relative paths resolve from the exe dir.
    pub model_path: String,
    /// Language code (e.g. "en"). Empty string = auto-detect.
    pub language: String,
    /// Use GPU acceleration when available.
    pub use_gpu: bool,
    /// Number of threads for Whisper inference (0 = auto).
    pub threads: u32,
}

#[derive(Debug)]
pub struct HotkeyConfig {
    /// Virtual-key code for the activation key (default 0x20 = Space).
    pub vk_code: u32,
    /// Require Ctrl modifier.
    pub ctrl: bool,
    /// Require Alt modifier.
    pub alt: bool,
    /// Require Shift modifier.
    pub shift: bool,
}

#[derive(Debug)]
pub struct InjectionConfig {
    /// "clipboard" (Ctrl-V) or "sendinput" (simulated keystrokes).
    pub method: String,
    /// Delay in ms between restoring the old clipboard and finishing.
    pub clipboard_restore_delay_ms: u64,
}

impl Default for GeneralConfig {
    fn default() -> (r: Self)
        ensures
            r.show_notifications,
            r.log_level@ == "info"@,
    {
        GeneralConfig { show_notifications: true, log_level: String::from_str("info") }
    }
}

impl Default for AudioConfig {
    fn default() -> (r: Self)
        ensures
            r.device_name@.len() == 0,
            r.buffer_ms == 100,
    {
        AudioConfig { device_name: String::new(), buffer_ms: 100 }
    }
}

impl Default for WhisperConfig {
    fn default() -> (r: Self)
        ensures
            r.model_path@ == "models/ggml-base.en.bin"@,
            r.language@ == "en"@,
            !r.use_gpu,
            r.threads == 0,
    {
        WhisperConfig {
            model_path: String::from_str("models/ggml-base.en.bin"),
            language: String::from_str("en"),
            use_gpu: false,
            threads: 0,
        }
    }
}

impl Default for HotkeyConfig {
    fn default() -> (r: Self)
        ensures
            r.vk_code == 0x20,
            r.ctrl,
            !r.alt,
            !r.shift,
    {
        HotkeyConfig { vk_code: 0x20, ctrl: true, alt: false, shift: false }
    }
}

impl Default for InjectionConfig {
    fn default() -> (r: Self)
        ensures
            r.method@ == "clipboard"@,
            r.clipboard_restore_delay_ms == 150,
    {
        InjectionConfig { method: String::from_str("clipboard"), clipboard_restore_delay_ms: 150 }
    }
}

/// The settings used when no file exists, as the README documents them.
pub open spec fn is_default_config(c: AppConfig) -> bool {
    &&& c.general.show_notifications
    &&& c.general.log_level@ == "info"@
    &&& c.audio.device_name@.len() == 0
    &&& c.audio.buffer_ms == 100
    &&& c.whisper.model_path@ == "models/ggml-base.en.bin"@
    &&& c.whisper.language@ == "en"@
    &&& !c.whisper.use_gpu
    &&& c.whisper.threads == 0
    &&& c.hotkey.vk_code == 0x20
    &&& c.hotkey.ctrl && !c.hotkey.alt && !c.hotkey.shift
    &&& c.injection.method@ == "clipboard"@
    &&& c.injection.clipboard_restore_delay_ms == 150
}

impl Default for AppConfig {
    fn default() -> (r: Self)
        ensures
            is_default_config(r),
    {
        AppConfig {
            general: GeneralConfig::default(),
            audio: AudioConfig::default(),
            whisper: WhisperConfig::default(),
            hotkey: HotkeyConfig::default(),
            injection: InjectionConfig::default(),
        }
    }
}

// ---------------------------------------------------------------------------
// Paths
// ---------------------------------------------------------------------------

/// A path separator.
pub open spec fn is_separator(c: char) -> bool {
    c == '/' || c == '\\'
}

/// A relative path with neither a drive prefix nor a root: not empty, not
/// starting with a separator, and without `:`.
pub open spec fn relative_name(s: Seq<char>) -> bool {
    &&& s.len() > 0
    &&& !is_separator(s[0])
    &&& forall|i: int| 0 <= i < s.len() ==> #[trigger] s[i] != ':'
}

/// `s` starts with `\\?`, as every Windows verbatim prefix (`\\?\C:\`,
/// `\\?\UNC\`, ...) does.
pub open spec fn verbatim(s: Seq<char>) -> bool {
    s.len() >= 3 && s[0] == '\\' && s[1] == '\\' && s[2] == '?'
}

/// Joining a relative name that does not start with `?` onto a base that
/// does not start like a verbatim path gives a path that does not either.
pub proof fn lemma_joined_not_verbatim(b: Seq<char>, c: Seq<char>, d: Seq<char>)
    requires
        !verbatim(b),
        relative_name(c),
        c[0] != '?',
        joined(b, c, d),
    ensures
        !verbatim(d),
{
    if d == b + c {
        if b.len() >= 3 {
            assert(d[0] == b[0] && d[1] == b[1] && d[2] == b[2]);
        } else if b.len() == 2 {
            assert(d[2] == c[0]);
        } else if b.len() == 1 {
            assert(d[1] == c[0]);
        } else {
            assert(d[0] == c[0]);
        }
    } else {
        let sep = choose|x: char| is_separator(x) && d == b + seq![x] + c;
        if b.len() >= 3 {
            assert(d[0] == b[0] && d[1] == b[1] && d[2] == b[2]);
        } else if b.len() == 2 {
            assert(d[2] == sep);
        } else if b.len() == 1 {
            assert(d[2] == c[0]);
        } else {
            assert(d[1] == c[0]);
        }
    }
}

/// A single path component: a relative name without separators that is
/// neither `.` nor `..`.
pub open spec fn component(s: Seq<char>) -> bool {
    &&& relative_name(s)
    &&& forall|i: int| 0 <= i < s.len() ==> !is_separator(#[trigger] s[i])
    &&& s != seq!['.']
    &&& s != seq!['.', '.']
}

/// `p` is `base` followed by `child`, with at most one separator between.
pub open spec fn joined(base: Seq<char>, child: Seq<char>, p: Seq<char>) -> bool {
    p == base + child || exists|c: char| is_separator(c) && p == base + seq![c] + child
}

/// Calls `Path::join`. std documents that joining a relative path without
/// prefix or root appends it after a separator if one is needed (the result
/// is valid UTF-8 because both parts are); that is what is stated, for a base
/// that does not start like a verbatim path. Onto a verbatim base std
/// normalizes the whole new path, and joining any other path replaces all
/// or part of `base`; nothing is stated of either. The result also depends
/// on the platform's separator, so it gets no name.
#[verifier::external_body]
pub(crate) fn join_path(base: &str, child: &str) -> (r: String)
    ensures
        relative_name(child@) && !verbatim(base@) ==> joined(base@, child@, r@),
{
    std::path::Path::new(base).join(child).to_string_lossy().into_owned()
}

/// Calls `dirs::config_dir`, as text. What it returns depends on the
/// environment (`$XDG_CONFIG_HOME` or `$HOME/.config`, the roaming AppData
/// folder, ...), so nothing is stated of it.
#[verifier::external_body]
fn platform_config_dir() -> (r: Option<String>) {
    dirs::config_dir().map(|p| p.to_string_lossy().into_owned())
}

/// Why the configuration directory cannot be named.
#[derive(Debug, Clone, Copy, PartialEq, Eq, Structural)]
pub enum ConfigError {
    /// The platform has no configuration directory (`%APPDATA%` unresolved).
    NoConfigDir,
}

/// The application's directory under the platform configuration directory
/// `base`, if there is one.
pub fn config_dir_under(base: Option<String>) -> (r: Result<String, ConfigError>)
    ensures
        base is None ==> r == Err::<String, ConfigError>(ConfigError::NoConfigDir),
        base is Some ==> r is Ok,
        base matches Some(b) ==> (!verbatim(b@) ==> (r matches Ok(p) && joined(b@, "WisprFree"@, p@)
            && !verbatim(p@))),
{
    let ghost g = base;
    match base {
        Some(b) => {
            proof { reveal_strlit("WisprFree"); }
            assert(component("WisprFree"@)) by {
                assert('W' <= "WisprFree"@[0] <= 'Z');
            }
            let p = join_path(b.as_str(), "WisprFree");
            proof {
                if !verbatim(b@) {
                    lemma_joined_not_verbatim(b@, "WisprFree"@, p@);
                }
            }
            Ok(p)
        },
        None => Err(ConfigError::NoConfigDir),
    }
}

/// Returns `%APPDATA%\WisprFree`: `config_dir_under` applied to the
/// platform's configuration directory.
pub fn config_dir() -> (r: Result<String, ConfigError>) {
    config_dir_under(platform_config_dir())
}

/// The file `name` in the application's directory under the platform
/// configuration directory `base`, if there is one.
pub fn app_file_under(base: Option<String>, name: &str) -> (r: Result<String, ConfigError>)
    requires
        component(name@),
    ensures
        base is None ==> r == Err::<String, ConfigError>(ConfigError::NoConfigDir),
        base is Some ==> r is Ok,
        base matches Some(b) ==> (!verbatim(b@) ==> (r matches Ok(p) && exists|dir: Seq<char>|
            joined(b@, "WisprFree"@, dir) && joined(dir, name@, p@))),
{
    let ghost g = base;
    match config_dir_under(base) {
        Ok(dir) => {
            let p = join_path(dir.as_str(), name);
            proof {
                if g is Some && !verbatim(g->0@) {
                    assert(joined(g->0@, "WisprFree"@, dir@));
                    assert(!verbatim(dir@));
                }
            }
            Ok(p)
        },
        Err(e) => Err(e),
    }
}

/// The file `name` in the application's directory: `app_file_under`
/// applied to the platform's configuration directory.
pub fn app_file(name: &str) -> (r: Result<String, ConfigError>)
    requires
        component(name@),
{
    app_file_under(platform_config_dir(), name)
}

/// Resolves the config TOML path.
pub fn config_path() -> (r: Result<String, ConfigError>) {
    proof { reveal_strlit("config.toml"); }
    assert(component("config.toml"@)) by {
        assert('a' <= "config.toml"@[0] <= 'z');
    }
    app_file("config.toml")
}

/// Calls `Path::is_absolute`. Which paths are absolute depends on the
/// platform (`/x` is on Unix and not on Windows, `C:\x` the other way
/// round), so the answer gets no name; what holds on every platform is that a
/// relative name without prefix or root is not absolute.
#[verifier::external_body]
fn path_is_absolute(p: &str) -> (r: bool)
    ensures
        relative_name(p@) ==> !r,
{
    std::path::Path::new(p).is_absolute()
}

/// The directory that a relative model path is looked up in: the
/// executable's directory, or `.` when it is unknown.
pub open spec fn model_base(exe_dir: Option<String>) -> Seq<char> {
    match exe_dir {
        Some(d) => d@,
        None => "."@,
    }
}

/// Resolve a model path: an absolute one is kept, a relative one is looked
/// up next to the running executable, whose directory is `exe_dir` (`.` when
/// it is unknown). Also returns whether the platform found `raw` absolute.
pub fn resolve_model_path(raw: &str, exe_dir: Option<String>) -> (r: (String, bool))
    ensures
        r.1 ==> r.0@ == raw@,
        relative_name(raw@) ==> !r.1,
        !r.1 && relative_name(raw@) && !verbatim(model_base(exe_dir)) ==> joined(
            model_base(exe_dir),
            raw@,
            r.0@,
        ),
{
    if path_is_absolute(raw) {
        (String::from_str(raw), true)
    } else {
        let base = match exe_dir {
            Some(d) => d,
            None => String::from_str("."),
        };
        (join_path(base.as_str(), raw), false)
    }
}

} // verus!

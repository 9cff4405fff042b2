//! The command line's configuration and the `config set` rules that change
//! it one key at a time.

use vstd::prelude::*;
use crate::commands::InteractiveError;
use crate::text::{
    chars_equal, chars_of, clip_bytes, concat_strs, is_boundary, parse_bool, parse_u64,
    parsed_bool, parsed_u64, utf8_len,
};

verus! {

/// Defaults for new sessions.
#[derive(Debug, Clone)]
pub struct SessionDefaults {
    pub model: Option<String>,
    pub system_prompt: Option<String>,
    pub allowed_tools: Option<Vec<String>>,
}

/// How output is shown.
#[derive(Debug, Clone)]
pub struct OutputSettings {
    pub color: bool,
    pub progress: bool,
    pub format: String,
}

/// Whether and how long usage data is kept.
#[derive(Debug, Clone)]
pub struct AnalyticsSettings {
    pub enabled: bool,
    pub retention_days: u32,
}

/// The command line's configuration.
#[derive(Debug, Clone)]
pub struct Config {
    pub timeout_secs: u64,
    pub verbose: bool,
    pub quiet: bool,
    pub data_dir: Option<String>,
    pub session: SessionDefaults,
    pub output: OutputSettings,
    pub analytics: AnalyticsSettings,
}

/// The values a configuration holds, as the rules speak of them.
pub struct ConfigView {
    pub timeout_secs: u64,
    pub verbose: bool,
    pub quiet: bool,
    pub data_dir: Option<Seq<char>>,
    pub model: Option<Seq<char>>,
    pub system_prompt: Option<Seq<char>>,
    pub allowed_tools: Option<Seq<String>>,
    pub color: bool,
    pub progress: bool,
    pub format: Seq<char>,
    pub analytics_enabled: bool,
    pub retention_days: u32,
}

/// The view of an optional string.
pub open spec fn view_opt(o: Option<String>) -> Option<Seq<char>> {
    match o {
        Some(s) => Some(s@),
        None => None,
    }
}

impl View for Config {
    type V = ConfigView;

    open spec fn view(&self) -> ConfigView {
        ConfigView {
            timeout_secs: self.timeout_secs,
            verbose: self.verbose,
            quiet: self.quiet,
            data_dir: view_opt(self.data_dir),
            model: view_opt(self.session.model),
            system_prompt: view_opt(self.session.system_prompt),
            allowed_tools: match self.session.allowed_tools {
                Some(v) => Some(v@),
                None => None,
            },
            color: self.output.color,
            progress: self.output.progress,
            format: self.output.format@,
            analytics_enabled: self.analytics.enabled,
            retention_days: self.analytics.retention_days,
        }
    }
}

/// The configuration after `config set <key> <value>`, or `None` when the
/// key is unknown or the value does not parse as the key's type.
pub open spec fn apply_setting(c: ConfigView, key: Seq<char>, value: Seq<char>) -> Option<ConfigView> {
    if key == "timeout_secs"@ {
        match parsed_u64(value) {
            Some(t) => Some(ConfigView { timeout_secs: t, ..c }),
            None => None,
        }
    } else if key == "verbose"@ {
        match parsed_bool(value) {
            Some(b) => Some(ConfigView { verbose: b, ..c }),
            None => None,
        }
    } else if key == "quiet"@ {
        match parsed_bool(value) {
            Some(b) => Some(ConfigView { quiet: b, ..c }),
            None => None,
        }
    } else if key == "session.model"@ {
        Some(ConfigView { model: Some(value), ..c })
    } else if key == "session.system_prompt"@ {
        Some(ConfigView { system_prompt: Some(value), ..c })
    } else if key == "output.color"@ {
        match parsed_bool(value) {
            Some(b) => Some(ConfigView { color: b, ..c }),
            None => None,
        }
    } else if key == "output.progress"@ {
        match parsed_bool(value) {
            Some(b) => Some(ConfigView { progress: b, ..c }),
            None => None,
        }
    } else if key == "output.format"@ {
        Some(ConfigView { format: value, ..c })
    } else if key == "analytics.enabled"@ {
        match parsed_bool(value) {
            Some(b) => Some(ConfigView { analytics_enabled: b, ..c }),
            None => None,
        }
    } else {
        None
    }
}

/// Whether `key` is one of the keys `config set` knows.
pub open spec fn is_known_key(key: Seq<char>) -> bool {
    ||| key == "timeout_secs"@
    ||| key == "verbose"@
    ||| key == "quiet"@
    ||| key == "session.model"@
    ||| key == "session.system_prompt"@
    ||| key == "output.color"@
    ||| key == "output.progress"@
    ||| key == "output.format"@
    ||| key == "analytics.enabled"@
}

/// The message `config set` fails with.
pub open spec fn setting_error(key: Seq<char>) -> Seq<char> {
    if key == "timeout_secs"@ {
        "Invalid timeout value"@
    } else if is_known_key(key) {
        "Invalid boolean value (use true/false)"@
    } else {
        "Unknown config key: "@ + key
    }
}

/// Whether the string `s` is the literal `lit`.
fn is_key(s: &Vec<char>, lit: &str) -> (b: bool)
    ensures
        b == (s@ == lit@),
{
    let l = chars_of(lit);
    chars_equal(s, &l)
}

/// The error for a value that is not `true` or `false`.
fn bad_boolean() -> (e: InteractiveError)
    ensures
        e matches InteractiveError::InvalidInput(m) && m@ == "Invalid boolean value (use true/false)"@,
{
    InteractiveError::InvalidInput(String::from_str("Invalid boolean value (use true/false)"))
}

impl Config {
    /// `config set <key> <value>`: changes the one setting `key` names to
    /// `value`, parsed as that setting's type. An unknown key or a value
    /// that does not parse leaves the configuration unchanged and is
    /// reported.
    pub fn set(&mut self, key: &str, value: &str) -> (r: Result<(), InteractiveError>)
        ensures
            match apply_setting(old(self)@, key@, value@) {
                Some(c) => r is Ok && final(self)@ == c,
                None => {
                    &&& final(self)@ == old(self)@
                    &&& r matches Err(InteractiveError::InvalidInput(m))
                    &&& m@ == setting_error(key@)
                },
            },
    {
        let k = chars_of(key);
        if is_key(&k, "timeout_secs") {
            match parse_u64(value) {
                Some(t) => {
                    self.timeout_secs = t;
                    Ok(())
                },
                None => Err(InteractiveError::InvalidInput(String::from_str("Invalid timeout value"))),
            }
        } else if is_key(&k, "verbose") {
            match parse_bool(value) {
                Some(b) => {
                    self.verbose = b;
                    Ok(())
                },
                None => Err(bad_boolean()),
            }
        } else if is_key(&k, "quiet") {
            match parse_bool(value) {
                Some(b) => {
                    self.quiet = b;
                    Ok(())
                },
                None => Err(bad_boolean()),
            }
        } else if is_key(&k, "session.model") {
            self.session.model = Some(String::from_str(value));
            Ok(())
        } else if is_key(&k, "session.system_prompt") {
            self.session.system_prompt = Some(String::from_str(value));
            Ok(())
        } else if is_key(&k, "output.color") {
            match parse_bool(value) {
                Some(b) => {
                    self.output.color = b;
                    Ok(())
                },
                None => Err(bad_boolean()),
            }
        } else if is_key(&k, "output.progress") {
            match parse_bool(value) {
                Some(b) => {
                    self.output.progress = b;
                    Ok(())
                },
                None => Err(bad_boolean()),
            }
        } else if is_key(&k, "output.format") {
            self.output.format = String::from_str(value);
            Ok(())
        } else if is_key(&k, "analytics.enabled") {
            match parse_bool(value) {
                Some(b) => {
                    self.analytics.enabled = b;
                    Ok(())
                },
                None => Err(bad_boolean()),
            }
        } else {
            Err(InteractiveError::InvalidInput(concat_strs("Unknown config key: ", key)))
        }
    }
}

/// Configuration management actions.
#[derive(Debug, Clone)]
pub enum ConfigAction {
    /// Show current configuration.
    Show,
    /// Set a configuration value.
    SetValue { key: String, value: String },
    /// Reset configuration to defaults.
    Reset { force: bool },
    /// Show configuration file path.
    Path,
}

impl ConfigAction {
    /// Whether the action asks the user before it goes ahead: only a reset
    /// without `force` does.
    pub fn needs_confirmation(&self) -> (b: bool)
        ensures
            b == (*self matches ConfigAction::Reset { force: false }),
    {
        match self {
            ConfigAction::Reset { force } => !*force,
            _ => false,
        }
    }
}

/// The line confirming a setting: `✓ Set <key> = <value>`.
pub fn setting_message(key: &str, value: &str) -> (m: String)
    ensures
        m@ == "✓ Set "@ + key@ + " = "@ + value@,
{
    let mut m = concat_strs("✓ Set ", key);
    m.append(" = ");
    m.append(value);
    m
}

/// The longest system prompt `config show` prints whole, in bytes.
pub const PROMPT_PREVIEW_BYTES: usize = 50;

/// The system prompt as `config show` prints it: cut to 50 bytes and marked
/// with `...` when longer; the cut must fall between characters.
pub fn prompt_preview(prompt: &str) -> (p: String)
    requires
        utf8_len(prompt@) > 50 ==> is_boundary(prompt@, 50),
    ensures
        utf8_len(prompt@) <= 50 ==> p@ == prompt@,
        utf8_len(prompt@) > 50 ==> exists|k: int|
            0 <= k <= prompt@.len() && utf8_len(prompt@.take(k)) == 50 && p@ == prompt@.take(k)
                + "..."@,
{
    clip_bytes(prompt, PROMPT_PREVIEW_BYTES)
}

/// Setting a key that is then set again keeps only the later value.
pub proof fn law_last_setting_wins(c: ConfigView, key: Seq<char>, v1: Seq<char>, v2: Seq<char>)
    requires
        apply_setting(c, key, v1) is Some,
    ensures
        apply_setting(apply_setting(c, key, v1).unwrap(), key, v2) == apply_setting(c, key, v2),
{
}

/// The boolean setting `key` names in `c`, for the keys that hold one.
pub open spec fn boolean_setting(c: ConfigView, key: Seq<char>) -> bool {
    if key == "verbose"@ {
        c.verbose
    } else if key == "quiet"@ {
        c.quiet
    } else if key == "output.color"@ {
        c.color
    } else if key == "output.progress"@ {
        c.progress
    } else {
        c.analytics_enabled
    }
}

/// Whether `key` names one of the boolean settings.
pub open spec fn is_boolean_key(key: Seq<char>) -> bool {
    ||| key == "verbose"@
    ||| key == "quiet"@
    ||| key == "output.color"@
    ||| key == "output.progress"@
    ||| key == "analytics.enabled"@
}

/// A boolean setting is set to the value written: `true` or `false` is
/// accepted and read back as that value, every other boolean setting is
/// kept; any other text is refused.
pub proof fn law_boolean_setting_read_back(c: ConfigView, key: Seq<char>, value: Seq<char>, other: Seq<char>)
    requires
        is_boolean_key(key),
        is_boolean_key(other),
        other != key,
    ensures
        apply_setting(c, key, value) is Some <==> (value == "true"@ || value == "false"@),
        apply_setting(c, key, value) matches Some(n) ==> boolean_setting(n, key) == (value == "true"@)
            && boolean_setting(n, other) == boolean_setting(c, other)
            && n.timeout_secs == c.timeout_secs && n.model == c.model && n.format == c.format,
{
    reveal_strlit("verbose");
    reveal_strlit("quiet");
    reveal_strlit("output.color");
    reveal_strlit("output.progress");
    reveal_strlit("analytics.enabled");
    reveal_strlit("timeout_secs");
    reveal_strlit("session.model");
    reveal_strlit("session.system_prompt");
    reveal_strlit("output.format");
    reveal_strlit("true");
    reveal_strlit("false");
    assert("verbose"@.len() == 7 && "quiet"@.len() == 5 && "output.color"@.len() == 12);
    assert("output.progress"@.len() == 15 && "analytics.enabled"@.len() == 17);
    assert("timeout_secs"@.len() == 12 && "session.model"@.len() == 13);
    assert("session.system_prompt"@.len() == 21 && "output.format"@.len() == 13);
    assert("timeout_secs"@[0] != "output.color"@[0]);
    assert("session.model"@[0] != "output.format"@[0]);
    assert("true"@.len() == 4 && "false"@.len() == 5);
}

/// The timeout is set to the number written and text settings to the text
/// written, the other settings kept; an unknown key is refused.
pub proof fn law_setting_read_back(c: ConfigView, value: Seq<char>, key: Seq<char>)
    ensures
        apply_setting(c, "timeout_secs"@, value) matches Some(n) ==> n == (ConfigView {
            timeout_secs: parsed_u64(value)->0,
            ..c
        }),
        apply_setting(c, "timeout_secs"@, value) is Some <==> parsed_u64(value) is Some,
        apply_setting(c, "session.model"@, value) == Some(ConfigView { model: Some(value), ..c }),
        apply_setting(c, "session.system_prompt"@, value) == Some(ConfigView { system_prompt: Some(value), ..c }),
        apply_setting(c, "output.format"@, value) == Some(ConfigView { format: value, ..c }),
        !is_known_key(key) ==> apply_setting(c, key, value) is None,
{
    reveal_strlit("verbose");
    reveal_strlit("quiet");
    reveal_strlit("output.color");
    reveal_strlit("output.progress");
    reveal_strlit("analytics.enabled");
    reveal_strlit("timeout_secs");
    reveal_strlit("session.model");
    reveal_strlit("session.system_prompt");
    reveal_strlit("output.format");
    assert("verbose"@.len() == 7 && "quiet"@.len() == 5 && "output.color"@.len() == 12);
    assert("output.progress"@.len() == 15 && "analytics.enabled"@.len() == 17);
    assert("timeout_secs"@.len() == 12 && "session.model"@.len() == 13);
    assert("session.system_prompt"@.len() == 21 && "output.format"@.len() == 13);
    assert("timeout_secs"@[0] != "output.color"@[0]);
    assert("session.model"@[0] != "output.format"@[0]);
}

} // verus!

//! The parts of the SSHX settings (`~/.config/sshx/config.toml`) that hold
//! no floating-point values, with their defaults.

use vstd::prelude::*;

use crate::error::{ErrorView, SshxError};
use crate::includes::{home_dir, join_path, path_joined};
use crate::text::{chars_of, push_str, trim, trim_vec};

verus! {

/// `[general]`: where the SSH config is and a fallback user.
#[derive(Debug, Clone)]
pub struct GeneralConfig {
    pub ssh_config_path: Option<String>,
    pub default_user: Option<String>,
}

/// How groups are ordered in listings.
#[derive(Debug, Clone, Copy, PartialEq, Eq, Structural)]
pub enum GroupSort {
    Alphabetical,
    ConfigOrder,
}

/// `[tunnel]`: how tunnels are waited for.
#[derive(Debug, Clone)]
pub struct TunnelConfig {
    pub check_interval_ms: u64,
    pub connect_timeout_s: u64,
}

/// The default of boolean settings that are on unless said otherwise.
pub fn default_true() -> (r: bool)
    ensures
        r,
{
    true
}

/// The default interval between tunnel checks, in milliseconds.
pub fn default_check_interval() -> (r: u64)
    ensures
        r == 500,
{
    500
}

/// The default time to wait for a tunnel, in seconds.
pub fn default_connect_timeout() -> (r: u64)
    ensures
        r == 10,
{
    10
}

impl Default for GeneralConfig {
    fn default() -> (r: Self)
        ensures
            r.ssh_config_path is None,
            r.default_user is None,
    {
        GeneralConfig { ssh_config_path: None, default_user: None }
    }
}

impl Default for GroupSort {
    fn default() -> (r: Self)
        ensures
            r == GroupSort::Alphabetical,
    {
        GroupSort::Alphabetical
    }
}

impl Default for TunnelConfig {
    fn default() -> (r: Self)
        ensures
            r.check_interval_ms == 500,
            r.connect_timeout_s == 10,
    {
        TunnelConfig {
            check_interval_ms: default_check_interval(),
            connect_timeout_s: default_connect_timeout(),
        }
    }
}

/// The model of an optional text.
pub open spec fn opt_view(o: Option<&str>) -> Option<Seq<char>> {
    match o {
        Some(s) => Some(s@),
        None => None,
    }
}

/// The SSH config used when none is set: `.ssh/config` in the home
/// directory `home`, or relative to the working directory when no home
/// directory is known.
pub open spec fn default_ssh_config_path(home: Option<Seq<char>>) -> Seq<char> {
    match home {
        Some(h) => path_joined(h, ".ssh/config"@),
        None => ".ssh/config"@,
    }
}

/// Law: with no path set, the SSH config is the file `config` in the
/// directory `.ssh` of the home directory `h`: `h/.ssh/config`, with no
/// separator doubled when `h` ends in `/`.
pub proof fn law_default_path_is_under_home(h: Seq<char>)
    ensures
        h.len() > 0 && h.last() != '/' ==> default_ssh_config_path(Some(h)) == h + "/.ssh/config"@,
        h.len() > 0 && h.last() == '/' ==> default_ssh_config_path(Some(h)) == h + ".ssh/config"@,
{
    reveal_strlit(".ssh/config");
    reveal_strlit("/.ssh/config");
    reveal_strlit("/");
    assert(h + "/"@ + ".ssh/config"@ =~= h + "/.ssh/config"@);
}

impl GeneralConfig {
    /// The SSH config file the settings point at, else `.ssh/config` in
    /// the home directory `home`.
    pub fn ssh_config_path_in(&self, home: Option<&str>) -> (r: String)
        ensures
            r@ == match self.ssh_config_path {
                Some(p) => p@,
                None => default_ssh_config_path(opt_view(home)),
            },
    {
        match &self.ssh_config_path {
            Some(p) => p.clone(),
            None => match home {
                Some(h) => join_path(h, ".ssh/config"),
                None => ".ssh/config".to_owned(),
            },
        }
    }

    /// The SSH config file the settings point at, else `~/.ssh/config`.
    pub fn ssh_config_path(&self) -> (r: String)
        ensures
            match self.ssh_config_path {
                Some(p) => r@ == p@,
                None => exists|home: Option<Seq<char>>| r@ == default_ssh_config_path(home),
            },
    {
        let home = home_dir();
        match &home {
            Some(h) => self.ssh_config_path_in(Some(h.as_str())),
            None => self.ssh_config_path_in(None),
        }
    }
}

/// The SSH config file to read: the one given on the command line if any,
/// else the one the settings name, else `.ssh/config` in the home
/// directory `home`.
pub fn choose_ssh_config_path(cli_path: Option<&String>, general: &GeneralConfig, home: Option<&str>) -> (r: String)
    ensures
        r@ == match cli_path {
            Some(p) => p@,
            None => match general.ssh_config_path {
                Some(p) => p@,
                None => default_ssh_config_path(opt_view(home)),
            },
        },
{
    match cli_path {
        Some(p) => p.clone(),
        None => general.ssh_config_path_in(home),
    }
}

/// What reading the settings file gave.
#[derive(Debug)]
pub enum SettingsRead {
    /// There is no such file.
    Missing,
    /// The file is there but could not be read, for this reason.
    Unreadable(String),
    /// The text of the file.
    Text(String),
}

/// What to do with the settings file.
#[derive(Debug)]
pub enum SettingsPlan {
    /// Use the defaults.
    Defaults,
    /// Read the settings from this TOML text.
    Parse(String),
}

/// What loading the settings file `path` does with what reading it gave: a
/// missing or blank file means the defaults, an unreadable one fails, and
/// any other text is parsed.
pub fn plan_settings_load(path: &str, read: SettingsRead) -> (r: Result<SettingsPlan, SshxError>)
    ensures
        match read {
            SettingsRead::Missing => r matches Ok(SettingsPlan::Defaults),
            SettingsRead::Unreadable(e) => r matches Err(x) && x@ == (ErrorView::SshxConfigParseFailed {
                path: path@,
                reason: "failed to read file: "@ + e@,
            }),
            SettingsRead::Text(t) => if trim(t@).len() == 0 {
                r matches Ok(SettingsPlan::Defaults)
            } else {
                r matches Ok(SettingsPlan::Parse(u)) && u@ == t@
            },
        },
{
    match read {
        SettingsRead::Missing => Ok(SettingsPlan::Defaults),
        SettingsRead::Unreadable(e) => {
            let mut reason = "failed to read file: ".to_owned();
            push_str(&mut reason, e.as_str());
            Err(SshxError::SshxConfigParseFailed { path: path.to_owned(), reason })
        },
        SettingsRead::Text(t) => {
            let v = chars_of(t.as_str());
            let trimmed = trim_vec(&v);
            if trimmed.len() == 0 {
                Ok(SettingsPlan::Defaults)
            } else {
                Ok(SettingsPlan::Parse(t))
            }
        },
    }
}

} // verus!

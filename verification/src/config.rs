//! The persisted configuration record: three supervision preferences, read
//! once at startup, mutated in place, rewritten wholesale on every change.

use vstd::prelude::*;

verus! {

/// Mathematical model of a configuration record.
pub ghost struct ConfigView {
    pub start_at_login: bool,
    pub lapsus_rust_path: Option<Seq<char>>,
    pub show_dock_icon: bool,
}

/// The persisted settings: launch-at-login flag, optional custom binary
/// path, and the presentation (dock icon) preference.
pub struct Config {
    pub start_at_login: bool,
    pub lapsus_rust_path: Option<String>,
    pub show_dock_icon: bool,
}

impl View for Config {
    type V = ConfigView;

    open spec fn view(&self) -> ConfigView {
        ConfigView {
            start_at_login: self.start_at_login,
            lapsus_rust_path: match self.lapsus_rust_path {
                Some(p) => Some(p@),
                None => None,
            },
            show_dock_icon: self.show_dock_icon,
        }
    }
}

/// The default for the dock-icon preference: hidden.
pub fn default_show_dock_icon() -> (r: bool)
    ensures
        r == false,
{
    false
}

/// The record every absent or malformed document falls back to.
pub open spec fn default_config() -> ConfigView {
    ConfigView { start_at_login: false, lapsus_rust_path: None, show_dock_icon: false }
}

impl Default for Config {
    /// All fields at their documented defaults.
    fn default() -> (r: Self)
        ensures
            r@ == default_config(),
    {
        Config { start_at_login: false, lapsus_rust_path: None, show_dock_icon: false }
    }
}

impl Clone for Config {
    fn clone(&self) -> (r: Self)
        ensures
            r@ == self@,
    {
        Config {
            start_at_login: self.start_at_login,
            lapsus_rust_path: match &self.lapsus_rust_path {
                Some(p) => Some(p.clone()),
                None => None,
            },
            show_dock_icon: self.show_dock_icon,
        }
    }
}

impl Config {
    /// Record the launch-at-login preference; the other fields are kept.
    pub fn set_start_at_login(&mut self, v: bool)
        ensures
            final(self)@ == (ConfigView { start_at_login: v, ..old(self)@ }),
    {
        self.start_at_login = v;
    }

    /// Record the dock-icon preference; the other fields are kept.
    pub fn set_show_dock_icon(&mut self, v: bool)
        ensures
            final(self)@ == (ConfigView { show_dock_icon: v, ..old(self)@ }),
    {
        self.show_dock_icon = v;
    }

    /// Record a custom binary path; the other fields are kept.
    pub fn set_lapsus_rust_path(&mut self, p: Option<String>)
        ensures
            final(self)@ == (ConfigView {
                lapsus_rust_path: match p {
                    Some(s) => Some(s@),
                    None => None,
                },
                ..old(self)@
            }),
    {
        self.lapsus_rust_path = p;
    }
}

} // verus!

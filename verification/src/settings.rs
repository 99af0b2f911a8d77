//! The application's own settings and the choices it makes around the
//! policy work: theme preference, write level, the names and tooltips shown
//! for a policy, and which status message follows an action.

use vstd::prelude::*;

use crate::catalog::RemoteCatalog;
use crate::domain::{PlatformKind, WriteLevel};
use crate::platform::ApplyReport;
use crate::text::{append_chars, chars_of, copy_string, owned, str_eq, string_of};

verus! {

/// How the window chooses between its light and dark look.
#[derive(Clone, Copy, Debug, PartialEq, Eq, Structural)]
pub enum ThemePref {
    System,
    Dark,
    Light,
}

/// The word a theme preference is saved as.
pub open spec fn theme_pref_text(p: ThemePref) -> Seq<char> {
    match p {
        ThemePref::System => "system"@,
        ThemePref::Dark => "dark"@,
        ThemePref::Light => "light"@,
    }
}

/// The theme preference a saved word names, if any.
pub open spec fn theme_pref_of(t: Seq<char>) -> Option<ThemePref> {
    if t == "system"@ {
        Some(ThemePref::System)
    } else if t == "dark"@ {
        Some(ThemePref::Dark)
    } else if t == "light"@ {
        Some(ThemePref::Light)
    } else {
        None
    }
}

impl ThemePref {
    /// Reads a saved theme preference; any other word names none.
    pub fn parse(value: &str) -> (r: Option<ThemePref>)
        ensures
            r == theme_pref_of(value@),
    {
        if str_eq(value, "system") {
            Some(ThemePref::System)
        } else if str_eq(value, "dark") {
            Some(ThemePref::Dark)
        } else if str_eq(value, "light") {
            Some(ThemePref::Light)
        } else {
            None
        }
    }

    /// The word this preference is saved as.
    pub fn key(self) -> (r: &'static str)
        ensures
            r@ == theme_pref_text(self),
    {
        match self {
            ThemePref::System => "system",
            ThemePref::Dark => "dark",
            ThemePref::Light => "light",
        }
    }
}

/// A saved theme preference reads back as itself.
pub proof fn law_theme_pref_round_trip(p: ThemePref)
    ensures
        theme_pref_of(theme_pref_text(p)) == Some(p),
{
    reveal_strlit("system");
    reveal_strlit("dark");
    reveal_strlit("light");
    assert("system"@.len() == 6 && "dark"@.len() == 4 && "light"@.len() == 5);
}

/// The word a write level is saved as.
pub open spec fn write_level_text(level: WriteLevel) -> Seq<char> {
    match level {
        WriteLevel::User => "user"@,
        WriteLevel::Machine => "machine"@,
    }
}

/// The write level a saved word gives: `machine` is the machine, anything
/// else the current user.
pub open spec fn write_level_from(t: Seq<char>) -> WriteLevel {
    if t == "machine"@ {
        WriteLevel::Machine
    } else {
        WriteLevel::User
    }
}

/// Reads a saved write level.
pub fn write_level_of(value: &str) -> (r: WriteLevel)
    ensures
        r == write_level_from(value@),
{
    if str_eq(value, "machine") {
        WriteLevel::Machine
    } else {
        WriteLevel::User
    }
}

/// The word a write level is saved as.
pub fn write_level_key(level: WriteLevel) -> (r: &'static str)
    ensures
        r@ == write_level_text(level),
{
    match level {
        WriteLevel::User => "user",
        WriteLevel::Machine => "machine",
    }
}

/// A saved write level reads back as itself.
pub proof fn law_write_level_round_trip(level: WriteLevel)
    ensures
        write_level_from(write_level_text(level)) == level,
{
    reveal_strlit("user");
    reveal_strlit("machine");
    assert("user"@.len() == 4 && "machine"@.len() == 7);
}

/// The content of an optional text.
pub open spec fn opt_text(o: Option<&str>) -> Option<Seq<char>> {
    match o {
        Some(s) => Some(s@),
        None => None,
    }
}

/// The template entry for `key`, if templates were fetched and name it.
pub open spec fn remote_entry(remote: Option<&RemoteCatalog>, key: Seq<char>) -> Option<
    (Seq<char>, Seq<char>),
> {
    match remote {
        Some(rc) => match rc.policies.spec_get(key) {
            Some(p) => Some((p.name@, p.tooltip@)),
            None => None,
        },
        None => None,
    }
}

/// The name shown for a policy: the translation, else the catalog's name,
/// else the template's name where it is not empty, else the key.
pub open spec fn shown_name(
    localized: Option<Seq<char>>,
    fallback: Seq<char>,
    remote: Option<(Seq<char>, Seq<char>)>,
    key: Seq<char>,
) -> Seq<char> {
    match localized {
        Some(l) => l,
        None => if fallback.len() > 0 {
            fallback
        } else {
            match remote {
                Some((n, _)) => if n.len() > 0 {
                    n
                } else {
                    key
                },
                None => key,
            }
        },
    }
}

/// The tooltip text shown for a policy before the suggestion note: the
/// translation, else the catalog's tooltip, else the template's tooltip
/// where it is not empty, else the key.
pub open spec fn shown_tooltip_body(
    localized: Option<Seq<char>>,
    fallback: Seq<char>,
    remote: Option<(Seq<char>, Seq<char>)>,
    key: Seq<char>,
) -> Seq<char> {
    match localized {
        Some(l) => l,
        None => if fallback.len() > 0 {
            fallback
        } else {
            match remote {
                Some((_, t)) => if t.len() > 0 {
                    t
                } else {
                    key
                },
                None => key,
            }
        },
    }
}

/// The name shown for the policy `key`, given its translation (if any),
/// the catalog's name and the fetched templates.
pub fn display_name(
    localized: Option<&str>,
    fallback: &str,
    remote: Option<&RemoteCatalog>,
    key: &str,
) -> (r: String)
    ensures
        r@ == shown_name(opt_text(localized), fallback@, remote_entry(remote, key@), key@),
{
    match localized {
        Some(l) => return owned(l),
        None => {},
    }
    if !fallback.is_empty() {
        return owned(fallback);
    }
    match remote {
        Some(rc) => match rc.policies.get(key) {
            Some(p) => {
                if !p.name.as_str().is_empty() {
                    copy_string(&p.name)
                } else {
                    owned(key)
                }
            },
            None => owned(key),
        },
        None => owned(key),
    }
}

/// The tooltip shown for the policy `key`: its body (translation, catalog
/// tooltip, template tooltip or key), then the suggestion note.
pub fn display_tooltip(
    localized: Option<&str>,
    fallback: &str,
    remote: Option<&RemoteCatalog>,
    key: &str,
    suggestion: &str,
) -> (r: String)
    ensures
        r@ == shown_tooltip_body(opt_text(localized), fallback@, remote_entry(remote, key@), key@)
            + suggestion@,
{
    let mut body: Vec<char> = match localized {
        Some(l) => chars_of(l),
        None => if !fallback.is_empty() {
            chars_of(fallback)
        } else {
            match remote {
                Some(rc) => match rc.policies.get(key) {
                    Some(p) => if !p.tooltip.as_str().is_empty() {
                        chars_of(p.tooltip.as_str())
                    } else {
                        chars_of(key)
                    },
                    None => chars_of(key),
                },
                None => chars_of(key),
            }
        },
    };
    let tail = chars_of(suggestion);
    append_chars(&mut body, tail.as_slice());
    string_of(body.as_slice())
}

/// The message shown after applying: on macOS outside a dry run, whether
/// the profile was removed or generated; else the dry-run report or the
/// applied report.
pub open spec fn apply_status_text(
    platform: PlatformKind,
    dry_run: bool,
    removed_profile: Option<bool>,
) -> Seq<char> {
    if platform == PlatformKind::MacOs && !dry_run {
        if removed_profile == Some(true) {
            "profile-removed"@
        } else {
            "profile-generated"@
        }
    } else if dry_run {
        "dry-run-report"@
    } else {
        "applied"@
    }
}

/// The message id shown after `report` came back on `platform`.
pub fn apply_status_key(platform: PlatformKind, report: &ApplyReport) -> (r: &'static str)
    ensures
        r@ == apply_status_text(platform, report.dry_run, report.removed_profile),
{
    if platform == PlatformKind::MacOs && !report.dry_run {
        if report.removed_profile == Some(true) {
            "profile-removed"
        } else {
            "profile-generated"
        }
    } else if report.dry_run {
        "dry-run-report"
    } else {
        "applied"
    }
}

/// The message shown after reading the settings on macOS, by whether a
/// profile is installed and whether old preference files remain.
pub open spec fn mac_pull_status_text(profile_active: bool, has_legacy: bool) -> Seq<char> {
    match (profile_active, has_legacy) {
        (true, true) => "status-profile-legacy"@,
        (true, false) => "status-profile-active"@,
        (false, true) => "status-legacy-mode"@,
        (false, false) => "status-no-policies"@,
    }
}

/// The message id shown after reading the settings on macOS.
pub fn mac_pull_status_key(profile_active: bool, has_legacy: bool) -> (r: &'static str)
    ensures
        r@ == mac_pull_status_text(profile_active, has_legacy),
{
    match (profile_active, has_legacy) {
        (true, true) => "status-profile-legacy",
        (true, false) => "status-profile-active",
        (false, true) => "status-legacy-mode",
        (false, false) => "status-no-policies",
    }
}

/// The message id shown after reading the settings elsewhere: whether any
/// value had to be skipped or coerced.
pub fn pull_status_key(warnings: &Vec<String>) -> (r: &'static str)
    ensures
        r@ == if warnings@.len() == 0 {
            "settings-loaded"@
        } else {
            "settings-loaded-warnings"@
        },
{
    if warnings.len() == 0 {
        "settings-loaded"
    } else {
        "settings-loaded-warnings"
    }
}

/// The message id shown after a policy was turned on or off.
pub fn toggle_status_key(enabled: bool) -> (r: &'static str)
    ensures
        r@ == if enabled {
            "policy-enabled"@
        } else {
            "policy-disabled"@
        },
{
    if enabled {
        "policy-enabled"
    } else {
        "policy-disabled"
    }
}

} // verus!

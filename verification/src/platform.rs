//! Browser channels, the platform, what applying reports, the PowerShell
//! script for machine-wide registry policies, and the reading of values
//! found in property lists and the registry.

use vstd::prelude::*;

use crate::catalog::Val;
use crate::domain::{Browser, PlatformKind, WriteLevel};
use crate::keymap::{lookup, pget, KeyMap};
use crate::payload::{writes_view, ApplyPlan, RawPayload, RawValue, WriteValue};
use crate::profile::{plist_dict_view, plist_seq_view, plist_view, PlistV, PlistValue};
use crate::catalog::contains_text;
use crate::text::{
    append_chars, chars_of, contains, contains_seq, copy_string, copy_strings, decimal,
    int_decimal, join_seq, lower_seq, owned, replace, replace_seq, str_eq, string_of, to_lower,
    trim, trim_seq,
};

verus! {

/// A release channel of a browser: its name, preference domain,
/// application name, data directory and registry path.
#[derive(Clone, Copy, Debug, PartialEq, Eq)]
pub struct Channel {
    pub name: &'static str,
    pub domain: &'static str,
    pub app_name: &'static str,
    pub data_dir: &'static str,
    pub reg_path: &'static str,
}

/// The content of a channel.
pub struct ChannelV {
    pub name: Seq<char>,
    pub domain: Seq<char>,
    pub app_name: Seq<char>,
    pub data_dir: Seq<char>,
    pub reg_path: Seq<char>,
}

impl View for Channel {
    type V = ChannelV;

    open spec fn view(&self) -> ChannelV {
        ChannelV {
            name: self.name@,
            domain: self.domain@,
            app_name: self.app_name@,
            data_dir: self.data_dir@,
            reg_path: self.reg_path@,
        }
    }
}

/// The channel with the given texts.
pub open spec fn channel_v(
    name: &str,
    domain: &str,
    app_name: &str,
    data_dir: &str,
    reg_path: &str,
) -> ChannelV {
    ChannelV {
        name: name@,
        domain: domain@,
        app_name: app_name@,
        data_dir: data_dir@,
        reg_path: reg_path@,
    }
}

/// The channels of each browser, default channel first.
pub open spec fn channel_list(browser: Browser) -> Seq<ChannelV> {
    match browser {
        Browser::Brave => seq![
            channel_v("Release", "com.brave.Browser", "Brave Browser", "BraveSoftware/Brave-Browser", "Software\\Policies\\BraveSoftware\\Brave"),
            channel_v("Beta", "com.brave.Browser.beta", "Brave Browser Beta", "BraveSoftware/Brave-Browser-Beta", "Software\\Policies\\BraveSoftware\\BraveBeta"),
            channel_v("Dev", "com.brave.Browser.dev", "Brave Browser Dev", "BraveSoftware/Brave-Browser-Dev", "Software\\Policies\\BraveSoftware\\BraveDev"),
            channel_v("Nightly", "com.brave.Browser.nightly", "Brave Browser Nightly", "BraveSoftware/Brave-Browser-Nightly", "Software\\Policies\\BraveSoftware\\BraveNightly"),
        ],
        Browser::Chrome => seq![
            channel_v("Stable", "com.google.Chrome", "Google Chrome", "Google/Chrome", "Software\\Policies\\Google\\Chrome"),
            channel_v("Beta", "com.google.Chrome.beta", "Google Chrome Beta", "Google/Chrome Beta", "Software\\Policies\\Google\\ChromeBeta"),
            channel_v("Dev", "com.google.Chrome.dev", "Google Chrome Dev", "Google/Chrome Dev", "Software\\Policies\\Google\\ChromeDev"),
            channel_v("Canary", "com.google.Chrome.canary", "Google Chrome Canary", "Google/Chrome Canary", "Software\\Policies\\Google\\ChromeCanary"),
        ],
    }
}

/// The contents of a list of channels.
pub open spec fn channels_view(v: Seq<Channel>) -> Seq<ChannelV> {
    v.map_values(|c: Channel| c@)
}

/// The channels of `browser`, default channel first.
pub fn channels_for(browser: Browser) -> (r: Vec<Channel>)
    ensures
        channels_view(r@) == channel_list(browser),
{
    let mut v: Vec<Channel> = Vec::new();
    match browser {
        Browser::Brave => {
            v.push(Channel { name: "Release", domain: "com.brave.Browser", app_name: "Brave Browser", data_dir: "BraveSoftware/Brave-Browser", reg_path: "Software\\Policies\\BraveSoftware\\Brave" });
            v.push(Channel { name: "Beta", domain: "com.brave.Browser.beta", app_name: "Brave Browser Beta", data_dir: "BraveSoftware/Brave-Browser-Beta", reg_path: "Software\\Policies\\BraveSoftware\\BraveBeta" });
            v.push(Channel { name: "Dev", domain: "com.brave.Browser.dev", app_name: "Brave Browser Dev", data_dir: "BraveSoftware/Brave-Browser-Dev", reg_path: "Software\\Policies\\BraveSoftware\\BraveDev" });
            v.push(Channel { name: "Nightly", domain: "com.brave.Browser.nightly", app_name: "Brave Browser Nightly", data_dir: "BraveSoftware/Brave-Browser-Nightly", reg_path: "Software\\Policies\\BraveSoftware\\BraveNightly" });
        },
        Browser::Chrome => {
            v.push(Channel { name: "Stable", domain: "com.google.Chrome", app_name: "Google Chrome", data_dir: "Google/Chrome", reg_path: "Software\\Policies\\Google\\Chrome" });
            v.push(Channel { name: "Beta", domain: "com.google.Chrome.beta", app_name: "Google Chrome Beta", data_dir: "Google/Chrome Beta", reg_path: "Software\\Policies\\Google\\ChromeBeta" });
            v.push(Channel { name: "Dev", domain: "com.google.Chrome.dev", app_name: "Google Chrome Dev", data_dir: "Google/Chrome Dev", reg_path: "Software\\Policies\\Google\\ChromeDev" });
            v.push(Channel { name: "Canary", domain: "com.google.Chrome.canary", app_name: "Google Chrome Canary", data_dir: "Google/Chrome Canary", reg_path: "Software\\Policies\\Google\\ChromeCanary" });
        },
    }
    assert(channels_view(v@) =~= channel_list(browser));
    v
}

/// The channels marked installed, in order.
pub open spec fn installed_among(cs: Seq<ChannelV>, installed: Seq<bool>) -> Seq<ChannelV>
    decreases cs.len(),
{
    if cs.len() == 0 {
        cs
    } else {
        let i = cs.len() - 1;
        let prev = installed_among(cs.drop_last(), installed);
        if 0 <= i < installed.len() && installed[i] {
            prev.push(cs[i])
        } else {
            prev
        }
    }
}

/// The installed channels of `browser`, given whether each of its channels
/// is installed (a missing mark counts as not installed), and whether any
/// is; with none installed, the default channel alone.
pub fn installed_channels(browser: Browser, installed: &[bool]) -> (r: (Vec<Channel>, bool))
    ensures
        r.1 == (installed_among(channel_list(browser), installed@).len() > 0),
        channels_view(r.0@) == if r.1 {
            installed_among(channel_list(browser), installed@)
        } else {
            seq![channel_list(browser)[0]]
        },
{
    let channels = channels_for(browser);
    let ghost cl = channel_list(browser);
    let mut found: Vec<Channel> = Vec::new();
    let mut i: usize = 0;
    assert(cl.take(0) =~= Seq::<ChannelV>::empty());
    assert(channels_view(found@) =~= Seq::<ChannelV>::empty());
    while i < channels.len()
        invariant
            i <= channels@.len(),
            channels_view(channels@) == cl,
            cl == channel_list(browser),
            channels_view(found@) == installed_among(cl.take(i as int), installed@),
        decreases channels@.len() - i,
    {
        assert(cl.take(i + 1).drop_last() =~= cl.take(i as int));
        assert(cl.take(i + 1)[i as int] == channels@[i as int]@);
        if i < installed.len() && installed[i] {
            let ghost before = channels_view(found@);
            found.push(channels[i]);
            assert(channels_view(found@) =~= before.push(channels@[i as int]@));
        }
        i = i + 1;
    }
    assert(cl.take(i as int) =~= cl);
    if found.len() == 0 {
        let mut only: Vec<Channel> = Vec::new();
        only.push(channels[0]);
        assert(channels_view(only@) =~= seq![cl[0]]);
        (only, false)
    } else {
        (found, true)
    }
}

/// The platform an operating system name stands for: `macos` or
/// `windows`; other systems are not supported.
pub fn platform_for_os(os: &str) -> (r: Option<PlatformKind>)
    ensures
        r == if os@ == "macos"@ {
            Some(PlatformKind::MacOs)
        } else if os@ == "windows"@ {
            Some(PlatformKind::Windows)
        } else {
            None::<PlatformKind>
        },
{
    if str_eq(os, "macos") {
        Some(PlatformKind::MacOs)
    } else if str_eq(os, "windows") {
        Some(PlatformKind::Windows)
    } else {
        None
    }
}


// ---------------------------------------------------------------------------
// Applying
// ---------------------------------------------------------------------------

/// What applying a plan did: the channel, where the policies went, the keys
/// written and removed, whether it was a dry run, and whether a profile
/// removal succeeded.
pub struct ApplyReport {
    pub channel: &'static str,
    pub path: String,
    pub written: Vec<String>,
    pub deleted: Vec<String>,
    pub dry_run: bool,
    pub removed_profile: Option<bool>,
}

/// The keys of a write list, in order.
pub open spec fn write_keys(w: Seq<(String, WriteValue)>) -> Seq<Seq<char>> {
    Seq::new(w.len(), |i: int| w[i].0@)
}

/// The report of applying `plan` to `channel` with the given outcome.
pub fn plan_report(
    channel: &Channel,
    plan: &ApplyPlan,
    dry_run: bool,
    path: String,
    removed_profile: Option<bool>,
) -> (r: ApplyReport)
    ensures
        r.channel@ == channel.name@,
        r.path@ == path@,
        r.written.deep_view() == write_keys(plan.write@),
        r.deleted.deep_view() == plan.delete.deep_view(),
        r.dry_run == dry_run,
        r.removed_profile == removed_profile,
{
    let mut written: Vec<String> = Vec::new();
    let mut i: usize = 0;
    while i < plan.write.len()
        invariant
            i <= plan.write@.len(),
            written.deep_view() == write_keys(plan.write@).take(i as int),
        decreases plan.write@.len() - i,
    {
        let ghost before = written.deep_view();
        written.push(copy_string(&plan.write[i].0));
        assert(written.deep_view() =~= before.push(plan.write@[i as int].0@));
        assert(write_keys(plan.write@).take(i + 1) =~= write_keys(plan.write@).take(i as int).push(
            plan.write@[i as int].0@,
        ));
        i = i + 1;
    }
    assert(write_keys(plan.write@).take(i as int) =~= write_keys(plan.write@));
    ApplyReport {
        channel: channel.name,
        path,
        written,
        deleted: copy_strings(&plan.delete),
        dry_run,
        removed_profile,
    }
}

/// What applying on macOS does: with no write, remove the profile; else
/// install a profile; in a dry run, only describe which.
pub enum MacAction {
    RemoveProfile,
    InstallProfile,
    Describe(String),
}

/// The file name of the profile for a preference domain.
pub open spec fn profile_file_name_of(domain: Seq<char>) -> Seq<char> {
    "SlimBrave-"@ + domain + ".mobileconfig"@
}

/// The file name of the profile for a preference domain.
pub fn profile_file_name(domain: &str) -> (r: String)
    ensures
        r@ == profile_file_name_of(domain@),
{
    let mut v = chars_of("SlimBrave-");
    let d = chars_of(domain);
    let e = chars_of(".mobileconfig");
    append_chars(&mut v, d.as_slice());
    append_chars(&mut v, e.as_slice());
    string_of(v.as_slice())
}

/// The path text of a removed profile.
pub fn profile_removed_text() -> (r: String)
    ensures
        r@ == "Configuration profile removed"@,
{
    owned("Configuration profile removed")
}

/// What applying `plan` on macOS does.
pub fn mac_action(channel: &Channel, plan: &ApplyPlan, dry_run: bool) -> (r: MacAction)
    ensures
        match r {
            MacAction::RemoveProfile => plan.write@.len() == 0 && !dry_run,
            MacAction::InstallProfile => plan.write@.len() > 0 && !dry_run,
            MacAction::Describe(t) => dry_run && t@ == if plan.write@.len() == 0 {
                "(dry run) would remove configuration profile"@
            } else {
                "(dry run) would generate "@ + profile_file_name_of(channel.domain@)
            },
        },
{
    if plan.write.len() == 0 {
        if dry_run {
            MacAction::Describe(owned("(dry run) would remove configuration profile"))
        } else {
            MacAction::RemoveProfile
        }
    } else if dry_run {
        let mut v = chars_of("(dry run) would generate ");
        let f = profile_file_name(channel.domain);
        let fc = chars_of(f.as_str());
        append_chars(&mut v, fc.as_slice());
        MacAction::Describe(string_of(v.as_slice()))
    } else {
        MacAction::InstallProfile
    }
}

/// Where applying on Windows writes: the machine-wide or per-user policy
/// key of the channel, marked as a dry run when it is one at machine level.
pub open spec fn registry_target_of(reg_path: Seq<char>, level: WriteLevel, dry_run: bool) -> Seq<char> {
    match level {
        WriteLevel::Machine => if dry_run {
            "(dry run) HKLM\\"@ + reg_path
        } else {
            "HKLM\\"@ + reg_path
        },
        WriteLevel::User => "HKCU\\"@ + reg_path,
    }
}

/// Where applying on Windows writes.
pub fn registry_target(channel: &Channel, level: WriteLevel, dry_run: bool) -> (r: String)
    ensures
        r@ == registry_target_of(channel.reg_path@, level, dry_run),
{
    let mut v = match level {
        WriteLevel::Machine => if dry_run {
            chars_of("(dry run) HKLM\\")
        } else {
            chars_of("HKLM\\")
        },
        WriteLevel::User => chars_of("HKCU\\"),
    };
    let p = chars_of(channel.reg_path);
    append_chars(&mut v, p.as_slice());
    string_of(v.as_slice())
}

// ---------------------------------------------------------------------------
// Machine-wide registry script
// ---------------------------------------------------------------------------

/// A text inside single quotes for PowerShell: each `'` doubled.
pub open spec fn ps_escape(s: Seq<char>) -> Seq<char> {
    replace_seq(s, "'"@, "''"@)
}

/// The PowerShell expression of a value.
pub open spec fn ps_value(v: Val) -> Seq<char> {
    match v {
        Val::Bool(b) => if b {
            "[int]1"@
        } else {
            "[int]0"@
        },
        Val::Int(i) => int_decimal(i as int),
        Val::Str(s) => "'"@ + ps_escape(s) + "'"@,
        Val::Array(a) => "@("@ + join_seq(
            Seq::new(a.len(), |j: int| "'"@ + ps_escape(a[j]) + "'"@),
            ","@,
        ) + ")"@,
    }
}

/// The registry type of a value.
pub open spec fn ps_type(v: Val) -> Seq<char> {
    match v {
        Val::Bool(_) => "DWord"@,
        Val::Int(_) => "DWord"@,
        Val::Str(_) => "String"@,
        Val::Array(_) => "MultiString"@,
    }
}

/// The script lines that apply `plan` at machine level: the key is made,
/// each removal is done quietly, then each write sets the value with its
/// type.
pub open spec fn script_lines(reg_path: Seq<char>, plan: ApplyPlan) -> Seq<Seq<char>> {
    let d = plan.delete.deep_view();
    let w = writes_view(plan.write@);
    seq!["$p = 'HKLM:\\"@ + reg_path + "'"@, "New-Item -Path $p -Force | Out-Null"@] + Seq::new(
        d.len(),
        |i: int|
            "Remove-ItemProperty -Path $p -Name '"@ + ps_escape(d[i])
                + "' -ErrorAction SilentlyContinue"@,
    ) + Seq::new(
        w.len(),
        |i: int|
            "Set-ItemProperty -Path $p -Name '"@ + ps_escape(w[i].0) + "' -Value "@ + ps_value(
                w[i].1,
            ) + " -Type "@ + ps_type(w[i].1),
    )
}

/// The characters of the literal `s` appended to `v`.
fn push_lit(v: &mut Vec<char>, s: &str)
    ensures
        final(v)@ == old(v)@ + s@,
{
    let c = chars_of(s);
    append_chars(v, c.as_slice());
}

/// `s` escaped for PowerShell single quotes, appended to `v`.
fn push_escaped(v: &mut Vec<char>, s: &str)
    ensures
        final(v)@ == old(v)@ + ps_escape(s@),
{
    let c = chars_of(s);
    let q = chars_of("'");
    let qq = chars_of("''");
    proof {
        reveal_strlit("'");
    }
    let e = replace(c.as_slice(), q.as_slice(), qq.as_slice());
    append_chars(v, e.as_slice());
}

/// The PowerShell expression of a value.
fn ps_value_text(value: &WriteValue) -> (r: Vec<char>)
    ensures
        r@ == ps_value(value@),
{
    match value {
        WriteValue::Bool(b) => if *b {
            chars_of("[int]1")
        } else {
            chars_of("[int]0")
        },
        WriteValue::Int(i) => decimal(*i),
        WriteValue::Str(s) => {
            let mut v = chars_of("'");
            push_escaped(&mut v, s.as_str());
            push_lit(&mut v, "'");
            v
        },
        WriteValue::Array(items) => {
            let ghost a = items.deep_view();
            let ghost quoted = Seq::new(a.len(), |j: int| "'"@ + ps_escape(a[j]) + "'"@);
            let mut body: Vec<char> = Vec::new();
            let mut j: usize = 0;
            assert(quoted.take(0) =~= Seq::<Seq<char>>::empty());
            while j < items.len()
                invariant
                    j <= items@.len(),
                    a == items.deep_view(),
                    quoted == Seq::new(a.len(), |m: int| "'"@ + ps_escape(a[m]) + "'"@),
                    body@ == join_seq(quoted.take(j as int), ","@),
                decreases items@.len() - j,
            {
                if j > 0 {
                    push_lit(&mut body, ",");
                }
                push_lit(&mut body, "'");
                push_escaped(&mut body, items[j].as_str());
                push_lit(&mut body, "'");
                assert(quoted.take(j + 1).drop_last() =~= quoted.take(j as int));
                assert(body@ =~= join_seq(quoted.take(j + 1), ","@));
                j = j + 1;
            }
            assert(quoted.take(j as int) =~= quoted);
            let mut v = chars_of("@(");
            append_chars(&mut v, body.as_slice());
            push_lit(&mut v, ")");
            v
        },
    }
}

/// The registry type of a value.
fn ps_type_text(value: &WriteValue) -> (r: &'static str)
    ensures
        r@ == ps_type(value@),
{
    match value {
        WriteValue::Bool(_) => "DWord",
        WriteValue::Int(_) => "DWord",
        WriteValue::Str(_) => "String",
        WriteValue::Array(_) => "MultiString",
    }
}

/// The PowerShell script that applies `plan` to the channel's machine-wide
/// policy key: its lines (see `script_lines`) joined with CR LF.
pub fn build_machine_registry_script(channel: &Channel, plan: &ApplyPlan) -> (r: String)
    ensures
        r@ == join_seq(script_lines(channel.reg_path@, *plan), "\r\n"@),
{
    let ghost lines = script_lines(channel.reg_path@, *plan);
    let ghost d = plan.delete.deep_view();
    let ghost w = writes_view(plan.write@);
    let mut out = chars_of("$p = 'HKLM:\\");
    push_lit(&mut out, channel.reg_path);
    push_lit(&mut out, "'");
    push_lit(&mut out, "\r\n");
    push_lit(&mut out, "New-Item -Path $p -Force | Out-Null");
    assert(lines.take(2) =~= seq![lines[0], lines[1]]);
    assert(seq![lines[0], lines[1]].drop_last() =~= seq![lines[0]]);
    assert(join_seq(seq![lines[0]], "\r\n"@) == lines[0]);
    assert(join_seq(seq![lines[0], lines[1]], "\r\n"@) == lines[0] + "\r\n"@ + lines[1]);
    assert(lines[0] == "$p = 'HKLM:\\"@ + channel.reg_path@ + "'"@);
    assert(lines[1] == "New-Item -Path $p -Force | Out-Null"@);
    assert(out@ =~= join_seq(lines.take(2), "\r\n"@));
    let mut i: usize = 0;
    while i < plan.delete.len()
        invariant
            i <= plan.delete@.len(),
            d == plan.delete.deep_view(),
            w == writes_view(plan.write@),
            lines == script_lines(channel.reg_path@, *plan),
            out@ == join_seq(lines.take(2 + i), "\r\n"@),
        decreases plan.delete@.len() - i,
    {
        push_lit(&mut out, "\r\n");
        push_lit(&mut out, "Remove-ItemProperty -Path $p -Name '");
        push_escaped(&mut out, plan.delete[i].as_str());
        push_lit(&mut out, "' -ErrorAction SilentlyContinue");
        assert(lines.take(2 + i + 1).drop_last() =~= lines.take(2 + i));
        assert(lines[2 + i] == "Remove-ItemProperty -Path $p -Name '"@ + ps_escape(d[i as int])
            + "' -ErrorAction SilentlyContinue"@);
        assert(out@ =~= join_seq(lines.take(2 + i + 1), "\r\n"@));
        i = i + 1;
    }
    let mut j: usize = 0;
    while j < plan.write.len()
        invariant
            j <= plan.write@.len(),
            d == plan.delete.deep_view(),
            w == writes_view(plan.write@),
            lines == script_lines(channel.reg_path@, *plan),
            out@ == join_seq(lines.take(2 + d.len() + j), "\r\n"@),
        decreases plan.write@.len() - j,
    {
        let name = &plan.write[j].0;
        let value = &plan.write[j].1;
        push_lit(&mut out, "\r\n");
        push_lit(&mut out, "Set-ItemProperty -Path $p -Name '");
        push_escaped(&mut out, name.as_str());
        push_lit(&mut out, "' -Value ");
        let ve = ps_value_text(value);
        append_chars(&mut out, ve.as_slice());
        push_lit(&mut out, " -Type ");
        push_lit(&mut out, ps_type_text(value));
        assert(lines.take(2 + d.len() + j + 1).drop_last() =~= lines.take(2 + d.len() + j));
        assert(w[j as int] == (name@, value@));
        assert(out@ =~= join_seq(lines.take(2 + d.len() + j + 1), "\r\n"@));
        j = j + 1;
    }
    assert(lines.take(2 + d.len() + j) =~= lines);
    string_of(out.as_slice())
}


// ---------------------------------------------------------------------------
// Elevated PowerShell
// ---------------------------------------------------------------------------

/// The UTF-16 code units of a text: one unit below U+10000, else a
/// surrogate pair.
pub open spec fn utf16_units(s: Seq<char>) -> Seq<u16>
    decreases s.len(),
{
    if s.len() == 0 {
        Seq::empty()
    } else {
        let c = s.last() as u32;
        utf16_units(s.drop_last()) + if c < 0x10000 {
            seq![c as u16]
        } else {
            seq![(0xD800 + (c - 0x10000) / 0x400) as u16, (0xDC00 + (c - 0x10000) % 0x400) as u16]
        }
    }
}

/// Code units as little-endian bytes.
pub open spec fn units_le_bytes(u: Seq<u16>) -> Seq<u8> {
    Seq::new(
        2 * u.len(),
        |i: int|
            if i % 2 == 0 {
                (u[i / 2] % 256) as u8
            } else {
                (u[i / 2] / 256) as u8
            },
    )
}

/// The base64 digit of a six-bit value (standard alphabet).
pub open spec fn b64_digit(v: int) -> char {
    if v < 26 {
        (65 + v) as char
    } else if v < 52 {
        (97 + v - 26) as char
    } else if v < 62 {
        (48 + v - 52) as char
    } else if v == 62 {
        '+'
    } else {
        '/'
    }
}

/// Standard base64 with `=` padding: each three bytes give four digits.
pub open spec fn base64_of(b: Seq<u8>) -> Seq<char>
    decreases b.len(),
{
    let x = b[0] as int;
    let y = b[1] as int;
    let z = b[2] as int;
    if b.len() == 0 {
        Seq::empty()
    } else if b.len() == 1 {
        seq![b64_digit(x / 4), b64_digit((x % 4) * 16), '=', '=']
    } else if b.len() == 2 {
        seq![b64_digit(x / 4), b64_digit((x % 4) * 16 + y / 16), b64_digit((y % 16) * 4), '=']
    } else {
        seq![
            b64_digit(x / 4),
            b64_digit((x % 4) * 16 + y / 16),
            b64_digit((y % 16) * 4 + z / 64),
            b64_digit(z % 64),
        ] + base64_of(b.skip(3))
    }
}

/// `base64::engine::general_purpose::STANDARD.encode`: the standard
/// alphabet with padding (`base64_of`).
#[verifier::external_body]
fn base64_standard(bytes: &[u8]) -> (r: String)
    ensures
        r@ == base64_of(bytes@),
{
    base64::Engine::encode(&base64::engine::general_purpose::STANDARD, bytes)
}

/// The UTF-16 little-endian bytes of a text.
fn utf16_le_bytes(s: &str) -> (r: Vec<u8>)
    ensures
        r@ == units_le_bytes(utf16_units(s@)),
{
    let cs = chars_of(s);
    let mut out: Vec<u8> = Vec::new();
    let mut i: usize = 0;
    assert(cs@.take(0) =~= Seq::<char>::empty());
    while i < cs.len()
        invariant
            i <= cs@.len(),
            cs@ == s@,
            out@ == units_le_bytes(utf16_units(cs@.take(i as int))),
        decreases cs@.len() - i,
    {
        let c = cs[i] as u32;
        proof {
            vstd::utf8::char_is_scalar(cs@[i as int]);
        }
        assert(c == cs@[i as int] as u32);
        let ghost before = utf16_units(cs@.take(i as int));
        assert(cs@.take(i + 1).drop_last() =~= cs@.take(i as int));
        assert(cs@.take(i + 1).last() == cs@[i as int]);
        let ghost added: Seq<u16>;
        if c < 0x10000 {
            let u = c as u16;
            out.push((u % 256) as u8);
            out.push((u / 256) as u8);
            proof {
                added = seq![u];
                assert(u as int == c as int);
            }
        } else {
            assert(c <= 0x10FFFF);
            let hi = (0xD800 + (c - 0x10000) / 0x400) as u16;
            let lo = (0xDC00 + (c - 0x10000) % 0x400) as u16;
            out.push((hi % 256) as u8);
            out.push((hi / 256) as u8);
            out.push((lo % 256) as u8);
            out.push((lo / 256) as u8);
            proof {
                added = seq![hi, lo];
                assert(hi as int == 0xD800 + (c - 0x10000) / 0x400);
                assert(lo as int == 0xDC00 + (c - 0x10000) % 0x400);
            }
        }
        assert(utf16_units(cs@.take(i + 1)) == before + added);
        assert(out@ =~= units_le_bytes(before + added));
        i = i + 1;
    }
    assert(cs@.take(i as int) =~= cs@);
    out
}

/// The encoded command that makes PowerShell run `script`: the base64 of
/// its UTF-16 little-endian bytes.
pub fn encoded_command(script: &str) -> (r: String)
    ensures
        r@ == base64_of(units_le_bytes(utf16_units(script@))),
{
    let bytes = utf16_le_bytes(script);
    base64_standard(bytes.as_slice())
}

/// The PowerShell command that runs `script` elevated, hidden, and waits
/// for it.
pub fn elevation_command(script: &str) -> (r: String)
    ensures
        r@ == "Start-Process powershell -Verb RunAs -WindowStyle Hidden -Wait -ArgumentList '-NoProfile','-EncodedCommand','"@
            + base64_of(units_le_bytes(utf16_units(script@))) + "'"@,
{
    let mut v = chars_of(
        "Start-Process powershell -Verb RunAs -WindowStyle Hidden -Wait -ArgumentList '-NoProfile','-EncodedCommand','",
    );
    let e = encoded_command(script);
    let ec = chars_of(e.as_str());
    append_chars(&mut v, ec.as_slice());
    push_lit(&mut v, "'");
    string_of(v.as_slice())
}

/// The script that removes the channel's machine-wide policy key, the
/// path's backslashes doubled.
pub fn machine_reset_script(channel: &Channel) -> (r: String)
    ensures
        r@ == "Remove-Item -Path 'HKLM:\\"@ + replace_seq(channel.reg_path@, "\\"@, "\\\\"@)
            + "' -Recurse -Force -ErrorAction SilentlyContinue"@,
{
    let mut v = chars_of("Remove-Item -Path 'HKLM:\\");
    let p = chars_of(channel.reg_path);
    let b = chars_of("\\");
    let bb = chars_of("\\\\");
    proof {
        reveal_strlit("\\");
    }
    let d = replace(p.as_slice(), b.as_slice(), bb.as_slice());
    append_chars(&mut v, d.as_slice());
    push_lit(&mut v, "' -Recurse -Force -ErrorAction SilentlyContinue");
    string_of(v.as_slice())
}

// ---------------------------------------------------------------------------
// Closing the browser and reading tool output
// ---------------------------------------------------------------------------

/// How far closing the browser on macOS has come.
#[derive(Clone, Copy, Debug, PartialEq, Eq, Structural)]
pub enum CloseStage {
    Begin,
    Asked,
    Terminated,
    Final,
}

/// The next thing to do while closing the browser on macOS.
#[derive(Clone, Copy, Debug, PartialEq, Eq, Structural)]
pub enum CloseStep {
    /// Ask the application to quit, then wait `wait_ms` milliseconds.
    Quit { wait_ms: u64 },
    /// Send its processes SIGTERM, wait, then look whether it still runs.
    Terminate { wait_ms: u64 },
    /// Send its processes SIGKILL, wait, then look whether it still runs.
    Kill { wait_ms: u64 },
    /// Look whether it still runs.
    Look,
    /// Closing is over: whether the browser is closed.
    Done(bool),
}

/// The next stage and step of closing, given whether the browser was
/// running at the last look: ask to quit, terminate, kill only when it still
/// runs, and report closed when the final look finds it gone.
pub fn close_next(stage: CloseStage, running: bool) -> (r: (CloseStage, CloseStep))
    ensures
        r == match stage {
            CloseStage::Begin => (CloseStage::Asked, CloseStep::Quit { wait_ms: 2000 }),
            CloseStage::Asked => (CloseStage::Terminated, CloseStep::Terminate { wait_ms: 2000 }),
            CloseStage::Terminated => if running {
                (CloseStage::Final, CloseStep::Kill { wait_ms: 1500 })
            } else {
                (CloseStage::Final, CloseStep::Look)
            },
            CloseStage::Final => (CloseStage::Final, CloseStep::Done(!running)),
        },
{
    match stage {
        CloseStage::Begin => (CloseStage::Asked, CloseStep::Quit { wait_ms: 2000 }),
        CloseStage::Asked => (CloseStage::Terminated, CloseStep::Terminate { wait_ms: 2000 }),
        CloseStage::Terminated => if running {
            (CloseStage::Final, CloseStep::Kill { wait_ms: 1500 })
        } else {
            (CloseStage::Final, CloseStep::Look)
        },
        CloseStage::Final => (CloseStage::Final, CloseStep::Done(!running)),
    }
}

/// Whether `pgrep` output names a process: it is not blank.
pub fn pgrep_found(output: &[u8]) -> (r: bool)
    ensures
        r == (trim_seq(utf8_lossy(output@)).len() > 0),
{
    let text = from_utf8_lossy(output);
    let c = chars_of(text.as_str());
    let t = trim(c.as_slice());
    t.len() > 0
}

/// Whether `tasklist` output lists `brave.exe`, in any ASCII case.
pub fn tasklist_found(output: &[u8]) -> (r: bool)
    ensures
        r == contains_seq(lower_seq(utf8_lossy(output@)), "brave.exe"@),
{
    let text = from_utf8_lossy(output);
    let c = chars_of(text.as_str());
    let l = to_lower(c.as_slice());
    let p = chars_of("brave.exe");
    contains(l.as_slice(), p.as_slice())
}

/// Whether a `profiles` listing shows the profile: it mentions its
/// identifier or the profile's display name.
pub fn profiles_mention(output: &[u8], identifier: &str) -> (r: bool)
    ensures
        r == (contains_seq(utf8_lossy(output@), identifier@) || contains_seq(
            utf8_lossy(output@),
            "SlimBrave Policy"@,
        )),
{
    let text = from_utf8_lossy(output);
    let c = chars_of(text.as_str());
    let id = chars_of(identifier);
    let name = chars_of("SlimBrave Policy");
    contains(c.as_slice(), id.as_slice()) || contains(c.as_slice(), name.as_slice())
}

/// The managed keys that the legacy preference domain holds, in the order
/// of `managed`: the keys to delete from it.
pub fn legacy_keys_to_strip(managed: &Vec<String>, domain_keys: &Vec<String>) -> (r: Vec<String>)
    ensures
        r.deep_view() == managed.deep_view().filter(|k: Seq<char>| domain_keys.deep_view().contains(k)),
{
    let ghost m = managed.deep_view();
    let ghost dk = domain_keys.deep_view();
    let mut out: Vec<String> = Vec::new();
    let mut i: usize = 0;
    while i < managed.len()
        invariant
            i <= managed@.len(),
            m == managed.deep_view(),
            dk == domain_keys.deep_view(),
            out.deep_view() == m.take(i as int).filter(|k: Seq<char>| dk.contains(k)),
        decreases managed@.len() - i,
    {
        proof {
            reveal(Seq::filter);
            assert(m.take(i + 1).drop_last() =~= m.take(i as int));
        }
        if contains_text(domain_keys, managed[i].as_str()) {
            let ghost before = out.deep_view();
            out.push(copy_string(&managed[i]));
            assert(out.deep_view() =~= before.push(m[i as int]));
        }
        i = i + 1;
    }
    assert(m.take(i as int) =~= m);
    out
}

// ---------------------------------------------------------------------------
// Values found on the machine
// ---------------------------------------------------------------------------

/// The text of a property-list string value.
pub open spec fn plist_text(v: PlistV) -> Seq<char> {
    match v {
        PlistV::Str(t) => t,
        _ => Seq::empty(),
    }
}

/// The policy value a property-list value reads as: booleans, integers
/// (0 when out of the `i64` range), strings, and arrays of strings only.
pub open spec fn plist_raw(v: PlistV) -> Option<Val> {
    match v {
        PlistV::Boolean(b) => Some(Val::Bool(b)),
        PlistV::Integer(i) => Some(
            Val::Int(
                if i64::MIN <= i <= i64::MAX {
                    i as i64
                } else {
                    0
                },
            ),
        ),
        PlistV::Str(t) => Some(Val::Str(t)),
        PlistV::Array(items) => if forall|j: int| 0 <= j < items.len() ==> items[j] is Str {
            Some(Val::Array(Seq::new(items.len(), |j: int| plist_text(items[j]))))
        } else {
            None
        },
        _ => None,
    }
}

/// The content of an optional found value.
pub open spec fn opt_raw(o: Option<RawValue>) -> Option<Val> {
    match o {
        Some(v) => Some(v@),
        None => None,
    }
}

/// The policy value a property-list value reads as.
pub fn from_plist_value(value: &PlistValue) -> (r: Option<RawValue>)
    ensures
        opt_raw(r) == plist_raw(plist_view(*value)),
{
    match value {
        PlistValue::Boolean(b) => Some(RawValue::Bool(*b)),
        PlistValue::Integer(i) => {
            let n: i64 = if -9223372036854775808i128 <= *i && *i <= 9223372036854775807i128 {
                *i as i64
            } else {
                0
            };
            Some(RawValue::Int(n))
        },
        PlistValue::String(t) => Some(RawValue::Str(copy_string(t))),
        PlistValue::Array(items) => {
            let ghost iv = plist_seq_view(items@);
            proof {
                lemma_plist_seq_view(items@);
            }
            let mut out: Vec<String> = Vec::new();
            let mut j: usize = 0;
            while j < items.len()
                invariant
                    j <= items@.len(),
                    iv == plist_seq_view(items@),
                    plist_view(*value) == PlistV::Array(iv),
                    iv.len() == items@.len(),
                    forall|m: int| 0 <= m < items@.len() ==> #[trigger] iv[m] == plist_view(items@[m]),
                    forall|m: int| 0 <= m < j ==> iv[m] is Str,
                    out.deep_view() == Seq::new(j as nat, |m: int| plist_text(iv[m])),
                decreases items@.len() - j,
            {
                match &items[j] {
                    PlistValue::String(t) => {
                        let ghost before = out.deep_view();
                        assert(iv[j as int] == PlistV::Str(t@));
                        out.push(copy_string(t));
                        assert(out.deep_view() =~= before.push(t@));
                        assert(out.deep_view() =~= Seq::new((j + 1) as nat, |m: int| plist_text(iv[m])));
                    },
                    _ => {
                        assert(!(iv[j as int] is Str));
                        return None;
                    },
                }
                j = j + 1;
            }
            assert(out.deep_view() =~= Seq::new(iv.len(), |m: int| plist_text(iv[m])));
            Some(RawValue::Array(out))
        },
        _ => None,
    }
}

/// The contents of a list of property-list values, element by element.
pub proof fn lemma_plist_seq_view(s: Seq<PlistValue>)
    ensures
        plist_seq_view(s).len() == s.len(),
        forall|m: int| 0 <= m < s.len() ==> #[trigger] plist_seq_view(s)[m] == plist_view(s[m]),
    decreases s.len(),
{
    if s.len() > 0 {
        lemma_plist_seq_view(s.drop_last());
        assert forall|m: int| 0 <= m < s.len() implies #[trigger] plist_seq_view(s)[m] == plist_view(s[m]) by {
            if m < s.len() - 1 {
                assert(s.drop_last()[m] == s[m]);
            }
        }
    }
}

/// The contents of dictionary entries, entry by entry.
pub proof fn lemma_plist_dict_view(s: Seq<(String, PlistValue)>)
    ensures
        plist_dict_view(s).len() == s.len(),
        forall|m: int| 0 <= m < s.len() ==> #[trigger] plist_dict_view(s)[m] == (s[m].0@, plist_view(s[m].1)),
    decreases s.len(),
{
    if s.len() > 0 {
        lemma_plist_dict_view(s.drop_last());
        assert forall|m: int| 0 <= m < s.len() implies #[trigger] plist_dict_view(s)[m] == (s[m].0@, plist_view(s[m].1)) by {
            if m < s.len() - 1 {
                assert(s.drop_last()[m] == s[m]);
            }
        }
    }
}

/// The entries of a dictionary that read as policy values, in order.
pub open spec fn raw_pairs(d: Seq<(Seq<char>, PlistV)>) -> Seq<(Seq<char>, Val)>
    decreases d.len(),
{
    if d.len() == 0 {
        Seq::empty()
    } else {
        let prev = raw_pairs(d.drop_last());
        match plist_raw(d.last().1) {
            Some(v) => prev.push((d.last().0, v)),
            None => prev,
        }
    }
}

/// The policy values of a dictionary read from a property list; entries
/// that are not policy values are left out.
pub fn dict_to_raw(entries: &Vec<(String, PlistValue)>) -> (r: RawPayload)
    ensures
        forall|k: Seq<char>| #[trigger] opt_raw(r.spec_get(k)) == lookup(raw_pairs(plist_dict_view(entries@)), k),
{
    let ghost dv = plist_dict_view(entries@);
    proof {
        lemma_plist_dict_view(entries@);
    }
    let mut out: RawPayload = KeyMap::new();
    let mut i: usize = 0;
    assert(dv.take(0) =~= Seq::<(Seq<char>, PlistV)>::empty());
    while i < entries.len()
        invariant
            i <= entries@.len(),
            dv == plist_dict_view(entries@),
            dv.len() == entries@.len(),
            forall|m: int| 0 <= m < entries@.len() ==> #[trigger] dv[m] == (entries@[m].0@, plist_view(entries@[m].1)),
            forall|k: Seq<char>| #[trigger] opt_raw(out.spec_get(k)) == lookup(raw_pairs(dv.take(i as int)), k),
        decreases entries@.len() - i,
    {
        assert(dv.take(i + 1).drop_last() =~= dv.take(i as int));
        assert(dv.take(i + 1).last() == dv[i as int]);
        let ghost prev = raw_pairs(dv.take(i as int));
        let ghost before = out;
        match from_plist_value(&entries[i].1) {
            Some(v) => {
                let ghost e = (entries@[i as int].0@, v@);
                out.insert(copy_string(&entries[i].0), v);
                assert forall|k: Seq<char>| #[trigger] opt_raw(out.spec_get(k)) == lookup(prev.push(e), k) by {
                    assert(prev.push(e).drop_last() =~= prev);
                    assert(opt_raw(before.spec_get(k)) == lookup(prev, k));
                }
            },
            None => {},
        }
        i = i + 1;
    }
    assert(dv.take(i as int) =~= dv);
    out
}

/// Adds a found value unless the key already has one.
pub fn insert_if_absent(raw: &mut RawPayload, key: String, value: RawValue)
    ensures
        forall|k: Seq<char>| #[trigger] opt_raw(final(raw).spec_get(k)) == if k == key@ && old(raw).spec_get(k) is None {
            Some(value@)
        } else {
            opt_raw(old(raw).spec_get(k))
        },
{
    if !raw.contains_key(key.as_str()) {
        raw.insert(key, value);
    }
}

/// The value a legacy preference domain gives `k`, when it is managed.
pub open spec fn legacy_value(managed: Seq<Seq<char>>, legacy: Seq<(String, PlistValue)>, k: Seq<char>) -> Option<Val> {
    if managed.contains(k) {
        match lookup(plist_dict_view(legacy), k) {
            Some(v) => plist_raw(v),
            None => None,
        }
    } else {
        None
    }
}

/// Fills in, for each managed key without a value, the value that the
/// legacy preference domain gives it.
pub fn merge_legacy(
    payload: &mut RawPayload,
    managed: &Vec<String>,
    legacy: &Vec<(String, PlistValue)>,
)
    requires
        crate::keys::ascending(managed.deep_view()),
    ensures
        forall|k: Seq<char>| #[trigger] opt_raw(final(payload).spec_get(k)) == match opt_raw(old(payload).spec_get(k)) {
            Some(v) => Some(v),
            None => legacy_value(managed.deep_view(), legacy@, k),
        },
{
    let ghost p0 = *payload;
    let ghost ms = managed.deep_view();
    let mut i: usize = 0;
    while i < managed.len()
        invariant
            i <= managed@.len(),
            ms == managed.deep_view(),
            crate::keys::ascending(ms),
            forall|k: Seq<char>| #[trigger] opt_raw(payload.spec_get(k)) == match opt_raw(p0.spec_get(k)) {
                Some(v) => Some(v),
                None => legacy_value(ms.take(i as int), legacy@, k),
            },
        decreases managed@.len() - i,
    {
        let key = &managed[i];
        assert(ms[i as int] == key@);
        let ghost before = *payload;
        match dict_get(legacy, key.as_str()) {
            Some(v) => match from_plist_value(v) {
                Some(raw) => {
                    insert_if_absent(payload, copy_string(key), raw);
                },
                None => {},
            },
            None => {},
        }
        assert forall|k: Seq<char>| #[trigger] opt_raw(payload.spec_get(k)) == match opt_raw(p0.spec_get(k)) {
            Some(v) => Some(v),
            None => legacy_value(ms.take(i + 1), legacy@, k),
        } by {
            crate::keys::lemma_contains_push(ms.take(i as int), key@, k);
            assert(ms.take(i + 1) =~= ms.take(i as int).push(key@));
            if k != key@ {
            } else {
                assert(!ms.take(i as int).contains(k)) by {
                    if ms.take(i as int).contains(k) {
                        let l = choose|l: int| 0 <= l < i && ms.take(i as int)[l] == k;
                        crate::keys::lemma_ascending_distinct(ms, l, i as int);
                    }
                }
            }
        }
        i = i + 1;
    }
    assert(ms.take(i as int) =~= ms);
}

/// The value of the last dictionary entry with key `key`.
fn dict_get<'a>(d: &'a Vec<(String, PlistValue)>, key: &str) -> (r: Option<&'a PlistValue>)
    ensures
        match lookup(plist_dict_view(d@), key@) {
            Some(v) => r matches Some(x) && plist_view(*x) == v,
            None => r is None,
        },
{
    proof {
        lemma_plist_dict_view(d@);
    }
    let ghost dv = plist_dict_view(d@);
    let mut i: usize = d.len();
    while i > 0
        invariant
            i <= d@.len(),
            dv == plist_dict_view(d@),
            dv.len() == d@.len(),
            forall|m: int| 0 <= m < d@.len() ==> #[trigger] dv[m] == (d@[m].0@, plist_view(d@[m].1)),
            forall|m: int| i <= m < d@.len() ==> dv[m].0 != key@,
        decreases i,
    {
        if str_eq(d[i - 1].0.as_str(), key) {
            proof {
                crate::keymap::lemma_lookup_at(dv, key@, i - 1);
            }
            return Some(&d[i - 1].1);
        }
        i = i - 1;
    }
    proof {
        crate::keymap::lemma_lookup_none(dv, key@);
    }
    None
}


// ---------------------------------------------------------------------------
// Registry values
// ---------------------------------------------------------------------------

/// The kinds of registry values.
#[derive(Clone, Copy, Debug, PartialEq, Eq, Structural)]
pub enum RegKind {
    Dword,
    Qword,
    Sz,
    ExpandSz,
    MultiSz,
    Other,
}

/// The text of UTF-8 bytes, with U+FFFD for each invalid sequence
/// (`String::from_utf8_lossy`).
pub uninterp spec fn utf8_lossy(bytes: Seq<u8>) -> Seq<char>;

/// `String::from_utf8_lossy`: decodes UTF-8 bytes, putting U+FFFD in place
/// of invalid sequences; the text is named by `utf8_lossy`, and valid UTF-8
/// decodes as it is.
#[verifier::external_body]
fn from_utf8_lossy(bytes: &[u8]) -> (r: String)
    ensures
        r@ == utf8_lossy(bytes@),
        vstd::utf8::valid_utf8(bytes@) ==> r@ == vstd::utf8::decode_utf8(bytes@),
{
    String::from_utf8_lossy(bytes).into_owned()
}

/// The pieces of `b` between zero bytes.
pub open spec fn split_zero(b: Seq<u8>) -> Seq<Seq<u8>>
    decreases b.len(),
{
    if b.len() == 0 {
        seq![Seq::<u8>::empty()]
    } else {
        let p = split_zero(b.drop_last());
        if b.last() == 0 {
            p.push(Seq::empty())
        } else {
            p.update(p.len() - 1, p.last().push(b.last()))
        }
    }
}

proof fn lemma_split_zero_len(b: Seq<u8>)
    ensures
        split_zero(b).len() >= 1,
    decreases b.len(),
{
    if b.len() > 0 {
        lemma_split_zero_len(b.drop_last());
    }
}

/// The texts of the non-empty pieces, in order.
pub open spec fn chunk_texts(ps: Seq<Seq<u8>>) -> Seq<Seq<char>>
    decreases ps.len(),
{
    if ps.len() == 0 {
        Seq::empty()
    } else if ps.last().len() == 0 {
        chunk_texts(ps.drop_last())
    } else {
        chunk_texts(ps.drop_last()).push(utf8_lossy(ps.last()))
    }
}

/// The integer of the first four bytes, little-endian, when there are four.
pub open spec fn dword_raw(b: Seq<u8>) -> Option<Val> {
    if b.len() >= 4 {
        Some(Val::Int((b[0] + 256 * b[1] + 65536 * b[2] + 16777216 * b[3]) as i64))
    } else {
        None
    }
}

/// The policy value a registry value reads as: a double word (or the low
/// double word of a quad word) as an integer, a string without trailing NUL
/// characters, a multi-string as the texts of its non-empty parts; other
/// kinds, and short double words, have none.
pub open spec fn registry_raw(kind: RegKind, b: Seq<u8>) -> Option<Val> {
    match kind {
        RegKind::Dword => dword_raw(b),
        RegKind::Qword => dword_raw(b),
        RegKind::Sz => Some(Val::Str(crate::split::strip_end_char(utf8_lossy(b), '\0'))),
        RegKind::ExpandSz => Some(Val::Str(crate::split::strip_end_char(utf8_lossy(b), '\0'))),
        RegKind::MultiSz => Some(Val::Array(chunk_texts(split_zero(b)))),
        RegKind::Other => None,
    }
}

/// The integer of the first four bytes, little-endian, when there are four.
fn dword_value(bytes: &[u8]) -> (r: Option<RawValue>)
    ensures
        opt_raw(r) == dword_raw(bytes@),
{
    if bytes.len() >= 4 {
        let v: u64 = bytes[0] as u64 + 256 * (bytes[1] as u64) + 65536 * (bytes[2] as u64)
            + 16777216 * (bytes[3] as u64);
        assert(v < 4294967296);
        let n: i64 = v as i64;
        assert(n as int == v as int);
        Some(RawValue::Int(n))
    } else {
        None
    }
}

/// The policy value a registry value reads as.
pub fn registry_value(kind: RegKind, bytes: &[u8]) -> (r: Option<RawValue>)
    ensures
        opt_raw(r) == registry_raw(kind, bytes@),
{
    match kind {
        RegKind::Dword => dword_value(bytes),
        RegKind::Qword => dword_value(bytes),
        RegKind::Sz | RegKind::ExpandSz => {
            let t = from_utf8_lossy(bytes);
            let c = chars_of(t.as_str());
            let s = crate::split::trim_end_char(c.as_slice(), '\0');
            Some(RawValue::Str(string_of(s.as_slice())))
        },
        RegKind::MultiSz => {
            let mut items: Vec<String> = Vec::new();
            let mut cur: Vec<u8> = Vec::new();
            let mut i: usize = 0;
            assert(bytes@.take(0) =~= Seq::<u8>::empty());
            assert(items.deep_view() =~= Seq::<Seq<char>>::empty());
            while i < bytes.len()
                invariant
                    i <= bytes@.len(),
                    split_zero(bytes@.take(i as int)).last() == cur@,
                    split_zero(bytes@.take(i as int)).len() >= 1,
                    items.deep_view() == chunk_texts(split_zero(bytes@.take(i as int)).drop_last()),
                decreases bytes@.len() - i,
            {
                let ghost pre = split_zero(bytes@.take(i as int));
                assert(bytes@.take(i + 1).drop_last() =~= bytes@.take(i as int));
                assert(bytes@.take(i + 1).last() == bytes@[i as int]);
                if bytes[i] == 0 {
                    let ghost post = split_zero(bytes@.take(i + 1));
                    assert(post == pre.push(Seq::empty()));
                    assert(post.drop_last() =~= pre);
                    if cur.len() > 0 {
                        let t = from_utf8_lossy(cur.as_slice());
                        let ghost before = items.deep_view();
                        items.push(t);
                        assert(pre.drop_last() =~= pre.drop_last());
                        assert(pre =~= pre.drop_last().push(cur@));
                        assert(items.deep_view() =~= before.push(utf8_lossy(cur@)));
                    } else {
                        assert(pre =~= pre.drop_last().push(cur@));
                    }
                    cur = Vec::new();
                    assert(cur@ =~= Seq::<u8>::empty());
                } else {
                    cur.push(bytes[i]);
                    let ghost post = split_zero(bytes@.take(i + 1));
                    assert(post == pre.update(pre.len() - 1, pre.last().push(bytes@[i as int])));
                    assert(post.drop_last() =~= pre.drop_last());
                }
                proof {
                    lemma_split_zero_len(bytes@.take(i + 1));
                }
                i = i + 1;
            }
            assert(bytes@.take(i as int) =~= bytes@);
            let ghost all = split_zero(bytes@);
            assert(all =~= all.drop_last().push(cur@));
            assert(all.last() == cur@);
            if cur.len() > 0 {
                let t = from_utf8_lossy(cur.as_slice());
                let ghost before = items.deep_view();
                items.push(t);
                assert(items.deep_view() =~= before.push(utf8_lossy(cur@)));
                assert(chunk_texts(all) == chunk_texts(all.drop_last()).push(utf8_lossy(all.last())));
            } else {
                assert(chunk_texts(all) == chunk_texts(all.drop_last()));
            }
            assert(items.deep_view() == chunk_texts(all));
            Some(RawValue::Array(items))
        },
        RegKind::Other => None,
    }
}

/// A value read from the registry: its name, kind and bytes.
pub struct RegistryEntry {
    pub name: String,
    pub kind: RegKind,
    pub bytes: Vec<u8>,
}

/// The first value that the entries named `k` read as, if any.
pub open spec fn first_registry_value(es: Seq<RegistryEntry>, k: Seq<char>) -> Option<Val>
    decreases es.len(),
{
    if es.len() == 0 {
        None
    } else {
        match first_registry_value(es.drop_last(), k) {
            Some(v) => Some(v),
            None => if es.last().name@ == k {
                registry_raw(es.last().kind, es.last().bytes@)
            } else {
                None
            },
        }
    }
}

/// Adds the values of a registry key to `raw`, where a name has no value
/// yet; the first readable value of a name is kept.
pub fn read_registry_values(entries: &Vec<RegistryEntry>, raw: &mut RawPayload)
    ensures
        forall|k: Seq<char>| #[trigger] opt_raw(final(raw).spec_get(k)) == match opt_raw(old(raw).spec_get(k)) {
            Some(v) => Some(v),
            None => first_registry_value(entries@, k),
        },
{
    let ghost r0 = *raw;
    let mut i: usize = 0;
    assert(entries@.take(0) =~= Seq::<RegistryEntry>::empty());
    while i < entries.len()
        invariant
            i <= entries@.len(),
            forall|k: Seq<char>| #[trigger] opt_raw(raw.spec_get(k)) == match opt_raw(r0.spec_get(k)) {
                Some(v) => Some(v),
                None => first_registry_value(entries@.take(i as int), k),
            },
        decreases entries@.len() - i,
    {
        let e = &entries[i];
        assert(entries@.take(i + 1).drop_last() =~= entries@.take(i as int));
        assert(entries@.take(i + 1).last() == *e);
        match registry_value(e.kind, e.bytes.as_slice()) {
            Some(v) => {
                insert_if_absent(raw, copy_string(&e.name), v);
            },
            None => {},
        }
        i = i + 1;
    }
    assert(entries@.take(i as int) =~= entries@);
}

} // verus!

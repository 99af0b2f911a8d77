//! Policy payloads: the plan of writes and removals that a state asks for,
//! the checked reading of values found on the machine, and the state that a
//! payload shows.

use vstd::prelude::*;

use crate::catalog::{
    dns_mode_key, dns_templates_key, feature_keys, is_managed, payment_key, permission_keys,
    parse_word_bool, read_guard_key, safe_browsing_key, val_text, word_bool, write_guard_key,
    Catalog, CatalogV, Feature, FeatureV, PermissionV, PolicyValue, Val,
};
use crate::domain::PlatformKind;
use crate::keymap::{pget, KeyMap};
use crate::keys::{ascending, first_index, insert_key, lemma_contains_push, lemma_first_index};
use crate::state::{not_set, UiState};
use crate::text::{
    append_chars, chars_of, copy_string, copy_strings, decimal, int_decimal, lower_seq, owned,
    parse_i64, parse_i64_seq, str_eq, string_of, to_lower, trim, trim_seq,
};

verus! {

/// A value read from the machine's policy store.
#[derive(Clone, Debug, PartialEq, Eq)]
pub enum RawValue {
    Bool(bool),
    Int(i64),
    Str(String),
    Array(Vec<String>),
}

impl View for RawValue {
    type V = Val;

    open spec fn view(&self) -> Val {
        match self {
            RawValue::Bool(b) => Val::Bool(*b),
            RawValue::Int(i) => Val::Int(*i),
            RawValue::Str(s) => Val::Str(s@),
            RawValue::Array(a) => Val::Array(a.deep_view()),
        }
    }
}

/// A value to write to the machine's policy store.
#[derive(Clone, Debug, PartialEq, Eq)]
pub enum WriteValue {
    Bool(bool),
    Int(i64),
    Str(String),
    Array(Vec<String>),
}

impl View for WriteValue {
    type V = Val;

    open spec fn view(&self) -> Val {
        match self {
            WriteValue::Bool(b) => Val::Bool(*b),
            WriteValue::Int(i) => Val::Int(*i),
            WriteValue::Str(s) => Val::Str(s@),
            WriteValue::Array(a) => Val::Array(a.deep_view()),
        }
    }
}

impl WriteValue {
    /// The value to write for a catalog value.
    pub fn from_policy(value: &PolicyValue) -> (r: WriteValue)
        ensures
            r@ == value@,
    {
        match value {
            PolicyValue::Bool(b) => WriteValue::Bool(*b),
            PolicyValue::Int(i) => WriteValue::Int(*i),
            PolicyValue::Str(s) => WriteValue::Str(copy_string(s)),
            PolicyValue::Array(a) => WriteValue::Array(copy_strings(a)),
        }
    }

    /// A copy of the value.
    pub fn copy(&self) -> (r: WriteValue)
        ensures
            r@ == self@,
    {
        match self {
            WriteValue::Bool(b) => WriteValue::Bool(*b),
            WriteValue::Int(i) => WriteValue::Int(*i),
            WriteValue::Str(s) => WriteValue::Str(copy_string(s)),
            WriteValue::Array(a) => WriteValue::Array(copy_strings(a)),
        }
    }
}

/// Policy values by key, one per key, in ascending key order.
pub type Payload = KeyMap<WriteValue>;

/// Values read from the machine by key, in ascending key order.
pub type RawPayload = KeyMap<RawValue>;

/// The policies to write, in order, and the keys to remove, ascending.
pub struct ApplyPlan {
    pub write: Vec<(String, WriteValue)>,
    pub delete: Vec<String>,
}

/// The content of a write list.
pub open spec fn writes_view(w: Seq<(String, WriteValue)>) -> Seq<(Seq<char>, Val)> {
    w.map_values(|p: (String, WriteValue)| (p.0@, p.1@))
}

// ---------------------------------------------------------------------------
// What a state asks for
// ---------------------------------------------------------------------------

/// The value a feature sets when ticked: its Windows value on Windows where
/// it has one, else its value.
pub open spec fn expected_val(f: FeatureV, platform: PlatformKind) -> Val {
    match platform {
        PlatformKind::Windows => match f.windows_value {
            Some(v) => v,
            None => f.value,
        },
        PlatformKind::MacOs => f.value,
    }
}

/// Whether the feature at `i` is ticked; a missing tick counts as unticked.
pub open spec fn checked_at(checked: Seq<bool>, i: int) -> bool {
    0 <= i < checked.len() && checked[i]
}

/// The writes for ticked features, in catalog order.
pub open spec fn feature_writes(fs: Seq<FeatureV>, checked: Seq<bool>, platform: PlatformKind) -> Seq<
    (Seq<char>, Val),
>
    decreases fs.len(),
{
    if fs.len() == 0 {
        Seq::empty()
    } else {
        let i = fs.len() - 1;
        let prev = feature_writes(fs.drop_last(), checked, platform);
        if checked_at(checked, i) {
            prev.push((fs[i].key, expected_val(fs[i], platform)))
        } else {
            prev
        }
    }
}

/// The keys of unticked features, in catalog order.
pub open spec fn feature_deletes(fs: Seq<FeatureV>, checked: Seq<bool>) -> Seq<Seq<char>>
    decreases fs.len(),
{
    if fs.len() == 0 {
        Seq::empty()
    } else {
        let i = fs.len() - 1;
        let prev = feature_deletes(fs.drop_last(), checked);
        if checked_at(checked, i) {
            prev
        } else {
            prev.push(fs[i].key)
        }
    }
}

/// The option chosen for the permission at `i`, when the choice names one.
pub open spec fn selected_option(p: PermissionV, sel: Seq<usize>, i: int) -> Option<Seq<char>> {
    if 0 <= i < sel.len() && (sel[i] as int) < p.options.len() {
        Some(p.options[sel[i] as int])
    } else {
        None
    }
}

/// The number an option stands for: `Ask` 3, `Block` 2, anything else 1.
pub open spec fn option_code(s: Seq<char>) -> i64 {
    if s == "Ask"@ {
        3
    } else if s == "Block"@ {
        2
    } else {
        1
    }
}

/// The writes for one permission set to option `s`.
pub open spec fn permission_entry_writes(p: PermissionV, s: Seq<char>) -> Seq<(Seq<char>, Val)> {
    if s == not_set() {
        Seq::empty()
    } else if p.key == payment_key() {
        seq![(p.key, Val::Bool(s == "Allow"@))]
    } else if p.key == read_guard_key() {
        seq![(p.key, Val::Int(option_code(s))), (write_guard_key(), Val::Int(option_code(s)))]
    } else {
        seq![(p.key, Val::Int(option_code(s)))]
    }
}

/// The removals for one permission set to option `s`.
pub open spec fn permission_entry_deletes(p: PermissionV, s: Seq<char>) -> Seq<Seq<char>> {
    if s != not_set() {
        Seq::empty()
    } else if p.key == read_guard_key() {
        seq![p.key, write_guard_key()]
    } else {
        seq![p.key]
    }
}

/// The writes for the permissions, in catalog order.
pub open spec fn permission_writes(ps: Seq<PermissionV>, sel: Seq<usize>) -> Seq<(Seq<char>, Val)>
    decreases ps.len(),
{
    if ps.len() == 0 {
        Seq::empty()
    } else {
        let i = ps.len() - 1;
        permission_writes(ps.drop_last(), sel) + match selected_option(ps[i], sel, i) {
            Some(s) => permission_entry_writes(ps[i], s),
            None => Seq::empty(),
        }
    }
}

/// The removals for the permissions, in catalog order.
pub open spec fn permission_deletes(ps: Seq<PermissionV>, sel: Seq<usize>) -> Seq<Seq<char>>
    decreases ps.len(),
{
    if ps.len() == 0 {
        Seq::empty()
    } else {
        let i = ps.len() - 1;
        permission_deletes(ps.drop_last(), sel) + match selected_option(ps[i], sel, i) {
            Some(s) => permission_entry_deletes(ps[i], s),
            None => Seq::empty(),
        }
    }
}

/// The Safe Browsing write: option `On` (0) is level 1, `Off` (1) level 0.
pub open spec fn safe_browsing_writes(sb: Option<usize>) -> Seq<(Seq<char>, Val)> {
    match sb {
        Some(i) => if i == 0 {
            seq![(safe_browsing_key(), Val::Int(1))]
        } else {
            seq![(safe_browsing_key(), Val::Int(0))]
        },
        None => Seq::empty(),
    }
}

/// Unset Safe Browsing removes its policy.
pub open spec fn safe_browsing_deletes(sb: Option<usize>) -> Seq<Seq<char>> {
    match sb {
        Some(_) => Seq::empty(),
        None => seq![safe_browsing_key()],
    }
}

/// The DNS-over-HTTPS writes: mode `automatic` (0), `off` (1), or `secure`
/// (2, 3) with the trimmed template when that is not empty.
pub open spec fn dns_writes(mode: usize, template: Seq<char>) -> Seq<(Seq<char>, Val)> {
    if mode == 0 {
        seq![(dns_mode_key(), Val::Str("automatic"@))]
    } else if mode == 1 {
        seq![(dns_mode_key(), Val::Str("off"@))]
    } else if trim_seq(template).len() == 0 {
        seq![(dns_mode_key(), Val::Str("secure"@))]
    } else {
        seq![
            (dns_mode_key(), Val::Str("secure"@)),
            (dns_templates_key(), Val::Str(trim_seq(template))),
        ]
    }
}

/// The template is removed unless a secure mode writes one.
pub open spec fn dns_deletes(mode: usize, template: Seq<char>) -> Seq<Seq<char>> {
    if mode <= 1 || trim_seq(template).len() == 0 {
        seq![dns_templates_key()]
    } else {
        Seq::empty()
    }
}

/// Every write a state asks for, in order: features, permissions, Safe
/// Browsing, DNS over HTTPS.
pub open spec fn plan_writes(c: CatalogV, s: UiState, platform: PlatformKind) -> Seq<
    (Seq<char>, Val),
> {
    feature_writes(c.features, s.checked@, platform) + permission_writes(
        c.permissions,
        s.permissions@,
    ) + safe_browsing_writes(s.safe_browsing) + dns_writes(s.dns_mode, s.dns_template@)
}

/// Every removal a state asks for.
pub open spec fn plan_deletes(c: CatalogV, s: UiState) -> Seq<Seq<char>> {
    feature_deletes(c.features, s.checked@) + permission_deletes(c.permissions, s.permissions@)
        + safe_browsing_deletes(s.safe_browsing) + dns_deletes(s.dns_mode, s.dns_template@)
}

/// Whether the state's Safe Browsing and DNS choices name options.
pub open spec fn choices_in_range(s: UiState) -> bool {
    &&& s.safe_browsing matches Some(i) ==> i < 2
    &&& s.dns_mode < 4
}


/// The value a feature sets when ticked on `platform`.
pub fn expected_value(feature: &Feature, platform: PlatformKind) -> (r: PolicyValue)
    ensures
        r@ == expected_val(feature@, platform),
{
    match platform {
        PlatformKind::Windows => match &feature.windows_value {
            Some(v) => v.copy(),
            None => feature.value.copy(),
        },
        PlatformKind::MacOs => feature.value.copy(),
    }
}

/// Adds `key` to the ascending removal set that stands for `list`.
fn add_key(set: &mut Vec<String>, key: String, Ghost(list): Ghost<Seq<Seq<char>>>)
    requires
        ascending(old(set).deep_view()),
        forall|k: Seq<char>| old(set).deep_view().contains(k) <==> list.contains(k),
    ensures
        ascending(final(set).deep_view()),
        forall|k: Seq<char>| final(set).deep_view().contains(k) <==> list.push(key@).contains(k),
{
    let ghost kv = key@;
    insert_key(set, key);
    assert forall|k: Seq<char>| set.deep_view().contains(k) <==> list.push(kv).contains(k) by {
        lemma_contains_push(list, kv, k);
    }
}

/// The writes and removals that `state` asks for: ticked features are
/// written with their expected value and unticked ones removed; each
/// permission with a chosen option is written as 1 (`Allow` and others),
/// 2 (`Block`) or 3 (`Ask`), the payment-method query as a boolean, and
/// removed when `Not Set` (the file-system read guard carries the write
/// guard along); Safe Browsing `On`/`Off` is level 1/0 and removed when
/// unset; DNS over HTTPS is written as its mode with the trimmed template.
/// The removals come ascending, each once.
pub fn build_apply_plan(catalog: &Catalog, state: &UiState, platform: PlatformKind) -> (r:
    ApplyPlan)
    requires
        choices_in_range(*state),
    ensures
        writes_view(r.write@) == plan_writes(catalog@, *state, platform),
        ascending(r.delete.deep_view()),
        forall|k: Seq<char>|
            r.delete.deep_view().contains(k) <==> plan_deletes(catalog@, *state).contains(k),
{
    let ghost c = catalog@;
    let mut write: Vec<(String, WriteValue)> = Vec::new();
    let mut delete: Vec<String> = Vec::new();
    let ghost mut dels: Seq<Seq<char>> = Seq::empty();
    assert(delete.deep_view() =~= Seq::<Seq<char>>::empty());
    let mut i: usize = 0;
    assert(c.features.take(0) =~= Seq::<FeatureV>::empty());
    while i < catalog.features.len()
        invariant
            i <= catalog.features@.len(),
            c == catalog@,
            writes_view(write@) == feature_writes(c.features.take(i as int), state.checked@, platform),
            dels == feature_deletes(c.features.take(i as int), state.checked@),
            ascending(delete.deep_view()),
            forall|k: Seq<char>| delete.deep_view().contains(k) <==> dels.contains(k),
        decreases catalog.features@.len() - i,
    {
        let feature = &catalog.features[i];
        assert(c.features[i as int] == feature@);
        assert(c.features.take(i + 1).drop_last() =~= c.features.take(i as int));
        assert(c.features.take(i + 1)[i as int] == feature@);
        let ticked = i < state.checked.len() && state.checked[i];
        if ticked {
            let ghost before = writes_view(write@);
            let v = expected_value(feature, platform);
            write.push((copy_string(&feature.key), WriteValue::from_policy(&v)));
            assert(writes_view(write@) =~= before.push((feature@.key, expected_val(feature@, platform))));
        } else {
            add_key(&mut delete, copy_string(&feature.key), Ghost(dels));
            proof {
                dels = dels.push(feature@.key);
            }
        }
        i = i + 1;
    }
    assert(c.features.take(i as int) =~= c.features);
    let ghost fw = writes_view(write@);
    let ghost fd = dels;
    let mut j: usize = 0;
    assert(c.permissions.take(0) =~= Seq::<PermissionV>::empty());
    assert(fw + Seq::<(Seq<char>, Val)>::empty() =~= fw);
    assert(fd + Seq::<Seq<char>>::empty() =~= fd);
    while j < catalog.permissions.len()
        invariant
            j <= catalog.permissions@.len(),
            c == catalog@,
            writes_view(write@) == fw + permission_writes(c.permissions.take(j as int), state.permissions@),
            dels == fd + permission_deletes(c.permissions.take(j as int), state.permissions@),
            ascending(delete.deep_view()),
            forall|k: Seq<char>| delete.deep_view().contains(k) <==> dels.contains(k),
        decreases catalog.permissions@.len() - j,
    {
        let permission = &catalog.permissions[j];
        let ghost pv = permission@;
        let ghost ps = c.permissions.take(j + 1);
        assert(c.permissions[j as int] == pv);
        assert(ps.drop_last() =~= c.permissions.take(j as int));
        assert(ps[j as int] == pv);
        let ghost wbefore = writes_view(write@);
        let ghost dbefore = dels;
        let ghost pw0 = permission_writes(c.permissions.take(j as int), state.permissions@);
        let ghost pd0 = permission_deletes(c.permissions.take(j as int), state.permissions@);
        if j < state.permissions.len() && state.permissions[j] < permission.options.len() {
            let selection = &permission.options[state.permissions[j]];
            let ghost sv = selection@;
            assert(selected_option(pv, state.permissions@, j as int) == Some(sv));
            let key = &permission.key;
            if str_eq(selection.as_str(), "Not Set") {
                add_key(&mut delete, copy_string(key), Ghost(dels));
                proof {
                    dels = dels.push(pv.key);
                }
                if str_eq(key.as_str(), "DefaultFileSystemReadGuardSetting") {
                    add_key(&mut delete, owned("DefaultFileSystemWriteGuardSetting"), Ghost(dels));
                    proof {
                        dels = dels.push(write_guard_key());
                        assert(dels =~= fd + (pd0 + seq![pv.key, write_guard_key()]));
                    }
                } else {
                    assert(dels =~= fd + (pd0 + seq![pv.key]));
                }
                assert(writes_view(write@) =~= fw + (pw0 + Seq::<(Seq<char>, Val)>::empty()));
            } else if str_eq(key.as_str(), "PaymentMethodQueryEnabled") {
                let allow = str_eq(selection.as_str(), "Allow");
                write.push((copy_string(key), WriteValue::Bool(allow)));
                assert(writes_view(write@) =~= wbefore.push((pv.key, Val::Bool(allow))));
                assert(writes_view(write@) =~= fw + (pw0 + seq![(pv.key, Val::Bool(sv == "Allow"@))]));
                assert(dels =~= fd + (pd0 + Seq::<Seq<char>>::empty()));
            } else {
                let code: i64 = if str_eq(selection.as_str(), "Ask") {
                    3
                } else if str_eq(selection.as_str(), "Block") {
                    2
                } else {
                    1
                };
                assert(code == option_code(sv));
                write.push((copy_string(key), WriteValue::Int(code)));
                let ghost w1 = writes_view(write@);
                assert(w1 =~= wbefore.push((pv.key, Val::Int(code))));
                if str_eq(key.as_str(), "DefaultFileSystemReadGuardSetting") {
                    write.push((owned("DefaultFileSystemWriteGuardSetting"), WriteValue::Int(code)));
                    assert(writes_view(write@) =~= w1.push((write_guard_key(), Val::Int(code))));
                    assert(writes_view(write@) =~= fw + (pw0 + seq![
                        (pv.key, Val::Int(code)),
                        (write_guard_key(), Val::Int(code)),
                    ]));
                } else {
                    assert(writes_view(write@) =~= fw + (pw0 + seq![(pv.key, Val::Int(code))]));
                }
                assert(dels =~= fd + (pd0 + Seq::<Seq<char>>::empty()));
            }
        } else {
            assert(selected_option(pv, state.permissions@, j as int) is None);
            assert(writes_view(write@) =~= fw + (pw0 + Seq::<(Seq<char>, Val)>::empty()));
            assert(dels =~= fd + (pd0 + Seq::<Seq<char>>::empty()));
        }
        j = j + 1;
    }
    assert(c.permissions.take(j as int) =~= c.permissions);
    let ghost pwall = writes_view(write@);
    let ghost pdall = dels;
    match state.safe_browsing {
        Some(index) => {
            let level: i64 = if index == 0 {
                1
            } else {
                0
            };
            write.push((owned("SafeBrowsingProtectionLevel"), WriteValue::Int(level)));
            assert(writes_view(write@) =~= pwall + safe_browsing_writes(state.safe_browsing));
            assert(dels + safe_browsing_deletes(state.safe_browsing) =~= dels);
        },
        None => {
            add_key(&mut delete, owned("SafeBrowsingProtectionLevel"), Ghost(dels));
            proof {
                dels = dels.push(safe_browsing_key());
            }
            assert(writes_view(write@) =~= pwall + safe_browsing_writes(state.safe_browsing));
            assert(dels =~= pdall + safe_browsing_deletes(state.safe_browsing));
        },
    }
    let ghost sbw = writes_view(write@);
    let ghost sbd = dels;
    if state.dns_mode == 0 {
        write.push((owned("DnsOverHttpsMode"), WriteValue::Str(owned("automatic"))));
        add_key(&mut delete, owned("DnsOverHttpsTemplates"), Ghost(dels));
        proof {
            dels = dels.push(dns_templates_key());
        }
    } else if state.dns_mode == 1 {
        write.push((owned("DnsOverHttpsMode"), WriteValue::Str(owned("off"))));
        add_key(&mut delete, owned("DnsOverHttpsTemplates"), Ghost(dels));
        proof {
            dels = dels.push(dns_templates_key());
        }
    } else {
        write.push((owned("DnsOverHttpsMode"), WriteValue::Str(owned("secure"))));
        let tc = chars_of(state.dns_template.as_str());
        let t = trim(tc.as_slice());
        if t.len() == 0 {
            add_key(&mut delete, owned("DnsOverHttpsTemplates"), Ghost(dels));
            proof {
                dels = dels.push(dns_templates_key());
            }
        } else {
            write.push((owned("DnsOverHttpsTemplates"), WriteValue::Str(string_of(t.as_slice()))));
        }
    }
    assert(writes_view(write@) =~= sbw + dns_writes(state.dns_mode, state.dns_template@));
    assert(dels =~= sbd + dns_deletes(state.dns_mode, state.dns_template@));
    ApplyPlan { write, delete }
}


// ---------------------------------------------------------------------------
// What a payload shows
// ---------------------------------------------------------------------------

/// The content of the payload value for `k`.
pub open spec fn pval(p: Payload, k: Seq<char>) -> Option<Val> {
    match p.spec_get(k) {
        Some(v) => Some(v@),
        None => None,
    }
}

/// Whether a found value shows the expected one: the same boolean, integer
/// or text, or any non-empty array for an array value.
pub open spec fn value_matches(expected: Val, actual: Val) -> bool {
    match expected {
        Val::Bool(e) => actual matches Val::Bool(a) && e == a,
        Val::Int(e) => actual matches Val::Int(a) && e == a,
        Val::Str(e) => actual matches Val::Str(a) && e == a,
        Val::Array(_) => actual matches Val::Array(a) && a.len() > 0,
    }
}

/// Whether the payload shows the feature as set.
pub open spec fn feature_shown(f: FeatureV, p: Payload, platform: PlatformKind) -> bool {
    match pval(p, f.key) {
        Some(v) => value_matches(expected_val(f, platform), v),
        None => false,
    }
}

/// Whether the feature at `i` shows as ticked: it is the first feature with
/// its key, and some feature with that key is set in the payload.
pub open spec fn shown_ticked(c: CatalogV, p: Payload, platform: PlatformKind, i: int) -> bool {
    let keys = feature_keys(c.features);
    &&& first_index(keys, keys[i]) == Some(i)
    &&& exists|j: int|
        0 <= j < keys.len() && keys[j] == keys[i] && feature_shown(
            #[trigger] c.features[j],
            p,
            platform,
        )
}

/// The option a permission value stands for: for the payment-method query
/// `true` is `Allow` and `false` `Block`; for others 3 is `Ask`, 2 `Block`
/// and 1 `Allow`.
pub open spec fn shown_option(key: Seq<char>, v: Option<Val>) -> Option<Seq<char>> {
    match v {
        None => None,
        Some(x) => if key == payment_key() {
            match x {
                Val::Bool(b) => Some(if b { "Allow"@ } else { "Block"@ }),
                _ => None,
            }
        } else {
            match x {
                Val::Int(n) => if n == 3 {
                    Some("Ask"@)
                } else if n == 2 {
                    Some("Block"@)
                } else if n == 1 {
                    Some("Allow"@)
                } else {
                    None
                },
                _ => None,
            }
        },
    }
}

/// The option index a permission shows: the first option with the text its
/// value stands for, else the first option.
pub open spec fn shown_choice(perm: PermissionV, p: Payload) -> usize {
    match shown_option(perm.key, pval(p, perm.key)) {
        Some(s) => match first_index(perm.options, s) {
            Some(k) => k as usize,
            None => 0,
        },
        None => 0,
    }
}

/// The Safe Browsing option a payload shows: level 1 is `On`, 0 `Off`.
pub open spec fn shown_safe_browsing(p: Payload) -> Option<usize> {
    match pval(p, safe_browsing_key()) {
        Some(Val::Int(n)) => if n == 1 {
            Some(0usize)
        } else if n == 0 {
            Some(1usize)
        } else {
            None
        },
        _ => None,
    }
}

/// Whether the payload holds a template: any value but a blank text.
pub open spec fn has_template(p: Payload) -> bool {
    match pval(p, dns_templates_key()) {
        Some(Val::Str(t)) => trim_seq(t).len() > 0,
        Some(_) => true,
        None => false,
    }
}

/// The DNS mode a payload shows.
pub open spec fn shown_dns_mode(p: Payload) -> usize {
    match pval(p, dns_mode_key()) {
        Some(Val::Str(m)) => if m == "automatic"@ {
            0
        } else if m == "off"@ {
            1
        } else if m == "secure"@ {
            if has_template(p) {
                3
            } else {
                2
            }
        } else {
            0
        },
        _ => 0,
    }
}

/// The DNS template a payload shows.
pub open spec fn shown_template(p: Payload) -> Seq<char> {
    match pval(p, dns_templates_key()) {
        Some(Val::Str(t)) => t,
        _ => Seq::empty(),
    }
}

/// The state a payload shows for catalog `c`.
pub open spec fn shows(s: UiState, c: CatalogV, p: Payload, platform: PlatformKind) -> bool {
    &&& s.checked@.len() == c.features.len()
    &&& forall|i: int| 0 <= i < c.features.len() ==> s.checked@[i] == shown_ticked(c, p, platform, i)
    &&& s.permissions@.len() == c.permissions.len()
    &&& forall|i: int|
        0 <= i < c.permissions.len() ==> s.permissions@[i] == shown_choice(c.permissions[i], p)
    &&& s.safe_browsing == shown_safe_browsing(p)
    &&& s.dns_mode == shown_dns_mode(p)
    &&& s.dns_template@ == shown_template(p)
}

/// Whether a found value shows the expected one.
fn matches_value(expected: &PolicyValue, actual: &WriteValue) -> (r: bool)
    ensures
        r == value_matches(expected@, actual@),
{
    match (expected, actual) {
        (PolicyValue::Bool(e), WriteValue::Bool(a)) => *e == *a,
        (PolicyValue::Int(e), WriteValue::Int(a)) => *e == *a,
        (PolicyValue::Str(e), WriteValue::Str(a)) => {
            let x = chars_of(e.as_str());
            let y = chars_of(a.as_str());
            crate::text::same_chars(x.as_slice(), y.as_slice())
        },
        (PolicyValue::Array(_), WriteValue::Array(a)) => a.len() > 0,
        _ => false,
    }
}

/// The option text a permission value stands for.
fn shown_option_text(key: &str, value: &WriteValue) -> (r: Option<&'static str>)
    ensures
        match r {
            Some(t) => shown_option(key@, Some(value@)) == Some(t@),
            None => shown_option(key@, Some(value@)) is None,
        },
{
    if str_eq(key, "PaymentMethodQueryEnabled") {
        match value {
            WriteValue::Bool(b) => if *b {
                Some("Allow")
            } else {
                Some("Block")
            },
            _ => None,
        }
    } else {
        match value {
            WriteValue::Int(n) => if *n == 3 {
                Some("Ask")
            } else if *n == 2 {
                Some("Block")
            } else if *n == 1 {
                Some("Allow")
            } else {
                None
            },
            _ => None,
        }
    }
}

/// The position of the first option with text `text`.
fn option_position(options: &Vec<String>, text: &str) -> (r: Option<usize>)
    ensures
        r is Some <==> first_index(options.deep_view(), text@) is Some,
        r matches Some(k) ==> first_index(options.deep_view(), text@) == Some(k as int),
{
    let ghost ks = options.deep_view();
    let mut i: usize = 0;
    while i < options.len()
        invariant
            i <= options@.len(),
            ks == options.deep_view(),
            forall|l: int| 0 <= l < i ==> ks[l] != text@,
        decreases options@.len() - i,
    {
        if str_eq(options[i].as_str(), text) {
            proof {
                crate::keys::lemma_first_index_is(ks, text@, i as int);
            }
            return Some(i);
        }
        i = i + 1;
    }
    proof {
        crate::keys::lemma_first_index_none(ks, text@);
    }
    None
}


/// Sets `state` to what `payload` shows: a feature is ticked when the
/// payload holds its expected value (any non-empty array for array values),
/// a permission takes the option its value stands for, Safe Browsing level
/// 1/0 reads as `On`/`Off`, and the DNS mode and template are read back
/// (`secure` with a template reads as `Custom`).
pub fn apply_payload_to_ui(
    catalog: &Catalog,
    state: &mut UiState,
    payload: &Payload,
    platform: PlatformKind,
)
    ensures
        shows(*final(state), catalog@, *payload, platform),
{
    let ghost c = catalog@;
    let ghost keys = feature_keys(c.features);
    *state = UiState::new(catalog);
    let mut t: usize = 0;
    while t < catalog.features.len()
        invariant
            t <= catalog.features@.len(),
            c == catalog@,
            keys == feature_keys(c.features),
            state.checked@.len() == c.features.len(),
            forall|i: int|
                0 <= i < c.features.len() ==> #[trigger] state.checked@[i] == (first_index(
                    keys,
                    keys[i],
                ) == Some(i) && exists|j: int|
                    0 <= j < t && keys[j] == keys[i] && feature_shown(
                        #[trigger] c.features[j],
                        *payload,
                        platform,
                    )),
            state.permissions@ == Seq::new(c.permissions.len(), |i: int| 0usize),
            state.safe_browsing is None,
            state.dns_mode == 0,
            state.dns_template@ == Seq::<char>::empty(),
        decreases catalog.features@.len() - t,
    {
        let feature = &catalog.features[t];
        assert(c.features[t as int] == feature@);
        assert(keys[t as int] == feature@.key);
        let ghost old_checked = state.checked@;
        let ghost shown_t = feature_shown(c.features[t as int], *payload, platform);
        let mut set_at: Option<usize> = None;
        match payload.get(feature.key.as_str()) {
            Some(v) => {
                let e = expected_value(feature, platform);
                if matches_value(&e, v) {
                    proof {
                        lemma_first_index(keys, keys[t as int]);
                    }
                    match catalog.feature_index(feature.key.as_str()) {
                        Some(idx) => {
                            state.checked.set(idx, true);
                            set_at = Some(idx);
                        },
                        None => {},
                    }
                }
            },
            None => {},
        }
        proof {
            lemma_first_index(keys, keys[t as int]);
            assert(shown_t <==> set_at is Some);
            assert forall|i: int| 0 <= i < c.features.len() implies #[trigger] state.checked@[i] == (
            first_index(keys, keys[i]) == Some(i) && exists|j: int|
                0 <= j < t + 1 && keys[j] == keys[i] && feature_shown(
                    #[trigger] c.features[j],
                    *payload,
                    platform,
                )) by {
                let before = exists|j: int|
                    0 <= j < t && keys[j] == keys[i] && feature_shown(
                        #[trigger] c.features[j],
                        *payload,
                        platform,
                    );
                let after = exists|j: int|
                    0 <= j < t + 1 && keys[j] == keys[i] && feature_shown(
                        #[trigger] c.features[j],
                        *payload,
                        platform,
                    );
                if before {
                    let j = choose|j: int|
                        0 <= j < t && keys[j] == keys[i] && feature_shown(
                            #[trigger] c.features[j],
                            *payload,
                            platform,
                        );
                    assert(0 <= j < t + 1 && keys[j] == keys[i] && feature_shown(
                        c.features[j],
                        *payload,
                        platform,
                    ));
                }
                if after && !before {
                    let j = choose|j: int|
                        0 <= j < t + 1 && keys[j] == keys[i] && feature_shown(
                            #[trigger] c.features[j],
                            *payload,
                            platform,
                        );
                    assert(j == t);
                }
                match set_at {
                    Some(idx) => {
                        if i == idx {
                            assert(keys[idx as int] == keys[t as int]);
                            assert(feature_shown(c.features[t as int], *payload, platform));
                        } else {
                            assert(state.checked@[i] == old_checked[i]);
                            if after && !before && first_index(keys, keys[i]) == Some(i) {
                                assert(keys[t as int] == keys[i]);
                            }
                        }
                    },
                    None => {
                        assert(state.checked@[i] == old_checked[i]);
                    },
                }
            }
        }
        t = t + 1;
    }
    let mut i: usize = 0;
    while i < catalog.permissions.len()
        invariant
            i <= catalog.permissions@.len(),
            c == catalog@,
            state.checked@.len() == c.features.len(),
            forall|l: int|
                0 <= l < c.features.len() ==> state.checked@[l] == shown_ticked(
                    c,
                    *payload,
                    platform,
                    l,
                ),
            state.permissions@.len() == c.permissions.len(),
            forall|l: int| 0 <= l < i ==> state.permissions@[l] == shown_choice(c.permissions[l], *payload),
            forall|l: int| i <= l < c.permissions.len() ==> state.permissions@[l] == 0,
            state.safe_browsing is None,
            state.dns_mode == 0,
            state.dns_template@ == Seq::<char>::empty(),
        decreases catalog.permissions@.len() - i,
    {
        let permission = &catalog.permissions[i];
        assert(c.permissions[i as int] == permission@);
        match payload.get(permission.key.as_str()) {
            Some(v) => match shown_option_text(permission.key.as_str(), v) {
                Some(text) => match option_position(&permission.options, text) {
                    Some(k) => {
                        state.permissions.set(i, k);
                    },
                    None => {},
                },
                None => {},
            },
            None => {},
        }
        i = i + 1;
    }
    match payload.get("SafeBrowsingProtectionLevel") {
        Some(WriteValue::Int(n)) => {
            if *n == 1 {
                state.safe_browsing = Some(0);
            } else if *n == 0 {
                state.safe_browsing = Some(1);
            }
        },
        _ => {},
    }
    match payload.get("DnsOverHttpsMode") {
        Some(WriteValue::Str(mode)) => {
            let has_t = match payload.get("DnsOverHttpsTemplates") {
                Some(WriteValue::Str(t)) => {
                    let tc = chars_of(t.as_str());
                    trim(tc.as_slice()).len() > 0
                },
                Some(_) => true,
                None => false,
            };
            let m = mode.as_str();
            state.dns_mode = if str_eq(m, "automatic") {
                0
            } else if str_eq(m, "off") {
                1
            } else if str_eq(m, "secure") {
                if has_t {
                    3
                } else {
                    2
                }
            } else {
                0
            };
        },
        _ => {},
    }
    match payload.get("DnsOverHttpsTemplates") {
        Some(WriteValue::Str(t)) => {
            state.dns_template = copy_string(t);
        },
        _ => {},
    }
}


// ---------------------------------------------------------------------------
// Reading values found on the machine
// ---------------------------------------------------------------------------

/// A found value read as a boolean: integers are true when non-zero, texts
/// when they are one of `1 true yes on` (false for `0 false no off`) after
/// trimming and in any ASCII case.
pub open spec fn coerced_bool(v: Val) -> Option<bool> {
    match v {
        Val::Bool(b) => Some(b),
        Val::Int(i) => Some(i != 0),
        Val::Str(s) => word_bool(trim_seq(s)),
        Val::Array(_) => None,
    }
}

/// A found value read as an integer: booleans as 0 or 1, texts when their
/// trimmed form is a decimal integer that fits.
pub open spec fn coerced_int(v: Val) -> Option<i64> {
    match v {
        Val::Int(i) => Some(i),
        Val::Bool(b) => Some(if b { 1i64 } else { 0i64 }),
        Val::Str(s) => parse_i64_seq(trim_seq(s)),
        Val::Array(_) => None,
    }
}

/// What becomes of a found entry: kept with a value, skipped with a reason,
/// or left out silently.
pub enum Verdict {
    Keep(Val),
    Warn(Seq<char>),
    Ignore,
}

/// The reason given for an out-of-range number.
pub open spec fn invalid_number(n: i64) -> Seq<char> {
    "invalid value "@ + int_decimal(n as int)
}

/// The warning for a skipped key.
pub open spec fn skipped_text(key: Seq<char>, reason: Seq<char>) -> Seq<char> {
    "Skipped "@ + key + ": "@ + reason
}

/// What becomes of the found entry `k` = `v`: a feature keeps the value in
/// the kind of its expected value (any value reads as text), a permission
/// keeps 1 to 3 (a boolean for the payment-method query), Safe Browsing
/// keeps 0 or 1, the DNS mode keeps `automatic`, `off` or `secure` (trimmed,
/// lower-cased), the template keeps any value as text, the write guard keeps
/// 1 to 3; other keys are ignored.
pub open spec fn entry_verdict(c: CatalogV, k: Seq<char>, v: Val, platform: PlatformKind) -> Verdict {
    match first_index(feature_keys(c.features), k) {
        Some(fi) => match expected_val(c.features[fi], platform) {
            Val::Bool(_) => match coerced_bool(v) {
                Some(b) => Verdict::Keep(Val::Bool(b)),
                None => Verdict::Warn("expected bool"@),
            },
            Val::Int(_) => match coerced_int(v) {
                Some(n) => Verdict::Keep(Val::Int(n)),
                None => Verdict::Warn("expected int"@),
            },
            Val::Str(_) => Verdict::Keep(Val::Str(val_text(v))),
            Val::Array(_) => match v {
                Val::Array(items) => Verdict::Keep(Val::Array(items)),
                _ => Verdict::Warn("expected array"@),
            },
        },
        None => if first_index(permission_keys(c.permissions), k) is Some {
            if k == payment_key() {
                match coerced_bool(v) {
                    Some(b) => Verdict::Keep(Val::Bool(b)),
                    None => Verdict::Warn("invalid value"@),
                }
            } else {
                match coerced_int(v) {
                    Some(n) => if 1 <= n <= 3 {
                        Verdict::Keep(Val::Int(n))
                    } else {
                        Verdict::Warn(invalid_number(n))
                    },
                    None => Verdict::Warn("invalid value"@),
                }
            }
        } else if k == safe_browsing_key() {
            match coerced_int(v) {
                Some(n) => if 0 <= n <= 1 {
                    Verdict::Keep(Val::Int(n))
                } else {
                    Verdict::Warn(invalid_number(n))
                },
                None => Verdict::Warn("invalid value"@),
            }
        } else if k == dns_mode_key() {
            match v {
                Val::Str(t) => {
                    let m = lower_seq(trim_seq(t));
                    if m == "automatic"@ || m == "off"@ || m == "secure"@ {
                        Verdict::Keep(Val::Str(m))
                    } else {
                        Verdict::Warn("invalid value"@)
                    }
                },
                _ => Verdict::Warn("invalid value"@),
            }
        } else if k == dns_templates_key() {
            Verdict::Keep(Val::Str(val_text(v)))
        } else if k == write_guard_key() {
            match coerced_int(v) {
                Some(n) => if 1 <= n <= 3 {
                    Verdict::Keep(Val::Int(n))
                } else {
                    Verdict::Warn(invalid_number(n))
                },
                None => Verdict::Warn("invalid value"@),
            }
        } else {
            Verdict::Ignore
        },
    }
}

/// The value kept for `k` from the found entries `es`, before the write
/// guard is filled in.
pub open spec fn kept_value(c: CatalogV, es: Seq<(String, RawValue)>, k: Seq<char>, platform: PlatformKind) -> Option<Val> {
    match pget(es, k) {
        Some(v) => match entry_verdict(c, k, v@, platform) {
            Verdict::Keep(x) => Some(x),
            _ => None,
        },
        None => None,
    }
}

/// The value kept for `k`: as `kept_value`, except that a missing write
/// guard takes the read guard's integer value.
pub open spec fn sanitized_value(c: CatalogV, es: Seq<(String, RawValue)>, k: Seq<char>, platform: PlatformKind) -> Option<Val> {
    if k == write_guard_key() && kept_value(c, es, k, platform) is None {
        match kept_value(c, es, read_guard_key(), platform) {
            Some(Val::Int(n)) => Some(Val::Int(n)),
            _ => None,
        }
    } else {
        kept_value(c, es, k, platform)
    }
}

/// The warnings for the found entries, in order.
pub open spec fn sanitize_warnings(c: CatalogV, es: Seq<(String, RawValue)>, platform: PlatformKind) -> Seq<Seq<char>>
    decreases es.len(),
{
    if es.len() == 0 {
        Seq::empty()
    } else {
        let prev = sanitize_warnings(c, es.drop_last(), platform);
        match entry_verdict(c, es.last().0@, es.last().1@, platform) {
            Verdict::Warn(reason) => prev.push(skipped_text(es.last().0@, reason)),
            _ => prev,
        }
    }
}

/// Reads a found value as a boolean.
fn coerce_bool(value: &RawValue) -> (r: Option<bool>)
    ensures
        r == coerced_bool(value@),
{
    match value {
        RawValue::Bool(b) => Some(*b),
        RawValue::Int(i) => Some(*i != 0),
        RawValue::Str(s) => {
            let c = chars_of(s.as_str());
            let t = trim(c.as_slice());
            parse_word_bool(t.as_slice())
        },
        RawValue::Array(_) => None,
    }
}

/// Reads a found value as an integer.
fn raw_to_int(value: &RawValue) -> (r: Option<i64>)
    ensures
        r == coerced_int(value@),
{
    match value {
        RawValue::Int(i) => Some(*i),
        RawValue::Bool(b) => Some(if *b { 1 } else { 0 }),
        RawValue::Str(s) => {
            let c = chars_of(s.as_str());
            let t = trim(c.as_slice());
            parse_i64(t.as_slice())
        },
        RawValue::Array(_) => None,
    }
}

/// A found value as text.
fn stringify(value: &RawValue) -> (r: String)
    ensures
        r@ == val_text(value@),
{
    let p = match value {
        RawValue::Bool(b) => PolicyValue::Bool(*b),
        RawValue::Int(i) => PolicyValue::Int(*i),
        RawValue::Str(s) => PolicyValue::Str(copy_string(s)),
        RawValue::Array(a) => PolicyValue::Array(copy_strings(a)),
    };
    match p.as_string() {
        Some(t) => t,
        None => String::new(),
    }
}

/// The characters of `a` followed by those of `b`.
fn concat_text(a: &[char], b: &str) -> (r: Vec<char>)
    ensures
        r@ == a@ + b@,
{
    let mut out = crate::text::slice_range(a, 0, a.len());
    assert(a@.subrange(0, a@.len() as int) =~= a@);
    let bc = chars_of(b);
    append_chars(&mut out, bc.as_slice());
    out
}

/// The warning for a skipped key.
fn skipped(key: &str, reason: &[char]) -> (r: String)
    ensures
        r@ == skipped_text(key@, reason@),
{
    let head = chars_of("Skipped ");
    let a = concat_text(head.as_slice(), key);
    let b = concat_text(a.as_slice(), ": ");
    let mut out = b;
    append_chars(&mut out, reason);
    string_of(out.as_slice())
}

/// The reason given for an out-of-range number.
fn invalid_number_text(n: i64) -> (r: Vec<char>)
    ensures
        r@ == invalid_number(n),
{
    let head = chars_of("invalid value ");
    let mut out = head;
    let d = decimal(n);
    append_chars(&mut out, d.as_slice());
    out
}


/// What becomes of a found entry, as values.
enum Outcome {
    Keep(WriteValue),
    Warn(Vec<char>),
    Ignore,
}

/// Whether the outcome is the verdict.
spec fn outcome_is(o: Outcome, v: Verdict) -> bool {
    match v {
        Verdict::Keep(x) => o matches Outcome::Keep(w) && w@ == x,
        Verdict::Warn(reason) => o matches Outcome::Warn(t) && t@ == reason,
        Verdict::Ignore => o is Ignore,
    }
}

/// Keeps an integer from 1 to 3, else gives the reason it is refused.
fn keep_level(value: &RawValue, low: i64) -> (r: Outcome)
    requires
        low == 0 || low == 1,
    ensures
        outcome_is(
            r,
            match coerced_int(value@) {
                Some(n) => if low <= n <= (if low == 0 { 1i64 } else { 3i64 }) {
                    Verdict::Keep(Val::Int(n))
                } else {
                    Verdict::Warn(invalid_number(n))
                },
                None => Verdict::Warn("invalid value"@),
            },
        ),
{
    let high: i64 = if low == 0 {
        1
    } else {
        3
    };
    match raw_to_int(value) {
        Some(n) => if low <= n && n <= high {
            Outcome::Keep(WriteValue::Int(n))
        } else {
            Outcome::Warn(invalid_number_text(n))
        },
        None => Outcome::Warn(chars_of("invalid value")),
    }
}

/// What becomes of the found entry `key` = `value`.
fn judge(catalog: &Catalog, key: &str, value: &RawValue, platform: PlatformKind) -> (r: Outcome)
    ensures
        outcome_is(r, entry_verdict(catalog@, key@, value@, platform)),
{
    proof {
        lemma_first_index(feature_keys(catalog@.features), key@);
    }
    match catalog.feature_index(key) {
        Some(fi) => {
            let feature = &catalog.features[fi];
            assert(catalog@.features[fi as int] == feature@);
            let e = expected_value(feature, platform);
            match e {
                PolicyValue::Bool(_) => match coerce_bool(value) {
                    Some(b) => Outcome::Keep(WriteValue::Bool(b)),
                    None => Outcome::Warn(chars_of("expected bool")),
                },
                PolicyValue::Int(_) => match raw_to_int(value) {
                    Some(n) => Outcome::Keep(WriteValue::Int(n)),
                    None => Outcome::Warn(chars_of("expected int")),
                },
                PolicyValue::Str(_) => Outcome::Keep(WriteValue::Str(stringify(value))),
                PolicyValue::Array(_) => match value {
                    RawValue::Array(items) => Outcome::Keep(WriteValue::Array(copy_strings(items))),
                    _ => Outcome::Warn(chars_of("expected array")),
                },
            }
        },
        None => {
            if catalog.permission_index(key).is_some() {
                if str_eq(key, "PaymentMethodQueryEnabled") {
                    match coerce_bool(value) {
                        Some(b) => Outcome::Keep(WriteValue::Bool(b)),
                        None => Outcome::Warn(chars_of("invalid value")),
                    }
                } else {
                    keep_level(value, 1)
                }
            } else if str_eq(key, "SafeBrowsingProtectionLevel") {
                keep_level(value, 0)
            } else if str_eq(key, "DnsOverHttpsMode") {
                match value {
                    RawValue::Str(t) => {
                        let tc = chars_of(t.as_str());
                        let tr = trim(tc.as_slice());
                        let m = to_lower(tr.as_slice());
                        let auto = str_eq_chars(&m, "automatic");
                        let off = str_eq_chars(&m, "off");
                        let secure = str_eq_chars(&m, "secure");
                        if auto || off || secure {
                            Outcome::Keep(WriteValue::Str(string_of(m.as_slice())))
                        } else {
                            Outcome::Warn(chars_of("invalid value"))
                        }
                    },
                    _ => Outcome::Warn(chars_of("invalid value")),
                }
            } else if str_eq(key, "DnsOverHttpsTemplates") {
                Outcome::Keep(WriteValue::Str(stringify(value)))
            } else if str_eq(key, "DefaultFileSystemWriteGuardSetting") {
                keep_level(value, 1)
            } else {
                Outcome::Ignore
            }
        },
    }
}

/// Whether the characters `v` spell `w`.
fn str_eq_chars(v: &Vec<char>, w: &str) -> (r: bool)
    ensures
        r == (v@ == w@),
{
    let c = chars_of(w);
    crate::text::same_chars(v.as_slice(), c.as_slice())
}

/// The payload that the found entries `raw` allow, and a warning for each
/// entry that was skipped: each managed key keeps its value read in the
/// kind the catalog expects (see `entry_verdict`), other keys are left out,
/// and a read guard without a write guard lends it its level.
pub fn sanitize_payload(catalog: &Catalog, raw: &RawPayload, platform: PlatformKind) -> (r: (
    Payload,
    Vec<String>,
))
    ensures
        forall|k: Seq<char>| #[trigger] pval(r.0, k) == sanitized_value(catalog@, raw.entries_view(), k, platform),
        r.1.deep_view() == sanitize_warnings(catalog@, raw.entries_view(), platform),
{
    let ghost c = catalog@;
    let es = raw.entries();
    let mut cleaned: Payload = KeyMap::new();
    let mut warnings: Vec<String> = Vec::new();
    let mut i: usize = 0;
    assert(es@.take(0) =~= Seq::<(String, RawValue)>::empty());
    assert(warnings.deep_view() =~= Seq::<Seq<char>>::empty());
    while i < es.len()
        invariant
            i <= es@.len(),
            c == catalog@,
            es@ == raw.entries_view(),
            crate::keys::ascending(crate::keymap::entry_keys(es@)),
            forall|k: Seq<char>| #[trigger] pval(cleaned, k) == kept_value(c, es@.take(i as int), k, platform),
            warnings.deep_view() == sanitize_warnings(c, es@.take(i as int), platform),
        decreases es@.len() - i,
    {
        let key = &es[i].0;
        let value = &es[i].1;
        let ghost pre = es@.take(i as int);
        let ghost post = es@.take(i + 1);
        assert(post.drop_last() =~= pre);
        assert(post.last() == es@[i as int]);
        let ghost before = cleaned;
        let ghost wbefore = warnings.deep_view();
        proof {
            assert forall|l: int| 0 <= l < pre.len() implies pre[l].0@ != key@ by {
                crate::keys::lemma_ascending_distinct(crate::keymap::entry_keys(es@), l, i as int);
            }
            crate::keymap::lemma_pget_none(pre, key@);
        }
        let o = judge(catalog, key.as_str(), value, platform);
        proof {
            assert forall|k: Seq<char>| #[trigger] pget(post, k) == if key@ == k {
                Some(*value)
            } else {
                pget(pre, k)
            } by {}
        }
        match o {
            Outcome::Keep(w) => {
                let ghost wv = w@;
                cleaned.insert(copy_string(key), w);
                proof {
                    assert forall|k: Seq<char>| #[trigger] pval(cleaned, k) == kept_value(c, post, k, platform) by {
                        if k == key@ {
                            assert(pval(cleaned, k) == Some(wv));
                        } else {
                            assert(pval(cleaned, k) == pval(before, k));
                        }
                    }
                }
            },
            Outcome::Warn(reason) => {
                warnings.push(skipped(key.as_str(), reason.as_slice()));
                assert(warnings.deep_view() =~= wbefore.push(skipped_text(key@, reason@)));
                proof {
                    assert forall|k: Seq<char>| #[trigger] pval(cleaned, k) == kept_value(c, post, k, platform) by {
                        if k == key@ {
                            assert(pval(before, k) == kept_value(c, pre, k, platform));
                        }
                    }
                }
            },
            Outcome::Ignore => {
                proof {
                    assert forall|k: Seq<char>| #[trigger] pval(cleaned, k) == kept_value(c, post, k, platform) by {
                        if k == key@ {
                            assert(pval(before, k) == kept_value(c, pre, k, platform));
                        }
                    }
                }
            },
        }
        i = i + 1;
    }
    assert(es@.take(i as int) =~= es@);
    let ghost base = cleaned;
    if cleaned.contains_key("DefaultFileSystemReadGuardSetting") && !cleaned.contains_key(
        "DefaultFileSystemWriteGuardSetting",
    ) {
        let level: Option<i64> = match cleaned.get("DefaultFileSystemReadGuardSetting") {
            Some(WriteValue::Int(n)) => Some(*n),
            _ => None,
        };
        match level {
            Some(n) => {
                cleaned.insert(owned("DefaultFileSystemWriteGuardSetting"), WriteValue::Int(n));
            },
            None => {},
        }
    }
    proof {
        assert forall|k: Seq<char>| #[trigger] pval(cleaned, k) == sanitized_value(c, es@, k, platform) by {
            assert(pval(base, k) == kept_value(c, es@, k, platform));
            assert(pval(base, read_guard_key()) == kept_value(c, es@, read_guard_key(), platform));
            assert(pval(base, write_guard_key()) == kept_value(c, es@, write_guard_key(), platform));
        }
    }
    (cleaned, warnings)
}


// ---------------------------------------------------------------------------
// Collecting a write list
// ---------------------------------------------------------------------------

/// The value of the last write with key `k`, if any.
pub open spec fn vget(ws: Seq<(Seq<char>, Val)>, k: Seq<char>) -> Option<Val>
    decreases ws.len(),
{
    if ws.len() == 0 {
        None
    } else if ws.last().0 == k {
        Some(ws.last().1)
    } else {
        vget(ws.drop_last(), k)
    }
}

/// Writes appended later decide the keys they hold.
pub proof fn lemma_vget_append(a: Seq<(Seq<char>, Val)>, b: Seq<(Seq<char>, Val)>, k: Seq<char>)
    ensures
        vget(a + b, k) == match vget(b, k) {
            Some(v) => Some(v),
            None => vget(a, k),
        },
    decreases b.len(),
{
    if b.len() == 0 {
        assert(a + b =~= a);
    } else {
        assert((a + b).drop_last() =~= a + b.drop_last());
        assert((a + b).last() == b.last());
        lemma_vget_append(a, b.drop_last(), k);
    }
}

/// A key that no write holds has no value.
pub proof fn lemma_vget_none(ws: Seq<(Seq<char>, Val)>, k: Seq<char>)
    requires
        forall|j: int| 0 <= j < ws.len() ==> ws[j].0 != k,
    ensures
        vget(ws, k) is None,
    decreases ws.len(),
{
    if ws.len() > 0 {
        lemma_vget_none(ws.drop_last(), k);
    }
}

/// The payload a write list makes, a later write of a key replacing an
/// earlier one.
pub fn payload_from_writes(write: &Vec<(String, WriteValue)>) -> (r: Payload)
    ensures
        forall|k: Seq<char>| #[trigger] pval(r, k) == vget(writes_view(write@), k),
{
    let mut out: Payload = KeyMap::new();
    let mut i: usize = 0;
    assert(writes_view(write@).take(0) =~= Seq::<(Seq<char>, Val)>::empty());
    while i < write.len()
        invariant
            i <= write@.len(),
            forall|k: Seq<char>| #[trigger] pval(out, k) == vget(writes_view(write@).take(i as int), k),
        decreases write@.len() - i,
    {
        let ghost before = out;
        let ghost ws = writes_view(write@);
        assert(ws.take(i + 1).drop_last() =~= ws.take(i as int));
        assert(ws.take(i + 1).last() == (write@[i as int].0@, write@[i as int].1@));
        out.insert(copy_string(&write[i].0), write[i].1.copy());
        assert forall|k: Seq<char>| #[trigger] pval(out, k) == vget(ws.take(i + 1), k) by {
            assert(pval(before, k) == vget(ws.take(i as int), k));
        }
        i = i + 1;
    }
    assert(writes_view(write@).take(i as int) =~= writes_view(write@));
    out
}


/// Sanitizing keeps only keys the catalog manages: any key with a value in
/// the result is a feature key, a permission key or a special key.
pub proof fn law_sanitize_keeps_managed_keys(
    c: CatalogV,
    es: Seq<(String, RawValue)>,
    k: Seq<char>,
    platform: PlatformKind,
)
    requires
        sanitized_value(c, es, k, platform) is Some,
    ensures
        is_managed(c, k),
{
    if k == write_guard_key() {
    } else {
        lemma_first_index(feature_keys(c.features), k);
        lemma_first_index(permission_keys(c.permissions), k);
        match first_index(feature_keys(c.features), k) {
            Some(fi) => {
                assert(feature_keys(c.features)[fi] == k);
            },
            None => {
                match first_index(permission_keys(c.permissions), k) {
                    Some(pi) => {
                        assert(permission_keys(c.permissions)[pi] == k);
                    },
                    None => {},
                }
            },
        }
    }
}

/// The feature at `i` is written when ticked and removed when not.
proof fn lemma_feature_covered(fs: Seq<FeatureV>, checked: Seq<bool>, platform: PlatformKind, i: int)
    requires
        0 <= i < fs.len(),
    ensures
        checked_at(checked, i) ==> feature_writes(fs, checked, platform).contains(
            (fs[i].key, expected_val(fs[i], platform)),
        ),
        !checked_at(checked, i) ==> feature_deletes(fs, checked).contains(fs[i].key),
    decreases fs.len(),
{
    let n = fs.len() - 1;
    let d = fs.drop_last();
    let w = feature_writes(d, checked, platform);
    let x = feature_deletes(d, checked);
    if i < n {
        lemma_feature_covered(d, checked, platform, i);
        assert(d[i] == fs[i]);
        if checked_at(checked, i) {
            let l = choose|l: int| 0 <= l < w.len() && w[l] == (fs[i].key, expected_val(fs[i], platform));
            if checked_at(checked, n) {
                assert(w.push((fs[n].key, expected_val(fs[n], platform)))[l] == w[l]);
            }
        } else {
            let l = choose|l: int| 0 <= l < x.len() && x[l] == fs[i].key;
            if !checked_at(checked, n) {
                assert(x.push(fs[n].key)[l] == x[l]);
            }
        }
    } else {
        if checked_at(checked, i) {
            assert(w.push((fs[n].key, expected_val(fs[n], platform)))[w.len() as int] == (
                fs[i].key,
                expected_val(fs[i], platform),
            ));
        } else {
            assert(x.push(fs[n].key)[x.len() as int] == fs[i].key);
        }
    }
}

/// Applying covers every feature of the catalog: a ticked feature is
/// written with its expected value, an unticked one is removed.
pub proof fn law_plan_covers_each_feature(c: CatalogV, s: UiState, platform: PlatformKind, i: int)
    requires
        0 <= i < c.features.len(),
    ensures
        checked_at(s.checked@, i) ==> plan_writes(c, s, platform).contains(
            (c.features[i].key, expected_val(c.features[i], platform)),
        ),
        !checked_at(s.checked@, i) ==> plan_deletes(c, s).contains(c.features[i].key),
{
    lemma_feature_covered(c.features, s.checked@, platform, i);
    let fw = feature_writes(c.features, s.checked@, platform);
    let fd = feature_deletes(c.features, s.checked@);
    let rest_w = permission_writes(c.permissions, s.permissions@) + safe_browsing_writes(
        s.safe_browsing,
    ) + dns_writes(s.dns_mode, s.dns_template@);
    let rest_d = permission_deletes(c.permissions, s.permissions@) + safe_browsing_deletes(
        s.safe_browsing,
    ) + dns_deletes(s.dns_mode, s.dns_template@);
    assert(plan_writes(c, s, platform) =~= fw + rest_w);
    assert(plan_deletes(c, s) =~= fd + rest_d);
    if checked_at(s.checked@, i) {
        let l = choose|l: int| 0 <= l < fw.len() && fw[l] == (c.features[i].key, expected_val(c.features[i], platform));
        assert((fw + rest_w)[l] == fw[l]);
    } else {
        let l = choose|l: int| 0 <= l < fd.len() && fd[l] == c.features[i].key;
        assert((fd + rest_d)[l] == fd[l]);
    }
}


/// A sequence with `x` appended holds `x`.
proof fn lemma_last_in_concat<A>(a: Seq<A>, x: A)
    ensures
        (a + seq![x]).contains(x),
{
    assert((a + seq![x])[a.len() as int] == x);
}

/// DNS over HTTPS in the automatic or the off mode writes that mode and
/// removes the template, so a template left from an earlier custom apply is
/// cleared; whatever the features, permissions and Safe Browsing choice.
pub proof fn law_plain_dns_modes_clear_the_template(
    c: CatalogV,
    s: UiState,
    platform: PlatformKind,
)
    requires
        s.dns_mode <= 1,
    ensures
        plan_deletes(c, s).contains("DnsOverHttpsTemplates"@),
        plan_writes(c, s, platform).contains(
            (
                "DnsOverHttpsMode"@,
                Val::Str(
                    if s.dns_mode == 0 {
                        "automatic"@
                    } else {
                        "off"@
                    },
                ),
            ),
        ),
{
    let fd = feature_deletes(c.features, s.checked@) + permission_deletes(
        c.permissions,
        s.permissions@,
    ) + safe_browsing_deletes(s.safe_browsing);
    lemma_last_in_concat(fd, "DnsOverHttpsTemplates"@);
    let fw = feature_writes(c.features, s.checked@, platform) + permission_writes(
        c.permissions,
        s.permissions@,
    ) + safe_browsing_writes(s.safe_browsing);
    let m = ("DnsOverHttpsMode"@, Val::Str(if s.dns_mode == 0 { "automatic"@ } else { "off"@ }));
    lemma_last_in_concat(fw, m);
}

/// A secure DNS mode with a template that is not blank writes the trimmed
/// template as it is.
pub proof fn law_secure_dns_writes_the_trimmed_template(
    c: CatalogV,
    s: UiState,
    platform: PlatformKind,
)
    requires
        s.dns_mode >= 2,
        trim_seq(s.dns_template@).len() > 0,
    ensures
        plan_writes(c, s, platform).contains(
            ("DnsOverHttpsTemplates"@, Val::Str(trim_seq(s.dns_template@))),
        ),
        plan_writes(c, s, platform).contains(("DnsOverHttpsMode"@, Val::Str("secure"@))),
{
    let fw = feature_writes(c.features, s.checked@, platform) + permission_writes(
        c.permissions,
        s.permissions@,
    ) + safe_browsing_writes(s.safe_browsing);
    let d = dns_writes(s.dns_mode, s.dns_template@);
    assert((fw + d)[fw.len() as int] == ("DnsOverHttpsMode"@, Val::Str("secure"@)));
    assert((fw + d)[fw.len() as int + 1] == ("DnsOverHttpsTemplates"@, Val::Str(trim_seq(s.dns_template@))));
}

/// A boolean feature read back from an integer (a registry DWORD) is
/// ticked exactly when the number is not zero: the 1 and 0 that applying
/// writes read back as true and false.
pub proof fn law_found_numbers_read_as_booleans(
    c: CatalogV,
    es: Seq<(String, RawValue)>,
    k: Seq<char>,
    n: i64,
    platform: PlatformKind,
)
    requires
        pget(es, k) == Some(RawValue::Int(n)),
        first_index(feature_keys(c.features), k) matches Some(i) && expected_val(
            c.features[i],
            platform,
        ) is Bool,
    ensures
        sanitized_value(c, es, k, platform) == Some(Val::Bool(n != 0)),
{
}

/// The payment-method query permission read back from an integer is
/// allowed exactly when the number is not zero.
pub proof fn law_found_payment_numbers_read_as_booleans(
    c: CatalogV,
    es: Seq<(String, RawValue)>,
    n: i64,
    platform: PlatformKind,
)
    requires
        pget(es, "PaymentMethodQueryEnabled"@) == Some(RawValue::Int(n)),
        first_index(feature_keys(c.features), "PaymentMethodQueryEnabled"@) is None,
        first_index(permission_keys(c.permissions), "PaymentMethodQueryEnabled"@) is Some,
    ensures
        sanitized_value(c, es, "PaymentMethodQueryEnabled"@, platform) == Some(Val::Bool(n != 0)),
{
}

/// A boolean feature read back from a boolean keeps it.
pub proof fn law_found_booleans_are_kept(
    c: CatalogV,
    es: Seq<(String, RawValue)>,
    k: Seq<char>,
    b: bool,
    platform: PlatformKind,
)
    requires
        pget(es, k) == Some(RawValue::Bool(b)),
        first_index(feature_keys(c.features), k) matches Some(i) && expected_val(
            c.features[i],
            platform,
        ) is Bool,
    ensures
        sanitized_value(c, es, k, platform) == Some(Val::Bool(b)),
{
}


/// An integer feature read back keeps a found integer, and reads a found
/// boolean as 1 or 0.
pub proof fn law_found_integers_are_kept(
    c: CatalogV,
    es: Seq<(String, RawValue)>,
    k: Seq<char>,
    platform: PlatformKind,
)
    requires
        first_index(feature_keys(c.features), k) matches Some(i) && expected_val(
            c.features[i],
            platform,
        ) is Int,
    ensures
        pget(es, k) matches Some(RawValue::Int(n)) ==> sanitized_value(c, es, k, platform) == Some(
            Val::Int(n),
        ),
        pget(es, k) matches Some(RawValue::Bool(b)) ==> sanitized_value(c, es, k, platform)
            == Some(Val::Int(if b { 1i64 } else { 0i64 })),
{
}

/// A permission other than the payment-method query keeps a found level
/// from 1 to 3 and drops any other number.
pub proof fn law_found_permission_levels(
    c: CatalogV,
    es: Seq<(String, RawValue)>,
    k: Seq<char>,
    n: i64,
    platform: PlatformKind,
)
    requires
        pget(es, k) == Some(RawValue::Int(n)),
        first_index(feature_keys(c.features), k) is None,
        first_index(permission_keys(c.permissions), k) is Some,
        k != "PaymentMethodQueryEnabled"@,
        k != "DefaultFileSystemWriteGuardSetting"@,
    ensures
        sanitized_value(c, es, k, platform) == if 1 <= n <= 3 {
            Some(Val::Int(n))
        } else {
            None
        },
{
}

/// Safe Browsing read back keeps a found level of 0 or 1 and drops any
/// other number.
pub proof fn law_found_safe_browsing_levels(
    c: CatalogV,
    es: Seq<(String, RawValue)>,
    n: i64,
    platform: PlatformKind,
)
    requires
        pget(es, "SafeBrowsingProtectionLevel"@) == Some(RawValue::Int(n)),
        first_index(feature_keys(c.features), "SafeBrowsingProtectionLevel"@) is None,
        first_index(permission_keys(c.permissions), "SafeBrowsingProtectionLevel"@) is None,
    ensures
        sanitized_value(c, es, "SafeBrowsingProtectionLevel"@, platform) == if 0 <= n <= 1 {
            Some(Val::Int(n))
        } else {
            None
        },
{
    reveal_strlit("SafeBrowsingProtectionLevel");
    reveal_strlit("DefaultFileSystemWriteGuardSetting");
    assert("SafeBrowsingProtectionLevel"@[0] != "DefaultFileSystemWriteGuardSetting"@[0]);
}


/// The writes and removals of the permission at `i` are among those of all
/// permissions.
proof fn lemma_permission_covered(ps: Seq<PermissionV>, sel: Seq<usize>, i: int)
    requires
        0 <= i < ps.len(),
    ensures
        selected_option(ps[i], sel, i) matches Some(s) ==> (forall|x: (Seq<char>, Val)|
            permission_entry_writes(ps[i], s).contains(x) ==> #[trigger] permission_writes(
                ps,
                sel,
            ).contains(x)),
        selected_option(ps[i], sel, i) matches Some(s) ==> (forall|x: Seq<char>|
            permission_entry_deletes(ps[i], s).contains(x) ==> #[trigger] permission_deletes(
                ps,
                sel,
            ).contains(x)),
    decreases ps.len(),
{
    let n = ps.len() - 1;
    let d = ps.drop_last();
    let w = permission_writes(d, sel);
    let x = permission_deletes(d, sel);
    let lw = match selected_option(ps[n], sel, n) {
        Some(s) => permission_entry_writes(ps[n], s),
        None => Seq::empty(),
    };
    let lx = match selected_option(ps[n], sel, n) {
        Some(s) => permission_entry_deletes(ps[n], s),
        None => Seq::empty(),
    };
    assert(permission_writes(ps, sel) == w + lw);
    assert(permission_deletes(ps, sel) == x + lx);
    if i < n {
        lemma_permission_covered(d, sel, i);
        assert(d[i] == ps[i]);
        assert(selected_option(d[i], sel, i) == selected_option(ps[i], sel, i));
        if let Some(s) = selected_option(ps[i], sel, i) {
            assert forall|y: (Seq<char>, Val)| permission_entry_writes(ps[i], s).contains(y)
                implies #[trigger] permission_writes(ps, sel).contains(y) by {
                assert(w.contains(y));
                let l = choose|l: int| 0 <= l < w.len() && w[l] == y;
                assert((w + lw)[l] == y);
            }
            assert forall|y: Seq<char>| permission_entry_deletes(ps[i], s).contains(y)
                implies #[trigger] permission_deletes(ps, sel).contains(y) by {
                assert(x.contains(y));
                let l = choose|l: int| 0 <= l < x.len() && x[l] == y;
                assert((x + lx)[l] == y);
            }
        }
    } else {
        if let Some(s) = selected_option(ps[i], sel, i) {
            assert forall|y: (Seq<char>, Val)| permission_entry_writes(ps[i], s).contains(y)
                implies #[trigger] permission_writes(ps, sel).contains(y) by {
                let l = choose|l: int| 0 <= l < lw.len() && lw[l] == y;
                assert((w + lw)[w.len() + l] == y);
            }
            assert forall|y: Seq<char>| permission_entry_deletes(ps[i], s).contains(y)
                implies #[trigger] permission_deletes(ps, sel).contains(y) by {
                let l = choose|l: int| 0 <= l < lx.len() && lx[l] == y;
                assert((x + lx)[x.len() + l] == y);
            }
        }
    }
}

/// Applying sets each permission to the level of its chosen option: `Ask`
/// is 3, `Block` 2 and `Allow` 1 (the payment-method query is allowed or
/// not as a boolean), and `Not Set` removes the permission's policy.
pub proof fn law_plan_sets_each_permission(
    c: CatalogV,
    s: UiState,
    platform: PlatformKind,
    i: int,
)
    requires
        0 <= i < c.permissions.len(),
        i < s.permissions@.len(),
        (s.permissions@[i] as int) < c.permissions[i].options.len(),
    ensures
        ({
            let p = c.permissions[i];
            let o = p.options[s.permissions@[i] as int];
            &&& o == "Not Set"@ ==> plan_deletes(c, s).contains(p.key)
            &&& p.key != "PaymentMethodQueryEnabled"@ && o == "Ask"@ ==> plan_writes(
                c,
                s,
                platform,
            ).contains((p.key, Val::Int(3)))
            &&& p.key != "PaymentMethodQueryEnabled"@ && o == "Block"@ ==> plan_writes(
                c,
                s,
                platform,
            ).contains((p.key, Val::Int(2)))
            &&& p.key != "PaymentMethodQueryEnabled"@ && o == "Allow"@ ==> plan_writes(
                c,
                s,
                platform,
            ).contains((p.key, Val::Int(1)))
            &&& p.key == "PaymentMethodQueryEnabled"@ && o != "Not Set"@ ==> plan_writes(
                c,
                s,
                platform,
            ).contains((p.key, Val::Bool(o == "Allow"@)))
        }),
{
    let p = c.permissions[i];
    let o = p.options[s.permissions@[i] as int];
    lemma_permission_covered(c.permissions, s.permissions@, i);
    reveal_strlit("Not Set");
    reveal_strlit("Ask");
    reveal_strlit("Block");
    reveal_strlit("Allow");
    let fw = feature_writes(c.features, s.checked@, platform);
    let pw = permission_writes(c.permissions, s.permissions@);
    let rw = safe_browsing_writes(s.safe_browsing) + dns_writes(s.dns_mode, s.dns_template@);
    assert(plan_writes(c, s, platform) =~= fw + pw + rw);
    let fd = feature_deletes(c.features, s.checked@);
    let pd = permission_deletes(c.permissions, s.permissions@);
    let rd = safe_browsing_deletes(s.safe_browsing) + dns_deletes(s.dns_mode, s.dns_template@);
    assert(plan_deletes(c, s) =~= fd + pd + rd);
    assert("Ask"@.len() == 3 && "Block"@.len() == 5 && "Allow"@.len() == 5 && "Not Set"@.len() == 7);
    assert("Block"@[0] != "Allow"@[0]);
    let ew = permission_entry_writes(p, o);
    let ed = permission_entry_deletes(p, o);
    if o != not_set() && p.key != payment_key() {
        assert(ew[0] == (p.key, Val::Int(option_code(o))));
    }
    if o != not_set() && ew.len() > 0 {
        assert(ew.contains(ew[0]));
        assert(pw.contains(ew[0]));
        let l = choose|l: int| 0 <= l < pw.len() && pw[l] == ew[0];
        assert((fw + pw + rw)[fw.len() + l] == ew[0]);
    }
    if o == not_set() {
        assert(ed.contains(ed[0]));
        assert(pd.contains(ed[0]));
        let l = choose|l: int| 0 <= l < pd.len() && pd[l] == ed[0];
        assert((fd + pd + rd)[fd.len() + l] == ed[0]);
    }
}

/// Safe Browsing `On` writes protection level 1, `Off` level 0, and leaving
/// it unset removes the policy.
pub proof fn law_plan_sets_safe_browsing(c: CatalogV, s: UiState, platform: PlatformKind)
    ensures
        s.safe_browsing == Some(0usize) ==> plan_writes(c, s, platform).contains(
            ("SafeBrowsingProtectionLevel"@, Val::Int(1)),
        ),
        s.safe_browsing == Some(1usize) ==> plan_writes(c, s, platform).contains(
            ("SafeBrowsingProtectionLevel"@, Val::Int(0)),
        ),
        s.safe_browsing is None ==> plan_deletes(c, s).contains("SafeBrowsingProtectionLevel"@),
{
    let fw = feature_writes(c.features, s.checked@, platform) + permission_writes(
        c.permissions,
        s.permissions@,
    );
    let sw = safe_browsing_writes(s.safe_browsing);
    let dw = dns_writes(s.dns_mode, s.dns_template@);
    assert(plan_writes(c, s, platform) =~= fw + sw + dw);
    if sw.len() > 0 {
        assert((fw + sw + dw)[fw.len() as int] == sw[0]);
    }
    let fd = feature_deletes(c.features, s.checked@) + permission_deletes(
        c.permissions,
        s.permissions@,
    );
    let sd = safe_browsing_deletes(s.safe_browsing);
    let dd = dns_deletes(s.dns_mode, s.dns_template@);
    assert(plan_deletes(c, s) =~= fd + sd + dd);
    if sd.len() > 0 {
        assert((fd + sd + dd)[fd.len() as int] == sd[0]);
    }
}

} // verus!

//! The policy catalog: policy values, features, site permissions, preset key
//! lists, and the user layer that overrides, adds and removes entries.

use vstd::prelude::*;

use crate::text::{
    append_chars, chars_of, copy_string, copy_strings, decimal, int_decimal, join, join_seq,
    lower_seq, owned, str_eq, string_of, to_lower,
};
use crate::keymap::{lookup, KeyMap};
use crate::keys::{
    ascending, first_index, insert_key, lemma_contains_push, lemma_first_index, lemma_first_index_is,
    lemma_first_index_none,
};

verus! {

// ---------------------------------------------------------------------------
// Values
// ---------------------------------------------------------------------------

/// The mathematical content of a policy value.
pub enum Val {
    Bool(bool),
    Int(i64),
    Str(Seq<char>),
    Array(Seq<Seq<char>>),
}

/// A value a policy can take in the catalog.
#[derive(Clone, Debug, PartialEq, Eq)]
pub enum PolicyValue {
    Bool(bool),
    Int(i64),
    Str(String),
    Array(Vec<String>),
}

impl View for PolicyValue {
    type V = Val;

    open spec fn view(&self) -> Val {
        match self {
            PolicyValue::Bool(b) => Val::Bool(*b),
            PolicyValue::Int(i) => Val::Int(*i),
            PolicyValue::Str(s) => Val::Str(s@),
            PolicyValue::Array(a) => Val::Array(a.deep_view()),
        }
    }
}

/// The text of a boolean: `true` or `false`.
pub open spec fn bool_text(b: bool) -> Seq<char> {
    if b {
        seq!['t', 'r', 'u', 'e']
    } else {
        seq!['f', 'a', 'l', 's', 'e']
    }
}

/// The text a value reads as: strings as they are, numbers in decimal,
/// booleans as `true`/`false`, arrays joined with commas.
pub open spec fn val_text(v: Val) -> Seq<char> {
    match v {
        Val::Str(s) => s,
        Val::Bool(b) => bool_text(b),
        Val::Int(i) => int_decimal(i as int),
        Val::Array(a) => join_seq(a, seq![',']),
    }
}

/// The words read as `true` (after ASCII lower-casing).
pub open spec fn is_true_word(s: Seq<char>) -> bool {
    ||| s == seq!['1']
    ||| s == seq!['t', 'r', 'u', 'e']
    ||| s == seq!['y', 'e', 's']
    ||| s == seq!['o', 'n']
}

/// The words read as `false` (after ASCII lower-casing).
pub open spec fn is_false_word(s: Seq<char>) -> bool {
    ||| s == seq!['0']
    ||| s == seq!['f', 'a', 'l', 's', 'e']
    ||| s == seq!['n', 'o']
    ||| s == seq!['o', 'f', 'f']
}

/// The boolean a word stands for, ignoring ASCII case.
pub open spec fn word_bool(s: Seq<char>) -> Option<bool> {
    let l = lower_seq(s);
    if is_true_word(l) {
        Some(true)
    } else if is_false_word(l) {
        Some(false)
    } else {
        None
    }
}

/// The text of a boolean as a `String`.
pub fn bool_string(b: bool) -> (out: String)
    ensures
        out@ == bool_text(b),
{
    let s = if b {
        owned("true")
    } else {
        owned("false")
    };
    proof {
        reveal_strlit("true");
        reveal_strlit("false");
    }
    s
}

/// Reads a word as a boolean, ignoring ASCII case.
pub fn parse_word_bool(v: &[char]) -> (r: Option<bool>)
    ensures
        r == word_bool(v@),
{
    let l = to_lower(v);
    let t = is_word(&l, "1") || is_word(&l, "true") || is_word(&l, "yes") || is_word(&l, "on");
    let f = is_word(&l, "0") || is_word(&l, "false") || is_word(&l, "no") || is_word(&l, "off");
    proof {
        reveal_strlit("1");
        reveal_strlit("true");
        reveal_strlit("yes");
        reveal_strlit("on");
        reveal_strlit("0");
        reveal_strlit("false");
        reveal_strlit("no");
        reveal_strlit("off");
        assert("1"@ =~= seq!['1']);
        assert("true"@ =~= seq!['t', 'r', 'u', 'e']);
        assert("yes"@ =~= seq!['y', 'e', 's']);
        assert("on"@ =~= seq!['o', 'n']);
        assert("0"@ =~= seq!['0']);
        assert("false"@ =~= seq!['f', 'a', 'l', 's', 'e']);
        assert("no"@ =~= seq!['n', 'o']);
        assert("off"@ =~= seq!['o', 'f', 'f']);
    }
    if t {
        Some(true)
    } else if f {
        Some(false)
    } else {
        None
    }
}

/// Whether the characters `v` spell the literal `w`.
pub fn is_word(v: &Vec<char>, w: &str) -> (r: bool)
    ensures
        r == (v@ == w@),
{
    let c = chars_of(w);
    crate::text::same_chars(v.as_slice(), c.as_slice())
}

impl PolicyValue {
    /// The value as text; every value has one.
    pub fn as_string(&self) -> (r: Option<String>)
        ensures
            r matches Some(s) && s@ == val_text(self@),
    {
        match self {
            PolicyValue::Str(s) => Some(copy_string(s)),
            PolicyValue::Bool(b) => Some(bool_string(*b)),
            PolicyValue::Int(i) => {
                let d = decimal(*i);
                Some(string_of(d.as_slice()))
            },
            PolicyValue::Array(a) => {
                let comma: [char; 1] = [','];
                let j = join(a, comma.as_slice());
                assert(comma@ == seq![',']);
                Some(string_of(j.as_slice()))
            },
        }
    }

    /// The value as an integer: integers as they are, booleans as 0 or 1.
    pub fn as_int(&self) -> (r: Option<i64>)
        ensures
            r == match self@ {
                Val::Int(i) => Some(i),
                Val::Bool(b) => Some(if b { 1i64 } else { 0i64 }),
                _ => None::<i64>,
            },
    {
        match self {
            PolicyValue::Int(i) => Some(*i),
            PolicyValue::Bool(b) => Some(if *b { 1 } else { 0 }),
            _ => None,
        }
    }

    /// The value as a boolean: integers are true when non-zero, strings when
    /// they are one of `1 true yes on` (false for `0 false no off`) in any
    /// ASCII case; arrays have none.
    pub fn as_bool(&self) -> (r: Option<bool>)
        ensures
            r == match self@ {
                Val::Bool(b) => Some(b),
                Val::Int(i) => Some(i != 0),
                Val::Str(s) => word_bool(s),
                Val::Array(_) => None::<bool>,
            },
    {
        match self {
            PolicyValue::Bool(b) => Some(*b),
            PolicyValue::Int(i) => Some(*i != 0),
            PolicyValue::Str(s) => {
                let c = chars_of(s.as_str());
                parse_word_bool(c.as_slice())
            },
            PolicyValue::Array(_) => None,
        }
    }

    /// The items of an array value.
    pub fn as_array(&self) -> (r: Option<Vec<String>>)
        ensures
            match self@ {
                Val::Array(a) => r matches Some(v) && v.deep_view() == a,
                _ => r is None,
            },
    {
        match self {
            PolicyValue::Array(a) => Some(copy_strings(a)),
            _ => None,
        }
    }

    /// A copy of the value.
    pub fn copy(&self) -> (r: PolicyValue)
        ensures
            r@ == self@,
    {
        match self {
            PolicyValue::Bool(b) => PolicyValue::Bool(*b),
            PolicyValue::Int(i) => PolicyValue::Int(*i),
            PolicyValue::Str(s) => PolicyValue::Str(copy_string(s)),
            PolicyValue::Array(a) => PolicyValue::Array(copy_strings(a)),
        }
    }
}

/// A policy value as it is written in catalog files.
pub enum JsonValue {
    Bool(bool),
    Int(i64),
    Str(String),
    Array(Vec<String>),
}

impl View for JsonValue {
    type V = Val;

    open spec fn view(&self) -> Val {
        match self {
            JsonValue::Bool(b) => Val::Bool(*b),
            JsonValue::Int(i) => Val::Int(*i),
            JsonValue::Str(s) => Val::Str(s@),
            JsonValue::Array(a) => Val::Array(a.deep_view()),
        }
    }
}

impl JsonValue {
    /// The catalog value with the same content.
    pub fn to_policy(&self) -> (r: PolicyValue)
        ensures
            r@ == self@,
    {
        match self {
            JsonValue::Bool(b) => PolicyValue::Bool(*b),
            JsonValue::Int(i) => PolicyValue::Int(*i),
            JsonValue::Str(s) => PolicyValue::Str(copy_string(s)),
            JsonValue::Array(a) => PolicyValue::Array(copy_strings(a)),
        }
    }
}


// ---------------------------------------------------------------------------
// Features, permissions and the catalog
// ---------------------------------------------------------------------------

/// The mathematical content of an optional text.
pub open spec fn opt_text(o: Option<String>) -> Option<Seq<char>> {
    match o {
        Some(s) => Some(s@),
        None => None,
    }
}

/// The content of an optional value.
pub open spec fn opt_val(o: Option<PolicyValue>) -> Option<Val> {
    match o {
        Some(v) => Some(v@),
        None => None,
    }
}

/// The content of an optional catalog-file value.
pub open spec fn opt_json(o: Option<JsonValue>) -> Option<Val> {
    match o {
        Some(v) => Some(v@),
        None => None,
    }
}

/// The content of an optional list of texts.
pub open spec fn opt_texts(o: Option<Vec<String>>) -> Option<Seq<Seq<char>>> {
    match o {
        Some(v) => Some(v.deep_view()),
        None => None,
    }
}

/// A policy that the user ticks on or off.
pub struct Feature {
    pub key: String,
    pub name: String,
    pub tooltip: String,
    pub value: PolicyValue,
    pub windows_value: Option<PolicyValue>,
    pub privacy: bool,
    pub security: bool,
    pub section: String,
}

/// The content of a feature.
pub struct FeatureV {
    pub key: Seq<char>,
    pub name: Seq<char>,
    pub tooltip: Seq<char>,
    pub value: Val,
    pub windows_value: Option<Val>,
    pub privacy: bool,
    pub security: bool,
    pub section: Seq<char>,
}

impl View for Feature {
    type V = FeatureV;

    open spec fn view(&self) -> FeatureV {
        FeatureV {
            key: self.key@,
            name: self.name@,
            tooltip: self.tooltip@,
            value: self.value@,
            windows_value: opt_val(self.windows_value),
            privacy: self.privacy,
            security: self.security,
            section: self.section@,
        }
    }
}

/// A site permission with the options the user picks from.
pub struct Permission {
    pub key: String,
    pub name: String,
    pub options: Vec<String>,
    pub tooltip: String,
}

/// The content of a permission.
pub struct PermissionV {
    pub key: Seq<char>,
    pub name: Seq<char>,
    pub options: Seq<Seq<char>>,
    pub tooltip: Seq<char>,
}

impl View for Permission {
    type V = PermissionV;

    open spec fn view(&self) -> PermissionV {
        PermissionV {
            key: self.key@,
            name: self.name@,
            options: self.options.deep_view(),
            tooltip: self.tooltip@,
        }
    }
}

/// The features, the permissions, and the keys each preset ticks.
pub struct Catalog {
    pub features: Vec<Feature>,
    pub permissions: Vec<Permission>,
    pub privacy_keys: Vec<String>,
    pub security_keys: Vec<String>,
}

/// The content of a catalog.
pub struct CatalogV {
    pub features: Seq<FeatureV>,
    pub permissions: Seq<PermissionV>,
    pub privacy_keys: Seq<Seq<char>>,
    pub security_keys: Seq<Seq<char>>,
}

impl View for Catalog {
    type V = CatalogV;

    open spec fn view(&self) -> CatalogV {
        CatalogV {
            features: self.features@.map_values(|f: Feature| f@),
            permissions: self.permissions@.map_values(|p: Permission| p@),
            privacy_keys: self.privacy_keys.deep_view(),
            security_keys: self.security_keys.deep_view(),
        }
    }
}

/// The keys of the features, in catalog order.
pub open spec fn feature_keys(fs: Seq<FeatureV>) -> Seq<Seq<char>> {
    Seq::new(fs.len(), |i: int| fs[i].key)
}

/// The keys of the permissions, in catalog order.
pub open spec fn permission_keys(ps: Seq<PermissionV>) -> Seq<Seq<char>> {
    Seq::new(ps.len(), |i: int| ps[i].key)
}

/// The keys managed besides the catalog's own: the file-system write guard,
/// Safe Browsing, and the two DNS-over-HTTPS settings.
pub open spec fn is_special_key(k: Seq<char>) -> bool {
    ||| k == write_guard_key()
    ||| k == safe_browsing_key()
    ||| k == dns_mode_key()
    ||| k == dns_templates_key()
}

pub open spec fn write_guard_key() -> Seq<char> {
    "DefaultFileSystemWriteGuardSetting"@
}

pub open spec fn read_guard_key() -> Seq<char> {
    "DefaultFileSystemReadGuardSetting"@
}

pub open spec fn safe_browsing_key() -> Seq<char> {
    "SafeBrowsingProtectionLevel"@
}

pub open spec fn dns_mode_key() -> Seq<char> {
    "DnsOverHttpsMode"@
}

pub open spec fn dns_templates_key() -> Seq<char> {
    "DnsOverHttpsTemplates"@
}

pub open spec fn payment_key() -> Seq<char> {
    "PaymentMethodQueryEnabled"@
}

/// Whether `k` is one of the keys the catalog manages.
pub open spec fn is_managed(c: CatalogV, k: Seq<char>) -> bool {
    ||| feature_keys(c.features).contains(k)
    ||| permission_keys(c.permissions).contains(k)
    ||| is_special_key(k)
}

impl Catalog {
    /// The position of the first feature with key `key`.
    pub fn feature_index(&self, key: &str) -> (r: Option<usize>)
        ensures
            r is Some <==> first_index(feature_keys(self@.features), key@) is Some,
            r matches Some(i) ==> first_index(feature_keys(self@.features), key@) == Some(i as int),
    {
        let ghost ks = feature_keys(self@.features);
        let mut i: usize = 0;
        while i < self.features.len()
            invariant
                i <= self.features@.len(),
                ks == feature_keys(self@.features),
                forall|l: int| 0 <= l < i ==> ks[l] != key@,
            decreases self.features@.len() - i,
        {
            if str_eq(self.features[i].key.as_str(), key) {
                proof {
                    lemma_first_index_is(ks, key@, i as int);
                }
                return Some(i);
            }
            i = i + 1;
        }
        proof {
            lemma_first_index_none(ks, key@);
        }
        None
    }

    /// The position of the first permission with key `key`.
    pub fn permission_index(&self, key: &str) -> (r: Option<usize>)
        ensures
            r is Some <==> first_index(permission_keys(self@.permissions), key@) is Some,
            r matches Some(i) ==> first_index(permission_keys(self@.permissions), key@) == Some(i as int),
    {
        let ghost ks = permission_keys(self@.permissions);
        let mut i: usize = 0;
        while i < self.permissions.len()
            invariant
                i <= self.permissions@.len(),
                ks == permission_keys(self@.permissions),
                forall|l: int| 0 <= l < i ==> ks[l] != key@,
            decreases self.permissions@.len() - i,
        {
            if str_eq(self.permissions[i].key.as_str(), key) {
                proof {
                    lemma_first_index_is(ks, key@, i as int);
                }
                return Some(i);
            }
            i = i + 1;
        }
        proof {
            lemma_first_index_none(ks, key@);
        }
        None
    }

    /// The first feature with key `key`.
    pub fn feature_by_key(&self, key: &str) -> (r: Option<&Feature>)
        ensures
            r is Some <==> first_index(feature_keys(self@.features), key@) is Some,
            r is Some ==> *r.unwrap() == self.features@[first_index(
                feature_keys(self@.features),
                key@,
            ).unwrap()],
    {
        proof {
            lemma_first_index(feature_keys(self@.features), key@);
        }
        match self.feature_index(key) {
            Some(i) => {
                let f = &self.features[i];
                assert(*f == self.features@[i as int]);
                Some(f)
            },
            None => None,
        }
    }

    /// The first permission with key `key`.
    pub fn permission_by_key(&self, key: &str) -> (r: Option<&Permission>)
        ensures
            r is Some <==> first_index(permission_keys(self@.permissions), key@) is Some,
            r is Some ==> *r.unwrap() == self.permissions@[first_index(
                permission_keys(self@.permissions),
                key@,
            ).unwrap()],
    {
        proof {
            lemma_first_index(permission_keys(self@.permissions), key@);
        }
        match self.permission_index(key) {
            Some(i) => {
                let p = &self.permissions[i];
                assert(*p == self.permissions@[i as int]);
                Some(p)
            },
            None => None,
        }
    }

    /// Every key the catalog manages, ascending, each once: the feature and
    /// permission keys and the special keys.
    pub fn managed_keys(&self) -> (r: Vec<String>)
        ensures
            ascending(r.deep_view()),
            forall|k: Seq<char>| r.deep_view().contains(k) <==> is_managed(self@, k),
    {
        let mut keys: Vec<String> = Vec::new();
        let ghost fk = feature_keys(self@.features);
        let ghost pk = permission_keys(self@.permissions);
        let mut i: usize = 0;
        while i < self.features.len()
            invariant
                i <= self.features@.len(),
                fk == feature_keys(self@.features),
                ascending(keys.deep_view()),
                forall|k: Seq<char>| #[trigger] keys.deep_view().contains(k) <==> fk.take(i as int).contains(k),
            decreases self.features@.len() - i,
        {
            let ghost before = keys.deep_view();
            insert_key(&mut keys, copy_string(&self.features[i].key));
            proof {
                assert(fk[i as int] == self.features@[i as int].key@);
                assert(fk.take(i + 1) =~= fk.take(i as int).push(fk[i as int]));
                assert forall|k: Seq<char>| keys.deep_view().contains(k) <==> fk.take(i + 1).contains(k) by {
                    lemma_contains_push(fk.take(i as int), fk[i as int], k);
                }
            }
            i = i + 1;
        }
        assert(fk.take(i as int) =~= fk);
        let mut j: usize = 0;
        while j < self.permissions.len()
            invariant
                j <= self.permissions@.len(),
                fk == feature_keys(self@.features),
                pk == permission_keys(self@.permissions),
                ascending(keys.deep_view()),
                forall|k: Seq<char>| #[trigger] keys.deep_view().contains(k) <==> (fk.contains(k) || pk.take(j as int).contains(k)),
            decreases self.permissions@.len() - j,
        {
            let ghost before = keys.deep_view();
            insert_key(&mut keys, copy_string(&self.permissions[j].key));
            proof {
                assert(pk[j as int] == self.permissions@[j as int].key@);
                assert(pk.take(j + 1) =~= pk.take(j as int).push(pk[j as int]));
                assert forall|k: Seq<char>| keys.deep_view().contains(k) <==> (fk.contains(k) || pk.take(j + 1).contains(k)) by {
                    lemma_contains_push(pk.take(j as int), pk[j as int], k);
                    assert(keys.deep_view().contains(k) <==> (before.contains(k) || k == pk[j as int]));
                    assert(before.contains(k) <==> (fk.contains(k) || pk.take(j as int).contains(k)));
                }
            }
            j = j + 1;
        }
        assert(pk.take(j as int) =~= pk);
        insert_key(&mut keys, owned("DefaultFileSystemWriteGuardSetting"));
        insert_key(&mut keys, owned("SafeBrowsingProtectionLevel"));
        insert_key(&mut keys, owned("DnsOverHttpsMode"));
        insert_key(&mut keys, owned("DnsOverHttpsTemplates"));
        keys
    }
}


// ---------------------------------------------------------------------------
// The user layer
// ---------------------------------------------------------------------------

/// Preset key lists as written in catalog files.
pub struct RawPresets {
    pub privacy: Vec<String>,
    pub security: Vec<String>,
}

/// A user's entry for a feature: fields that are present override.
pub struct UserFeature {
    pub key: String,
    pub name: Option<String>,
    pub tooltip: Option<String>,
    pub value: Option<JsonValue>,
    pub windows_value: Option<JsonValue>,
    pub privacy: Option<bool>,
    pub security: Option<bool>,
    pub section: Option<String>,
}

/// The content of a user feature entry.
pub struct UserFeatureV {
    pub key: Seq<char>,
    pub name: Option<Seq<char>>,
    pub tooltip: Option<Seq<char>>,
    pub value: Option<Val>,
    pub windows_value: Option<Val>,
    pub privacy: Option<bool>,
    pub security: Option<bool>,
    pub section: Option<Seq<char>>,
}

impl View for UserFeature {
    type V = UserFeatureV;

    open spec fn view(&self) -> UserFeatureV {
        UserFeatureV {
            key: self.key@,
            name: opt_text(self.name),
            tooltip: opt_text(self.tooltip),
            value: opt_json(self.value),
            windows_value: opt_json(self.windows_value),
            privacy: self.privacy,
            security: self.security,
            section: opt_text(self.section),
        }
    }
}

/// A user's entry for a permission: fields that are present override.
pub struct UserPermission {
    pub key: String,
    pub name: Option<String>,
    pub tooltip: Option<String>,
    pub options: Option<Vec<String>>,
}

/// The content of a user permission entry.
pub struct UserPermissionV {
    pub key: Seq<char>,
    pub name: Option<Seq<char>>,
    pub tooltip: Option<Seq<char>>,
    pub options: Option<Seq<Seq<char>>>,
}

impl View for UserPermission {
    type V = UserPermissionV;

    open spec fn view(&self) -> UserPermissionV {
        UserPermissionV {
            key: self.key@,
            name: opt_text(self.name),
            tooltip: opt_text(self.tooltip),
            options: opt_texts(self.options),
        }
    }
}

/// The user layer of the catalog: entries, keys to remove, preset lists.
pub struct UserCatalog {
    pub features: Vec<UserFeature>,
    pub permissions: Vec<UserPermission>,
    pub remove: Vec<String>,
    pub presets: RawPresets,
}

/// The section a feature falls in when none is given.
pub open spec fn custom_section() -> Seq<char> {
    "custom"@
}

/// The features that no key of `remove` names, in order.
pub open spec fn kept_features(fs: Seq<FeatureV>, remove: Seq<Seq<char>>) -> Seq<FeatureV>
    decreases fs.len(),
{
    if fs.len() == 0 {
        fs
    } else if remove.contains(fs.last().key) {
        kept_features(fs.drop_last(), remove)
    } else {
        kept_features(fs.drop_last(), remove).push(fs.last())
    }
}

/// The permissions that no key of `remove` names, in order.
pub open spec fn kept_permissions(ps: Seq<PermissionV>, remove: Seq<Seq<char>>) -> Seq<
    PermissionV,
>
    decreases ps.len(),
{
    if ps.len() == 0 {
        ps
    } else if remove.contains(ps.last().key) {
        kept_permissions(ps.drop_last(), remove)
    } else {
        kept_permissions(ps.drop_last(), remove).push(ps.last())
    }
}

/// A feature with the fields that the user entry gives replaced.
pub open spec fn override_feature(f: FeatureV, u: UserFeatureV) -> FeatureV {
    FeatureV {
        key: f.key,
        name: match u.name {
            Some(n) => n,
            None => f.name,
        },
        tooltip: match u.tooltip {
            Some(t) => t,
            None => f.tooltip,
        },
        value: match u.value {
            Some(v) => v,
            None => f.value,
        },
        windows_value: match u.windows_value {
            Some(v) => Some(v),
            None => f.windows_value,
        },
        privacy: match u.privacy {
            Some(b) => b,
            None => f.privacy,
        },
        security: match u.security {
            Some(b) => b,
            None => f.security,
        },
        section: match u.section {
            Some(t) => t,
            None => f.section,
        },
    }
}

/// The template of `k`, if templates were fetched and describe it.
pub open spec fn template_for(tpl: Option<RemoteCatalog>, k: Seq<char>) -> Option<RemotePolicyV> {
    match tpl {
        Some(rc) => opt_policy(rc.policies.spec_get(k)),
        None => None,
    }
}

/// The starting value of a policy of a template value kind: `false` for a
/// boolean (or an unknown kind), zero for an integer, the empty text for a
/// text and the empty list for a list.
pub open spec fn kind_default(kind: Seq<char>) -> Val {
    if kind == "Int"@ || kind == "int"@ || kind == "int-enum"@ {
        Val::Int(0)
    } else if kind == "Str"@ || kind == "string"@ || kind == "string-enum"@ {
        Val::Str(Seq::empty())
    } else if kind == "Array"@ || kind == "list"@ || kind == "string-enum-list"@ {
        Val::Array(Seq::empty())
    } else {
        Val::Bool(false)
    }
}

/// The feature a user entry adds, given the template of its key: each field
/// the entry leaves unset comes from the template where it gives one (a
/// non-empty name or description, a value kind), else the name defaults to
/// the key, the description to empty, the value to `false`, the flags to
/// unset and the section to `custom`.
pub open spec fn new_feature(u: UserFeatureV, p: Option<RemotePolicyV>) -> FeatureV {
    FeatureV {
        key: u.key,
        name: match u.name {
            Some(n) => n,
            None => match p {
                Some(p) => if p.name.len() > 0 {
                    p.name
                } else {
                    u.key
                },
                None => u.key,
            },
        },
        tooltip: match u.tooltip {
            Some(t) => t,
            None => match p {
                Some(p) => p.tooltip,
                None => Seq::empty(),
            },
        },
        value: match u.value {
            Some(v) => v,
            None => match p {
                Some(p) => kind_default(p.kind),
                None => Val::Bool(false),
            },
        },
        windows_value: u.windows_value,
        privacy: match u.privacy {
            Some(b) => b,
            None => false,
        },
        security: match u.security {
            Some(b) => b,
            None => false,
        },
        section: match u.section {
            Some(t) => t,
            None => custom_section(),
        },
    }
}

/// One user entry applied: it overrides the first feature with its key, or
/// else is added at the end.
pub open spec fn feature_step(
    fs: Seq<FeatureV>,
    u: UserFeatureV,
    tpl: Option<RemoteCatalog>,
) -> Seq<FeatureV> {
    match first_index(feature_keys(fs), u.key) {
        Some(i) => fs.update(i, override_feature(fs[i], u)),
        None => fs.push(new_feature(u, template_for(tpl, u.key))),
    }
}

/// The user entries applied in order.
pub open spec fn merge_features(
    fs: Seq<FeatureV>,
    us: Seq<UserFeatureV>,
    tpl: Option<RemoteCatalog>,
) -> Seq<FeatureV>
    decreases us.len(),
{
    if us.len() == 0 {
        fs
    } else {
        feature_step(merge_features(fs, us.drop_last(), tpl), us.last(), tpl)
    }
}

/// A permission with the fields that the user entry gives replaced.
pub open spec fn override_permission(p: PermissionV, u: UserPermissionV) -> PermissionV {
    PermissionV {
        key: p.key,
        name: match u.name {
            Some(n) => n,
            None => p.name,
        },
        options: match u.options {
            Some(o) => o,
            None => p.options,
        },
        tooltip: match u.tooltip {
            Some(t) => t,
            None => p.tooltip,
        },
    }
}

/// The permission a user entry adds: the name defaults to the key, the
/// options and the tooltip to empty.
pub open spec fn new_permission(u: UserPermissionV) -> PermissionV {
    PermissionV {
        key: u.key,
        name: match u.name {
            Some(n) => n,
            None => u.key,
        },
        options: match u.options {
            Some(o) => o,
            None => Seq::empty(),
        },
        tooltip: match u.tooltip {
            Some(t) => t,
            None => Seq::empty(),
        },
    }
}

/// One user entry applied to the permissions.
pub open spec fn permission_step(ps: Seq<PermissionV>, u: UserPermissionV) -> Seq<PermissionV> {
    match first_index(permission_keys(ps), u.key) {
        Some(i) => ps.update(i, override_permission(ps[i], u)),
        None => ps.push(new_permission(u)),
    }
}

/// The user permission entries applied in order.
pub open spec fn merge_permissions(ps: Seq<PermissionV>, us: Seq<UserPermissionV>) -> Seq<
    PermissionV,
>
    decreases us.len(),
{
    if us.len() == 0 {
        ps
    } else {
        permission_step(merge_permissions(ps, us.drop_last()), us.last())
    }
}

/// The catalog with the user layer merged in, the features it adds filled
/// from the templates `tpl`.
pub open spec fn merged(c: CatalogV, u: UserCatalog, tpl: Option<RemoteCatalog>) -> CatalogV {
    CatalogV {
        features: merge_features(
            kept_features(c.features, u.remove.deep_view()),
            u.features@.map_values(|f: UserFeature| f@),
            tpl,
        ),
        permissions: merge_permissions(
            kept_permissions(c.permissions, u.remove.deep_view()),
            u.permissions@.map_values(|p: UserPermission| p@),
        ),
        privacy_keys: if u.presets.privacy@.len() == 0 {
            c.privacy_keys
        } else {
            u.presets.privacy.deep_view()
        },
        security_keys: if u.presets.security@.len() == 0 {
            c.security_keys
        } else {
            u.presets.security.deep_view()
        },
    }
}


/// Whether `key` is one of the texts of `list`.
pub fn contains_text(list: &Vec<String>, key: &str) -> (r: bool)
    ensures
        r == list.deep_view().contains(key@),
{
    let mut i: usize = 0;
    while i < list.len()
        invariant
            i <= list@.len(),
            forall|l: int| 0 <= l < i ==> list.deep_view()[l] != key@,
        decreases list@.len() - i,
    {
        if str_eq(list[i].as_str(), key) {
            assert(list.deep_view()[i as int] == key@);
            return true;
        }
        i = i + 1;
    }
    false
}

fn copy_opt_policy(o: &Option<PolicyValue>) -> (r: Option<PolicyValue>)
    ensures
        opt_val(r) == opt_val(*o),
{
    match o {
        Some(v) => Some(v.copy()),
        None => None,
    }
}

impl Feature {
    /// A copy of the feature.
    pub fn copy(&self) -> (r: Feature)
        ensures
            r@ == self@,
    {
        Feature {
            key: copy_string(&self.key),
            name: copy_string(&self.name),
            tooltip: copy_string(&self.tooltip),
            value: self.value.copy(),
            windows_value: copy_opt_policy(&self.windows_value),
            privacy: self.privacy,
            security: self.security,
            section: copy_string(&self.section),
        }
    }

    /// The feature with the fields that `u` gives replaced.
    fn overridden(&self, u: &UserFeature) -> (r: Feature)
        ensures
            r@ == override_feature(self@, u@),
    {
        Feature {
            key: copy_string(&self.key),
            name: match &u.name {
                Some(n) => copy_string(n),
                None => copy_string(&self.name),
            },
            tooltip: match &u.tooltip {
                Some(t) => copy_string(t),
                None => copy_string(&self.tooltip),
            },
            value: match &u.value {
                Some(v) => v.to_policy(),
                None => self.value.copy(),
            },
            windows_value: match &u.windows_value {
                Some(v) => Some(v.to_policy()),
                None => copy_opt_policy(&self.windows_value),
            },
            privacy: match u.privacy {
                Some(b) => b,
                None => self.privacy,
            },
            security: match u.security {
                Some(b) => b,
                None => self.security,
            },
            section: match &u.section {
                Some(t) => copy_string(t),
                None => copy_string(&self.section),
            },
        }
    }

    /// The feature that the user entry `u` adds, filled from the template
    /// `p` of its key where there is one.
    fn created(u: &UserFeature, p: Option<&RemotePolicy>) -> (r: Feature)
        ensures
            r@ == new_feature(
                u@,
                match p {
                    Some(p) => Some(p@),
                    None => None,
                },
            ),
    {
        Feature {
            key: copy_string(&u.key),
            name: match &u.name {
                Some(n) => copy_string(n),
                None => match p {
                    Some(p) => if !p.name.as_str().is_empty() {
                        copy_string(&p.name)
                    } else {
                        copy_string(&u.key)
                    },
                    None => copy_string(&u.key),
                },
            },
            tooltip: match &u.tooltip {
                Some(t) => copy_string(t),
                None => match p {
                    Some(p) => copy_string(&p.tooltip),
                    None => String::new(),
                },
            },
            value: match &u.value {
                Some(v) => v.to_policy(),
                None => match p {
                    Some(p) => kind_default_value(p.kind.as_str()),
                    None => PolicyValue::Bool(false),
                },
            },
            windows_value: match &u.windows_value {
                Some(v) => Some(v.to_policy()),
                None => None,
            },
            privacy: match u.privacy {
                Some(b) => b,
                None => false,
            },
            security: match u.security {
                Some(b) => b,
                None => false,
            },
            section: match &u.section {
                Some(t) => copy_string(t),
                None => owned("custom"),
            },
        }
    }
}

impl Permission {
    /// A copy of the permission.
    pub fn copy(&self) -> (r: Permission)
        ensures
            r@ == self@,
    {
        Permission {
            key: copy_string(&self.key),
            name: copy_string(&self.name),
            options: copy_strings(&self.options),
            tooltip: copy_string(&self.tooltip),
        }
    }

    /// The permission with the fields that `u` gives replaced.
    fn overridden(&self, u: &UserPermission) -> (r: Permission)
        ensures
            r@ == override_permission(self@, u@),
    {
        Permission {
            key: copy_string(&self.key),
            name: match &u.name {
                Some(n) => copy_string(n),
                None => copy_string(&self.name),
            },
            options: match &u.options {
                Some(o) => copy_strings(o),
                None => copy_strings(&self.options),
            },
            tooltip: match &u.tooltip {
                Some(t) => copy_string(t),
                None => copy_string(&self.tooltip),
            },
        }
    }

    /// The permission that the user entry `u` adds.
    fn created(u: &UserPermission) -> (r: Permission)
        ensures
            r@ == new_permission(u@),
    {
        Permission {
            key: copy_string(&u.key),
            name: match &u.name {
                Some(n) => copy_string(n),
                None => copy_string(&u.key),
            },
            options: match &u.options {
                Some(o) => copy_strings(o),
                None => {
                    let v: Vec<String> = Vec::new();
                    assert(v.deep_view() =~= Seq::<Seq<char>>::empty());
                    v
                },
            },
            tooltip: match &u.tooltip {
                Some(t) => copy_string(t),
                None => String::new(),
            },
        }
    }
}


/// The starting value of a policy of the template value kind `kind`.
pub fn kind_default_value(kind: &str) -> (r: PolicyValue)
    ensures
        r@ == kind_default(kind@),
{
    if str_eq(kind, "Int") || str_eq(kind, "int") || str_eq(kind, "int-enum") {
        PolicyValue::Int(0)
    } else if str_eq(kind, "Str") || str_eq(kind, "string") || str_eq(kind, "string-enum") {
        PolicyValue::Str(String::new())
    } else if str_eq(kind, "Array") || str_eq(kind, "list") || str_eq(kind, "string-enum-list") {
        let v: Vec<String> = Vec::new();
        assert(v.deep_view() =~= Seq::<Seq<char>>::empty());
        PolicyValue::Array(v)
    } else {
        PolicyValue::Bool(false)
    }
}

/// The templates, if any, as a value of the specification.
pub open spec fn opt_templates(t: Option<&RemoteCatalog>) -> Option<RemoteCatalog> {
    match t {
        Some(rc) => Some(*rc),
        None => None,
    }
}

impl Catalog {
    /// Merges the user layer: removes the listed keys, applies each user
    /// feature and permission entry in order (overriding the fields it gives
    /// on the entry with its key, or adding a new entry), and takes the
    /// user's preset lists where they are not empty.
    pub fn merge_user(&mut self, user: &UserCatalog)
        ensures
            final(self)@ == merged(old(self)@, *user, None),
    {
        self.merge_user_with(user, None);
    }

    /// Merges the user layer as `merge_user` does, filling the fields that
    /// an added feature leaves unset from the templates where they describe
    /// its key.
    pub fn merge_user_with(&mut self, user: &UserCatalog, templates: Option<&RemoteCatalog>)
        ensures
            final(self)@ == merged(old(self)@, *user, opt_templates(templates)),
    {
        let ghost tpl = opt_templates(templates);
        let ghost c0 = self@;
        let ghost rm = user.remove.deep_view();
        let mut kept: Vec<Feature> = Vec::new();
        let mut i: usize = 0;
        while i < self.features.len()
            invariant
                i <= self.features@.len(),
                self@ == c0,
                rm == user.remove.deep_view(),
                kept@.map_values(|f: Feature| f@) == kept_features(c0.features.take(i as int), rm),
            decreases self.features@.len() - i,
        {
            let ghost before = kept@.map_values(|f: Feature| f@);
            assert(c0.features[i as int] == self.features@[i as int]@);
            if !contains_text(&user.remove, self.features[i].key.as_str()) {
                let f = self.features[i].copy();
                kept.push(f);
                assert(kept@.map_values(|f: Feature| f@) =~= before.push(c0.features[i as int]));
            }
            assert(c0.features.take(i + 1).drop_last() =~= c0.features.take(i as int));
            i = i + 1;
        }
        assert(c0.features.take(i as int) =~= c0.features);
        let mut kept_p: Vec<Permission> = Vec::new();
        let mut i: usize = 0;
        while i < self.permissions.len()
            invariant
                i <= self.permissions@.len(),
                self@ == c0,
                rm == user.remove.deep_view(),
                kept_p@.map_values(|p: Permission| p@) == kept_permissions(
                    c0.permissions.take(i as int),
                    rm,
                ),
            decreases self.permissions@.len() - i,
        {
            let ghost before = kept_p@.map_values(|p: Permission| p@);
            assert(c0.permissions[i as int] == self.permissions@[i as int]@);
            if !contains_text(&user.remove, self.permissions[i].key.as_str()) {
                let p = self.permissions[i].copy();
                kept_p.push(p);
                assert(kept_p@.map_values(|p: Permission| p@) =~= before.push(
                    c0.permissions[i as int],
                ));
            }
            assert(c0.permissions.take(i + 1).drop_last() =~= c0.permissions.take(i as int));
            i = i + 1;
        }
        assert(c0.permissions.take(i as int) =~= c0.permissions);
        self.features = kept;
        self.permissions = kept_p;
        let ghost uf = user.features@.map_values(|f: UserFeature| f@);
        let ghost base = kept_features(c0.features, rm);
        let mut j: usize = 0;
        assert(uf.take(0) =~= Seq::<UserFeatureV>::empty());
        while j < user.features.len()
            invariant
                j <= user.features@.len(),
                uf == user.features@.map_values(|f: UserFeature| f@),
                tpl == opt_templates(templates),
                self@.features == merge_features(base, uf.take(j as int), tpl),
                self@.permissions == kept_permissions(c0.permissions, rm),
                self@.privacy_keys == c0.privacy_keys,
                self@.security_keys == c0.security_keys,
            decreases user.features@.len() - j,
        {
            let u = &user.features[j];
            let ghost before = self@.features;
            assert(uf.take(j + 1).drop_last() =~= uf.take(j as int));
            assert(uf.take(j + 1).last() == u@);
            proof {
                lemma_first_index(feature_keys(before), u.key@);
            }
            match self.feature_index(u.key.as_str()) {
                Some(k) => {
                    let nf = self.features[k].overridden(u);
                    self.features.set(k, nf);
                    assert(self@.features =~= before.update(
                        k as int,
                        override_feature(before[k as int], u@),
                    ));
                },
                None => {
                    let p = match templates {
                        Some(rc) => rc.policies.get(u.key.as_str()),
                        None => None,
                    };
                    assert(match p {
                        Some(p) => Some(p@),
                        None => None,
                    } == template_for(tpl, u@.key));
                    self.features.push(Feature::created(u, p));
                    assert(self@.features =~= before.push(
                        new_feature(u@, template_for(tpl, u@.key)),
                    ));
                },
            }
            j = j + 1;
        }
        assert(uf.take(j as int) =~= uf);
        let ghost up = user.permissions@.map_values(|p: UserPermission| p@);
        let ghost base_p = kept_permissions(c0.permissions, rm);
        let mut j: usize = 0;
        assert(up.take(0) =~= Seq::<UserPermissionV>::empty());
        while j < user.permissions.len()
            invariant
                j <= user.permissions@.len(),
                up == user.permissions@.map_values(|p: UserPermission| p@),
                uf == user.features@.map_values(|f: UserFeature| f@),
                self@.features == merge_features(base, uf, tpl),
                self@.permissions == merge_permissions(base_p, up.take(j as int)),
                self@.privacy_keys == c0.privacy_keys,
                self@.security_keys == c0.security_keys,
            decreases user.permissions@.len() - j,
        {
            let u = &user.permissions[j];
            let ghost before = self@.permissions;
            assert(up.take(j + 1).drop_last() =~= up.take(j as int));
            assert(up.take(j + 1).last() == u@);
            proof {
                lemma_first_index(permission_keys(before), u.key@);
            }
            match self.permission_index(u.key.as_str()) {
                Some(k) => {
                    let np = self.permissions[k].overridden(u);
                    self.permissions.set(k, np);
                    assert(self@.permissions =~= before.update(
                        k as int,
                        override_permission(before[k as int], u@),
                    ));
                },
                None => {
                    self.permissions.push(Permission::created(u));
                    assert(self@.permissions =~= before.push(new_permission(u@)));
                },
            }
            j = j + 1;
        }
        assert(up.take(j as int) =~= up);
        if user.presets.privacy.len() > 0 {
            self.privacy_keys = copy_strings(&user.presets.privacy);
        }
        if user.presets.security.len() > 0 {
            self.security_keys = copy_strings(&user.presets.security);
        }
    }
}


// ---------------------------------------------------------------------------
// Laws of the user layer
// ---------------------------------------------------------------------------

/// A user entry changes the feature keys only by adding its own key.
proof fn lemma_feature_step_keys(fs: Seq<FeatureV>, u: UserFeatureV, tpl: Option<RemoteCatalog>)
    ensures
        feature_keys(feature_step(fs, u, tpl)) == match first_index(feature_keys(fs), u.key) {
            Some(i) => feature_keys(fs),
            None => feature_keys(fs).push(u.key),
        },
{
    lemma_first_index(feature_keys(fs), u.key);
    match first_index(feature_keys(fs), u.key) {
        Some(i) => {
            assert(feature_keys(feature_step(fs, u, tpl)) =~= feature_keys(fs));
        },
        None => {
            assert(feature_keys(feature_step(fs, u, tpl)) =~= feature_keys(fs).push(u.key));
        },
    }
}

/// After the user entries, a key is present exactly when it was present
/// before or some entry names it.
proof fn lemma_merge_features_keys(
    fs: Seq<FeatureV>,
    us: Seq<UserFeatureV>,
    tpl: Option<RemoteCatalog>,
    k: Seq<char>,
)
    ensures
        feature_keys(merge_features(fs, us, tpl)).contains(k) <==> (feature_keys(fs).contains(k)
            || exists|j: int| 0 <= j < us.len() && #[trigger] us[j].key == k),
    decreases us.len(),
{
    if us.len() > 0 {
        let d = us.drop_last();
        let m = merge_features(fs, d, tpl);
        lemma_merge_features_keys(fs, d, tpl, k);
        lemma_feature_step_keys(m, us.last(), tpl);
        lemma_first_index(feature_keys(m), us.last().key);
        match first_index(feature_keys(m), us.last().key) {
            Some(i) => {},
            None => {
                lemma_contains_push(feature_keys(m), us.last().key, k);
            },
        }
        if exists|j: int| 0 <= j < d.len() && #[trigger] d[j].key == k {
            let j = choose|j: int| 0 <= j < d.len() && #[trigger] d[j].key == k;
            assert(us[j] == d[j]);
        }
        if exists|j: int| 0 <= j < us.len() && #[trigger] us[j].key == k {
            let j = choose|j: int| 0 <= j < us.len() && #[trigger] us[j].key == k;
            if j < d.len() {
                assert(d[j] == us[j]);
            }
        }
    }
}

/// The kept features hold no removed key, and every kept key was there.
proof fn lemma_kept_features_keys(fs: Seq<FeatureV>, remove: Seq<Seq<char>>, k: Seq<char>)
    ensures
        feature_keys(kept_features(fs, remove)).contains(k) <==> (feature_keys(fs).contains(k)
            && !remove.contains(k)),
    decreases fs.len(),
{
    if fs.len() > 0 {
        let d = fs.drop_last();
        lemma_kept_features_keys(d, remove, k);
        assert(feature_keys(d) =~= feature_keys(fs).drop_last());
        assert(feature_keys(fs) =~= feature_keys(d).push(fs.last().key));
        lemma_contains_push(feature_keys(d), fs.last().key, k);
        if !remove.contains(fs.last().key) {
            let kd = kept_features(d, remove);
            assert(feature_keys(kd.push(fs.last())) =~= feature_keys(kd).push(fs.last().key));
            lemma_contains_push(feature_keys(kd), fs.last().key, k);
        }
    }
}

/// Merging the user layer keeps a feature key exactly when the catalog had
/// it and the user did not remove it, or a user entry names it: removed keys
/// are gone unless re-added, and every user entry is present.
pub proof fn law_merge_feature_keys(c: CatalogV, u: UserCatalog, tpl: Option<RemoteCatalog>, k: Seq<char>)
    ensures
        feature_keys(merged(c, u, tpl).features).contains(k) <==> ((feature_keys(c.features).contains(
            k,
        ) && !u.remove.deep_view().contains(k)) || exists|j: int|
            0 <= j < u.features@.len() && #[trigger] u.features@[j].key@ == k),
{
    let us = u.features@.map_values(|f: UserFeature| f@);
    let kept = kept_features(c.features, u.remove.deep_view());
    lemma_kept_features_keys(c.features, u.remove.deep_view(), k);
    lemma_merge_features_keys(kept, us, tpl, k);
    if exists|j: int| 0 <= j < us.len() && #[trigger] us[j].key == k {
        let j = choose|j: int| 0 <= j < us.len() && #[trigger] us[j].key == k;
        assert(u.features@[j].key@ == k);
    }
    if exists|j: int| 0 <= j < u.features@.len() && #[trigger] u.features@[j].key@ == k {
        let j = choose|j: int| 0 <= j < u.features@.len() && #[trigger] u.features@[j].key@ == k;
        assert(us[j].key == k);
    }
}

/// Merging the user layer never makes a feature key occur twice.
pub proof fn law_merge_keeps_feature_keys_distinct(c: CatalogV, u: UserCatalog, tpl: Option<RemoteCatalog>)
    requires
        forall|i: int, j: int|
            0 <= i < j < c.features.len() ==> feature_keys(c.features)[i] != feature_keys(
                c.features,
            )[j],
    ensures
        forall|i: int, j: int|
            0 <= i < j < merged(c, u, tpl).features.len() ==> feature_keys(merged(c, u, tpl).features)[i]
                != feature_keys(merged(c, u, tpl).features)[j],
{
    let us = u.features@.map_values(|f: UserFeature| f@);
    let kept = kept_features(c.features, u.remove.deep_view());
    lemma_kept_distinct(c.features, u.remove.deep_view());
    lemma_merge_distinct(kept, us, tpl);
}

/// The first feature with key `k`, if any.
pub open spec fn feature_named(fs: Seq<FeatureV>, k: Seq<char>) -> Option<FeatureV> {
    match first_index(feature_keys(fs), k) {
        Some(i) => Some(fs[i]),
        None => None,
    }
}

/// Whether the feature holds every field that the user entry gives.
pub open spec fn holds_given_fields(f: FeatureV, u: UserFeatureV) -> bool {
    &&& u.name matches Some(n) ==> f.name == n
    &&& u.tooltip matches Some(t) ==> f.tooltip == t
    &&& u.value matches Some(v) ==> f.value == v
    &&& u.windows_value matches Some(v) ==> f.windows_value == Some(v)
    &&& u.privacy matches Some(b) ==> f.privacy == b
    &&& u.security matches Some(b) ==> f.security == b
    &&& u.section matches Some(t) ==> f.section == t
}

/// The last user entry of a key decides every field it gives.
proof fn lemma_last_entry_wins(
    fs: Seq<FeatureV>,
    us: Seq<UserFeatureV>,
    tpl: Option<RemoteCatalog>,
    j: int,
)
    requires
        0 <= j < us.len(),
        forall|l: int| j < l < us.len() ==> #[trigger] us[l].key != us[j].key,
    ensures
        feature_named(merge_features(fs, us, tpl), us[j].key) matches Some(f) && holds_given_fields(
            f,
            us[j],
        ),
    decreases us.len(),
{
    let d = us.drop_last();
    let m = merge_features(fs, d, tpl);
    let u = us.last();
    let k = us[j].key;
    let r = merge_features(fs, us, tpl);
    assert(r == feature_step(m, u, tpl));
    lemma_feature_step_keys(m, u, tpl);
    lemma_first_index(feature_keys(m), u.key);
    if j == us.len() - 1 {
        match first_index(feature_keys(m), u.key) {
            Some(i) => {
                assert(feature_keys(r) == feature_keys(m));
            },
            None => {
                assert(feature_keys(r) == feature_keys(m).push(k));
                assert(feature_keys(r).drop_last() =~= feature_keys(m));
                assert(first_index(feature_keys(r), k) == Some(m.len() as int));
            },
        }
    } else {
        assert forall|l: int| j < l < d.len() implies #[trigger] d[l].key != d[j].key by {
            assert(d[l] == us[l]);
        }
        assert(d[j] == us[j]);
        lemma_last_entry_wins(fs, d, tpl, j);
        assert(u.key != k);
        lemma_first_index(feature_keys(m), k);
        let i0 = first_index(feature_keys(m), k).unwrap();
        match first_index(feature_keys(m), u.key) {
            Some(i) => {
                assert(feature_keys(r) == feature_keys(m));
                assert(i != i0);
            },
            None => {
                assert(feature_keys(r) == feature_keys(m).push(u.key));
                assert(feature_keys(r).drop_last() =~= feature_keys(m));
                assert(first_index(feature_keys(r), k) == Some(i0));
            },
        }
    }
}

/// The user layer overrides field by field: the merged catalog's feature
/// with the key of a user entry, when no later entry names that key, holds
/// each field that the entry gives.
pub proof fn law_merge_user_fields_win(c: CatalogV, u: UserCatalog, tpl: Option<RemoteCatalog>, j: int)
    requires
        0 <= j < u.features@.len(),
        forall|l: int|
            j < l < u.features@.len() ==> #[trigger] u.features@[l].key@ != u.features@[j].key@,
    ensures
        feature_named(merged(c, u, tpl).features, u.features@[j].key@) matches Some(f)
            && holds_given_fields(f, u.features@[j]@),
{
    let us = u.features@.map_values(|f: UserFeature| f@);
    let kept = kept_features(c.features, u.remove.deep_view());
    assert forall|l: int| j < l < us.len() implies #[trigger] us[l].key != us[j].key by {
        assert(us[l] == u.features@[l]@);
    }
    lemma_last_entry_wins(kept, us, tpl, j);
    assert(us[j] == u.features@[j]@);
}

/// The first permission with key `k`, if any.
pub open spec fn permission_named(ps: Seq<PermissionV>, k: Seq<char>) -> Option<PermissionV> {
    match first_index(permission_keys(ps), k) {
        Some(i) => Some(ps[i]),
        None => None,
    }
}

/// Whether the permission holds every field that the user entry gives.
pub open spec fn holds_given_permission_fields(p: PermissionV, u: UserPermissionV) -> bool {
    &&& u.name matches Some(n) ==> p.name == n
    &&& u.tooltip matches Some(t) ==> p.tooltip == t
    &&& u.options matches Some(o) ==> p.options == o
}

/// The last user permission entry of a key decides every field it gives.
proof fn lemma_last_permission_entry_wins(ps: Seq<PermissionV>, us: Seq<UserPermissionV>, j: int)
    requires
        0 <= j < us.len(),
        forall|l: int| j < l < us.len() ==> #[trigger] us[l].key != us[j].key,
    ensures
        permission_named(merge_permissions(ps, us), us[j].key) matches Some(p)
            && holds_given_permission_fields(p, us[j]),
    decreases us.len(),
{
    let d = us.drop_last();
    let m = merge_permissions(ps, d);
    let u = us.last();
    let k = us[j].key;
    let r = merge_permissions(ps, us);
    assert(r == permission_step(m, u));
    lemma_first_index(permission_keys(m), u.key);
    match first_index(permission_keys(m), u.key) {
        Some(i) => {
            assert(permission_keys(r) =~= permission_keys(m));
        },
        None => {
            assert(permission_keys(r) =~= permission_keys(m).push(u.key));
            assert(permission_keys(r).drop_last() =~= permission_keys(m));
        },
    }
    if j == us.len() - 1 {
        match first_index(permission_keys(m), u.key) {
            Some(i) => {},
            None => {
                assert(first_index(permission_keys(r), k) == Some(m.len() as int));
            },
        }
    } else {
        assert forall|l: int| j < l < d.len() implies #[trigger] d[l].key != d[j].key by {
            assert(d[l] == us[l]);
        }
        assert(d[j] == us[j]);
        lemma_last_permission_entry_wins(ps, d, j);
        lemma_first_index(permission_keys(m), k);
        let i0 = first_index(permission_keys(m), k).unwrap();
        match first_index(permission_keys(m), u.key) {
            Some(i) => {
                assert(i != i0);
            },
            None => {
                assert(first_index(permission_keys(r), k) == Some(i0));
            },
        }
    }
}

/// The user layer overrides permissions field by field: the merged
/// catalog's permission with the key of a user entry, when no later entry
/// names that key, holds each field that the entry gives.
pub proof fn law_merge_user_permission_fields_win(
    c: CatalogV,
    u: UserCatalog,
    tpl: Option<RemoteCatalog>,
    j: int,
)
    requires
        0 <= j < u.permissions@.len(),
        forall|l: int|
            j < l < u.permissions@.len() ==> #[trigger] u.permissions@[l].key@
                != u.permissions@[j].key@,
    ensures
        permission_named(merged(c, u, tpl).permissions, u.permissions@[j].key@) matches Some(p)
            && holds_given_permission_fields(p, u.permissions@[j]@),
{
    let us = u.permissions@.map_values(|p: UserPermission| p@);
    let kept = kept_permissions(c.permissions, u.remove.deep_view());
    assert forall|l: int| j < l < us.len() implies #[trigger] us[l].key != us[j].key by {
        assert(us[l] == u.permissions@[l]@);
    }
    lemma_last_permission_entry_wins(kept, us, j);
    assert(us[j] == u.permissions@[j]@);
}

proof fn lemma_kept_distinct(fs: Seq<FeatureV>, remove: Seq<Seq<char>>)
    requires
        forall|i: int, j: int|
            0 <= i < j < fs.len() ==> feature_keys(fs)[i] != feature_keys(fs)[j],
    ensures
        forall|i: int, j: int|
            0 <= i < j < kept_features(fs, remove).len() ==> feature_keys(
                kept_features(fs, remove),
            )[i] != feature_keys(kept_features(fs, remove))[j],
    decreases fs.len(),
{
    if fs.len() > 0 {
        let d = fs.drop_last();
        assert forall|i: int, j: int| 0 <= i < j < d.len() implies feature_keys(d)[i]
            != feature_keys(d)[j] by {
            assert(feature_keys(d)[i] == feature_keys(fs)[i]);
            assert(feature_keys(d)[j] == feature_keys(fs)[j]);
        }
        lemma_kept_distinct(d, remove);
        if remove.contains(fs.last().key) {
            assert(kept_features(fs, remove) == kept_features(d, remove));
        } else {
            let kd = kept_features(d, remove);
            let kf = kd.push(fs.last());
            assert(kept_features(fs, remove) == kf);
            assert forall|i: int, j: int| 0 <= i < j < kf.len() implies feature_keys(kf)[i]
                != feature_keys(kf)[j] by {
                if j == kf.len() - 1 {
                    lemma_kept_features_keys(d, remove, fs.last().key);
                    assert(feature_keys(kd)[i] == feature_keys(kf)[i]);
                    if feature_keys(kf)[i] == feature_keys(kf)[j] {
                        assert(feature_keys(kd).contains(fs.last().key));
                        assert(feature_keys(d).contains(fs.last().key));
                        let l = choose|l: int| 0 <= l < feature_keys(d).len() && feature_keys(d)[l]
                            == fs.last().key;
                        assert(feature_keys(fs)[l] == feature_keys(fs)[fs.len() - 1]);
                    }
                } else {
                    assert(feature_keys(kd)[i] == feature_keys(kf)[i]);
                    assert(feature_keys(kd)[j] == feature_keys(kf)[j]);
                }
            }
        }
    }
}

proof fn lemma_merge_distinct(fs: Seq<FeatureV>, us: Seq<UserFeatureV>, tpl: Option<RemoteCatalog>)
    requires
        forall|i: int, j: int|
            0 <= i < j < fs.len() ==> feature_keys(fs)[i] != feature_keys(fs)[j],
    ensures
        forall|i: int, j: int|
            0 <= i < j < merge_features(fs, us, tpl).len() ==> feature_keys(merge_features(fs, us, tpl))[i]
                != feature_keys(merge_features(fs, us, tpl))[j],
    decreases us.len(),
{
    if us.len() > 0 {
        let d = us.drop_last();
        lemma_merge_distinct(fs, d, tpl);
        let m = merge_features(fs, d, tpl);
        let u = us.last();
        lemma_feature_step_keys(m, u, tpl);
        lemma_first_index(feature_keys(m), u.key);
        let r = feature_step(m, u, tpl);
        assert forall|i: int, j: int| 0 <= i < j < r.len() implies feature_keys(r)[i]
            != feature_keys(r)[j] by {
            match first_index(feature_keys(m), u.key) {
                Some(x) => {
                    assert(feature_keys(r)[i] == feature_keys(m)[i]);
                    assert(feature_keys(r)[j] == feature_keys(m)[j]);
                },
                None => {
                    if j == m.len() {
                        assert(feature_keys(r)[i] == feature_keys(m)[i]);
                    } else {
                        assert(feature_keys(r)[i] == feature_keys(m)[i]);
                        assert(feature_keys(r)[j] == feature_keys(m)[j]);
                    }
                },
            }
        }
    }
}


// ---------------------------------------------------------------------------
// Fetched template metadata
// ---------------------------------------------------------------------------

/// What the official templates say of a policy: its name, description and
/// value kind.
pub struct RemotePolicy {
    pub name: String,
    pub tooltip: String,
    pub kind: String,
}

/// The content of a template policy.
pub struct RemotePolicyV {
    pub name: Seq<char>,
    pub tooltip: Seq<char>,
    pub kind: Seq<char>,
}

impl View for RemotePolicy {
    type V = RemotePolicyV;

    open spec fn view(&self) -> RemotePolicyV {
        RemotePolicyV { name: self.name@, tooltip: self.tooltip@, kind: self.kind@ }
    }
}

impl RemotePolicy {
    /// A copy of the policy.
    pub fn copy(&self) -> (r: RemotePolicy)
        ensures
            r@ == self@,
    {
        RemotePolicy {
            name: copy_string(&self.name),
            tooltip: copy_string(&self.tooltip),
            kind: copy_string(&self.kind),
        }
    }
}

/// Template metadata fetched for a browser: where it came from and the
/// policies by key.
pub struct RemoteCatalog {
    pub version: String,
    pub source: String,
    pub policies: KeyMap<RemotePolicy>,
}

/// The content of an optional template policy.
pub open spec fn opt_policy(o: Option<RemotePolicy>) -> Option<RemotePolicyV> {
    match o {
        Some(p) => Some(p@),
        None => None,
    }
}

impl Catalog {
    /// The feature keys, in catalog order.
    pub fn feature_key_list(&self) -> (r: Vec<String>)
        ensures
            r.deep_view() == feature_keys(self@.features),
    {
        let mut out: Vec<String> = Vec::new();
        let mut i: usize = 0;
        while i < self.features.len()
            invariant
                i <= self.features@.len(),
                out.deep_view() == feature_keys(self@.features).take(i as int),
            decreases self.features@.len() - i,
        {
            let ghost before = out.deep_view();
            assert(feature_keys(self@.features)[i as int] == self.features@[i as int].key@);
            out.push(copy_string(&self.features[i].key));
            assert(out.deep_view() =~= before.push(self.features@[i as int].key@));
            assert(feature_keys(self@.features).take(i + 1) =~= feature_keys(self@.features).take(
                i as int,
            ).push(self.features@[i as int].key@));
            i = i + 1;
        }
        assert(feature_keys(self@.features).take(i as int) =~= feature_keys(self@.features));
        out
    }

    /// The name and description of each feature by key (a later feature of a
    /// key replacing an earlier one).
    pub fn feature_texts(&self) -> (r: KeyMap<(String, String)>)
        ensures
            forall|k: Seq<char>| #[trigger] text_pair(r.spec_get(k)) == lookup(feature_text_pairs(self@.features), k),
    {
        let ghost fs = self@.features;
        let mut out: KeyMap<(String, String)> = KeyMap::new();
        let mut i: usize = 0;
        assert(feature_text_pairs(fs.take(0)) =~= Seq::<(Seq<char>, (Seq<char>, Seq<char>))>::empty());
        while i < self.features.len()
            invariant
                i <= self.features@.len(),
                fs == self@.features,
                forall|k: Seq<char>| #[trigger] text_pair(out.spec_get(k)) == lookup(feature_text_pairs(fs.take(i as int)), k),
            decreases self.features@.len() - i,
        {
            let f = &self.features[i];
            assert(fs[i as int] == f@);
            let ghost before = out;
            let ghost e = (f@.key, (f@.name, f@.tooltip));
            assert(feature_text_pairs(fs.take(i + 1)) =~= feature_text_pairs(fs.take(i as int)).push(e));
            out.insert(copy_string(&f.key), (copy_string(&f.name), copy_string(&f.tooltip)));
            assert forall|k: Seq<char>| #[trigger] text_pair(out.spec_get(k)) == lookup(feature_text_pairs(fs.take(i + 1)), k) by {
                assert(feature_text_pairs(fs.take(i as int)).push(e).drop_last() =~= feature_text_pairs(fs.take(i as int)));
                assert(text_pair(before.spec_get(k)) == lookup(feature_text_pairs(fs.take(i as int)), k));
            }
            i = i + 1;
        }
        assert(fs.take(i as int) =~= fs);
        out
    }
}

/// Each feature's key with its name and description, in catalog order.
pub open spec fn feature_text_pairs(fs: Seq<FeatureV>) -> Seq<(Seq<char>, (Seq<char>, Seq<char>))> {
    Seq::new(fs.len(), |i: int| (fs[i].key, (fs[i].name, fs[i].tooltip)))
}

/// The content of an optional pair of texts.
pub open spec fn text_pair(o: Option<(String, String)>) -> Option<(Seq<char>, Seq<char>)> {
    match o {
        Some(p) => Some((p.0@, p.1@)),
        None => None,
    }
}


// ---------------------------------------------------------------------------
// Catalog files
// ---------------------------------------------------------------------------

/// A feature as written in a catalog file.
pub struct RawFeature {
    pub key: String,
    pub name: String,
    pub tooltip: String,
    pub value: Option<JsonValue>,
    pub windows_value: Option<JsonValue>,
    pub privacy: bool,
    pub security: bool,
    pub section: String,
}

/// A permission as written in a catalog file.
pub struct RawPermission {
    pub key: String,
    pub name: String,
    pub tooltip: String,
    pub options: Vec<String>,
}

/// A catalog file.
pub struct RawCatalog {
    pub features: Vec<RawFeature>,
    pub permissions: Vec<RawPermission>,
    pub presets: RawPresets,
}

/// The feature a catalog file entry describes: a missing value is `false`,
/// an empty section is `custom`.
pub open spec fn feature_of_raw(f: RawFeature) -> FeatureV {
    FeatureV {
        key: f.key@,
        name: f.name@,
        tooltip: f.tooltip@,
        value: match f.value {
            Some(v) => v@,
            None => Val::Bool(false),
        },
        windows_value: opt_json(f.windows_value),
        privacy: f.privacy,
        security: f.security,
        section: if f.section@.len() == 0 {
            custom_section()
        } else {
            f.section@
        },
    }
}

/// The catalog a catalog file describes, entries in file order.
pub open spec fn catalog_of_raw(raw: RawCatalog) -> CatalogV {
    CatalogV {
        features: raw.features@.map_values(|f: RawFeature| feature_of_raw(f)),
        permissions: raw.permissions@.map_values(
            |p: RawPermission|
                PermissionV {
                    key: p.key@,
                    name: p.name@,
                    options: p.options.deep_view(),
                    tooltip: p.tooltip@,
                },
        ),
        privacy_keys: raw.presets.privacy.deep_view(),
        security_keys: raw.presets.security.deep_view(),
    }
}

/// A feature with the template's name and description in place of its own,
/// each where the template gives a non-empty one.
pub open spec fn with_template(f: FeatureV, p: Option<RemotePolicyV>) -> FeatureV {
    match p {
        Some(p) => FeatureV {
            key: f.key,
            name: if p.name.len() > 0 {
                p.name
            } else {
                f.name
            },
            tooltip: if p.tooltip.len() > 0 {
                p.tooltip
            } else {
                f.tooltip
            },
            value: f.value,
            windows_value: f.windows_value,
            privacy: f.privacy,
            security: f.security,
            section: f.section,
        },
        None => f,
    }
}

/// The catalog with the fetched template layer merged in: each feature that
/// the templates describe takes their name and description.
pub open spec fn remote_merged(c: CatalogV, rc: RemoteCatalog) -> CatalogV {
    CatalogV {
        features: c.features.map_values(
            |f: FeatureV| with_template(f, opt_policy(rc.policies.spec_get(f.key))),
        ),
        permissions: c.permissions,
        privacy_keys: c.privacy_keys,
        security_keys: c.security_keys,
    }
}

/// The three layers in order: the built-in catalog, the fetched templates
/// over it, and the user layer over both.
pub open spec fn layered(
    base: CatalogV,
    remote: Option<RemoteCatalog>,
    user: Option<UserCatalog>,
) -> CatalogV {
    let with_remote = match remote {
        Some(rc) => remote_merged(base, rc),
        None => base,
    };
    match user {
        Some(u) => merged(with_remote, u, remote),
        None => with_remote,
    }
}

impl Catalog {
    /// Merges the fetched template layer: every feature whose key the
    /// templates describe takes the template's name and description where
    /// they are not empty; nothing else changes.
    pub fn merge_remote(&mut self, remote: &RemoteCatalog)
        ensures
            final(self)@ == remote_merged(old(self)@, *remote),
    {
        let ghost c0 = self@;
        let ghost target = remote_merged(c0, *remote).features;
        let mut i: usize = 0;
        while i < self.features.len()
            invariant
                i <= self.features@.len(),
                self.features@.len() == c0.features.len(),
                target == remote_merged(c0, *remote).features,
                self@.permissions == c0.permissions,
                self@.privacy_keys == c0.privacy_keys,
                self@.security_keys == c0.security_keys,
                forall|j: int| 0 <= j < i ==> #[trigger] self.features@[j]@ == target[j],
                forall|j: int| i <= j < c0.features.len() ==> #[trigger] self.features@[j]@ == c0.features[j],
            decreases self.features@.len() - i,
        {
            assert(self.features@[i as int]@ == c0.features[i as int]);
            match remote.policies.get(self.features[i].key.as_str()) {
                Some(p) => {
                    let mut nf = self.features[i].copy();
                    if !p.name.as_str().is_empty() {
                        nf.name = copy_string(&p.name);
                    }
                    if !p.tooltip.as_str().is_empty() {
                        nf.tooltip = copy_string(&p.tooltip);
                    }
                    self.features.set(i, nf);
                },
                None => {},
            }
            i = i + 1;
        }
        assert(self@.features =~= target);
    }
}

/// The catalog in use: the built-in catalog file, the fetched templates
/// merged over it where there are some, and the user layer merged over
/// both where there is one.
pub fn build_catalog(
    builtin: &RawCatalog,
    remote: Option<&RemoteCatalog>,
    user: Option<&UserCatalog>,
) -> (r: Catalog)
    ensures
        r@ == layered(
            catalog_of_raw(*builtin),
            match remote {
                Some(rc) => Some(*rc),
                None => None,
            },
            match user {
                Some(u) => Some(*u),
                None => None,
            },
        ),
{
    let mut catalog = Catalog::from_raw(builtin);
    match remote {
        Some(rc) => catalog.merge_remote(rc),
        None => {},
    }
    match user {
        Some(u) => catalog.merge_user_with(u, remote),
        None => {},
    }
    catalog
}

/// Adding a feature at the end changes the first feature of a key only
/// where there was none.
proof fn lemma_named_push(fs: Seq<FeatureV>, f: FeatureV, k: Seq<char>)
    ensures
        feature_named(fs.push(f), k) == match feature_named(fs, k) {
            Some(x) => Some(x),
            None => if f.key == k {
                Some(f)
            } else {
                None
            },
        },
{
    let t = fs.push(f);
    assert(feature_keys(t).drop_last() =~= feature_keys(fs));
    assert(feature_keys(t).last() == f.key);
    lemma_first_index(feature_keys(fs), k);
    match first_index(feature_keys(fs), k) {
        Some(i) => {
            assert(t[i] == fs[i]);
        },
        None => {},
    }
}

/// Leaving out features of other keys keeps the first feature of `k`.
proof fn lemma_kept_named(fs: Seq<FeatureV>, remove: Seq<Seq<char>>, k: Seq<char>)
    requires
        !remove.contains(k),
    ensures
        feature_named(kept_features(fs, remove), k) == feature_named(fs, k),
    decreases fs.len(),
{
    if fs.len() > 0 {
        let d = fs.drop_last();
        let x = fs.last();
        assert(fs =~= d.push(x));
        lemma_kept_named(d, remove, k);
        lemma_named_push(d, x, k);
        if !remove.contains(x.key) {
            lemma_named_push(kept_features(d, remove), x, k);
        }
    }
}

/// User entries of other keys leave the first feature of `k` as it was.
proof fn lemma_merge_untouched(
    fs: Seq<FeatureV>,
    us: Seq<UserFeatureV>,
    tpl: Option<RemoteCatalog>,
    k: Seq<char>,
)
    requires
        forall|j: int| 0 <= j < us.len() ==> #[trigger] us[j].key != k,
    ensures
        feature_named(merge_features(fs, us, tpl), k) == feature_named(fs, k),
    decreases us.len(),
{
    if us.len() > 0 {
        let d = us.drop_last();
        let u = us.last();
        assert forall|j: int| 0 <= j < d.len() implies #[trigger] d[j].key != k by {
            assert(d[j] == us[j]);
        }
        lemma_merge_untouched(fs, d, tpl, k);
        let m = merge_features(fs, d, tpl);
        assert(u.key != k);
        lemma_first_index(feature_keys(m), u.key);
        match first_index(feature_keys(m), u.key) {
            Some(i) => {
                let r = m.update(i, override_feature(m[i], u));
                assert(feature_keys(r) =~= feature_keys(m));
                lemma_first_index(feature_keys(m), k);
                match first_index(feature_keys(m), k) {
                    Some(i0) => {
                        assert(i0 != i);
                        assert(r[i0] == m[i0]);
                    },
                    None => {},
                }
            },
            None => {
                lemma_named_push(m, new_feature(u, template_for(tpl, u.key)), k);
            },
        }
    }
}

/// Merging the template layer keeps the keys in place, so the first
/// feature of a key is the first one before, with the template applied.
proof fn lemma_remote_named(c: CatalogV, rc: RemoteCatalog, k: Seq<char>)
    ensures
        feature_named(remote_merged(c, rc).features, k) == match feature_named(c.features, k) {
            Some(f) => Some(with_template(f, opt_policy(rc.policies.spec_get(k)))),
            None => None,
        },
{
    let r = remote_merged(c, rc).features;
    assert(feature_keys(r) =~= feature_keys(c.features));
    lemma_first_index(feature_keys(c.features), k);
}

/// The templates sit under the user layer and over the built-in catalog: a
/// built-in feature that the user layer neither removes nor names keeps its
/// built-in fields, except its name and description, which the templates
/// replace where they give non-empty ones.
pub proof fn law_templates_under_user(
    base: CatalogV,
    rc: RemoteCatalog,
    u: UserCatalog,
    k: Seq<char>,
)
    requires
        !u.remove.deep_view().contains(k),
        forall|j: int| 0 <= j < u.features@.len() ==> #[trigger] u.features@[j].key@ != k,
    ensures
        feature_named(layered(base, Some(rc), Some(u)).features, k) == match feature_named(
            base.features,
            k,
        ) {
            Some(f) => Some(with_template(f, opt_policy(rc.policies.spec_get(k)))),
            None => None,
        },
        feature_named(base.features, k) matches Some(b) ==> (feature_named(
            layered(base, Some(rc), Some(u)).features,
            k,
        ) matches Some(f) && {
            let p = rc.policies.spec_get(k);
            &&& f.key == b.key
            &&& f.name == match p {
                Some(p) => if p.name@.len() > 0 {
                    p.name@
                } else {
                    b.name
                },
                None => b.name,
            }
            &&& f.tooltip == match p {
                Some(p) => if p.tooltip@.len() > 0 {
                    p.tooltip@
                } else {
                    b.tooltip
                },
                None => b.tooltip,
            }
            &&& f.value == b.value
            &&& f.windows_value == b.windows_value
            &&& f.privacy == b.privacy
            &&& f.security == b.security
            &&& f.section == b.section
        }),
{
    let c = remote_merged(base, rc);
    let tpl = Some(rc);
    let us = u.features@.map_values(|f: UserFeature| f@);
    let kept = kept_features(c.features, u.remove.deep_view());
    assert forall|j: int| 0 <= j < us.len() implies #[trigger] us[j].key != k by {
        assert(us[j] == u.features@[j]@);
    }
    lemma_merge_untouched(kept, us, tpl, k);
    lemma_kept_named(c.features, u.remove.deep_view(), k);
    lemma_remote_named(base, rc, k);
}

/// The user layer sits over the templates: the feature with the key of a
/// user entry, when no later entry names that key, holds each field that
/// the entry gives, whatever the templates say.
pub proof fn law_user_over_templates(base: CatalogV, rc: RemoteCatalog, u: UserCatalog, j: int)
    requires
        0 <= j < u.features@.len(),
        forall|l: int|
            j < l < u.features@.len() ==> #[trigger] u.features@[l].key@ != u.features@[j].key@,
    ensures
        feature_named(layered(base, Some(rc), Some(u)).features, u.features@[j].key@) matches Some(
            f,
        ) && holds_given_fields(f, u.features@[j]@),
{
    law_merge_user_fields_win(remote_merged(base, rc), u, Some(rc), j);
}

/// Merging the entries `a` and then `b` is merging `a + b`.
proof fn lemma_merge_split(
    fs: Seq<FeatureV>,
    a: Seq<UserFeatureV>,
    b: Seq<UserFeatureV>,
    tpl: Option<RemoteCatalog>,
)
    ensures
        merge_features(fs, a + b, tpl) == merge_features(merge_features(fs, a, tpl), b, tpl),
    decreases b.len(),
{
    if b.len() == 0 {
        assert(a + b =~= a);
    } else {
        lemma_merge_split(fs, a, b.drop_last(), tpl);
        assert((a + b).drop_last() =~= a + b.drop_last());
        assert((a + b).last() == b.last());
    }
}

/// A policy that only the user layer adds, named by one entry, takes from
/// the templates of its key each field that the entry leaves unset: the
/// template's name and description where they are not empty, and a
/// starting value of the template's value kind.
pub proof fn law_added_policy_takes_templates(
    base: CatalogV,
    rc: RemoteCatalog,
    u: UserCatalog,
    j: int,
)
    requires
        0 <= j < u.features@.len(),
        !feature_keys(base.features).contains(u.features@[j].key@),
        forall|l: int|
            0 <= l < u.features@.len() && l != j ==> #[trigger] u.features@[l].key@
                != u.features@[j].key@,
    ensures
        feature_named(layered(base, Some(rc), Some(u)).features, u.features@[j].key@) == Some(
            new_feature(u.features@[j]@, opt_policy(rc.policies.spec_get(u.features@[j].key@))),
        ),
        ({
            let e = u.features@[j];
            let p = rc.policies.spec_get(e.key@);
            feature_named(layered(base, Some(rc), Some(u)).features, e.key@) matches Some(f) && {
                &&& f.key == e.key@
                &&& f.name == match e.name {
                    Some(n) => n@,
                    None => match p {
                        Some(p) => if p.name@.len() > 0 {
                            p.name@
                        } else {
                            e.key@
                        },
                        None => e.key@,
                    },
                }
                &&& f.tooltip == match e.tooltip {
                    Some(t) => t@,
                    None => match p {
                        Some(p) => p.tooltip@,
                        None => Seq::empty(),
                    },
                }
                &&& f.value == match e.value {
                    Some(v) => v@,
                    None => match p {
                        Some(p) => kind_default(p.kind@),
                        None => Val::Bool(false),
                    },
                }
                &&& f.windows_value == match e.windows_value {
                    Some(v) => Some(v@),
                    None => None,
                }
                &&& f.privacy == (e.privacy == Some(true))
                &&& f.security == (e.security == Some(true))
                &&& f.section == match e.section {
                    Some(t) => t@,
                    None => "custom"@,
                }
            }
        }),
{
    let k = u.features@[j].key@;
    let tpl = Some(rc);
    let c = remote_merged(base, rc);
    let rm = u.remove.deep_view();
    let kept = kept_features(c.features, rm);
    let us = u.features@.map_values(|f: UserFeature| f@);
    assert(feature_keys(c.features) =~= feature_keys(base.features));
    lemma_kept_features_keys(c.features, rm, k);
    let a = us.take(j);
    let b = us.skip(j + 1);
    assert forall|l: int| 0 <= l < a.len() implies #[trigger] a[l].key != k by {
        assert(a[l] == u.features@[l]@);
    }
    lemma_merge_features_keys(kept, a, tpl, k);
    let m = merge_features(kept, a, tpl);
    lemma_first_index(feature_keys(m), k);
    assert(us[j] == u.features@[j]@);
    assert(us.take(j + 1).drop_last() =~= a);
    assert(us.take(j + 1).last() == us[j]);
    let m2 = merge_features(kept, us.take(j + 1), tpl);
    assert(m2 == feature_step(m, us[j], tpl));
    lemma_named_push(m, new_feature(us[j], template_for(tpl, k)), k);
    assert forall|l: int| 0 <= l < b.len() implies #[trigger] b[l].key != k by {
        assert(b[l] == u.features@[j + 1 + l]@);
    }
    lemma_merge_untouched(m2, b, tpl, k);
    lemma_merge_split(kept, us.take(j + 1), b, tpl);
    assert(us.take(j + 1) + b =~= us);
}

/// The user layer overrides field by field: a built-in feature that the
/// user does not remove and that exactly one user entry names keeps every
/// field that the entry leaves unset, and takes every field that it sets.
pub proof fn law_user_entry_keeps_unset_fields(
    c: CatalogV,
    u: UserCatalog,
    tpl: Option<RemoteCatalog>,
    j: int,
)
    requires
        0 <= j < u.features@.len(),
        !u.remove.deep_view().contains(u.features@[j].key@),
        feature_named(c.features, u.features@[j].key@) is Some,
        forall|l: int|
            0 <= l < u.features@.len() && l != j ==> #[trigger] u.features@[l].key@
                != u.features@[j].key@,
    ensures
        ({
            let e = u.features@[j];
            let b = feature_named(c.features, e.key@).unwrap();
            feature_named(merged(c, u, tpl).features, e.key@) == Some(
                FeatureV {
                    key: b.key,
                    name: match e.name {
                        Some(n) => n@,
                        None => b.name,
                    },
                    tooltip: match e.tooltip {
                        Some(t) => t@,
                        None => b.tooltip,
                    },
                    value: match e.value {
                        Some(v) => v@,
                        None => b.value,
                    },
                    windows_value: match e.windows_value {
                        Some(v) => Some(v@),
                        None => b.windows_value,
                    },
                    privacy: match e.privacy {
                        Some(x) => x,
                        None => b.privacy,
                    },
                    security: match e.security {
                        Some(x) => x,
                        None => b.security,
                    },
                    section: match e.section {
                        Some(t) => t@,
                        None => b.section,
                    },
                },
            )
        }),
{
    let k = u.features@[j].key@;
    let rm = u.remove.deep_view();
    let kept = kept_features(c.features, rm);
    let us = u.features@.map_values(|f: UserFeature| f@);
    lemma_kept_named(c.features, rm, k);
    let a = us.take(j);
    let b = us.skip(j + 1);
    assert forall|l: int| 0 <= l < a.len() implies #[trigger] a[l].key != k by {
        assert(a[l] == u.features@[l]@);
    }
    lemma_merge_untouched(kept, a, tpl, k);
    let m = merge_features(kept, a, tpl);
    let e = us[j];
    assert(e == u.features@[j]@);
    lemma_first_index(feature_keys(m), k);
    let i = first_index(feature_keys(m), k).unwrap();
    assert(us.take(j + 1).drop_last() =~= a);
    assert(us.take(j + 1).last() == e);
    let m2 = merge_features(kept, us.take(j + 1), tpl);
    assert(m2 == feature_step(m, e, tpl));
    assert(m2 == m.update(i, override_feature(m[i], e)));
    assert(feature_keys(m2) =~= feature_keys(m));
    assert(feature_named(m2, k) == Some(override_feature(m[i], e)));
    assert forall|l: int| 0 <= l < b.len() implies #[trigger] b[l].key != k by {
        assert(b[l] == u.features@[j + 1 + l]@);
    }
    lemma_merge_untouched(m2, b, tpl, k);
    lemma_merge_split(kept, us.take(j + 1), b, tpl);
    assert(us.take(j + 1) + b =~= us);
}

/// Adding a permission at the end changes the first permission of a key
/// only where there was none.
proof fn lemma_permission_named_push(ps: Seq<PermissionV>, p: PermissionV, k: Seq<char>)
    ensures
        permission_named(ps.push(p), k) == match permission_named(ps, k) {
            Some(x) => Some(x),
            None => if p.key == k {
                Some(p)
            } else {
                None
            },
        },
{
    let t = ps.push(p);
    assert(permission_keys(t).drop_last() =~= permission_keys(ps));
    assert(permission_keys(t).last() == p.key);
    lemma_first_index(permission_keys(ps), k);
    match first_index(permission_keys(ps), k) {
        Some(i) => {
            assert(t[i] == ps[i]);
        },
        None => {},
    }
}

/// Leaving out permissions of other keys keeps the first permission of `k`.
proof fn lemma_kept_permission_named(ps: Seq<PermissionV>, remove: Seq<Seq<char>>, k: Seq<char>)
    requires
        !remove.contains(k),
    ensures
        permission_named(kept_permissions(ps, remove), k) == permission_named(ps, k),
    decreases ps.len(),
{
    if ps.len() > 0 {
        let d = ps.drop_last();
        let x = ps.last();
        assert(ps =~= d.push(x));
        lemma_kept_permission_named(d, remove, k);
        lemma_permission_named_push(d, x, k);
        if !remove.contains(x.key) {
            lemma_permission_named_push(kept_permissions(d, remove), x, k);
        }
    }
}

/// User permission entries of other keys leave the first permission of `k`
/// as it was.
proof fn lemma_merge_permissions_untouched(
    ps: Seq<PermissionV>,
    us: Seq<UserPermissionV>,
    k: Seq<char>,
)
    requires
        forall|j: int| 0 <= j < us.len() ==> #[trigger] us[j].key != k,
    ensures
        permission_named(merge_permissions(ps, us), k) == permission_named(ps, k),
    decreases us.len(),
{
    if us.len() > 0 {
        let d = us.drop_last();
        let u = us.last();
        assert forall|j: int| 0 <= j < d.len() implies #[trigger] d[j].key != k by {
            assert(d[j] == us[j]);
        }
        lemma_merge_permissions_untouched(ps, d, k);
        let m = merge_permissions(ps, d);
        assert(u.key != k);
        lemma_first_index(permission_keys(m), u.key);
        match first_index(permission_keys(m), u.key) {
            Some(i) => {
                let r = m.update(i, override_permission(m[i], u));
                assert(permission_keys(r) =~= permission_keys(m));
                lemma_first_index(permission_keys(m), k);
                match first_index(permission_keys(m), k) {
                    Some(i0) => {
                        assert(i0 != i);
                        assert(r[i0] == m[i0]);
                    },
                    None => {},
                }
            },
            None => {
                lemma_permission_named_push(m, new_permission(u), k);
            },
        }
    }
}

/// Merging the permission entries `a` and then `b` is merging `a + b`.
proof fn lemma_merge_permissions_split(
    ps: Seq<PermissionV>,
    a: Seq<UserPermissionV>,
    b: Seq<UserPermissionV>,
)
    ensures
        merge_permissions(ps, a + b) == merge_permissions(merge_permissions(ps, a), b),
    decreases b.len(),
{
    if b.len() == 0 {
        assert(a + b =~= a);
    } else {
        lemma_merge_permissions_split(ps, a, b.drop_last());
        assert((a + b).drop_last() =~= a + b.drop_last());
        assert((a + b).last() == b.last());
    }
}

/// The user layer overrides permissions field by field: a permission that
/// the user does not remove and that exactly one user entry names keeps
/// every field that the entry leaves unset, and takes every field that it
/// sets.
pub proof fn law_user_permission_entry_keeps_unset_fields(
    c: CatalogV,
    u: UserCatalog,
    tpl: Option<RemoteCatalog>,
    j: int,
)
    requires
        0 <= j < u.permissions@.len(),
        !u.remove.deep_view().contains(u.permissions@[j].key@),
        permission_named(c.permissions, u.permissions@[j].key@) is Some,
        forall|l: int|
            0 <= l < u.permissions@.len() && l != j ==> #[trigger] u.permissions@[l].key@
                != u.permissions@[j].key@,
    ensures
        ({
            let e = u.permissions@[j];
            let b = permission_named(c.permissions, e.key@).unwrap();
            permission_named(merged(c, u, tpl).permissions, e.key@) == Some(
                PermissionV {
                    key: b.key,
                    name: match e.name {
                        Some(n) => n@,
                        None => b.name,
                    },
                    options: match e.options {
                        Some(o) => o.deep_view(),
                        None => b.options,
                    },
                    tooltip: match e.tooltip {
                        Some(t) => t@,
                        None => b.tooltip,
                    },
                },
            )
        }),
{
    let k = u.permissions@[j].key@;
    let rm = u.remove.deep_view();
    let kept = kept_permissions(c.permissions, rm);
    let us = u.permissions@.map_values(|p: UserPermission| p@);
    lemma_kept_permission_named(c.permissions, rm, k);
    let a = us.take(j);
    let b = us.skip(j + 1);
    assert forall|l: int| 0 <= l < a.len() implies #[trigger] a[l].key != k by {
        assert(a[l] == u.permissions@[l]@);
    }
    lemma_merge_permissions_untouched(kept, a, k);
    let m = merge_permissions(kept, a);
    let e = us[j];
    assert(e == u.permissions@[j]@);
    lemma_first_index(permission_keys(m), k);
    let i = first_index(permission_keys(m), k).unwrap();
    assert(us.take(j + 1).drop_last() =~= a);
    assert(us.take(j + 1).last() == e);
    let m2 = merge_permissions(kept, us.take(j + 1));
    assert(m2 == permission_step(m, e));
    assert(m2 == m.update(i, override_permission(m[i], e)));
    assert(permission_keys(m2) =~= permission_keys(m));
    assert(permission_named(m2, k) == Some(override_permission(m[i], e)));
    assert forall|l: int| 0 <= l < b.len() implies #[trigger] b[l].key != k by {
        assert(b[l] == u.permissions@[j + 1 + l]@);
    }
    lemma_merge_permissions_untouched(m2, b, k);
    lemma_merge_permissions_split(kept, us.take(j + 1), b);
    assert(us.take(j + 1) + b =~= us);
}

/// A permission that only the user layer adds, named by one entry, takes
/// the name, options and description that the entry gives, else its key
/// as the name, no options and an empty description.
pub proof fn law_added_permission_fields(
    c: CatalogV,
    u: UserCatalog,
    tpl: Option<RemoteCatalog>,
    j: int,
)
    requires
        0 <= j < u.permissions@.len(),
        !u.remove.deep_view().contains(u.permissions@[j].key@),
        permission_named(c.permissions, u.permissions@[j].key@) is None,
        forall|l: int|
            0 <= l < u.permissions@.len() && l != j ==> #[trigger] u.permissions@[l].key@
                != u.permissions@[j].key@,
    ensures
        ({
            let e = u.permissions@[j];
            permission_named(merged(c, u, tpl).permissions, e.key@) == Some(
                PermissionV {
                    key: e.key@,
                    name: match e.name {
                        Some(n) => n@,
                        None => e.key@,
                    },
                    options: match e.options {
                        Some(o) => o.deep_view(),
                        None => Seq::empty(),
                    },
                    tooltip: match e.tooltip {
                        Some(t) => t@,
                        None => Seq::empty(),
                    },
                },
            )
        }),
{
    let k = u.permissions@[j].key@;
    let rm = u.remove.deep_view();
    let kept = kept_permissions(c.permissions, rm);
    let us = u.permissions@.map_values(|p: UserPermission| p@);
    lemma_kept_permission_named(c.permissions, rm, k);
    let a = us.take(j);
    let b = us.skip(j + 1);
    assert forall|l: int| 0 <= l < a.len() implies #[trigger] a[l].key != k by {
        assert(a[l] == u.permissions@[l]@);
    }
    lemma_merge_permissions_untouched(kept, a, k);
    let m = merge_permissions(kept, a);
    let e = us[j];
    assert(e == u.permissions@[j]@);
    lemma_first_index(permission_keys(m), k);
    assert(first_index(permission_keys(m), k) is None);
    assert(us.take(j + 1).drop_last() =~= a);
    assert(us.take(j + 1).last() == e);
    let m2 = merge_permissions(kept, us.take(j + 1));
    assert(m2 == permission_step(m, e));
    assert(m2 == m.push(new_permission(e)));
    lemma_permission_named_push(m, new_permission(e), k);
    assert forall|l: int| 0 <= l < b.len() implies #[trigger] b[l].key != k by {
        assert(b[l] == u.permissions@[j + 1 + l]@);
    }
    lemma_merge_permissions_untouched(m2, b, k);
    lemma_merge_permissions_split(kept, us.take(j + 1), b);
    assert(us.take(j + 1) + b =~= us);
}

impl Catalog {
    /// The catalog a catalog file describes, entries in file order.
    pub fn from_raw(raw: &RawCatalog) -> (r: Catalog)
        ensures
            r@ == catalog_of_raw(*raw),
    {
        let mut features: Vec<Feature> = Vec::new();
        let mut i: usize = 0;
        while i < raw.features.len()
            invariant
                i <= raw.features@.len(),
                features@.map_values(|f: Feature| f@) == raw.features@.take(i as int).map_values(
                    |f: RawFeature| feature_of_raw(f),
                ),
            decreases raw.features@.len() - i,
        {
            let f = &raw.features[i];
            let nf = Feature {
                key: copy_string(&f.key),
                name: copy_string(&f.name),
                tooltip: copy_string(&f.tooltip),
                value: match &f.value {
                    Some(v) => v.to_policy(),
                    None => PolicyValue::Bool(false),
                },
                windows_value: match &f.windows_value {
                    Some(v) => Some(v.to_policy()),
                    None => None,
                },
                privacy: f.privacy,
                security: f.security,
                section: if f.section.as_str().is_empty() {
                    owned("custom")
                } else {
                    copy_string(&f.section)
                },
            };
            assert(nf@ == feature_of_raw(*f));
            let ghost before = features@.map_values(|f: Feature| f@);
            features.push(nf);
            assert(features@.map_values(|f: Feature| f@) =~= before.push(feature_of_raw(*f)));
            assert(raw.features@.take(i + 1).map_values(|f: RawFeature| feature_of_raw(f))
                =~= raw.features@.take(i as int).map_values(|f: RawFeature| feature_of_raw(f)).push(
                feature_of_raw(*f),
            ));
            i = i + 1;
        }
        assert(raw.features@.take(i as int) =~= raw.features@);
        let mut permissions: Vec<Permission> = Vec::new();
        let mut j: usize = 0;
        while j < raw.permissions.len()
            invariant
                j <= raw.permissions@.len(),
                permissions@.map_values(|p: Permission| p@) == raw.permissions@.take(
                    j as int,
                ).map_values(
                    |p: RawPermission|
                        PermissionV {
                            key: p.key@,
                            name: p.name@,
                            options: p.options.deep_view(),
                            tooltip: p.tooltip@,
                        },
                ),
            decreases raw.permissions@.len() - j,
        {
            let p = &raw.permissions[j];
            let np = Permission {
                key: copy_string(&p.key),
                name: copy_string(&p.name),
                options: copy_strings(&p.options),
                tooltip: copy_string(&p.tooltip),
            };
            let ghost pv = PermissionV {
                key: p.key@,
                name: p.name@,
                options: p.options.deep_view(),
                tooltip: p.tooltip@,
            };
            let ghost before = permissions@.map_values(|p: Permission| p@);
            permissions.push(np);
            assert(permissions@.map_values(|p: Permission| p@) =~= before.push(pv));
            assert(raw.permissions@.take(j + 1).map_values(
                |p: RawPermission|
                    PermissionV {
                        key: p.key@,
                        name: p.name@,
                        options: p.options.deep_view(),
                        tooltip: p.tooltip@,
                    },
            ) =~= raw.permissions@.take(j as int).map_values(
                |p: RawPermission|
                    PermissionV {
                        key: p.key@,
                        name: p.name@,
                        options: p.options.deep_view(),
                        tooltip: p.tooltip@,
                    },
            ).push(pv));
            j = j + 1;
        }
        assert(raw.permissions@.take(j as int) =~= raw.permissions@);
        Catalog {
            features,
            permissions,
            privacy_keys: copy_strings(&raw.presets.privacy),
            security_keys: copy_strings(&raw.presets.security),
        }
    }
}

impl UserCatalog {
    /// Whether the user layer changes nothing.
    pub fn is_empty(&self) -> (r: bool)
        ensures
            r == (self.features@.len() == 0 && self.permissions@.len() == 0
                && self.remove@.len() == 0 && self.presets.privacy@.len() == 0
                && self.presets.security@.len() == 0),
    {
        self.features.len() == 0 && self.permissions.len() == 0 && self.remove.len() == 0
            && self.presets.privacy.len() == 0 && self.presets.security.len() == 0
    }

    /// Turns a policy on (its key leaves the remove list) or off (its key
    /// joins the list, once).
    pub fn set_policy_enabled(&mut self, key: &str, enabled: bool)
        ensures
            final(self).features == old(self).features,
            final(self).permissions == old(self).permissions,
            final(self).presets == old(self).presets,
            enabled ==> final(self).remove.deep_view() == old(self).remove.deep_view().filter(
                |k: Seq<char>| k != key@,
            ),
            !enabled ==> final(self).remove.deep_view() == if old(self).remove.deep_view().contains(key@) {
                old(self).remove.deep_view()
            } else {
                old(self).remove.deep_view().push(key@)
            },
            final(self).remove.deep_view().contains(key@) == !enabled,
    {
        let ghost r0 = self.remove.deep_view();
        if enabled {
            let mut kept: Vec<String> = Vec::new();
            let mut i: usize = 0;
            while i < self.remove.len()
                invariant
                    i <= self.remove@.len(),
                    r0 == self.remove.deep_view(),
                    kept.deep_view() == r0.take(i as int).filter(|k: Seq<char>| k != key@),
                decreases self.remove@.len() - i,
            {
                proof {
                    reveal(Seq::filter);
                    assert(r0.take(i + 1).drop_last() =~= r0.take(i as int));
                }
                if !str_eq(self.remove[i].as_str(), key) {
                    let ghost before = kept.deep_view();
                    kept.push(copy_string(&self.remove[i]));
                    assert(kept.deep_view() =~= before.push(r0[i as int]));
                }
                i = i + 1;
            }
            assert(r0.take(i as int) =~= r0);
            self.remove = kept;
            proof {
                broadcast use vstd::seq_lib::group_filter_ensures;

                let f = r0.filter(|k: Seq<char>| k != key@);
                if f.contains(key@) {
                    let l = choose|l: int| 0 <= l < f.len() && f[l] == key@;
                    assert(f[l] != key@);
                }
            }
        } else if !contains_text(&self.remove, key) {
            let ghost before = self.remove.deep_view();
            self.remove.push(owned(key));
            assert(self.remove.deep_view() =~= before.push(key@));
            assert(self.remove.deep_view()[before.len() as int] == key@);
        }
    }
}

} // verus!

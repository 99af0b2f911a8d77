//! The settings the user edits: ticked features, permission choices, Safe
//! Browsing and DNS-over-HTTPS; snapshots of them and presets.

use vstd::prelude::*;

use crate::catalog::{
    contains_text, feature_keys, permission_keys, Catalog, CatalogV, FeatureV, PermissionV,
};
use crate::keymap::{entry_keys, lookup, pget, KeyMap};
use crate::keys::{first_index, lemma_contains_push, lemma_first_index};
use crate::text::{copy_string, owned, str_eq};

verus! {

/// The option text of a permission that leaves the policy unset.
pub const NOT_SET: &'static str = "Not Set";

/// The option text that leaves a permission policy unset.
pub open spec fn not_set() -> Seq<char> {
    "Not Set"@
}

/// What the user has chosen: a tick per feature, an option index per
/// permission, the Safe Browsing option (`On`, `Off`, or unset) and the
/// DNS-over-HTTPS mode (`Automatic`, `Off`, `Secure`, `Custom`) with its
/// template.
pub struct UiState {
    pub checked: Vec<bool>,
    pub permissions: Vec<usize>,
    pub safe_browsing: Option<usize>,
    pub dns_mode: usize,
    pub dns_template: String,
}

/// Whether `s` is the initial state for the catalog `c`: nothing ticked,
/// every permission at its first option, nothing else set.
pub open spec fn is_initial(s: UiState, c: CatalogV) -> bool {
    &&& s.checked@ == Seq::new(c.features.len(), |i: int| false)
    &&& s.permissions@ == Seq::new(c.permissions.len(), |i: int| 0usize)
    &&& s.safe_browsing is None
    &&& s.dns_mode == 0
    &&& s.dns_template@ == Seq::<char>::empty()
}

impl UiState {
    /// The initial state for `catalog`.
    pub fn new(catalog: &Catalog) -> (r: UiState)
        ensures
            is_initial(r, catalog@),
    {
        let mut checked: Vec<bool> = Vec::new();
        let mut i: usize = 0;
        while i < catalog.features.len()
            invariant
                i <= catalog.features@.len(),
                checked@ == Seq::new(i as nat, |k: int| false),
            decreases catalog.features@.len() - i,
        {
            checked.push(false);
            assert(checked@ =~= Seq::new((i + 1) as nat, |k: int| false));
            i = i + 1;
        }
        let mut permissions: Vec<usize> = Vec::new();
        let mut j: usize = 0;
        while j < catalog.permissions.len()
            invariant
                j <= catalog.permissions@.len(),
                permissions@ == Seq::new(j as nat, |k: int| 0usize),
            decreases catalog.permissions@.len() - j,
        {
            permissions.push(0);
            assert(permissions@ =~= Seq::new((j + 1) as nat, |k: int| 0usize));
            j = j + 1;
        }
        let r = UiState {
            checked,
            permissions,
            safe_browsing: None,
            dns_mode: 0,
            dns_template: String::new(),
        };
        assert(r.checked@ =~= Seq::new(catalog@.features.len(), |i: int| false));
        assert(r.permissions@ =~= Seq::new(catalog@.permissions.len(), |i: int| 0usize));
        r
    }
}


/// The Safe Browsing option names, by index.
pub open spec fn safe_browsing_text(sb: Option<usize>) -> Seq<char> {
    match sb {
        Some(i) => if i == 0 {
            "On"@
        } else {
            "Off"@
        },
        None => Seq::empty(),
    }
}

/// The DNS-over-HTTPS mode names, by index.
pub open spec fn dns_mode_text(m: usize) -> Seq<char> {
    if m == 0 {
        "Automatic"@
    } else if m == 1 {
        "Off"@
    } else if m == 2 {
        "Secure"@
    } else {
        "Custom"@
    }
}

/// The name of Safe Browsing option `i` (`On`, `Off`).
pub fn safe_browsing_option(i: usize) -> (r: &'static str)
    requires
        i < 2,
    ensures
        r@ == safe_browsing_text(Some(i)),
{
    if i == 0 {
        "On"
    } else {
        "Off"
    }
}

/// The name of DNS-over-HTTPS mode `i` (`Automatic`, `Off`, `Secure`,
/// `Custom`).
pub fn dns_mode_option(i: usize) -> (r: &'static str)
    requires
        i < 4,
    ensures
        r@ == dns_mode_text(i),
{
    if i == 0 {
        "Automatic"
    } else if i == 1 {
        "Off"
    } else if i == 2 {
        "Secure"
    } else {
        "Custom"
    }
}

/// The settings as exported: the ticked feature keys, the chosen option of
/// each permission not at its first option, and the Safe Browsing option,
/// DNS mode and template by name.
pub struct StateSnapshot {
    pub features: Vec<String>,
    pub permissions: KeyMap<String>,
    pub safe_browsing: String,
    pub dns_mode: String,
    pub dns_template: String,
}

/// Whether the feature at `i` is ticked; a missing tick counts as unticked.
pub open spec fn ticked(checked: Seq<bool>, i: int) -> bool {
    0 <= i < checked.len() && checked[i]
}

/// The keys of the ticked features, in catalog order.
pub open spec fn ticked_keys(fs: Seq<FeatureV>, checked: Seq<bool>) -> Seq<Seq<char>>
    decreases fs.len(),
{
    if fs.len() == 0 {
        Seq::empty()
    } else {
        let n = fs.len() - 1;
        let prev = ticked_keys(fs.drop_last(), checked);
        if ticked(checked, n) {
            prev.push(fs[n].key)
        } else {
            prev
        }
    }
}

/// The option index chosen for permission `i`; a missing one counts as 0.
pub open spec fn choice_at(sel: Seq<usize>, i: int) -> usize {
    if 0 <= i < sel.len() {
        sel[i]
    } else {
        0
    }
}

/// The exported permission choices in catalog order: key and option text
/// of each permission whose choice is not the first option and names one.
pub open spec fn chosen_pairs(ps: Seq<PermissionV>, sel: Seq<usize>) -> Seq<(Seq<char>, Seq<char>)>
    decreases ps.len(),
{
    if ps.len() == 0 {
        Seq::empty()
    } else {
        let n = ps.len() - 1;
        let prev = chosen_pairs(ps.drop_last(), sel);
        let k = choice_at(sel, n);
        if k != 0 && (k as int) < ps[n].options.len() {
            prev.push((ps[n].key, ps[n].options[k as int]))
        } else {
            prev
        }
    }
}

/// The content of an optional text.
pub open spec fn opt_view(o: Option<String>) -> Option<Seq<char>> {
    match o {
        Some(s) => Some(s@),
        None => None,
    }
}

impl UiState {
    /// The settings as exported (see `StateSnapshot`).
    pub fn to_snapshot(&self, catalog: &Catalog) -> (r: StateSnapshot)
        requires
            crate::payload::choices_in_range(*self),
        ensures
            r.features.deep_view() == ticked_keys(catalog@.features, self.checked@),
            forall|k: Seq<char>| #[trigger] opt_view(r.permissions.spec_get(k)) == lookup(
                chosen_pairs(catalog@.permissions, self.permissions@),
                k,
            ),
            r.safe_browsing@ == safe_browsing_text(self.safe_browsing),
            r.dns_mode@ == dns_mode_text(self.dns_mode),
            r.dns_template@ == self.dns_template@,
    {
        let ghost c = catalog@;
        let mut features: Vec<String> = Vec::new();
        let mut i: usize = 0;
        assert(c.features.take(0) =~= Seq::<FeatureV>::empty());
        assert(features.deep_view() =~= Seq::<Seq<char>>::empty());
        while i < catalog.features.len()
            invariant
                i <= catalog.features@.len(),
                c == catalog@,
                features.deep_view() == ticked_keys(c.features.take(i as int), self.checked@),
            decreases catalog.features@.len() - i,
        {
            let ghost before = features.deep_view();
            assert(c.features.take(i + 1).drop_last() =~= c.features.take(i as int));
            assert(c.features.take(i + 1)[i as int] == catalog.features@[i as int]@);
            if i < self.checked.len() && self.checked[i] {
                features.push(copy_string(&catalog.features[i].key));
                assert(features.deep_view() =~= before.push(catalog.features@[i as int].key@));
            }
            i = i + 1;
        }
        assert(c.features.take(i as int) =~= c.features);
        let mut permissions: KeyMap<String> = KeyMap::new();
        let mut j: usize = 0;
        assert(c.permissions.take(0) =~= Seq::<PermissionV>::empty());
        while j < catalog.permissions.len()
            invariant
                j <= catalog.permissions@.len(),
                c == catalog@,
                forall|k: Seq<char>| #[trigger] opt_view(permissions.spec_get(k)) == lookup(
                    chosen_pairs(c.permissions.take(j as int), self.permissions@),
                    k,
                ),
            decreases catalog.permissions@.len() - j,
        {
            let ghost before = permissions;
            let ghost ps = c.permissions.take(j + 1);
            assert(ps.drop_last() =~= c.permissions.take(j as int));
            let permission = &catalog.permissions[j];
            assert(ps[j as int] == permission@);
            let choice: usize = if j < self.permissions.len() {
                self.permissions[j]
            } else {
                0
            };
            assert(choice_at(self.permissions@, j as int) == choice);
            let ghost prev = chosen_pairs(c.permissions.take(j as int), self.permissions@);
            if choice != 0 && choice < permission.options.len() {
                let o = copy_string(&permission.options[choice]);
                let ghost ov = o@;
                let ghost pair = (permission@.key, permission@.options[choice as int]);
                assert(chosen_pairs(ps, self.permissions@) == prev.push(pair));
                assert(prev.push(pair).drop_last() =~= prev);
                permissions.insert(copy_string(&permission.key), o);
                assert forall|k: Seq<char>| #[trigger] opt_view(permissions.spec_get(k)) == lookup(
                    chosen_pairs(ps, self.permissions@),
                    k,
                ) by {
                    assert(opt_view(before.spec_get(k)) == lookup(
                        chosen_pairs(c.permissions.take(j as int), self.permissions@),
                        k,
                    ));
                    assert(ov == permission@.options[choice as int]);
                }
            } else {
                assert(chosen_pairs(ps, self.permissions@) == prev);
            }
            j = j + 1;
        }
        assert(c.permissions.take(j as int) =~= c.permissions);
        let safe_browsing = match self.safe_browsing {
            Some(index) => owned(safe_browsing_option(index)),
            None => String::new(),
        };
        StateSnapshot {
            features,
            permissions,
            safe_browsing,
            dns_mode: owned(dns_mode_option(self.dns_mode)),
            dns_template: copy_string(&self.dns_template),
        }
    }
}


/// The option index a snapshot gives the permission at `i`: the first
/// permission with a key takes the first option with the recorded text;
/// anything else stays at the first option.
pub open spec fn snapshot_choice(c: CatalogV, es: Seq<(String, String)>, i: int) -> usize {
    let pk = permission_keys(c.permissions);
    if first_index(pk, pk[i]) == Some(i) {
        match pget(es, pk[i]) {
            Some(v) => match first_index(c.permissions[i].options, v@) {
                Some(o) => o as usize,
                None => 0,
            },
            None => 0,
        }
    } else {
        0
    }
}

/// The Safe Browsing option a snapshot names.
pub open spec fn snapshot_safe_browsing(t: Seq<char>) -> Option<usize> {
    if t == "On"@ {
        Some(0usize)
    } else if t == "Off"@ {
        Some(1usize)
    } else {
        None
    }
}

/// The DNS mode a snapshot names; an unknown or empty name is `Automatic`.
pub open spec fn snapshot_dns_mode(t: Seq<char>) -> usize {
    if t == "Automatic"@ {
        0
    } else if t == "Off"@ {
        1
    } else if t == "Secure"@ {
        2
    } else if t == "Custom"@ {
        3
    } else {
        0
    }
}

/// Whether `s` is the state the snapshot `snap` restores for catalog `c`.
pub open spec fn restores(s: UiState, c: CatalogV, snap: StateSnapshot) -> bool {
    let fk = feature_keys(c.features);
    &&& s.checked@.len() == c.features.len()
    &&& forall|i: int|
        0 <= i < c.features.len() ==> s.checked@[i] == (first_index(fk, fk[i]) == Some(i)
            && snap.features.deep_view().contains(fk[i]))
    &&& s.permissions@.len() == c.permissions.len()
    &&& forall|i: int|
        0 <= i < c.permissions.len() ==> s.permissions@[i] == snapshot_choice(
            c,
            snap.permissions.entries_view(),
            i,
        )
    &&& s.safe_browsing == snapshot_safe_browsing(snap.safe_browsing@)
    &&& s.dns_mode == snapshot_dns_mode(snap.dns_mode@)
    &&& s.dns_template@ == snap.dns_template@
}

/// The position of the first option with text `text`.
fn find_option(options: &Vec<String>, text: &str) -> (r: Option<usize>)
    ensures
        r is Some <==> first_index(options.deep_view(), text@) is Some,
        r matches Some(k) ==> first_index(options.deep_view(), text@) == Some(k as int),
{
    let ghost ks = options.deep_view();
    let mut i: usize = 0;
    while i < options.len()
        invariant
            i <= options@.len(),
            ks == options.deep_view(),
            forall|l: int| 0 <= l < i ==> ks[l] != text@,
        decreases options@.len() - i,
    {
        if str_eq(options[i].as_str(), text) {
            proof {
                crate::keys::lemma_first_index_is(ks, text@, i as int);
            }
            return Some(i);
        }
        i = i + 1;
    }
    proof {
        crate::keys::lemma_first_index_none(ks, text@);
    }
    None
}

impl UiState {
    /// Sets the state to what `snapshot` records: the first feature of each
    /// listed key is ticked, each recorded permission takes the first option
    /// with the recorded text, and Safe Browsing, the DNS mode and template
    /// are read by name.
    pub fn apply_snapshot(&mut self, catalog: &Catalog, snapshot: &StateSnapshot)
        ensures
            restores(*final(self), catalog@, *snapshot),
    {
        let ghost c = catalog@;
        let ghost fk = feature_keys(c.features);
        let ghost pk = permission_keys(c.permissions);
        let ghost names = snapshot.features.deep_view();
        *self = UiState::new(catalog);
        let mut t: usize = 0;
        assert(names.take(0) =~= Seq::<Seq<char>>::empty());
        while t < snapshot.features.len()
            invariant
                t <= snapshot.features@.len(),
                c == catalog@,
                fk == feature_keys(c.features),
                names == snapshot.features.deep_view(),
                self.checked@.len() == c.features.len(),
                forall|i: int|
                    0 <= i < c.features.len() ==> #[trigger] self.checked@[i] == (first_index(
                        fk,
                        fk[i],
                    ) == Some(i) && names.take(t as int).contains(fk[i])),
                self.permissions@ == Seq::new(c.permissions.len(), |i: int| 0usize),
                self.safe_browsing is None,
                self.dns_mode == 0,
                self.dns_template@ == Seq::<char>::empty(),
            decreases snapshot.features@.len() - t,
        {
            let key = &snapshot.features[t];
            let ghost kv = key@;
            assert(names[t as int] == kv);
            assert(names.take(t + 1) =~= names.take(t as int).push(kv));
            let ghost before = self.checked@;
            proof {
                lemma_first_index(fk, kv);
            }
            let found = catalog.feature_index(key.as_str());
            match found {
                Some(idx) => {
                    self.checked.set(idx, true);
                },
                None => {},
            }
            proof {
                assert forall|i: int| 0 <= i < c.features.len() implies #[trigger] self.checked@[i]
                    == (first_index(fk, fk[i]) == Some(i) && names.take(t + 1).contains(fk[i])) by {
                    lemma_contains_push(names.take(t as int), kv, fk[i]);
                    match found {
                        Some(idx) => {
                            if i != idx && fk[i] == kv && first_index(fk, fk[i]) == Some(i) {
                                assert(first_index(fk, kv) == Some(idx as int));
                            }
                        },
                        None => {
                            if fk[i] == kv {
                                lemma_first_index(fk, fk[i]);
                            }
                        },
                    }
                }
            }
            t = t + 1;
        }
        assert(names.take(t as int) =~= names);
        let es = snapshot.permissions.entries();
        let mut u: usize = 0;
        assert(es@.take(0) =~= Seq::<(String, String)>::empty());
        while u < es.len()
            invariant
                u <= es@.len(),
                c == catalog@,
                fk == feature_keys(c.features),
                pk == permission_keys(c.permissions),
                es@ == snapshot.permissions.entries_view(),
                crate::keys::ascending(entry_keys(es@)),
                self.checked@.len() == c.features.len(),
                forall|i: int|
                    0 <= i < c.features.len() ==> self.checked@[i] == (first_index(fk, fk[i])
                        == Some(i) && names.contains(fk[i])),
                self.permissions@.len() == c.permissions.len(),
                forall|i: int|
                    0 <= i < c.permissions.len() ==> #[trigger] self.permissions@[i]
                        == snapshot_choice(c, es@.take(u as int), i),
                self.safe_browsing is None,
                self.dns_mode == 0,
                self.dns_template@ == Seq::<char>::empty(),
            decreases es@.len() - u,
        {
            let key = &es[u].0;
            let selection = &es[u].1;
            let ghost kv = key@;
            let ghost pre = es@.take(u as int);
            let ghost post = es@.take(u + 1);
            assert(post.drop_last() =~= pre);
            assert(post.last() == es@[u as int]);
            proof {
                assert forall|l: int| 0 <= l < pre.len() implies pre[l].0@ != kv by {
                    crate::keys::lemma_ascending_distinct(entry_keys(es@), l, u as int);
                }
                crate::keymap::lemma_pget_none(pre, kv);
                lemma_first_index(pk, kv);
            }
            let ghost before = self.permissions@;
            let found = catalog.permission_index(key.as_str());
            let mut set_to: Option<(usize, usize)> = None;
            match found {
                Some(idx) => {
                    let permission = &catalog.permissions[idx];
                    assert(c.permissions[idx as int] == permission@);
                    match find_option(&permission.options, selection.as_str()) {
                        Some(o) => {
                            self.permissions.set(idx, o);
                            set_to = Some((idx, o));
                        },
                        None => {},
                    }
                },
                None => {},
            }
            proof {
                assert forall|i: int| 0 <= i < c.permissions.len() implies #[trigger] self.permissions@[i]
                    == snapshot_choice(c, post, i) by {
                    assert(pget(post, pk[i]) == if kv == pk[i] {
                        Some(es@[u as int].1)
                    } else {
                        pget(pre, pk[i])
                    });
                    assert(before[i] == snapshot_choice(c, pre, i));
                    if pk[i] == kv && first_index(pk, pk[i]) == Some(i) {
                        assert(found == Some(i as usize));
                    }
                }
            }
            u = u + 1;
        }
        assert(es@.take(u as int) =~= es@);
        if !snapshot.safe_browsing.as_str().is_empty() {
            let t = snapshot.safe_browsing.as_str();
            self.safe_browsing = if str_eq(t, "On") {
                Some(0)
            } else if str_eq(t, "Off") {
                Some(1)
            } else {
                None
            };
        }
        if !snapshot.dns_mode.as_str().is_empty() {
            let t = snapshot.dns_mode.as_str();
            self.dns_mode = if str_eq(t, "Automatic") {
                0
            } else if str_eq(t, "Off") {
                1
            } else if str_eq(t, "Secure") {
                2
            } else if str_eq(t, "Custom") {
                3
            } else {
                0
            };
        }
        self.dns_template = copy_string(&snapshot.dns_template);
        proof {
            reveal_strlit("On");
            reveal_strlit("Off");
            reveal_strlit("Automatic");
            reveal_strlit("Secure");
            reveal_strlit("Custom");
        }
    }
}


/// The two presets.
#[derive(Clone, Copy, Debug, PartialEq, Eq, Structural)]
pub enum Preset {
    Privacy,
    Security,
}

/// The keys a preset ticks.
pub open spec fn preset_keys(c: CatalogV, preset: Preset) -> Seq<Seq<char>> {
    match preset {
        Preset::Privacy => c.privacy_keys,
        Preset::Security => c.security_keys,
    }
}

/// The option a preset picks for a permission, by its name: `Allow` for
/// JavaScript, `Ask` for the camera and microphone, `Not Set` for images,
/// and for the rest `Block` where it is offered, else `Not Set`.
pub open spec fn preset_option(p: PermissionV) -> Seq<char> {
    if p.name == "JavaScript"@ {
        "Allow"@
    } else if p.name == "Camera"@ || p.name == "Microphone"@ {
        "Ask"@
    } else if p.name == "Images"@ {
        not_set()
    } else if p.options.contains("Block"@) {
        "Block"@
    } else {
        not_set()
    }
}

/// The option index a preset gives a permission: the first option with the
/// text it picks, else the first option.
pub open spec fn preset_choice(p: PermissionV) -> usize {
    match first_index(p.options, preset_option(p)) {
        Some(k) => k as usize,
        None => 0,
    }
}

impl UiState {
    /// Applies a preset: ticks exactly the first feature of each key the
    /// preset lists, sets each permission to the option the preset picks for
    /// it, and sets Safe Browsing, the DNS mode and template (`Off`/`Off`
    /// for privacy, `On`/`Automatic` for security, no template).
    pub fn apply_preset(&mut self, catalog: &Catalog, preset: Preset)
        requires
            old(self).permissions@.len() >= catalog@.permissions.len(),
        ensures
            final(self).checked@.len() == old(self).checked@.len(),
            forall|i: int|
                0 <= i < old(self).checked@.len() ==> #[trigger] final(self).checked@[i] == (i
                    < catalog@.features.len() && first_index(
                    feature_keys(catalog@.features),
                    feature_keys(catalog@.features)[i],
                ) == Some(i) && preset_keys(catalog@, preset).contains(
                    feature_keys(catalog@.features)[i],
                )),
            final(self).permissions@.len() == old(self).permissions@.len(),
            forall|i: int|
                0 <= i < catalog@.permissions.len() ==> #[trigger] final(self).permissions@[i]
                    == preset_choice(catalog@.permissions[i]),
            forall|i: int|
                catalog@.permissions.len() <= i < old(self).permissions@.len()
                    ==> #[trigger] final(self).permissions@[i] == old(self).permissions@[i],
            final(self).safe_browsing == Some(
                match preset {
                    Preset::Privacy => 1usize,
                    Preset::Security => 0usize,
                },
            ),
            final(self).dns_mode == match preset {
                Preset::Privacy => 1usize,
                Preset::Security => 0usize,
            },
            final(self).dns_template@ == Seq::<char>::empty(),
    {
        let ghost c = catalog@;
        let ghost fk = feature_keys(c.features);
        let ghost old_perms = self.permissions@;
        let ghost old_len = self.checked@.len();
        let mut i: usize = 0;
        while i < self.checked.len()
            invariant
                i <= self.checked@.len(),
                self.checked@.len() == old_len,
                self.permissions@ == old_perms,
                forall|l: int| 0 <= l < i ==> self.checked@[l] == false,
            decreases self.checked@.len() - i,
        {
            self.checked.set(i, false);
            i = i + 1;
        }
        let mut j: usize = 0;
        while j < catalog.permissions.len()
            invariant
                j <= catalog.permissions@.len(),
                c == catalog@,
                self.permissions@.len() == old_perms.len(),
                old_perms.len() >= c.permissions.len(),
                self.checked@.len() == old_len,
                forall|l: int| 0 <= l < old_len ==> self.checked@[l] == false,
                forall|l: int| 0 <= l < j ==> #[trigger] self.permissions@[l] == preset_choice(
                    c.permissions[l],
                ),
                forall|l: int| j <= l < old_perms.len() ==> #[trigger] self.permissions@[l] == old_perms[l],
            decreases catalog.permissions@.len() - j,
        {
            let permission = &catalog.permissions[j];
            assert(c.permissions[j as int] == permission@);
            let name = permission.name.as_str();
            let selection: &str = if str_eq(name, "JavaScript") {
                "Allow"
            } else if str_eq(name, "Camera") || str_eq(name, "Microphone") {
                "Ask"
            } else if str_eq(name, "Images") {
                "Not Set"
            } else if contains_text(&permission.options, "Block") {
                "Block"
            } else {
                "Not Set"
            };
            assert(selection@ == preset_option(permission@));
            let choice = match find_option(&permission.options, selection) {
                Some(k) => k,
                None => 0,
            };
            self.permissions.set(j, choice);
            j = j + 1;
        }
        let keys = match preset {
            Preset::Privacy => &catalog.privacy_keys,
            Preset::Security => &catalog.security_keys,
        };
        let ghost names = keys.deep_view();
        assert(names == preset_keys(c, preset));
        let mut t: usize = 0;
        assert(names.take(0) =~= Seq::<Seq<char>>::empty());
        while t < keys.len()
            invariant
                t <= keys@.len(),
                c == catalog@,
                fk == feature_keys(c.features),
                names == keys.deep_view(),
                self.checked@.len() == old_len,
                self.permissions@.len() == old_perms.len(),
                forall|l: int| 0 <= l < c.permissions.len() ==> #[trigger] self.permissions@[l] == preset_choice(
                    c.permissions[l],
                ),
                forall|l: int| c.permissions.len() <= l < old_perms.len() ==> #[trigger] self.permissions@[l] == old_perms[l],
                forall|l: int|
                    0 <= l < self.checked@.len() ==> #[trigger] self.checked@[l] == (l < c.features.len()
                        && first_index(fk, fk[l]) == Some(l) && names.take(t as int).contains(
                        fk[l],
                    )),
            decreases keys@.len() - t,
        {
            let key = &keys[t];
            let ghost kv = key@;
            assert(names[t as int] == kv);
            assert(names.take(t + 1) =~= names.take(t as int).push(kv));
            proof {
                lemma_first_index(fk, kv);
            }
            let found = catalog.feature_index(key.as_str());
            let mut set_at: Option<usize> = None;
            match found {
                Some(idx) => {
                    if idx < self.checked.len() {
                        self.checked.set(idx, true);
                        set_at = Some(idx);
                    }
                },
                None => {},
            }
            proof {
                assert forall|l: int| 0 <= l < self.checked@.len() implies #[trigger] self.checked@[l]
                    == (l < c.features.len() && first_index(fk, fk[l]) == Some(l) && names.take(
                    t + 1,
                ).contains(fk[l])) by {
                    if l < c.features.len() {
                        lemma_contains_push(names.take(t as int), kv, fk[l]);
                        if fk[l] == kv && first_index(fk, fk[l]) == Some(l) {
                            assert(found == Some(l as usize));
                        }
                    }
                }
            }
            t = t + 1;
        }
        assert(names.take(t as int) =~= names);
        match preset {
            Preset::Privacy => {
                self.safe_browsing = Some(1);
                self.dns_mode = 1;
            },
            Preset::Security => {
                self.safe_browsing = Some(0);
                self.dns_mode = 0;
            },
        }
        self.dns_template = String::new();
    }
}


/// With distinct feature keys, a feature's key is listed exactly when the
/// feature is ticked.
proof fn lemma_ticked_keys(fs: Seq<FeatureV>, checked: Seq<bool>, i: int)
    requires
        crate::roundtrip::keys_distinct(feature_keys(fs)),
        0 <= i < fs.len(),
    ensures
        ticked_keys(fs, checked).contains(fs[i].key) == ticked(checked, i),
    decreases fs.len(),
{
    let n = fs.len() - 1;
    let d = fs.drop_last();
    let k = fs[i].key;
    let prev = ticked_keys(d, checked);
    assert(feature_keys(d) =~= feature_keys(fs).drop_last());
    lemma_ticked_keys_from(d, checked);
    if i == n {
        assert(!prev.contains(k)) by {
            if prev.contains(k) {
                let l = choose|l: int| 0 <= l < prev.len() && prev[l] == k;
                let j = choose|j: int| 0 <= j < d.len() && d[j].key == prev[l];
                assert(feature_keys(fs)[j] == feature_keys(fs)[n]);
            }
        }
        lemma_contains_push(prev, fs[n].key, k);
    } else {
        assert(d[i] == fs[i]);
        assert(feature_keys(fs)[i] != feature_keys(fs)[n]);
        lemma_ticked_keys(d, checked, i);
        lemma_contains_push(prev, fs[n].key, k);
    }
}

/// Every listed key is the key of some feature.
proof fn lemma_ticked_keys_from(fs: Seq<FeatureV>, checked: Seq<bool>)
    ensures
        forall|l: int|
            0 <= l < ticked_keys(fs, checked).len() ==> exists|j: int|
                0 <= j < fs.len() && fs[j].key == #[trigger] ticked_keys(fs, checked)[l],
    decreases fs.len(),
{
    if fs.len() > 0 {
        let d = fs.drop_last();
        lemma_ticked_keys_from(d, checked);
        let w = ticked_keys(fs, checked);
        assert forall|l: int| 0 <= l < w.len() implies exists|j: int|
            0 <= j < fs.len() && fs[j].key == #[trigger] w[l] by {
            if l < ticked_keys(d, checked).len() {
                let j = choose|j: int| 0 <= j < d.len() && d[j].key == ticked_keys(d, checked)[l];
                assert(fs[j] == d[j]);
            } else {
                assert(fs[fs.len() - 1].key == w[l]);
            }
        }
    }
}

/// With distinct permission keys, a permission's key is paired with the
/// option it has chosen, unless that is the first option or names none.
proof fn lemma_chosen_pairs(ps: Seq<PermissionV>, sel: Seq<usize>, i: int)
    requires
        crate::roundtrip::keys_distinct(permission_keys(ps)),
        0 <= i < ps.len(),
    ensures
        lookup(chosen_pairs(ps, sel), ps[i].key) == if choice_at(sel, i) != 0 && (choice_at(
            sel,
            i,
        ) as int) < ps[i].options.len() {
            Some(ps[i].options[choice_at(sel, i) as int])
        } else {
            None
        },
    decreases ps.len(),
{
    let n = ps.len() - 1;
    let d = ps.drop_last();
    let k = ps[i].key;
    let prev = chosen_pairs(d, sel);
    let kk = choice_at(sel, n);
    let pair = (ps[n].key, ps[n].options[kk as int]);
    assert(chosen_pairs(ps, sel) == if kk != 0 && (kk as int) < ps[n].options.len() {
        prev.push(pair)
    } else {
        prev
    });
    assert(prev.push(pair).drop_last() =~= prev);
    assert(permission_keys(d) =~= permission_keys(ps).drop_last());
    lemma_chosen_pairs_from(d, sel);
    if i == n {
        assert forall|l: int| 0 <= l < prev.len() implies prev[l].0 != k by {
            let j = choose|j: int| 0 <= j < d.len() && d[j].key == #[trigger] prev[l].0;
            assert(d[j] == ps[j]);
            assert(permission_keys(ps)[j] != permission_keys(ps)[n]);
        }
        crate::keymap::lemma_lookup_none(prev, k);
    } else {
        assert(d[i] == ps[i]);
        assert(permission_keys(ps)[i] != permission_keys(ps)[n]);
        lemma_chosen_pairs(d, sel, i);
    }
}

/// Every paired key is the key of some permission.
proof fn lemma_chosen_pairs_from(ps: Seq<PermissionV>, sel: Seq<usize>)
    ensures
        forall|l: int|
            0 <= l < chosen_pairs(ps, sel).len() ==> exists|j: int|
                0 <= j < ps.len() && ps[j].key == #[trigger] chosen_pairs(ps, sel)[l].0,
    decreases ps.len(),
{
    if ps.len() > 0 {
        let d = ps.drop_last();
        lemma_chosen_pairs_from(d, sel);
        let w = chosen_pairs(ps, sel);
        assert forall|l: int| 0 <= l < w.len() implies exists|j: int|
            0 <= j < ps.len() && ps[j].key == #[trigger] w[l].0 by {
            if l < chosen_pairs(d, sel).len() {
                let j = choose|j: int| 0 <= j < d.len() && d[j].key == chosen_pairs(d, sel)[l].0;
                assert(ps[j] == d[j]);
            } else {
                assert(ps[ps.len() - 1].key == w[l].0);
            }
        }
    }
}

/// A state that its snapshot restores: feature keys and permission keys are
/// each distinct, the state has a tick per feature and a choice per
/// permission, each choice is the first option or the first of its text,
/// and the Safe Browsing and DNS choices name options.
pub open spec fn snapshot_restorable(c: CatalogV, s: UiState) -> bool {
    &&& crate::roundtrip::keys_distinct(feature_keys(c.features))
    &&& crate::roundtrip::keys_distinct(permission_keys(c.permissions))
    &&& s.checked@.len() == c.features.len()
    &&& s.permissions@.len() == c.permissions.len()
    &&& forall|i: int|
        0 <= i < c.permissions.len() ==> (s.permissions@[i] == 0 || ((s.permissions@[i] as int)
            < c.permissions[i].options.len() && first_index(
            c.permissions[i].options,
            c.permissions[i].options[s.permissions@[i] as int],
        ) == Some(s.permissions@[i] as int)))
    &&& crate::payload::choices_in_range(s)
}

/// Exporting a state and importing the snapshot gives the state back, for
/// every state that `snapshot_restorable` admits.
pub proof fn law_snapshot_round_trip(
    c: CatalogV,
    s: UiState,
    snap: StateSnapshot,
    restored: UiState,
)
    requires
        snapshot_restorable(c, s),
        snap.features.deep_view() == ticked_keys(c.features, s.checked@),
        forall|k: Seq<char>| #[trigger] opt_view(snap.permissions.spec_get(k)) == lookup(
            chosen_pairs(c.permissions, s.permissions@),
            k,
        ),
        snap.safe_browsing@ == safe_browsing_text(s.safe_browsing),
        snap.dns_mode@ == dns_mode_text(s.dns_mode),
        snap.dns_template@ == s.dns_template@,
        restores(restored, c, snap),
    ensures
        restored.checked@ == s.checked@,
        restored.permissions@ == s.permissions@,
        restored.safe_browsing == s.safe_browsing,
        restored.dns_mode == s.dns_mode,
        restored.dns_template@ == s.dns_template@,
{
    let fk = feature_keys(c.features);
    let pk = permission_keys(c.permissions);
    assert forall|i: int| 0 <= i < c.features.len() implies restored.checked@[i] == s.checked@[i] by {
        assert(fk[i] == c.features[i].key);
        lemma_ticked_keys(c.features, s.checked@, i);
        assert forall|l: int| 0 <= l < i implies fk[l] != fk[i] by {}
        crate::keys::lemma_first_index_is(fk, fk[i], i);
    }
    assert(restored.checked@ =~= s.checked@);
    assert forall|i: int| 0 <= i < c.permissions.len() implies restored.permissions@[i]
        == s.permissions@[i] by {
        assert(pk[i] == c.permissions[i].key);
        lemma_chosen_pairs(c.permissions, s.permissions@, i);
        assert forall|l: int| 0 <= l < i implies pk[l] != pk[i] by {}
        crate::keys::lemma_first_index_is(pk, pk[i], i);
        assert(opt_view(snap.permissions.spec_get(pk[i])) == lookup(
            chosen_pairs(c.permissions, s.permissions@),
            pk[i],
        ));
    }
    assert(restored.permissions@ =~= s.permissions@);
    reveal_strlit("On");
    reveal_strlit("Off");
    reveal_strlit("Automatic");
    reveal_strlit("Secure");
    reveal_strlit("Custom");
    assert("On"@.len() == 2);
    assert("Off"@.len() == 3);
    assert("Automatic"@.len() == 9);
    assert("Secure"@.len() == 6);
    assert("Custom"@.len() == 6);
    assert("Secure"@[0] == 'S');
    assert("Custom"@[0] == 'C');
    assert("Secure"@ != "Custom"@);
    assert(restored.dns_template@ =~= s.dns_template@);
}

/// The entries of a text map as plain text pairs.
pub open spec fn text_entries(es: Seq<(String, String)>) -> Seq<(Seq<char>, Seq<char>)> {
    es.map_values(|e: (String, String)| (e.0@, e.1@))
}

/// Whether two snapshots hold the same settings.
pub open spec fn same_settings(a: StateSnapshot, b: StateSnapshot) -> bool {
    &&& a.features.deep_view() == b.features.deep_view()
    &&& text_entries(a.permissions.entries_view()) == text_entries(b.permissions.entries_view())
    &&& a.safe_browsing@ == b.safe_browsing@
    &&& a.dns_mode@ == b.dns_mode@
    &&& a.dns_template@ == b.dns_template@
}

/// Whether two lists of texts are equal.
fn same_texts(a: &Vec<String>, b: &Vec<String>) -> (r: bool)
    ensures
        r == (a.deep_view() == b.deep_view()),
{
    if a.len() != b.len() {
        assert(a.deep_view().len() != b.deep_view().len());
        return false;
    }
    let mut i: usize = 0;
    while i < a.len()
        invariant
            i <= a@.len(),
            a@.len() == b@.len(),
            forall|j: int| 0 <= j < i ==> a@[j]@ == b@[j]@,
        decreases a@.len() - i,
    {
        if !str_eq(a[i].as_str(), b[i].as_str()) {
            assert(a.deep_view()[i as int] != b.deep_view()[i as int]);
            return false;
        }
        i = i + 1;
    }
    assert(a.deep_view() =~= b.deep_view());
    true
}

/// Whether two lists of text pairs are equal.
fn same_entries(a: &Vec<(String, String)>, b: &Vec<(String, String)>) -> (r: bool)
    ensures
        r == (text_entries(a@) == text_entries(b@)),
{
    if a.len() != b.len() {
        assert(text_entries(a@).len() != text_entries(b@).len());
        return false;
    }
    let mut i: usize = 0;
    while i < a.len()
        invariant
            i <= a@.len(),
            a@.len() == b@.len(),
            forall|j: int| 0 <= j < i ==> a@[j].0@ == b@[j].0@ && a@[j].1@ == b@[j].1@,
        decreases a@.len() - i,
    {
        if !str_eq(a[i].0.as_str(), b[i].0.as_str()) || !str_eq(a[i].1.as_str(), b[i].1.as_str()) {
            assert(text_entries(a@)[i as int] != text_entries(b@)[i as int]);
            return false;
        }
        i = i + 1;
    }
    assert(text_entries(a@) =~= text_entries(b@));
    true
}

impl StateSnapshot {
    /// Whether this snapshot holds the same settings as `other`; the
    /// settings differ from the last saved ones exactly when it does not.
    pub fn same_as(&self, other: &StateSnapshot) -> (r: bool)
        ensures
            r == same_settings(*self, *other),
    {
        same_texts(&self.features, &other.features) && same_entries(
            self.permissions.entries(),
            other.permissions.entries(),
        ) && str_eq(self.safe_browsing.as_str(), other.safe_browsing.as_str()) && str_eq(
            self.dns_mode.as_str(),
            other.dns_mode.as_str(),
        ) && str_eq(self.dns_template.as_str(), other.dns_template.as_str())
    }
}

} // verus!

//! Reading back what was applied: the payload that a state's plan writes
//! shows that same state again.

use vstd::prelude::*;

use crate::catalog::{
    dns_mode_key, dns_templates_key, feature_keys, is_special_key, payment_key, permission_keys,
    read_guard_key, safe_browsing_key, val_text, write_guard_key, CatalogV, FeatureV,
    PermissionV, Val,
};
use crate::keymap::pget;
use crate::domain::PlatformKind;
use crate::keys::{first_index, lemma_first_index, lemma_first_index_is};
use crate::payload::{
    checked_at, choices_in_range, dns_writes, expected_val, feature_writes, has_template,
    lemma_vget_append, lemma_vget_none, option_code, permission_entry_writes, permission_writes,
    plan_writes, pval, safe_browsing_writes, sanitized_value, kept_value, coerced_bool,
    coerced_int, entry_verdict, selected_option, shown_choice, shown_dns_mode, shown_option,
    shown_safe_browsing, shown_template, shown_ticked, shows, value_matches, vget, Payload,
    RawPayload, RawValue, Verdict,
};
use crate::platform::opt_raw;
use crate::state::{not_set, UiState};
use crate::text::{ascii_lower, is_ws, lower_seq, trim_end_seq, trim_seq, trim_start_seq};

verus! {

/// No key occurs twice.
pub open spec fn keys_distinct(ks: Seq<Seq<char>>) -> bool {
    forall|i: int, j: int| 0 <= i < j < ks.len() ==> ks[i] != ks[j]
}

/// The catalog keeps its keys apart: feature keys and permission keys are
/// each distinct, no feature shares a key with a permission, and none is one
/// of the special keys.
pub open spec fn catalog_separates_keys(c: CatalogV) -> bool {
    let fk = feature_keys(c.features);
    let pk = permission_keys(c.permissions);
    &&& keys_distinct(fk)
    &&& keys_distinct(pk)
    &&& forall|i: int, j: int| 0 <= i < fk.len() && 0 <= j < pk.len() ==> fk[i] != pk[j]
    &&& forall|i: int| 0 <= i < fk.len() ==> !is_special_key(fk[i])
    &&& forall|j: int| 0 <= j < pk.len() ==> !is_special_key(pk[j])
}

/// A permission choice that reads back as itself: an option that is the
/// first of its text and that the written number (or boolean, for the
/// payment-method query) stands for, or the first option when the choice
/// writes nothing.
pub open spec fn choice_restorable(p: PermissionV, sel: usize) -> bool {
    if (sel as int) < p.options.len() {
        let o = p.options[sel as int];
        if o == not_set() {
            sel == 0
        } else {
            &&& first_index(p.options, o) == Some(sel as int)
            &&& if p.key == payment_key() {
                o == "Allow"@ || o == "Block"@
            } else {
                o == "Allow"@ || o == "Block"@ || o == "Ask"@
            }
        }
    } else {
        sel == 0
    }
}

/// A state that its own payload shows again: the catalog keeps its keys
/// apart, the state has a tick per feature and a choice per permission,
/// ticked array values are not empty, each permission choice reads back,
/// and the DNS template is empty unless the mode is `Custom`, where it is
/// already trimmed and not empty.
pub open spec fn state_restorable(c: CatalogV, s: UiState, platform: PlatformKind) -> bool {
    &&& catalog_separates_keys(c)
    &&& s.checked@.len() == c.features.len()
    &&& s.permissions@.len() == c.permissions.len()
    &&& forall|i: int|
        0 <= i < c.features.len() && s.checked@[i] ==> value_matches(
            expected_val(c.features[i], platform),
            expected_val(c.features[i], platform),
        )
    &&& forall|i: int|
        0 <= i < c.permissions.len() ==> choice_restorable(c.permissions[i], s.permissions@[i])
    &&& choices_in_range(s)
    &&& (s.dns_mode <= 2 ==> s.dns_template@.len() == 0)
    &&& (s.dns_mode == 3 ==> trim_seq(s.dns_template@).len() > 0 && trim_seq(s.dns_template@)
        == s.dns_template@)
}

/// Every feature write holds the key of some feature.
proof fn lemma_feature_write_keys(fs: Seq<FeatureV>, checked: Seq<bool>, platform: PlatformKind)
    ensures
        forall|l: int|
            0 <= l < feature_writes(fs, checked, platform).len() ==> feature_keys(fs).contains(
                #[trigger] feature_writes(fs, checked, platform)[l].0,
            ),
    decreases fs.len(),
{
    if fs.len() > 0 {
        let d = fs.drop_last();
        lemma_feature_write_keys(d, checked, platform);
        let w = feature_writes(fs, checked, platform);
        assert forall|l: int| 0 <= l < w.len() implies feature_keys(fs).contains(#[trigger] w[l].0) by {
            if l < feature_writes(d, checked, platform).len() {
                let k = w[l].0;
                assert(feature_keys(d).contains(k));
                let j = choose|j: int| 0 <= j < feature_keys(d).len() && feature_keys(d)[j] == k;
                assert(feature_keys(fs)[j] == k);
            } else {
                assert(feature_keys(fs)[fs.len() - 1] == w[l].0);
            }
        }
    }
}

/// A feature's key reads back its expected value when ticked, and nothing
/// when not.
proof fn lemma_feature_writes_get(
    fs: Seq<FeatureV>,
    checked: Seq<bool>,
    platform: PlatformKind,
    i: int,
)
    requires
        keys_distinct(feature_keys(fs)),
        0 <= i < fs.len(),
    ensures
        vget(feature_writes(fs, checked, platform), fs[i].key) == if checked_at(checked, i) {
            Some(expected_val(fs[i], platform))
        } else {
            None
        },
    decreases fs.len(),
{
    let n = fs.len() - 1;
    let d = fs.drop_last();
    let k = fs[i].key;
    let wd0 = feature_writes(d, checked, platform);
    let x = (fs[n].key, expected_val(fs[n], platform));
    assert(feature_writes(fs, checked, platform) == if checked_at(checked, n) {
        wd0.push(x)
    } else {
        wd0
    });
    assert(wd0.push(x).drop_last() =~= wd0);
    assert(wd0.push(x).last() == x);
    assert(feature_keys(d) =~= feature_keys(fs).drop_last());
    if i == n {
        lemma_feature_write_keys(d, checked, platform);
        let wd = feature_writes(d, checked, platform);
        assert forall|l: int| 0 <= l < wd.len() implies wd[l].0 != k by {
            if wd[l].0 == k {
                assert(feature_keys(d).contains(wd[l].0));
                let j = choose|j: int| 0 <= j < feature_keys(d).len() && feature_keys(d)[j] == k;
                assert(feature_keys(fs)[j] == feature_keys(fs)[n]);
            }
        }
        lemma_vget_none(wd, k);
    } else {
        assert(d[i] == fs[i]);
        assert(feature_keys(fs)[i] != feature_keys(fs)[n]);
        lemma_feature_writes_get(d, checked, platform, i);
    }
}

/// The value that permission `p` set to option `o` writes under its key.
pub open spec fn entry_value(p: PermissionV, o: Seq<char>) -> Option<Val> {
    if o == not_set() {
        None
    } else if p.key == payment_key() {
        Some(Val::Bool(o == "Allow"@))
    } else {
        Some(Val::Int(option_code(o)))
    }
}

/// Every permission write holds the key of some permission or the write
/// guard.
proof fn lemma_permission_write_keys(ps: Seq<PermissionV>, sel: Seq<usize>)
    ensures
        forall|l: int|
            0 <= l < permission_writes(ps, sel).len() ==> (permission_keys(ps).contains(
                #[trigger] permission_writes(ps, sel)[l].0,
            ) || permission_writes(ps, sel)[l].0 == write_guard_key()),
    decreases ps.len(),
{
    if ps.len() > 0 {
        let n = ps.len() - 1;
        let d = ps.drop_last();
        lemma_permission_write_keys(d, sel);
        let wd = permission_writes(d, sel);
        let e = match selected_option(ps[n], sel, n) {
            Some(s) => permission_entry_writes(ps[n], s),
            None => Seq::empty(),
        };
        let w = permission_writes(ps, sel);
        assert(w == wd + e);
        assert forall|l: int| 0 <= l < w.len() implies (permission_keys(ps).contains(
            #[trigger] w[l].0,
        ) || w[l].0 == write_guard_key()) by {
            if l < wd.len() {
                assert(w[l] == wd[l]);
                if permission_keys(d).contains(wd[l].0) {
                    let j = choose|j: int|
                        0 <= j < permission_keys(d).len() && permission_keys(d)[j] == wd[l].0;
                    assert(permission_keys(ps)[j] == wd[l].0);
                }
            } else {
                assert(w[l] == e[l - wd.len()]);
                assert(permission_keys(ps)[n] == ps[n].key);
            }
        }
    }
}

/// A permission's key reads back the value its choice writes.
proof fn lemma_permission_writes_get(ps: Seq<PermissionV>, sel: Seq<usize>, i: int)
    requires
        keys_distinct(permission_keys(ps)),
        forall|j: int| 0 <= j < ps.len() ==> ps[j].key != write_guard_key(),
        0 <= i < ps.len(),
    ensures
        vget(permission_writes(ps, sel), ps[i].key) == match selected_option(ps[i], sel, i) {
            Some(o) => entry_value(ps[i], o),
            None => None,
        },
    decreases ps.len(),
{
    let n = ps.len() - 1;
    let d = ps.drop_last();
    let k = ps[i].key;
    let wd = permission_writes(d, sel);
    let e = match selected_option(ps[n], sel, n) {
        Some(s) => permission_entry_writes(ps[n], s),
        None => Seq::empty(),
    };
    assert(permission_writes(ps, sel) == wd + e);
    lemma_vget_append(wd, e, k);
    assert(d[i] == ps[i] || i == n);
    assert(permission_keys(d) =~= permission_keys(ps).drop_last());
    if i == n {
        lemma_permission_write_keys(d, sel);
        assert forall|l: int| 0 <= l < wd.len() implies wd[l].0 != k by {
            if wd[l].0 == k {
                if permission_keys(d).contains(wd[l].0) {
                    let j = choose|j: int|
                        0 <= j < permission_keys(d).len() && permission_keys(d)[j] == k;
                    assert(permission_keys(ps)[j] == permission_keys(ps)[n]);
                }
            }
        }
        lemma_vget_none(wd, k);
        match selected_option(ps[n], sel, n) {
            Some(s) => {
                if s == not_set() {
                    assert(e =~= Seq::<(Seq<char>, Val)>::empty());
                    assert(vget(e, k) is None);
                } else if ps[n].key == payment_key() {
                    assert(e.last() == (k, Val::Bool(s == "Allow"@)));
                    assert(vget(e, k) == Some(Val::Bool(s == "Allow"@)));
                } else if ps[n].key == crate::catalog::read_guard_key() {
                    assert(e.last().0 == write_guard_key());
                    assert(e.drop_last() =~= seq![(k, Val::Int(option_code(s)))]);
                    assert(vget(e.drop_last(), k) == Some(Val::Int(option_code(s))));
                    assert(vget(e, k) == Some(Val::Int(option_code(s))));
                } else {
                    assert(e.last() == (k, Val::Int(option_code(s))));
                    assert(vget(e, k) == Some(Val::Int(option_code(s))));
                }
            },
            None => {
                assert(e =~= Seq::<(Seq<char>, Val)>::empty());
            },
        }
    } else {
        assert(d[i] == ps[i]);
        assert(permission_keys(ps)[i] != permission_keys(ps)[n]);
        assert forall|l: int| 0 <= l < e.len() implies e[l].0 != k by {}
        lemma_vget_none(e, k);
        lemma_permission_writes_get(d, sel, i);
    }
}


/// The value a plan writes for `k`: the DNS writes decide first, then Safe
/// Browsing, then the permissions, then the features.
proof fn lemma_plan_get(c: CatalogV, s: UiState, platform: PlatformKind, k: Seq<char>)
    ensures
        vget(plan_writes(c, s, platform), k) == match vget(
            dns_writes(s.dns_mode, s.dns_template@),
            k,
        ) {
            Some(v) => Some(v),
            None => match vget(safe_browsing_writes(s.safe_browsing), k) {
                Some(v) => Some(v),
                None => match vget(permission_writes(c.permissions, s.permissions@), k) {
                    Some(v) => Some(v),
                    None => vget(feature_writes(c.features, s.checked@, platform), k),
                },
            },
        },
{
    let fw = feature_writes(c.features, s.checked@, platform);
    let pw = permission_writes(c.permissions, s.permissions@);
    let sbw = safe_browsing_writes(s.safe_browsing);
    let dw = dns_writes(s.dns_mode, s.dns_template@);
    lemma_vget_append(fw + pw + sbw, dw, k);
    lemma_vget_append(fw + pw, sbw, k);
    lemma_vget_append(fw, pw, k);
}

/// A key other than the DNS keys is not among the DNS writes.
proof fn lemma_dns_writes_other(mode: usize, t: Seq<char>, k: Seq<char>)
    requires
        k != dns_mode_key(),
        k != dns_templates_key(),
    ensures
        vget(dns_writes(mode, t), k) is None,
{
    let dw = dns_writes(mode, t);
    assert forall|l: int| 0 <= l < dw.len() implies dw[l].0 != k by {}
    lemma_vget_none(dw, k);
}

/// A key other than Safe Browsing's is not among its writes.
proof fn lemma_safe_browsing_writes_other(sb: Option<usize>, k: Seq<char>)
    requires
        k != safe_browsing_key(),
    ensures
        vget(safe_browsing_writes(sb), k) is None,
{
    let w = safe_browsing_writes(sb);
    assert forall|l: int| 0 <= l < w.len() implies w[l].0 != k by {}
    lemma_vget_none(w, k);
}

/// A key held by no permission and other than the write guard is not among
/// the permission writes.
proof fn lemma_permission_writes_other(ps: Seq<PermissionV>, sel: Seq<usize>, k: Seq<char>)
    requires
        !permission_keys(ps).contains(k),
        k != write_guard_key(),
    ensures
        vget(permission_writes(ps, sel), k) is None,
{
    lemma_permission_write_keys(ps, sel);
    let w = permission_writes(ps, sel);
    assert forall|l: int| 0 <= l < w.len() implies w[l].0 != k by {
        assert(permission_keys(ps).contains(w[l].0) || w[l].0 == write_guard_key());
    }
    lemma_vget_none(w, k);
}

/// A key held by no feature is not among the feature writes.
proof fn lemma_feature_writes_other(
    fs: Seq<FeatureV>,
    checked: Seq<bool>,
    platform: PlatformKind,
    k: Seq<char>,
)
    requires
        !feature_keys(fs).contains(k),
    ensures
        vget(feature_writes(fs, checked, platform), k) is None,
{
    lemma_feature_write_keys(fs, checked, platform);
    let w = feature_writes(fs, checked, platform);
    assert forall|l: int| 0 <= l < w.len() implies w[l].0 != k by {
        assert(feature_keys(fs).contains(w[l].0));
    }
    lemma_vget_none(w, k);
}

/// Applying a state and reading back what was written gives the state back:
/// when the payload holds what the state's plan writes (a later write of a
/// key replacing an earlier one), the state it shows is the state itself,
/// for every state that `state_restorable` admits.
pub proof fn law_payload_round_trip(
    c: CatalogV,
    s: UiState,
    platform: PlatformKind,
    payload: Payload,
    restored: UiState,
)
    requires
        state_restorable(c, s, platform),
        forall|k: Seq<char>| #[trigger] pval(payload, k) == vget(plan_writes(c, s, platform), k),
        shows(restored, c, payload, platform),
    ensures
        restored.checked@ == s.checked@,
        restored.permissions@ == s.permissions@,
        restored.safe_browsing == s.safe_browsing,
        restored.dns_mode == s.dns_mode,
        restored.dns_template@ == s.dns_template@,
{
    let fk = feature_keys(c.features);
    let pk = permission_keys(c.permissions);
    reveal_strlit("automatic");
    reveal_strlit("off");
    reveal_strlit("secure");
    reveal_strlit("Allow");
    reveal_strlit("Block");
    reveal_strlit("Ask");
    reveal_strlit("Not Set");
    reveal_strlit("DnsOverHttpsMode");
    reveal_strlit("DnsOverHttpsTemplates");
    reveal_strlit("SafeBrowsingProtectionLevel");
    reveal_strlit("DefaultFileSystemWriteGuardSetting");
    // features
    assert forall|i: int| 0 <= i < c.features.len() implies restored.checked@[i] == s.checked@[i] by {
        let k = fk[i];
        assert(k == c.features[i].key);
        assert(!is_special_key(k));
        assert(!pk.contains(k)) by {
            if pk.contains(k) {
                let j = choose|j: int| 0 <= j < pk.len() && pk[j] == k;
                assert(fk[i] != pk[j]);
            }
        }
        lemma_plan_get(c, s, platform, k);
        lemma_dns_writes_other(s.dns_mode, s.dns_template@, k);
        lemma_safe_browsing_writes_other(s.safe_browsing, k);
        lemma_permission_writes_other(c.permissions, s.permissions@, k);
        lemma_feature_writes_get(c.features, s.checked@, platform, i);
        assert(pval(payload, k) == vget(plan_writes(c, s, platform), k));
        assert forall|l: int| 0 <= l < i implies fk[l] != k by {}
        lemma_first_index_is(fk, k, i);
        if restored.checked@[i] {
            let j = choose|j: int|
                0 <= j < fk.len() && fk[j] == fk[i] && crate::payload::feature_shown(
                    #[trigger] c.features[j],
                    payload,
                    platform,
                );
            if j != i {
                if j < i {
                    assert(fk[j] != fk[i]);
                } else {
                    assert(fk[i] != fk[j]);
                }
            }
        } else {
            if s.checked@[i] {
                assert(crate::payload::feature_shown(c.features[i], payload, platform));
            }
        }
    }
    assert(restored.checked@ =~= s.checked@);
    // permissions
    assert forall|i: int| 0 <= i < c.permissions.len() implies restored.permissions@[i]
        == s.permissions@[i] by {
        let p = c.permissions[i];
        let k = pk[i];
        assert(k == p.key);
        assert(!is_special_key(k));
        assert(!fk.contains(k)) by {
            if fk.contains(k) {
                let j = choose|j: int| 0 <= j < fk.len() && fk[j] == k;
                assert(fk[j] != pk[i]);
            }
        }
        assert forall|j: int| 0 <= j < c.permissions.len() implies c.permissions[j].key
            != write_guard_key() by {
            assert(pk[j] == c.permissions[j].key);
            assert(!is_special_key(pk[j]));
        }
        lemma_plan_get(c, s, platform, k);
        lemma_dns_writes_other(s.dns_mode, s.dns_template@, k);
        lemma_safe_browsing_writes_other(s.safe_browsing, k);
        lemma_permission_writes_get(c.permissions, s.permissions@, i);
        lemma_feature_writes_other(c.features, s.checked@, platform, k);
        assert(pval(payload, k) == vget(plan_writes(c, s, platform), k));
        let sel = s.permissions@[i];
        assert(choice_restorable(p, sel));
        if (sel as int) < p.options.len() {
            let o = p.options[sel as int];
            assert(selected_option(p, s.permissions@, i) == Some(o));
            if o != not_set() {
                assert(shown_option(k, pval(payload, k)) == Some(o));
            }
        }
    }
    assert(restored.permissions@ =~= s.permissions@);
    // Safe Browsing
    let sbk = safe_browsing_key();
    assert(!fk.contains(sbk)) by {
        if fk.contains(sbk) {
            let j = choose|j: int| 0 <= j < fk.len() && fk[j] == sbk;
            assert(!is_special_key(fk[j]));
        }
    }
    assert(!pk.contains(sbk)) by {
        if pk.contains(sbk) {
            let j = choose|j: int| 0 <= j < pk.len() && pk[j] == sbk;
            assert(!is_special_key(pk[j]));
        }
    }
    lemma_plan_get(c, s, platform, sbk);
    assert(sbk.len() != dns_templates_key().len());
    assert(sbk.len() != dns_mode_key().len());
    assert(sbk.len() != write_guard_key().len());
    lemma_dns_writes_other(s.dns_mode, s.dns_template@, sbk);
    lemma_permission_writes_other(c.permissions, s.permissions@, sbk);
    lemma_feature_writes_other(c.features, s.checked@, platform, sbk);
    assert(pval(payload, sbk) == vget(plan_writes(c, s, platform), sbk));
    assert(restored.safe_browsing == s.safe_browsing);
    // DNS over HTTPS
    let mk = dns_mode_key();
    let tk = dns_templates_key();
    let t = s.dns_template@;
    lemma_plan_get(c, s, platform, mk);
    lemma_plan_get(c, s, platform, tk);
    assert(!fk.contains(tk)) by {
        if fk.contains(tk) {
            let j = choose|j: int| 0 <= j < fk.len() && fk[j] == tk;
            assert(!is_special_key(fk[j]));
        }
    }
    assert(!pk.contains(tk)) by {
        if pk.contains(tk) {
            let j = choose|j: int| 0 <= j < pk.len() && pk[j] == tk;
            assert(!is_special_key(pk[j]));
        }
    }
    lemma_safe_browsing_writes_other(s.safe_browsing, tk);
    lemma_permission_writes_other(c.permissions, s.permissions@, tk);
    lemma_feature_writes_other(c.features, s.checked@, platform, tk);
    assert(pval(payload, mk) == vget(plan_writes(c, s, platform), mk));
    assert(pval(payload, tk) == vget(plan_writes(c, s, platform), tk));
    assert(mk.len() != tk.len());
    assert("automatic"@.len() == 9);
    assert("off"@.len() == 3);
    assert("secure"@.len() == 6);
    assert("automatic"@ != "off"@);
    assert("automatic"@ != "secure"@);
    assert("off"@ != "secure"@);
    let dw = dns_writes(s.dns_mode, t);
    if s.dns_mode <= 2 {
        assert(t =~= Seq::<char>::empty());
        assert(trim_seq(t) =~= Seq::<char>::empty());
        assert(dw.len() == 1);
        assert(dw.last().0 == mk);
        assert(mk != tk);
        assert(vget(dw.drop_last(), tk) is None);
        assert(vget(dw, tk) is None);
        assert(pval(payload, tk) is None);
        if s.dns_mode == 0 {
            assert(vget(dw, mk) == Some(Val::Str("automatic"@)));
        } else if s.dns_mode == 1 {
            assert(vget(dw, mk) == Some(Val::Str("off"@)));
        } else {
            assert(vget(dw, mk) == Some(Val::Str("secure"@)));
            assert(!has_template(payload));
        }
    } else {
        assert(dw.len() == 2);
        assert(dw.last() == (tk, Val::Str(trim_seq(t))));
        assert(dw.drop_last() =~= seq![(mk, Val::Str("secure"@))]);
        assert(vget(dw, tk) == Some(Val::Str(t)));
        assert(vget(dw.drop_last(), mk) == Some(Val::Str("secure"@)));
        assert(vget(dw, mk) == Some(Val::Str("secure"@)));
        assert(pval(payload, tk) == Some(Val::Str(t)));
        assert(has_template(payload));
    }
    assert(restored.dns_mode == s.dns_mode);
    assert(restored.dns_template@ =~= s.dns_template@);
}

/// Each permission write is a boolean under the payment-method query key,
/// or a number from 1 to 3.
proof fn lemma_permission_write_values(ps: Seq<PermissionV>, sel: Seq<usize>)
    ensures
        forall|l: int|
            0 <= l < permission_writes(ps, sel).len() ==> ({
                let w = #[trigger] permission_writes(ps, sel)[l];
                (w.0 == payment_key() && w.1 is Bool) || (w.1 matches Val::Int(n) && 1 <= n <= 3)
            }),
    decreases ps.len(),
{
    if ps.len() > 0 {
        let n = ps.len() - 1;
        let d = ps.drop_last();
        lemma_permission_write_values(d, sel);
        let wd = permission_writes(d, sel);
        let e = match selected_option(ps[n], sel, n) {
            Some(o) => permission_entry_writes(ps[n], o),
            None => Seq::empty(),
        };
        let w = permission_writes(ps, sel);
        assert(w == wd + e);
        assert forall|l: int| 0 <= l < w.len() implies ({
            let x = #[trigger] w[l];
            (x.0 == payment_key() && x.1 is Bool) || (x.1 matches Val::Int(m) && 1 <= m <= 3)
        }) by {
            if l < wd.len() {
                assert(w[l] == wd[l]);
            } else {
                assert(w[l] == e[l - wd.len()]);
            }
        }
    }
}

/// A value a list of writes gives for a key is the value of one of them.
proof fn lemma_vget_from(ws: Seq<(Seq<char>, Val)>, k: Seq<char>)
    requires
        vget(ws, k) is Some,
    ensures
        exists|l: int| 0 <= l < ws.len() && ws[l].0 == k && ws[l].1 == vget(ws, k).unwrap(),
    decreases ws.len(),
{
    if ws.last().0 != k {
        lemma_vget_from(ws.drop_last(), k);
        let l = choose|l: int|
            0 <= l < ws.drop_last().len() && ws.drop_last()[l].0 == k && ws.drop_last()[l].1
                == vget(ws.drop_last(), k).unwrap();
        assert(ws[l] == ws.drop_last()[l]);
    } else {
        assert(ws[ws.len() - 1].0 == k);
    }
}

/// When the read guard's choice writes a value, the write guard is written
/// too.
proof fn lemma_write_guard_written(ps: Seq<PermissionV>, sel: Seq<usize>, i: int)
    requires
        0 <= i < ps.len(),
        ps[i].key == read_guard_key(),
        selected_option(ps[i], sel, i) matches Some(o) && o != not_set(),
    ensures
        vget(permission_writes(ps, sel), write_guard_key()) is Some,
    decreases ps.len(),
{
    let n = ps.len() - 1;
    let d = ps.drop_last();
    let wd = permission_writes(d, sel);
    let e = match selected_option(ps[n], sel, n) {
        Some(o) => permission_entry_writes(ps[n], o),
        None => Seq::empty(),
    };
    assert(permission_writes(ps, sel) == wd + e);
    lemma_vget_append(wd, e, write_guard_key());
    reveal_strlit("DefaultFileSystemReadGuardSetting");
    reveal_strlit("PaymentMethodQueryEnabled");
    assert(read_guard_key().len() != payment_key().len());
    if i == n {
        let o = selected_option(ps[n], sel, n).unwrap();
        assert(e == seq![(ps[n].key, Val::Int(option_code(o))), (write_guard_key(), Val::Int(option_code(o)))]);
        assert(e.last().0 == write_guard_key());
    } else {
        assert(d[i] == ps[i]);
        lemma_write_guard_written(d, sel, i);
    }
}

/// The DNS modes written are their own trimmed, lower-case form.
proof fn lemma_mode_words()
    ensures
        lower_seq(trim_seq("automatic"@)) == "automatic"@,
        lower_seq(trim_seq("off"@)) == "off"@,
        lower_seq(trim_seq("secure"@)) == "secure"@,
{
    reveal_strlit("automatic");
    reveal_strlit("off");
    reveal_strlit("secure");
    let words = seq!["automatic"@, "off"@, "secure"@];
    assert forall|j: int| 0 <= j < 3 implies lower_seq(trim_seq(#[trigger] words[j])) == words[j] by {
        let w = words[j];
        assert(!is_ws(w[0]));
        assert(trim_start_seq(w) == w);
        assert(!is_ws(w.last()));
        assert(trim_end_seq(w) == w);
        assert(lower_seq(w) =~= w);
    }
    assert(words[0] == "automatic"@);
    assert(words[1] == "off"@);
    assert(words[2] == "secure"@);
}

/// Reading back the values a state's plan wrote keeps each of them: what
/// is kept for a key, before the write guard is filled in, is what the plan
/// wrote for it.
proof fn lemma_kept_written(
    c: CatalogV,
    s: UiState,
    platform: PlatformKind,
    es: Seq<(String, RawValue)>,
    k: Seq<char>,
)
    requires
        state_restorable(c, s, platform),
        forall|x: Seq<char>| #[trigger] opt_raw(pget(es, x)) == vget(plan_writes(c, s, platform), x),
    ensures
        kept_value(c, es, k, platform) == vget(plan_writes(c, s, platform), k),
{
    let fk = feature_keys(c.features);
    let pk = permission_keys(c.permissions);
    let w = plan_writes(c, s, platform);
    let pw = permission_writes(c.permissions, s.permissions@);
    assert(opt_raw(pget(es, k)) == vget(w, k));
    reveal_strlit("DnsOverHttpsMode");
    reveal_strlit("DnsOverHttpsTemplates");
    reveal_strlit("SafeBrowsingProtectionLevel");
    reveal_strlit("DefaultFileSystemWriteGuardSetting");
    reveal_strlit("PaymentMethodQueryEnabled");
    assert(dns_mode_key().len() != dns_templates_key().len());
    assert(dns_mode_key().len() != safe_browsing_key().len());
    assert(dns_mode_key().len() != write_guard_key().len());
    assert(dns_templates_key().len() != safe_browsing_key().len());
    assert(dns_templates_key().len() != write_guard_key().len());
    assert(safe_browsing_key().len() != write_guard_key().len());
    lemma_plan_get(c, s, platform, k);
    lemma_first_index(fk, k);
    lemma_first_index(pk, k);
    match pget(es, k) {
        None => {},
        Some(r) => {
            let v = r@;
            assert(vget(w, k) == Some(v));
            if is_special_key(k) {
                assert(!fk.contains(k)) by {
                    if fk.contains(k) {
                        let j = choose|j: int| 0 <= j < fk.len() && fk[j] == k;
                        assert(!is_special_key(fk[j]));
                    }
                }
                assert(!pk.contains(k)) by {
                    if pk.contains(k) {
                        let j = choose|j: int| 0 <= j < pk.len() && pk[j] == k;
                        assert(!is_special_key(pk[j]));
                    }
                }
                assert(first_index(fk, k) is None);
                assert(first_index(pk, k) is None);
                if k == dns_mode_key() {
                    lemma_mode_words();
                    let dw = dns_writes(s.dns_mode, s.dns_template@);
                    if s.dns_mode <= 1 || trim_seq(s.dns_template@).len() == 0 {
                        assert(dw.len() == 1 && dw.last().0 == k);
                    } else {
                        assert(dw.drop_last() =~= seq![(k, Val::Str("secure"@))]);
                        assert(vget(dw.drop_last(), k) == Some(Val::Str("secure"@)));
                    }
                    assert(entry_verdict(c, k, v, platform) == Verdict::Keep(v));
                } else if k == dns_templates_key() {
                    lemma_safe_browsing_writes_other(s.safe_browsing, k);
                    lemma_permission_writes_other(c.permissions, s.permissions@, k);
                    lemma_feature_writes_other(c.features, s.checked@, platform, k);
                    let dw = dns_writes(s.dns_mode, s.dns_template@);
                    if s.dns_mode <= 1 || trim_seq(s.dns_template@).len() == 0 {
                        assert(dw.len() == 1 && dw.last().0 != k);
                        assert forall|l: int| 0 <= l < dw.len() implies dw[l].0 != k by {}
                        lemma_vget_none(dw, k);
                    } else {
                        assert(vget(dw, k) == Some(Val::Str(trim_seq(s.dns_template@))));
                    }
                    assert(entry_verdict(c, k, v, platform) == Verdict::Keep(v));
                } else {
                    lemma_dns_writes_other(s.dns_mode, s.dns_template@, k);
                    if k == write_guard_key() {
                        lemma_safe_browsing_writes_other(s.safe_browsing, k);
                        lemma_feature_writes_other(c.features, s.checked@, platform, k);
                        assert(vget(pw, k) == Some(v));
                        lemma_vget_from(pw, k);
                        lemma_permission_write_values(c.permissions, s.permissions@);
                        let l = choose|l: int| 0 <= l < pw.len() && pw[l].0 == k && pw[l].1 == v;
                        assert(pw[l].0 == k);
                        assert(entry_verdict(c, k, v, platform) == Verdict::Keep(v));
                    } else {
                        assert(k == safe_browsing_key());
                        lemma_permission_writes_other(c.permissions, s.permissions@, k);
                        lemma_feature_writes_other(c.features, s.checked@, platform, k);
                        let sbw = safe_browsing_writes(s.safe_browsing);
                        match s.safe_browsing {
                            Some(i) => {
                                assert(sbw.len() == 1 && sbw.last().0 == k);
                                assert(v == sbw.last().1);
                            },
                            None => {
                                assert(sbw =~= Seq::<(Seq<char>, Val)>::empty());
                            },
                        }
                        assert(entry_verdict(c, k, v, platform) == Verdict::Keep(v));
                    }
                }
            } else if fk.contains(k) {
                let fi = first_index(fk, k).unwrap();
                assert(!pk.contains(k)) by {
                    if pk.contains(k) {
                        let j = choose|j: int| 0 <= j < pk.len() && pk[j] == k;
                        assert(fk[fi] != pk[j]);
                    }
                }
                lemma_dns_writes_other(s.dns_mode, s.dns_template@, k);
                lemma_safe_browsing_writes_other(s.safe_browsing, k);
                lemma_permission_writes_other(c.permissions, s.permissions@, k);
                lemma_feature_writes_get(c.features, s.checked@, platform, fi);
                assert(c.features[fi].key == k);
                assert(entry_verdict(c, k, v, platform) == Verdict::Keep(v));
            } else if pk.contains(k) {
                let pi = first_index(pk, k).unwrap();
                assert(first_index(fk, k) is None);
                assert forall|j: int| 0 <= j < c.permissions.len() implies c.permissions[j].key
                    != write_guard_key() by {
                    assert(pk[j] == c.permissions[j].key);
                    assert(!is_special_key(pk[j]));
                }
                lemma_dns_writes_other(s.dns_mode, s.dns_template@, k);
                lemma_safe_browsing_writes_other(s.safe_browsing, k);
                lemma_permission_writes_get(c.permissions, s.permissions@, pi);
                assert(c.permissions[pi].key == k);
                lemma_feature_writes_other(c.features, s.checked@, platform, k);
                lemma_vget_from(pw, k);
                lemma_permission_write_values(c.permissions, s.permissions@);
                let l = choose|l: int| 0 <= l < pw.len() && pw[l].0 == k && pw[l].1 == v;
                assert(pw[l].0 == k);
                assert(entry_verdict(c, k, v, platform) == Verdict::Keep(v));
            } else {
                lemma_dns_writes_other(s.dns_mode, s.dns_template@, k);
                lemma_safe_browsing_writes_other(s.safe_browsing, k);
                lemma_permission_writes_other(c.permissions, s.permissions@, k);
                lemma_feature_writes_other(c.features, s.checked@, platform, k);
            }
        },
    }
}

/// Checking the values that a state's plan wrote, as they are read back,
/// gives the written payload again: each key keeps exactly the value
/// written for it, for every state that `state_restorable` admits in a
/// catalog without a feature under the file-system read guard's key.
pub proof fn law_sanitize_keeps_written_values(
    c: CatalogV,
    s: UiState,
    platform: PlatformKind,
    raw: RawPayload,
    k: Seq<char>,
)
    requires
        state_restorable(c, s, platform),
        !feature_keys(c.features).contains(read_guard_key()),
        forall|x: Seq<char>| #[trigger] opt_raw(raw.spec_get(x)) == vget(plan_writes(c, s, platform), x),
    ensures
        sanitized_value(c, raw.entries_view(), k, platform) == vget(plan_writes(c, s, platform), k),
{
    let es = raw.entries_view();
    let w = plan_writes(c, s, platform);
    assert forall|x: Seq<char>| #[trigger] opt_raw(pget(es, x)) == vget(w, x) by {
        assert(opt_raw(raw.spec_get(x)) == vget(w, x));
    }
    lemma_kept_written(c, s, platform, es, k);
    if k == write_guard_key() && kept_value(c, es, k, platform) is None {
        lemma_kept_written(c, s, platform, es, read_guard_key());
        let pk = permission_keys(c.permissions);
        let fk = feature_keys(c.features);
        let rg = read_guard_key();
        reveal_strlit("DnsOverHttpsMode");
        reveal_strlit("DnsOverHttpsTemplates");
        reveal_strlit("SafeBrowsingProtectionLevel");
        reveal_strlit("DefaultFileSystemReadGuardSetting");
        reveal_strlit("DefaultFileSystemWriteGuardSetting");
        assert(rg.len() != dns_mode_key().len());
        assert(rg.len() != dns_templates_key().len());
        assert(rg.len() != safe_browsing_key().len());
        assert(rg.len() != write_guard_key().len());
        lemma_plan_get(c, s, platform, rg);
        lemma_plan_get(c, s, platform, k);
        lemma_dns_writes_other(s.dns_mode, s.dns_template@, rg);
        lemma_safe_browsing_writes_other(s.safe_browsing, rg);
        lemma_feature_writes_other(c.features, s.checked@, platform, rg);
        lemma_dns_writes_other(s.dns_mode, s.dns_template@, k);
        lemma_safe_browsing_writes_other(s.safe_browsing, k);
        if pk.contains(rg) {
            lemma_first_index(pk, rg);
            let pi = first_index(pk, rg).unwrap();
            assert forall|j: int| 0 <= j < c.permissions.len() implies c.permissions[j].key
                != write_guard_key() by {
                assert(pk[j] == c.permissions[j].key);
                assert(!is_special_key(pk[j]));
            }
            lemma_permission_writes_get(c.permissions, s.permissions@, pi);
            assert(c.permissions[pi].key == rg);
            match selected_option(c.permissions[pi], s.permissions@, pi) {
                Some(o) => {
                    if o != not_set() {
                        lemma_write_guard_written(c.permissions, s.permissions@, pi);
                    }
                },
                None => {},
            }
        } else {
            lemma_permission_writes_other(c.permissions, s.permissions@, rg);
        }
    }
}

/// Applying a state, reading back what was written and checking it gives
/// the state back: the state that the checked payload shows is the state
/// itself, for every state that `state_restorable` admits in a catalog
/// without a feature under the file-system read guard's key.
pub proof fn law_read_back_round_trip(
    c: CatalogV,
    s: UiState,
    platform: PlatformKind,
    raw: RawPayload,
    payload: Payload,
    restored: UiState,
)
    requires
        state_restorable(c, s, platform),
        !feature_keys(c.features).contains(read_guard_key()),
        forall|x: Seq<char>| #[trigger] opt_raw(raw.spec_get(x)) == vget(plan_writes(c, s, platform), x),
        forall|x: Seq<char>| #[trigger] pval(payload, x) == sanitized_value(c, raw.entries_view(), x, platform),
        shows(restored, c, payload, platform),
    ensures
        restored.checked@ == s.checked@,
        restored.permissions@ == s.permissions@,
        restored.safe_browsing == s.safe_browsing,
        restored.dns_mode == s.dns_mode,
        restored.dns_template@ == s.dns_template@,
{
    assert forall|x: Seq<char>| #[trigger] pval(payload, x) == vget(plan_writes(c, s, platform), x) by {
        law_sanitize_keeps_written_values(c, s, platform, raw, x);
    }
    law_payload_round_trip(c, s, platform, payload, restored);
}

} // verus!

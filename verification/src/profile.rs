//! Property-list values and the macOS configuration profile that forces a
//! payload of policies on a browser's preference domain.

use vstd::prelude::*;

use crate::catalog::Val;
use crate::platform::{plist_raw, plist_text};
use crate::keymap::KeyMap;
use crate::payload::{Payload, WriteValue};
use crate::text::{append_chars, chars_of, copy_string, copy_strings, owned, string_of};

verus! {

/// A property-list value; dictionaries keep their entries in order.
pub enum PlistValue {
    Boolean(bool),
    Integer(i128),
    String(String),
    Array(Vec<PlistValue>),
    Dictionary(Vec<(String, PlistValue)>),
    Other,
}

/// The mathematical content of a property-list value.
pub enum PlistV {
    Boolean(bool),
    Integer(int),
    Str(Seq<char>),
    Array(Seq<PlistV>),
    Dict(Seq<(Seq<char>, PlistV)>),
    Other,
}

/// The content of a property-list value.
pub open spec fn plist_view(v: PlistValue) -> PlistV
    decreases v,
{
    match v {
        PlistValue::Boolean(b) => PlistV::Boolean(b),
        PlistValue::Integer(i) => PlistV::Integer(i as int),
        PlistValue::String(s) => PlistV::Str(s@),
        PlistValue::Array(items) => PlistV::Array(plist_seq_view(items@)),
        PlistValue::Dictionary(entries) => PlistV::Dict(plist_dict_view(entries@)),
        PlistValue::Other => PlistV::Other,
    }
}

/// The contents of a list of property-list values.
pub open spec fn plist_seq_view(s: Seq<PlistValue>) -> Seq<PlistV>
    decreases s,
{
    if s.len() == 0 {
        Seq::empty()
    } else {
        plist_seq_view(s.drop_last()).push(plist_view(s.last()))
    }
}

/// The contents of dictionary entries.
pub open spec fn plist_dict_view(s: Seq<(String, PlistValue)>) -> Seq<(Seq<char>, PlistV)>
    decreases s,
{
    if s.len() == 0 {
        Seq::empty()
    } else {
        plist_dict_view(s.drop_last()).push((s.last().0@, plist_view(s.last().1)))
    }
}


/// Appends an entry to a dictionary under construction.
fn dict_push(d: &mut Vec<(String, PlistValue)>, key: String, v: PlistValue)
    ensures
        plist_dict_view(final(d)@) == plist_dict_view(old(d)@).push((key@, plist_view(v))),
{
    let ghost k = key@;
    let ghost pv = plist_view(v);
    let ghost before = d@;
    d.push((key, v));
    assert(d@.drop_last() =~= before);
}

/// Appends a value to an array under construction.
fn array_push(a: &mut Vec<PlistValue>, v: PlistValue)
    ensures
        plist_seq_view(final(a)@) == plist_seq_view(old(a)@).push(plist_view(v)),
{
    let ghost before = a@;
    a.push(v);
    assert(a@.drop_last() =~= before);
}

/// The property-list form of a policy value: arrays hold strings.
pub open spec fn value_plist(v: Val) -> PlistV {
    match v {
        Val::Bool(b) => PlistV::Boolean(b),
        Val::Int(i) => PlistV::Integer(i as int),
        Val::Str(s) => PlistV::Str(s),
        Val::Array(a) => PlistV::Array(Seq::new(a.len(), |j: int| PlistV::Str(a[j]))),
    }
}

/// The property-list form of a policy value.
pub fn to_plist_value(value: &WriteValue) -> (r: PlistValue)
    ensures
        plist_view(r) == value_plist(value@),
{
    match value {
        WriteValue::Bool(b) => PlistValue::Boolean(*b),
        WriteValue::Int(i) => PlistValue::Integer(*i as i128),
        WriteValue::Str(t) => PlistValue::String(copy_string(t)),
        WriteValue::Array(items) => {
            let mut out: Vec<PlistValue> = Vec::new();
            let mut j: usize = 0;
            assert(plist_seq_view(out@) =~= Seq::<PlistV>::empty());
            while j < items.len()
                invariant
                    j <= items@.len(),
                    plist_seq_view(out@) == Seq::new(j as nat, |m: int| PlistV::Str(items@[m]@)),
                decreases items@.len() - j,
            {
                array_push(&mut out, PlistValue::String(copy_string(&items[j])));
                assert(plist_seq_view(out@) =~= Seq::new((j + 1) as nat, |m: int| PlistV::Str(items@[m]@)));
                j = j + 1;
            }
            assert(Seq::new(j as nat, |m: int| PlistV::Str(items@[m]@)) =~= Seq::new(
                items.deep_view().len(),
                |m: int| PlistV::Str(items.deep_view()[m]),
            ));
            PlistValue::Array(out)
        },
    }
}

/// The identifier of the profile for a preference domain.
pub open spec fn profile_identifier_of(domain: Seq<char>) -> Seq<char> {
    "com.slimbrave.profile."@ + domain
}

/// The identifier of the profile for a preference domain.
pub fn profile_identifier(domain: &str) -> (r: String)
    ensures
        r@ == profile_identifier_of(domain@),
{
    let mut v = chars_of("com.slimbrave.profile.");
    let d = chars_of(domain);
    append_chars(&mut v, d.as_slice());
    string_of(v.as_slice())
}

/// The text of the version 5 UUID of `name` in the DNS namespace, as `uuid`
/// formats it (hyphenated lower-case hexadecimal).
pub uninterp spec fn uuid_v5_text(name: Seq<char>) -> Seq<char>;

/// `uuid::Uuid::new_v5(&Uuid::NAMESPACE_DNS, name)`, formatted: the
/// name-based (SHA-1) UUID of the UTF-8 bytes of `name`; the text is named
/// by `uuid_v5_text`.
#[verifier::external_body]
fn uuid_v5_dns(name: &str) -> (r: String)
    ensures
        r@ == uuid_v5_text(name@),
{
    uuid::Uuid::new_v5(&uuid::Uuid::NAMESPACE_DNS, name.as_bytes()).to_string()
}

/// The upper-case form of an ASCII letter; other characters are unchanged.
pub open spec fn ascii_upper(c: char) -> char {
    if 'a' <= c && c <= 'z' {
        ((c as u32) - 32) as char
    } else {
        c
    }
}

/// `s` with ASCII letters in upper case.
pub open spec fn upper_seq(s: Seq<char>) -> Seq<char> {
    s.map_values(|c: char| ascii_upper(c))
}

/// ASCII upper-casing of a text.
fn to_upper(s: &String) -> (r: String)
    ensures
        r@ == upper_seq(s@),
{
    let v = chars_of(s.as_str());
    let mut out: Vec<char> = Vec::new();
    let mut i: usize = 0;
    while i < v.len()
        invariant
            i <= v@.len(),
            v@ == s@,
            out@ == upper_seq(v@.take(i as int)),
        decreases v@.len() - i,
    {
        let c = v[i];
        let u = if 'a' <= c && c <= 'z' {
            ((c as u8) - 32) as char
        } else {
            c
        };
        out.push(u);
        assert(upper_seq(v@.take(i + 1)) =~= upper_seq(v@.take(i as int)).push(ascii_upper(c)));
        i = i + 1;
    }
    assert(v@.take(i as int) =~= v@);
    string_of(out.as_slice())
}

/// The stable identifier of a name: its DNS-namespace version 5 UUID in
/// upper case.
pub open spec fn stable_uuid_of(identifier: Seq<char>) -> Seq<char> {
    upper_seq(uuid_v5_text(identifier))
}

/// The stable identifier of a name.
pub fn stable_uuid(identifier: &str) -> (r: String)
    ensures
        r@ == stable_uuid_of(identifier@),
{
    let u = uuid_v5_dns(identifier);
    to_upper(&u)
}


/// The forced preference settings of a payload, in key order.
pub open spec fn mcx_settings(es: Seq<(String, WriteValue)>) -> PlistV {
    PlistV::Dict(Seq::new(es.len(), |i: int| (es[i].0@, value_plist(es[i].1@))))
}

/// The configuration profile that forces the payload entries `es` on the
/// preference domain `domain`: a system-scope `Configuration` profile
/// identified by the domain, holding one managed-preferences payload with
/// the settings under `Forced`, and upper-case name-based UUIDs of the two
/// identifiers.
pub open spec fn mobileconfig(domain: Seq<char>, es: Seq<(String, WriteValue)>) -> PlistV {
    let id = profile_identifier_of(domain);
    let payload_id = id + ".payload"@;
    let forced = PlistV::Dict(seq![("mcx_preference_settings"@, mcx_settings(es))]);
    let domain_content = PlistV::Dict(
        seq![(domain, PlistV::Dict(seq![("Forced"@, PlistV::Array(seq![forced]))]))],
    );
    let main = PlistV::Dict(
        seq![
            ("PayloadType"@, PlistV::Str("com.apple.ManagedClient.preferences"@)),
            ("PayloadVersion"@, PlistV::Integer(1)),
            ("PayloadIdentifier"@, PlistV::Str(payload_id)),
            ("PayloadUUID"@, PlistV::Str(stable_uuid_of(payload_id))),
            ("PayloadEnabled"@, PlistV::Boolean(true)),
            ("PayloadContent"@, domain_content),
        ],
    );
    PlistV::Dict(
        seq![
            ("PayloadContent"@, PlistV::Array(seq![main])),
            ("PayloadDisplayName"@, PlistV::Str("SlimBrave Policy ("@ + domain + ")"@)),
            ("PayloadIdentifier"@, PlistV::Str(id)),
            ("PayloadType"@, PlistV::Str("Configuration"@)),
            ("PayloadUUID"@, PlistV::Str(stable_uuid_of(id))),
            ("PayloadVersion"@, PlistV::Integer(1)),
            ("PayloadScope"@, PlistV::Str("System"@)),
        ],
    )
}

/// A text made of three parts.
fn concat3(a: &str, b: &str, c: &str) -> (r: String)
    ensures
        r@ == a@ + b@ + c@,
{
    let mut v = chars_of(a);
    let bv = chars_of(b);
    let cv = chars_of(c);
    append_chars(&mut v, bv.as_slice());
    append_chars(&mut v, cv.as_slice());
    string_of(v.as_slice())
}

/// The configuration profile that forces `payload` on `domain` (see
/// `mobileconfig`).
pub fn build_mobileconfig(domain: &str, payload: &Payload) -> (r: PlistValue)
    ensures
        plist_view(r) == mobileconfig(domain@, payload.entries_view()),
{
    let identifier = profile_identifier(domain);
    let mut pid = chars_of(identifier.as_str());
    let suffix = chars_of(".payload");
    append_chars(&mut pid, suffix.as_slice());
    let payload_id = string_of(pid.as_slice());
    let profile_uuid = stable_uuid(identifier.as_str());
    let payload_uuid = stable_uuid(payload_id.as_str());
    let es = payload.entries();
    let mut mcx: Vec<(String, PlistValue)> = Vec::new();
    let mut i: usize = 0;
    assert(plist_dict_view(mcx@) =~= Seq::<(Seq<char>, PlistV)>::empty());
    while i < es.len()
        invariant
            i <= es@.len(),
            es@ == payload.entries_view(),
            plist_dict_view(mcx@) == Seq::new(i as nat, |m: int| (es@[m].0@, value_plist(es@[m].1@))),
        decreases es@.len() - i,
    {
        let v = to_plist_value(&es[i].1);
        dict_push(&mut mcx, copy_string(&es[i].0), v);
        assert(plist_dict_view(mcx@) =~= Seq::new((i + 1) as nat, |m: int| (es@[m].0@, value_plist(es@[m].1@))));
        i = i + 1;
    }
    let ghost ev = payload.entries_view();
    assert(plist_dict_view(mcx@) =~= Seq::new(ev.len(), |m: int| (ev[m].0@, value_plist(ev[m].1@))));
    let ghost mcx_v = mcx_settings(ev);
    let mut forced: Vec<(String, PlistValue)> = Vec::new();
    proof {
        assert(plist_dict_view(forced@) =~= Seq::<(Seq<char>, PlistV)>::empty());
    }
    dict_push(&mut forced, owned("mcx_preference_settings"), PlistValue::Dictionary(mcx));
    assert(plist_dict_view(forced@) =~= seq![("mcx_preference_settings"@, mcx_v)]);
    let ghost forced_v = PlistV::Dict(seq![("mcx_preference_settings"@, mcx_v)]);
    let mut forced_list: Vec<PlistValue> = Vec::new();
    proof {
        assert(plist_seq_view(forced_list@) =~= Seq::<PlistV>::empty());
    }
    array_push(&mut forced_list, PlistValue::Dictionary(forced));
    assert(plist_seq_view(forced_list@) =~= seq![forced_v]);
    let mut domain_dict: Vec<(String, PlistValue)> = Vec::new();
    proof {
        assert(plist_dict_view(domain_dict@) =~= Seq::<(Seq<char>, PlistV)>::empty());
    }
    dict_push(&mut domain_dict, owned("Forced"), PlistValue::Array(forced_list));
    assert(plist_dict_view(domain_dict@) =~= seq![("Forced"@, PlistV::Array(seq![forced_v]))]);
    let ghost dd_v = PlistV::Dict(seq![("Forced"@, PlistV::Array(seq![forced_v]))]);
    let mut domain_content: Vec<(String, PlistValue)> = Vec::new();
    proof {
        assert(plist_dict_view(domain_content@) =~= Seq::<(Seq<char>, PlistV)>::empty());
    }
    dict_push(&mut domain_content, owned(domain), PlistValue::Dictionary(domain_dict));
    assert(plist_dict_view(domain_content@) =~= seq![(domain@, dd_v)]);
    let ghost dc_v = PlistV::Dict(seq![(domain@, dd_v)]);
    let ghost pid = payload_id@;
    let ghost puid = payload_uuid@;
    let mut main: Vec<(String, PlistValue)> = Vec::new();
    proof {
        assert(plist_dict_view(main@) =~= Seq::<(Seq<char>, PlistV)>::empty());
    }
    dict_push(&mut main, owned("PayloadType"), PlistValue::String(owned("com.apple.ManagedClient.preferences")));
    dict_push(&mut main, owned("PayloadVersion"), PlistValue::Integer(1));
    dict_push(&mut main, owned("PayloadIdentifier"), PlistValue::String(payload_id));
    dict_push(&mut main, owned("PayloadUUID"), PlistValue::String(payload_uuid));
    dict_push(&mut main, owned("PayloadEnabled"), PlistValue::Boolean(true));
    dict_push(&mut main, owned("PayloadContent"), PlistValue::Dictionary(domain_content));
    let ghost main_entries = seq![
        ("PayloadType"@, PlistV::Str("com.apple.ManagedClient.preferences"@)),
        ("PayloadVersion"@, PlistV::Integer(1)),
        ("PayloadIdentifier"@, PlistV::Str(pid)),
        ("PayloadUUID"@, PlistV::Str(puid)),
        ("PayloadEnabled"@, PlistV::Boolean(true)),
        ("PayloadContent"@, dc_v),
    ];
    assert(plist_dict_view(main@) =~= main_entries);
    let ghost main_v = PlistV::Dict(main_entries);
    let mut content: Vec<PlistValue> = Vec::new();
    proof {
        assert(plist_seq_view(content@) =~= Seq::<PlistV>::empty());
    }
    array_push(&mut content, PlistValue::Dictionary(main));
    assert(plist_seq_view(content@) =~= seq![main_v]);
    let ghost id = identifier@;
    let ghost uid = profile_uuid@;
    let display = concat3("SlimBrave Policy (", domain, ")");
    let ghost dn = display@;
    let mut root: Vec<(String, PlistValue)> = Vec::new();
    proof {
        assert(plist_dict_view(root@) =~= Seq::<(Seq<char>, PlistV)>::empty());
    }
    dict_push(&mut root, owned("PayloadContent"), PlistValue::Array(content));
    dict_push(&mut root, owned("PayloadDisplayName"), PlistValue::String(display));
    dict_push(&mut root, owned("PayloadIdentifier"), PlistValue::String(identifier));
    dict_push(&mut root, owned("PayloadType"), PlistValue::String(owned("Configuration")));
    dict_push(&mut root, owned("PayloadUUID"), PlistValue::String(profile_uuid));
    dict_push(&mut root, owned("PayloadVersion"), PlistValue::Integer(1));
    dict_push(&mut root, owned("PayloadScope"), PlistValue::String(owned("System")));
    assert(plist_dict_view(root@) =~= seq![
        ("PayloadContent"@, PlistV::Array(seq![main_v])),
        ("PayloadDisplayName"@, PlistV::Str(dn)),
        ("PayloadIdentifier"@, PlistV::Str(id)),
        ("PayloadType"@, PlistV::Str("Configuration"@)),
        ("PayloadUUID"@, PlistV::Str(uid)),
        ("PayloadVersion"@, PlistV::Integer(1)),
        ("PayloadScope"@, PlistV::Str("System"@)),
    ]);
    let r = PlistValue::Dictionary(root);
    assert(plist_view(r) == mobileconfig(domain@, payload.entries_view()));
    r
}


/// A policy value written into a property list reads back as the same
/// value: booleans stay the same boolean, numbers the same number, texts
/// and lists of texts the same texts.
pub proof fn law_plist_value_round_trip(v: Val)
    ensures
        plist_raw(value_plist(v)) == Some(v),
{
    match v {
        Val::Array(a) => {
            let items = Seq::new(a.len(), |j: int| PlistV::Str(a[j]));
            assert(Seq::new(items.len(), |j: int| plist_text(items[j])) =~= a);
        },
        _ => {},
    }
}

/// The entry at `i` of a dictionary (an empty key and `Other` for anything
/// else).
pub open spec fn dict_entry(v: PlistV, i: int) -> (Seq<char>, PlistV) {
    match v {
        PlistV::Dict(d) => if 0 <= i < d.len() {
            d[i]
        } else {
            (Seq::empty(), PlistV::Other)
        },
        _ => (Seq::empty(), PlistV::Other),
    }
}

/// The item at `i` of an array (`Other` for anything else).
pub open spec fn array_item(v: PlistV, i: int) -> PlistV {
    match v {
        PlistV::Array(a) => if 0 <= i < a.len() {
            a[i]
        } else {
            PlistV::Other
        },
        _ => PlistV::Other,
    }
}

/// The profile forces each payload entry under `mcx_preference_settings`
/// of the domain's `Forced` settings, in payload order, with a value that
/// reads back as the payload's own value.
pub proof fn law_profile_forces_each_payload_value(
    domain: Seq<char>,
    es: Seq<(String, WriteValue)>,
    i: int,
)
    requires
        0 <= i < es.len(),
    ensures
        ({
            let top = mobileconfig(domain, es);
            let main = array_item(dict_entry(top, 0).1, 0);
            let domains = dict_entry(main, 5).1;
            let forced = array_item(dict_entry(dict_entry(domains, 0).1, 0).1, 0);
            let settings = dict_entry(forced, 0).1;
            &&& dict_entry(top, 0).0 == "PayloadContent"@
            &&& dict_entry(main, 5).0 == "PayloadContent"@
            &&& dict_entry(domains, 0).0 == domain
            &&& dict_entry(dict_entry(domains, 0).1, 0).0 == "Forced"@
            &&& dict_entry(forced, 0).0 == "mcx_preference_settings"@
            &&& settings matches PlistV::Dict(d) && d.len() == es.len()
            &&& dict_entry(settings, i).0 == es[i].0@
            &&& plist_raw(dict_entry(settings, i).1) == Some(es[i].1@)
        }),
{
    law_plist_value_round_trip(es[i].1@);
}

} // verus!

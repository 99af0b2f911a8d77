//! The interface languages, the message identifiers that localized texts
//! are looked up by, and the lookup of those texts in Fluent translation
//! files.

use vstd::prelude::*;

use crate::catalog::{opt_text, opt_texts};
use crate::split::{before_char, split_char};
use crate::text::{append_chars, chars_of, owned, str_eq, string_of};
use fluent::{FluentArgs, FluentBundle, FluentResource};
use fluent_langneg::{negotiate_languages, NegotiationStrategy};
use unic_langid::LanguageIdentifier;

verus! {

/// An interface language.
#[derive(Clone, Copy, PartialEq, Eq, Debug, Structural)]
pub enum Lang {
    En,
    Zh,
}

/// The language tag of a language.
pub open spec fn lang_tag(l: Lang) -> Seq<char> {
    match l {
        Lang::En => "en"@,
        Lang::Zh => "zh"@,
    }
}

impl Lang {
    /// The name of the language in itself.
    pub fn label(self) -> (r: &'static str)
        ensures
            r@ == match self {
                Lang::En => "English"@,
                Lang::Zh => "中文"@,
            },
    {
        match self {
            Lang::En => "English",
            Lang::Zh => "中文",
        }
    }

    /// Every language, English first.
    pub fn all() -> (r: [Lang; 2])
        ensures
            r@ == seq![Lang::En, Lang::Zh],
    {
        let r = [Lang::En, Lang::Zh];
        assert(r@ =~= seq![Lang::En, Lang::Zh]);
        r
    }

    /// The language tag of the language.
    pub fn tag(self) -> (r: &'static str)
        ensures
            r@ == lang_tag(self),
    {
        match self {
            Lang::En => "en",
            Lang::Zh => "zh",
        }
    }
}

/// The message identifier of an option name; other names are their own
/// identifier.
pub open spec fn option_message(option: Seq<char>) -> Seq<char> {
    if option == "Not Set"@ {
        "option-not-set"@
    } else if option == "Ask"@ {
        "option-ask"@
    } else if option == "Block"@ {
        "option-block"@
    } else if option == "Allow"@ {
        "option-allow"@
    } else if option == "On"@ {
        "option-on"@
    } else if option == "Off"@ {
        "option-off"@
    } else if option == "Automatic"@ {
        "option-automatic"@
    } else if option == "Secure"@ {
        "option-secure"@
    } else if option == "Custom"@ {
        "option-custom"@
    } else {
        option
    }
}

/// The message identifier of an option name.
pub fn option_key(option: &str) -> (r: String)
    ensures
        r@ == option_message(option@),
{
    let k: &str = if str_eq(option, "Not Set") {
        "option-not-set"
    } else if str_eq(option, "Ask") {
        "option-ask"
    } else if str_eq(option, "Block") {
        "option-block"
    } else if str_eq(option, "Allow") {
        "option-allow"
    } else if str_eq(option, "On") {
        "option-on"
    } else if str_eq(option, "Off") {
        "option-off"
    } else if str_eq(option, "Automatic") {
        "option-automatic"
    } else if str_eq(option, "Secure") {
        "option-secure"
    } else if str_eq(option, "Custom") {
        "option-custom"
    } else {
        option
    };
    crate::text::owned(k)
}

/// The message identifier of the suggestion note for a feature's preset
/// flags.
pub fn suggestion_key(privacy: bool, security: bool) -> (r: &'static str)
    ensures
        r@ == if privacy && security {
            "suggestion-tt"@
        } else if privacy {
            "suggestion-tf"@
        } else if security {
            "suggestion-ft"@
        } else {
            "suggestion-ff"@
        },
{
    if privacy && security {
        "suggestion-tt"
    } else if privacy {
        "suggestion-tf"
    } else if security {
        "suggestion-ft"
    } else {
        "suggestion-ff"
    }
}

/// A message identifier made of a prefix and a key.
pub fn message_id(prefix: &str, key: &str) -> (r: String)
    ensures
        r@ == prefix@ + key@,
{
    let mut v = chars_of(prefix);
    let k = chars_of(key);
    append_chars(&mut v, k.as_slice());
    string_of(v.as_slice())
}

/// The language tag that a locale setting such as `zh_CN.UTF-8` asks for:
/// the part before the first `.`, with `_` written as `-`.
pub open spec fn requested_tag_of(locale: Seq<char>) -> Seq<char> {
    before_char(locale, '.').map_values(|c: char| if c == '_' { '-' } else { c })
}

/// The language tag that a locale setting asks for.
pub fn requested_tag(locale: &str) -> (r: String)
    ensures
        r@ == requested_tag_of(locale@),
{
    let c = chars_of(locale);
    let parts = split_char(c.as_slice(), '.');
    proof {
        crate::split::lemma_split_char_len(c@, '.');
    }
    let first = &parts[0];
    assert(first@ == before_char(locale@, '.'));
    let mut out: Vec<char> = Vec::new();
    let mut i: usize = 0;
    while i < first.len()
        invariant
            i <= first@.len(),
            out@ == first@.take(i as int).map_values(|c: char| if c == '_' { '-' } else { c }),
        decreases first@.len() - i,
    {
        let ch = first[i];
        out.push(if ch == '_' { '-' } else { ch });
        assert(first@.take(i + 1).map_values(|c: char| if c == '_' { '-' } else { c })
            =~= first@.take(i as int).map_values(|c: char| if c == '_' { '-' } else { c }).push(
            if ch == '_' { '-' } else { ch },
        ));
        i = i + 1;
    }
    assert(first@.take(i as int) =~= first@);
    string_of(out.as_slice())
}

/// How requested languages are matched against the available ones
/// (`fluent_langneg::NegotiationStrategy`).
#[derive(Clone, Copy, PartialEq, Eq, Debug, Structural)]
pub enum Negotiation {
    Filtering,
    Matching,
    Lookup,
}

/// The language tags that negotiating the requested tag against the
/// available ones gives (with `default` as the default language and the
/// strategy `strategy`), in their written form; none when one of the tags is
/// not a language identifier.
pub uninterp spec fn negotiated_tags(
    requested: Seq<char>,
    available: Seq<Seq<char>>,
    default: Seq<char>,
    strategy: Negotiation,
) -> Option<Seq<Seq<char>>>;

/// Parses the tags as `unic_langid::LanguageIdentifier`s, runs
/// `fluent_langneg::negotiate_languages` with the one requested tag, the
/// available tags, the default and the strategy, and writes the negotiated
/// identifiers back as text. The result is named by `negotiated_tags`;
/// nothing more is claimed of it. A tag that does not parse gives none.
#[verifier::external_body]
fn negotiate(
    requested: &str,
    available: &Vec<String>,
    default: &str,
    strategy: Negotiation,
) -> (r: Option<Vec<String>>)
    ensures
        opt_texts(r) == negotiated_tags(requested@, available.deep_view(), default@, strategy),
{
    let requested = requested.parse::<LanguageIdentifier>().ok()?;
    let available = available.iter().map(|t| t.parse::<LanguageIdentifier>()).collect::<Result<Vec<_>, _>>().ok()?;
    let default = default.parse::<LanguageIdentifier>().ok()?;
    let strategy = match strategy {
        Negotiation::Filtering => NegotiationStrategy::Filtering,
        Negotiation::Matching => NegotiationStrategy::Matching,
        Negotiation::Lookup => NegotiationStrategy::Lookup,
    };
    let negotiated = negotiate_languages(std::slice::from_ref(&requested), &available, Some(&default), strategy);
    Some(negotiated.iter().map(|l| l.to_string()).collect())
}

/// The interface language that a negotiation result picks: Chinese when the
/// first negotiated tag is `zh`, else English.
pub open spec fn lang_of_tags(tags: Option<Seq<Seq<char>>>) -> Lang {
    match tags {
        Some(ts) => if ts.len() > 0 && ts[0] == "zh"@ {
            Lang::Zh
        } else {
            Lang::En
        },
        None => Lang::En,
    }
}

/// The interface language that a locale setting asks for: its language tag
/// negotiated against English and Chinese (English by default, with the
/// filtering strategy); English when there is no setting.
pub open spec fn locale_lang(locale: Option<Seq<char>>) -> Lang {
    match locale {
        Some(l) => lang_of_tags(
            negotiated_tags(
                requested_tag_of(l),
                seq!["en"@, "zh"@],
                "en"@,
                Negotiation::Filtering,
            ),
        ),
        None => Lang::En,
    }
}

/// The content of an optional text.
pub open spec fn opt_str(o: Option<&str>) -> Option<Seq<char>> {
    match o {
        Some(s) => Some(s@),
        None => None,
    }
}

/// The interface language that a negotiation result picks.
pub fn lang_of_negotiated(tags: &Option<Vec<String>>) -> (r: Lang)
    ensures
        r == lang_of_tags(opt_texts(*tags)),
{
    match tags {
        Some(ts) => {
            if ts.len() > 0 && str_eq(ts[0].as_str(), "zh") {
                Lang::Zh
            } else {
                Lang::En
            }
        },
        None => Lang::En,
    }
}

impl Lang {
    /// The interface language for a locale setting (such as the `LANG`
    /// variable): Chinese when the tag it asks for negotiates to Chinese
    /// first, else English; English when there is no setting.
    pub fn for_locale(locale: Option<&str>) -> (r: Lang)
        ensures
            r == locale_lang(opt_str(locale)),
    {
        match locale {
            Some(l) => {
                let tag = requested_tag(l);
                let available = vec![owned("en"), owned("zh")];
                assert(available.deep_view() =~= seq!["en"@, "zh"@]);
                let tags = negotiate(tag.as_str(), &available, "en", Negotiation::Filtering);
                lang_of_negotiated(&tags)
            },
            None => Lang::En,
        }
    }
}

// ---------------------------------------------------------------------------
// Fluent lookup
// ---------------------------------------------------------------------------

/// A value handed to a message: a text or a whole number.
pub enum MessageArg {
    Text(String),
    Number(i64),
}

/// The content of a message argument.
pub enum ArgValue {
    Text(Seq<char>),
    Number(i64),
}

impl View for MessageArg {
    type V = ArgValue;

    open spec fn view(&self) -> ArgValue {
        match self {
            MessageArg::Text(s) => ArgValue::Text(s@),
            MessageArg::Number(n) => ArgValue::Number(*n),
        }
    }
}

/// The content of named message arguments, in order.
pub open spec fn args_view(args: Seq<(String, MessageArg)>) -> Seq<(Seq<char>, ArgValue)> {
    args.map_values(|a: (String, MessageArg)| (a.0@, a.1@))
}

/// The text that the message `id` of the Fluent translation file `ftl`
/// formats to, for the language tagged `tag` and with the named arguments
/// `args`; none when the file holds no such message or the message has no
/// value.
pub uninterp spec fn fluent_message(
    ftl: Seq<char>,
    tag: Seq<char>,
    id: Seq<char>,
    args: Seq<(Seq<char>, ArgValue)>,
) -> Option<Seq<char>>;

/// Parses `tag` as a `unic_langid::LanguageIdentifier` and `ftl` with
/// `fluent::FluentResource::try_new`, adds the resource to a new
/// `fluent::FluentBundle` for that language, sets each argument in a
/// `fluent::FluentArgs`, looks the message `id` up with `get_message` and
/// `value`, and formats that pattern with `format_pattern` and the
/// arguments. The result is named by `fluent_message`; nothing more is
/// claimed of it. A tag that does not parse, a file with a syntax error and
/// a file that repeats a message identifier give none here (where a bundle
/// would be refused).
#[verifier::external_body]
pub(crate) fn format_message(
    ftl: &str,
    tag: &str,
    id: &str,
    args: &Vec<(String, MessageArg)>,
) -> (r: Option<String>)
    ensures
        opt_text(r) == fluent_message(ftl@, tag@, id@, args_view(args@)),
{
    let lang = tag.parse::<LanguageIdentifier>().ok()?;
    let resource = FluentResource::try_new(ftl.to_owned()).ok()?;
    let mut bundle = FluentBundle::new(vec![lang]);
    bundle.add_resource(resource).ok()?;
    let mut fluent_args = FluentArgs::new();
    for (name, value) in args {
        match value {
            MessageArg::Text(t) => fluent_args.set(name.as_str(), t.as_str()),
            MessageArg::Number(n) => fluent_args.set(name.as_str(), *n),
        }
    }
    let pattern = bundle.get_message(id)?.value()?;
    let mut errors = Vec::new();
    Some(bundle.format_pattern(pattern, Some(&fluent_args), &mut errors).into_owned())
}

/// No message arguments.
fn no_args() -> (r: Vec<(String, MessageArg)>)
    ensures
        args_view(r@) == Seq::<(Seq<char>, ArgValue)>::empty(),
{
    let r: Vec<(String, MessageArg)> = Vec::new();
    assert(args_view(r@) =~= Seq::<(Seq<char>, ArgValue)>::empty());
    r
}

/// The text shown for a message: the message's text where there is one,
/// else its identifier.
pub open spec fn text_or_id_of(found: Option<Seq<char>>, id: Seq<char>) -> Seq<char> {
    match found {
        Some(m) => m,
        None => id,
    }
}

/// The text shown for the message `id`, given what the lookup found: the
/// text found, else the identifier itself.
pub fn message_or_id(found: Option<String>, id: &str) -> (r: String)
    ensures
        r@ == text_or_id_of(opt_text(found), id@),
{
    match found {
        Some(m) => m,
        None => owned(id),
    }
}

/// The text of the message `id` in the translation file `ftl` for the
/// language tagged `tag`, falling back to `id` where there is none.
pub fn text_or_id(ftl: &str, tag: &str, id: &str) -> (r: String)
    ensures
        r@ == text_or_id_of(fluent_message(ftl@, tag@, id@, Seq::empty()), id@),
{
    let found = format_message(ftl, tag, id, &no_args());
    message_or_id(found, id)
}

/// Localized texts: the language in use and the Fluent translation file of
/// each language.
pub struct I18n {
    pub lang: Lang,
    pub en: String,
    pub zh: String,
}

impl I18n {
    /// The translation file of the language in use.
    pub open spec fn ftl_spec(&self) -> Seq<char> {
        match self.lang {
            Lang::En => self.en@,
            Lang::Zh => self.zh@,
        }
    }

    /// The text of message `id` in the language in use, or `id`.
    pub open spec fn text_spec(&self, id: Seq<char>) -> Seq<char> {
        text_or_id_of(fluent_message(self.ftl_spec(), lang_tag(self.lang), id, Seq::empty()), id)
    }

    /// The text of message `id` in the language in use, if any.
    pub open spec fn message_spec(&self, id: Seq<char>) -> Option<Seq<char>> {
        fluent_message(self.ftl_spec(), lang_tag(self.lang), id, Seq::empty())
    }

    /// Texts in `lang`, from the English and Chinese translation files.
    pub fn with_lang(lang: Lang, en: &str, zh: &str) -> (r: I18n)
        ensures
            r.lang == lang,
            r.en@ == en@,
            r.zh@ == zh@,
    {
        I18n { lang, en: owned(en), zh: owned(zh) }
    }

    /// Texts in the language that a locale setting (such as the `LANG`
    /// variable) negotiates to, from the two translation files.
    pub fn new(locale: Option<&str>, en: &str, zh: &str) -> (r: I18n)
        ensures
            r.lang == locale_lang(opt_str(locale)),
            r.en@ == en@,
            r.zh@ == zh@,
    {
        I18n::with_lang(Lang::for_locale(locale), en, zh)
    }

    /// The language in use.
    pub fn lang(&self) -> (r: Lang)
        ensures
            r == self.lang,
    {
        self.lang
    }

    /// Switches to `lang`; the translation files stay.
    pub fn set_lang(&mut self, lang: Lang)
        ensures
            final(self).lang == lang,
            final(self).en == old(self).en,
            final(self).zh == old(self).zh,
    {
        if self.lang == lang {
            return;
        }
        self.lang = lang;
    }

    /// The translation file of the language in use.
    fn ftl(&self) -> (r: &str)
        ensures
            r@ == self.ftl_spec(),
    {
        match self.lang {
            Lang::En => self.en.as_str(),
            Lang::Zh => self.zh.as_str(),
        }
    }

    /// The text of message `key`, or `key` itself where the translation
    /// file has no such message.
    pub fn t(&self, key: &str) -> (r: String)
        ensures
            r@ == self.text_spec(key@),
    {
        text_or_id(self.ftl(), self.lang.tag(), key)
    }

    /// The text of message `key` formatted with the named arguments `args`,
    /// or `key` itself where the translation file has no such message.
    pub fn t_args(&self, key: &str, args: &Vec<(String, MessageArg)>) -> (r: String)
        ensures
            r@ == text_or_id_of(
                fluent_message(self.ftl_spec(), lang_tag(self.lang), key@, args_view(args@)),
                key@,
            ),
    {
        let found = format_message(self.ftl(), self.lang.tag(), key, args);
        message_or_id(found, key)
    }

    /// The localized name of an option.
    pub fn option(&self, option: &str) -> (r: String)
        ensures
            r@ == self.text_spec(option_message(option@)),
    {
        let key = option_key(option);
        self.t(key.as_str())
    }

    /// The message with identifier `prefix` followed by `key`, if any.
    fn prefixed(&self, prefix: &str, key: &str) -> (r: Option<String>)
        ensures
            opt_text(r) == self.message_spec(prefix@ + key@),
    {
        let id = message_id(prefix, key);
        format_message(self.ftl(), self.lang.tag(), id.as_str(), &no_args())
    }

    /// The localized name of the feature `key`, if any.
    pub fn feature_name(&self, key: &str) -> (r: Option<String>)
        ensures
            opt_text(r) == self.message_spec("feature-"@ + key@),
    {
        self.prefixed("feature-", key)
    }

    /// The localized description of the feature `key`, if any.
    pub fn feature_tooltip(&self, key: &str) -> (r: Option<String>)
        ensures
            opt_text(r) == self.message_spec("feature-tip-"@ + key@),
    {
        self.prefixed("feature-tip-", key)
    }

    /// The localized name of the permission `key`, if any.
    pub fn permission_name(&self, key: &str) -> (r: Option<String>)
        ensures
            opt_text(r) == self.message_spec("permission-"@ + key@),
    {
        self.prefixed("permission-", key)
    }

    /// The localized description of the permission `key`, if any.
    pub fn permission_tooltip(&self, key: &str) -> (r: Option<String>)
        ensures
            opt_text(r) == self.message_spec("permission-tip-"@ + key@),
    {
        self.prefixed("permission-tip-", key)
    }

    /// The localized note on a feature's preset flags.
    pub fn suggestion_text(&self, privacy: bool, security: bool) -> (r: String)
        ensures
            r@ == self.text_spec(
                if privacy && security {
                    "suggestion-tt"@
                } else if privacy {
                    "suggestion-tf"@
                } else if security {
                    "suggestion-ft"@
                } else {
                    "suggestion-ff"@
                },
            ),
    {
        self.t(suggestion_key(privacy, security))
    }
}

} // verus!

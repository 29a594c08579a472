//! Language selection and dictionary-based translation.
//!
//! The language is chosen once at startup from the locale environment
//! values the caller hands in, and passed explicitly thereafter; there is
//! no ambient global state. The dictionary is a fixed table whose contents
//! the contracts pin entry by entry.

use vstd::prelude::*;

use crate::strutil::{ci_prefix, starts_with_ci, str_eq};

verus! {

/// A supported interface language.
#[derive(Debug, Clone, Copy, PartialEq, Eq, Hash, Structural)]
pub enum Lang {
    Ar,
    De,
    En,
    Es,
    Fr,
    It,
    Ja,
    Ko,
    Nl,
    Pl,
    Pt,
    PtBr,
    Ru,
    Tr,
    Uk,
    ZhCn,
    ZhTw,
}

/// The language a locale string selects: matched by case-insensitive
/// prefix, in this fixed order, with English as the fallback.
pub open spec fn locale_lang(raw: Seq<char>) -> Lang {
    if ci_prefix(raw, "tr"@) {
        Lang::Tr
    } else if ci_prefix(raw, "de"@) {
        Lang::De
    } else if ci_prefix(raw, "es"@) {
        Lang::Es
    } else if ci_prefix(raw, "fr"@) {
        Lang::Fr
    } else if ci_prefix(raw, "it"@) {
        Lang::It
    } else if ci_prefix(raw, "ar"@) {
        Lang::Ar
    } else if ci_prefix(raw, "ja"@) {
        Lang::Ja
    } else if ci_prefix(raw, "ko"@) {
        Lang::Ko
    } else if ci_prefix(raw, "nl"@) {
        Lang::Nl
    } else if ci_prefix(raw, "pl"@) {
        Lang::Pl
    } else if ci_prefix(raw, "pt_br"@) {
        Lang::PtBr
    } else if ci_prefix(raw, "pt"@) {
        Lang::Pt
    } else if ci_prefix(raw, "ru"@) {
        Lang::Ru
    } else if ci_prefix(raw, "uk"@) {
        Lang::Uk
    } else if ci_prefix(raw, "zh_tw"@) || ci_prefix(raw, "zh_hant"@) {
        Lang::ZhTw
    } else if ci_prefix(raw, "zh"@) {
        Lang::ZhCn
    } else {
        Lang::En
    }
}

/// Parse a locale string (e.g. "tr_TR.UTF-8") into its language.
pub fn parse_locale(raw: &str) -> (r: Lang)
    ensures
        r == locale_lang(raw@),
{
    if starts_with_ci(raw, "tr") {
        Lang::Tr
    } else if starts_with_ci(raw, "de") {
        Lang::De
    } else if starts_with_ci(raw, "es") {
        Lang::Es
    } else if starts_with_ci(raw, "fr") {
        Lang::Fr
    } else if starts_with_ci(raw, "it") {
        Lang::It
    } else if starts_with_ci(raw, "ar") {
        Lang::Ar
    } else if starts_with_ci(raw, "ja") {
        Lang::Ja
    } else if starts_with_ci(raw, "ko") {
        Lang::Ko
    } else if starts_with_ci(raw, "nl") {
        Lang::Nl
    } else if starts_with_ci(raw, "pl") {
        Lang::Pl
    } else if starts_with_ci(raw, "pt_br") {
        Lang::PtBr
    } else if starts_with_ci(raw, "pt") {
        Lang::Pt
    } else if starts_with_ci(raw, "ru") {
        Lang::Ru
    } else if starts_with_ci(raw, "uk") {
        Lang::Uk
    } else if starts_with_ci(raw, "zh_tw") || starts_with_ci(raw, "zh_hant") {
        Lang::ZhTw
    } else if starts_with_ci(raw, "zh") {
        Lang::ZhCn
    } else {
        Lang::En
    }
}

/// The first locale value that is set, in lookup order; empty when none.
pub open spec fn chosen_locale(
    lang: Option<Seq<char>>,
    lc_all: Option<Seq<char>>,
    lc_messages: Option<Seq<char>>,
) -> Seq<char> {
    match lang {
        Some(s) => s,
        None => match lc_all {
            Some(s) => s,
            None => match lc_messages {
                Some(s) => s,
                None => Seq::empty(),
            },
        },
    }
}

/// Choose the interface language from the locale environment values, in
/// the fixed lookup order. The caller keeps the result and passes it to
/// every translation call.
pub fn init(lang: Option<&str>, lc_all: Option<&str>, lc_messages: Option<&str>) -> (r: Lang)
    ensures
        r == locale_lang(
            chosen_locale(
                crate::detector::view_opt(lang),
                crate::detector::view_opt(lc_all),
                crate::detector::view_opt(lc_messages),
            ),
        ),
{
    let raw = match lang {
        Some(s) => s,
        None => match lc_all {
            Some(s) => s,
            None => match lc_messages {
                Some(s) => s,
                None => "",
            },
        },
    };
    proof {
        reveal_strlit("");
    }
    parse_locale(raw)
}

/// One translation entry.
#[derive(Debug, Clone)]
pub struct DictEntry {
    pub lang: Lang,
    pub key: String,
    pub value: String,
}

/// The fixed translation table.
pub open spec fn spec_dictionary() -> Seq<(Lang, Seq<char>, Seq<char>)> {
    seq![
        (Lang::En, "title_main"@, "Select Installation Type"@),
        (Lang::En, "desc_main"@, "Optimized options for your hardware."@),
        (Lang::En, "express_title"@, "Express Install (Recommended)"@),
        (Lang::En, "custom_title"@, "Custom Install (Expert)"@),
        (Lang::En, "tab_install"@, "Install"@),
        (Lang::Tr, "title_main"@, "Kurulum Tipini Secin"@),
        (Lang::Tr, "desc_main"@, "Donanim icin en uygun secenekler."@),
        (Lang::Tr, "express_title"@, "Hizli Kurulum (Onerilen)"@),
        (Lang::Tr, "custom_title"@, "Ozel Kurulum (Uzman)"@),
        (Lang::Tr, "tab_install"@, "Kurulum"@),
        (Lang::De, "title_main"@, "Installationstyp auswaehlen"@),
        (Lang::De, "tab_install"@, "Installation"@),
    ]
}

/// The views of the built table.
pub open spec fn dict_view(es: Seq<DictEntry>) -> Seq<(Lang, Seq<char>, Seq<char>)> {
    es.map_values(|e: DictEntry| (e.lang, e.key@, e.value@))
}

/// The value of the first entry for `(lang, key)`.
pub open spec fn dict_lookup(
    d: Seq<(Lang, Seq<char>, Seq<char>)>,
    lang: Lang,
    key: Seq<char>,
) -> Option<Seq<char>>
    decreases d.len(),
{
    if d.len() == 0 {
        None
    } else if d[0].0 == lang && d[0].1 == key {
        Some(d[0].2)
    } else {
        dict_lookup(d.skip(1), lang, key)
    }
}

/// What `tr` returns: the entry for the language, else the English entry,
/// else the fixed missing-key marker.
pub open spec fn translation_of(lang: Lang, key: Seq<char>) -> Seq<char> {
    match dict_lookup(spec_dictionary(), lang, key) {
        Some(v) => v,
        None => match dict_lookup(spec_dictionary(), Lang::En, key) {
            Some(v) => v,
            None => "???"@,
        },
    }
}

/// The translation table, as a value.
pub struct Dictionary {
    pub entries: Vec<DictEntry>,
}

impl Dictionary {
    /// Value of the first entry for `(lang, key)`, if any.
    pub fn lookup(&self, lang: Lang, key: &str) -> (r: Option<String>)
        ensures
            match r {
                Some(v) => dict_lookup(dict_view(self.entries@), lang, key@) == Some(v@),
                None => dict_lookup(dict_view(self.entries@), lang, key@) is None,
            },
    {
        let ghost dv = dict_view(self.entries@);
        let n = self.entries.len();
        let mut i: usize = 0;
        proof {
            assert(dv.skip(0) =~= dv);
        }
        while i < n
            invariant
                0 <= i <= n,
                n == self.entries@.len(),
                dv == dict_view(self.entries@),
                dict_lookup(dv, lang, key@) == dict_lookup(dv.skip(i as int), lang, key@),
            decreases n - i,
        {
            proof {
                assert(dv.skip(i as int)[0] == dv[i as int]);
                assert(dv.skip(i as int).skip(1) =~= dv.skip(i as int + 1));
            }
            let e = &self.entries[i];
            if lang_eq(e.lang, lang) && str_eq(e.key.as_str(), key) {
                return Some(e.value.clone());
            }
            i = i + 1;
        }
        proof {
            assert(dv.skip(n as int) =~= Seq::<(Lang, Seq<char>, Seq<char>)>::empty());
        }
        None
    }

    /// Some entry exists for `(lang, key)`.
    pub fn has_key(&self, lang: Lang, key: &str) -> (b: bool)
        ensures
            b == !(dict_lookup(dict_view(self.entries@), lang, key@) is None),
    {
        match self.lookup(lang, key) {
            Some(_) => true,
            None => false,
        }
    }

    /// Some entry exists for the language.
    pub fn has_lang(&self, lang: Lang) -> (b: bool)
        ensures
            b == (exists|i: int|
                0 <= i < self.entries@.len() && (#[trigger] self.entries@[i]).lang == lang),
    {
        let n = self.entries.len();
        let mut i: usize = 0;
        while i < n
            invariant
                0 <= i <= n,
                n == self.entries@.len(),
                forall|k: int| 0 <= k < i ==> (#[trigger] self.entries@[k]).lang != lang,
            decreases n - i,
        {
            if lang_eq(self.entries[i].lang, lang) {
                return true;
            }
            i = i + 1;
        }
        false
    }
}

/// Exec equality of two languages.
fn lang_eq(a: Lang, b: Lang) -> (r: bool)
    ensures
        r == (a == b),
{
    a == b
}

/// Build the translation table; its contents are exactly the fixed table.
pub fn get_dictionary() -> (d: Dictionary)
    ensures
        dict_view(d.entries@) == spec_dictionary(),
{
    let mut entries: Vec<DictEntry> = Vec::new();
    push_entry(&mut entries, Lang::En, "title_main", "Select Installation Type");
    push_entry(&mut entries, Lang::En, "desc_main", "Optimized options for your hardware.");
    push_entry(&mut entries, Lang::En, "express_title", "Express Install (Recommended)");
    push_entry(&mut entries, Lang::En, "custom_title", "Custom Install (Expert)");
    push_entry(&mut entries, Lang::En, "tab_install", "Install");
    push_entry(&mut entries, Lang::Tr, "title_main", "Kurulum Tipini Secin");
    push_entry(&mut entries, Lang::Tr, "desc_main", "Donanim icin en uygun secenekler.");
    push_entry(&mut entries, Lang::Tr, "express_title", "Hizli Kurulum (Onerilen)");
    push_entry(&mut entries, Lang::Tr, "custom_title", "Ozel Kurulum (Uzman)");
    push_entry(&mut entries, Lang::Tr, "tab_install", "Kurulum");
    push_entry(&mut entries, Lang::De, "title_main", "Installationstyp auswaehlen");
    push_entry(&mut entries, Lang::De, "tab_install", "Installation");
    proof {
        assert(dict_view(entries@) =~= spec_dictionary());
    }
    Dictionary { entries }
}

/// Append one entry to the table being built.
fn push_entry(entries: &mut Vec<DictEntry>, lang: Lang, key: &str, value: &str)
    ensures
        final(entries)@.len() == old(entries)@.len() + 1,
        dict_view(final(entries)@) == dict_view(old(entries)@).push((lang, key@, value@)),
{
    entries.push(DictEntry { lang, key: key.to_owned(), value: value.to_owned() });
    proof {
        assert(dict_view(entries@) =~= dict_view(old(entries)@).push((lang, key@, value@)));
    }
}

/// Translate `key` for `lang`: the language's entry, else the English
/// entry, else the fixed missing-key marker.
pub fn tr(lang: Lang, key: &str) -> (r: String)
    ensures
        r@ == translation_of(lang, key@),
{
    let dict = get_dictionary();
    match dict.lookup(lang, key) {
        Some(v) => v,
        None => match dict.lookup(Lang::En, key) {
            Some(v) => v,
            None => String::from_str("???"),
        },
    }
}

} // verus!

//! Languages ClipForge speaks: which exist, how to detect the system
//! language and how to map a BCP 47 tag to one of ours.

use vstd::prelude::*;

use crate::strs::{chars_of, push_text, texts};

verus! {

/// A UI language shipped with the app.
#[derive(Copy, Clone, Debug, PartialEq, Eq, Hash, Structural)]
pub enum Language {
    English,
    German,
}

impl Default for Language {
    fn default() -> (l: Language)
        ensures
            l == Language::English,
    {
        Language::English
    }
}

pub open spec fn language_code(l: Language) -> Seq<char> {
    match l {
        Language::English => "en"@,
        Language::German => "de"@,
    }
}

/// Whether `c` ends the primary subtag of a locale tag.
pub open spec fn is_tag_separator(c: char) -> bool {
    c == '-' || c == '_' || c == '.' || c == '@'
}

/// The primary subtag: everything before the first separator.
pub open spec fn primary_subtag(tag: Seq<char>) -> Seq<char> {
    if exists|i: int| 0 <= i < tag.len() && is_tag_separator(tag[i]) {
        tag.subrange(0, choose|i: int| 0 <= i < tag.len() && is_tag_separator(tag[i])
            && forall|j: int| 0 <= j < i ==> !is_tag_separator(tag[j]))
    } else {
        tag
    }
}

/// ASCII lower case of one character.
pub open spec fn ascii_lower(c: char) -> char {
    if 'A' <= c <= 'Z' {
        ((c as u32) + 32) as char
    } else {
        c
    }
}

pub open spec fn lower(s: Seq<char>) -> Seq<char> {
    s.map_values(|c: char| ascii_lower(c))
}

/// The shipped language a tag names, by its primary subtag, ignoring
/// ASCII case.
pub open spec fn tag_language(tag: Seq<char>) -> Option<Language> {
    let p = lower(primary_subtag(tag));
    if p == "en"@ {
        Some(Language::English)
    } else if p == "de"@ {
        Some(Language::German)
    } else {
        None
    }
}

/// The first tag that names a shipped language, or English.
pub open spec fn first_known(tags: Seq<Seq<char>>) -> Language
    decreases tags.len(),
{
    if tags.len() == 0 {
        Language::English
    } else {
        match tag_language(tags[0]) {
            Some(l) => l,
            None => first_known(tags.drop_first()),
        }
    }
}

/// The operating system's preferred locales, most preferred first.
///
/// Trusted: calls `sys_locale::get_locales`, which reads the system or
/// process settings; nothing is stated of what it finds.
#[verifier::external_body]
fn system_locales() -> Vec<String> {
    sys_locale::get_locales().collect()
}

impl Language {
    /// All shipped languages in menu order.
    pub fn all() -> (v: Vec<Language>)
        ensures
            v@ == seq![Language::English, Language::German],
    {
        let v = vec![Language::English, Language::German];
        proof {
            assert(v@ =~= seq![Language::English, Language::German]);
        }
        v
    }

    /// Language code used for the bundled translation catalogue.
    pub fn code(self) -> (c: &'static str)
        ensures
            c@ == language_code(self),
    {
        match self {
            Language::English => "en",
            Language::German => "de",
        }
    }

    /// Name of the language in that language, for the language picker.
    pub fn native_name(self) -> (n: &'static str)
        ensures
            n@ == (match self {
                Language::English => "English"@,
                Language::German => "Deutsch"@,
            }),
    {
        match self {
            Language::English => "English",
            Language::German => "Deutsch",
        }
    }

    /// Maps a BCP 47 tag or POSIX locale (`de`, `de-AT`, `de_DE.UTF-8`,
    /// `en-US`) to a shipped language. Unknown languages map to `None`.
    pub fn from_tag(tag: &str) -> (l: Option<Language>)
        ensures
            l == tag_language(tag@),
    {
        let s = chars_of(tag);
        let mut end: usize = 0;
        while end < s.len() && !(s[end] == '-' || s[end] == '_' || s[end] == '.' || s[end] == '@')
            invariant
                end <= s@.len(),
                forall|j: int| 0 <= j < end ==> !is_tag_separator(s@[j]),
            decreases s@.len() - end,
        {
            end = end + 1;
        }
        proof {
            let p = primary_subtag(tag@);
            if end < s@.len() {
                assert(exists|i: int| 0 <= i < tag@.len() && is_tag_separator(tag@[i])) by {
                    assert(is_tag_separator(s@[end as int]));
                }
                let q = choose|i: int| 0 <= i < tag@.len() && is_tag_separator(tag@[i])
                    && forall|j: int| 0 <= j < i ==> !is_tag_separator(tag@[j]);
                assert(q == end) by {
                    if q < end {
                        assert(!is_tag_separator(s@[q]));
                    }
                    if q > end {
                        assert(is_tag_separator(s@[end as int]));
                    }
                }
                assert(p == s@.subrange(0, end as int));
            } else {
                assert(p == s@);
                assert(s@.subrange(0, end as int) =~= s@);
            }
            reveal_strlit("en");
            reveal_strlit("de");
        }
        let ghost p = s@.subrange(0, end as int);
        if end != 2 {
            proof {
                assert(lower(p).len() == end);
            }
            return None;
        }
        let a = lower_char(s[0]);
        let b = lower_char(s[1]);
        proof {
            assert(lower(p)[0] == a && lower(p)[1] == b);
            assert(lower(p).len() == 2);
        }
        if a == 'e' && b == 'n' {
            proof {
                assert(lower(p) =~= "en"@);
            }
            Some(Language::English)
        } else if a == 'd' && b == 'e' {
            proof {
                assert(lower(p) =~= "de"@);
            }
            Some(Language::German)
        } else {
            proof {
                assert(lower(p) != "en"@ && lower(p) != "de"@) by {
                    if lower(p) == "en"@ {
                        assert(lower(p)[0] == 'e' && lower(p)[1] == 'n');
                    }
                    if lower(p) == "de"@ {
                        assert(lower(p)[0] == 'd' && lower(p)[1] == 'e');
                    }
                }
            }
            None
        }
    }

    /// The first of `tags` that names a shipped language, or English.
    pub fn from_locales(tags: &Vec<String>) -> (l: Language)
        ensures
            l == first_known(tags@.map_values(|t: String| t@)),
    {
        let ghost all = tags@.map_values(|t: String| t@);
        let mut i: usize = 0;
        proof {
            assert(all.subrange(0, all.len() as int) =~= all);
        }
        while i < tags.len()
            invariant
                i <= tags@.len(),
                all == tags@.map_values(|t: String| t@),
                first_known(all) == first_known(all.subrange(i as int, all.len() as int)),
            decreases tags@.len() - i,
        {
            let ghost rest = all.subrange(i as int, all.len() as int);
            proof {
                assert(rest[0] == tags@[i as int]@);
                assert(rest.drop_first() =~= all.subrange(i + 1, all.len() as int));
            }
            match Language::from_tag(tags[i].as_str()) {
                Some(l) => return l,
                None => {},
            }
            i = i + 1;
        }
        Language::English
    }

    /// Best match for the operating system's preferred languages, or
    /// English.
    pub fn system() -> (l: Language) {
        let tags = system_locales();
        Language::from_locales(&tags)
    }
}

fn lower_char(c: char) -> (r: char)
    ensures
        r == ascii_lower(c),
{
    if 'A' <= c && c <= 'Z' {
        (((c as u32) + 32) as u8) as char
    } else {
        c
    }
}

/// The user's language preference as stored in settings.
#[derive(Copy, Clone, Debug, PartialEq, Eq, Hash, Structural)]
pub enum LanguagePreference {
    System,
    Fixed(Language),
}

impl Default for LanguagePreference {
    fn default() -> (p: LanguagePreference)
        ensures
            p == LanguagePreference::System,
    {
        LanguagePreference::System
    }
}

impl LanguagePreference {
    /// The language to actually use: a fixed choice wins; otherwise the
    /// system's.
    pub fn resolve(self) -> (l: Language)
        ensures
            self matches LanguagePreference::Fixed(f) ==> l == f,
    {
        match self {
            LanguagePreference::System => Language::system(),
            LanguagePreference::Fixed(lang) => lang,
        }
    }
}

/// Every shipped language's code maps back to it.
pub proof fn law_codes_round_trip(l: Language)
    ensures
        tag_language(language_code(l)) == Some(l),
{
    reveal_strlit("en");
    reveal_strlit("de");
    let c = language_code(l);
    assert(!exists|i: int| 0 <= i < c.len() && is_tag_separator(c[i]));
    assert(primary_subtag(c) == c);
    assert(lower(c) =~= c);
    assert("de"@ != "en"@) by {
        assert("de"@[0] != "en"@[0]);
    }
}

/// Shipped languages in menu order.
pub open spec fn menu() -> Seq<Language> {
    seq![Language::English, Language::German]
}

/// A language's name in that language.
pub open spec fn native_name_of(l: Language) -> Seq<char> {
    match l {
        Language::English => "English"@,
        Language::German => "Deutsch"@,
    }
}

/// Position of a language in the menu.
pub open spec fn menu_position(l: Language) -> int {
    match l {
        Language::English => 0,
        Language::German => 1,
    }
}

/// Language picker row of a preference: the system entry first, then the
/// menu.
pub open spec fn picker_row(p: LanguagePreference) -> int {
    match p {
        LanguagePreference::System => 0,
        LanguagePreference::Fixed(l) => menu_position(l) + 1,
    }
}

/// Preference a picker row stands for; rows outside the list mean the
/// system's language.
pub open spec fn picker_choice(index: int) -> LanguagePreference {
    if 1 <= index <= menu().len() {
        LanguagePreference::Fixed(menu()[index - 1])
    } else {
        LanguagePreference::System
    }
}

/// Entries of the language picker: the system entry under the given label,
/// then every shipped language by its native name.
pub fn picker_options(system_label: &str) -> (v: Vec<String>)
    ensures
        texts(v@) == seq![system_label@].add(menu().map_values(|l: Language| native_name_of(l))),
{
    let mut v: Vec<String> = Vec::new();
    push_text(&mut v, system_label);
    push_text(&mut v, Language::English.native_name());
    push_text(&mut v, Language::German.native_name());
    proof {
        assert(texts(v@) =~= seq![system_label@].add(menu().map_values(|l: Language| native_name_of(l))));
    }
    v
}

/// Picker row for a stored preference.
pub fn picker_index(pref: LanguagePreference) -> (i: i32)
    ensures
        i == picker_row(pref),
{
    match pref {
        LanguagePreference::System => 0,
        LanguagePreference::Fixed(Language::English) => 1,
        LanguagePreference::Fixed(Language::German) => 2,
    }
}

/// Preference for a picker row. Rows out of range mean the system's
/// language.
pub fn picker_preference(index: i32) -> (p: LanguagePreference)
    ensures
        p == picker_choice(index as int),
{
    if index == 1 {
        LanguagePreference::Fixed(Language::English)
    } else if index == 2 {
        LanguagePreference::Fixed(Language::German)
    } else {
        LanguagePreference::System
    }
}

/// Reading a preference back from the row the picker shows for it gives
/// the same preference.
pub proof fn law_picker_round_trip(p: LanguagePreference)
    ensures
        picker_choice(picker_row(p)) == p,
{
}

} // verus!

//! The languages the surrounding application can display.  Message lookup
//! itself is an external collaborator; the library only names the languages
//! and maps them to display names and language codes.

use vstd::prelude::*;

verus! {

/// One named argument of a message, as the lookup service takes it.
pub type TrArg = (String, String);

/// The named arguments handed to the lookup service for one message.
pub type TrArgVec = Vec<TrArg>;

/// A language the application can display its messages in.
#[derive(Clone, Copy, Debug, PartialEq, Eq, Structural)]
pub enum SupportedLanguage {
    EnglishUs,
    Czech,
    Russian,
}

/// The display name of a language, in that language.
pub open spec fn name_of(l: SupportedLanguage) -> Seq<char> {
    match l {
        SupportedLanguage::EnglishUs => "English"@,
        SupportedLanguage::Czech => "Česky"@,
        SupportedLanguage::Russian => "Русский"@,
    }
}

/// The language code of a language, as the message catalogue names it.
pub open spec fn code_of(l: SupportedLanguage) -> Seq<char> {
    match l {
        SupportedLanguage::EnglishUs => "en-US"@,
        SupportedLanguage::Czech => "cz"@,
        SupportedLanguage::Russian => "ru"@,
    }
}

impl SupportedLanguage {
    /// Returns every supported language, in display order.
    pub fn collection() -> (r: Vec<SupportedLanguage>)
        ensures
            r@ == seq![
                SupportedLanguage::EnglishUs,
                SupportedLanguage::Czech,
                SupportedLanguage::Russian,
            ],
    {
        let mut r: Vec<SupportedLanguage> = Vec::new();
        r.push(SupportedLanguage::EnglishUs);
        r.push(SupportedLanguage::Czech);
        r.push(SupportedLanguage::Russian);
        proof {
            assert(r@ =~= seq![
                SupportedLanguage::EnglishUs,
                SupportedLanguage::Czech,
                SupportedLanguage::Russian,
            ]);
        }
        r
    }

    /// The localized display name of this language.
    pub fn to_name(&self) -> (r: String)
        ensures
            r@ == name_of(*self),
    {
        match self {
            SupportedLanguage::EnglishUs => "English".to_owned(),
            SupportedLanguage::Czech => "Česky".to_owned(),
            SupportedLanguage::Russian => "Русский".to_owned(),
        }
    }

    /// The language code of this language.
    pub fn to_lang_code(&self) -> (r: String)
        ensures
            r@ == code_of(*self),
    {
        match self {
            SupportedLanguage::EnglishUs => "en-US".to_owned(),
            SupportedLanguage::Czech => "cz".to_owned(),
            SupportedLanguage::Russian => "ru".to_owned(),
        }
    }

    /// The language whose display name is `string`, if any.
    pub fn from_string(string: &str) -> (r: Option<SupportedLanguage>)
        ensures
            match r {
                Some(l) => name_of(l) == string@,
                None => forall|l: SupportedLanguage| name_of(l) != string@,
            },
    {
        let s = string.to_owned();
        if s == SupportedLanguage::EnglishUs.to_name() {
            Some(SupportedLanguage::EnglishUs)
        } else if s == SupportedLanguage::Czech.to_name() {
            Some(SupportedLanguage::Czech)
        } else if s == SupportedLanguage::Russian.to_name() {
            Some(SupportedLanguage::Russian)
        } else {
            proof {
                assert forall|l: SupportedLanguage| name_of(l) != string@ by {
                    match l {
                        SupportedLanguage::EnglishUs => {},
                        SupportedLanguage::Czech => {},
                        SupportedLanguage::Russian => {},
                    }
                }
            }
            None
        }
    }
}

/// The display names of every supported language, in display order.
pub fn supported_langs() -> (r: Vec<String>)
    ensures
        r.deep_view() == seq![
            name_of(SupportedLanguage::EnglishUs),
            name_of(SupportedLanguage::Czech),
            name_of(SupportedLanguage::Russian),
        ],
{
    let langs = SupportedLanguage::collection();
    let mut r: Vec<String> = Vec::new();
    let mut i: usize = 0;
    while i < langs.len()
        invariant
            0 <= i <= langs@.len(),
            langs@ == seq![
                SupportedLanguage::EnglishUs,
                SupportedLanguage::Czech,
                SupportedLanguage::Russian,
            ],
            r@.len() == i,
            forall|k: int| 0 <= k < i ==> r.deep_view()[k] == name_of(langs@[k]),
        decreases langs@.len() - i,
    {
        let name = langs[i].to_name();
        let ghost gn = name;
        let ghost pre = r;
        r.push(name);
        proof {
            crate::text::lemma_deep_view_push(pre, r, gn);
        }
        i += 1;
    }
    proof {
        assert(r.deep_view() =~~= seq![
            name_of(SupportedLanguage::EnglishUs),
            name_of(SupportedLanguage::Czech),
            name_of(SupportedLanguage::Russian),
        ]);
    }
    r
}

} // verus!
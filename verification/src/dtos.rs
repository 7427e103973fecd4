//! The data shapes of the translation service: translate and registration
//! requests and their responses, and the per-language dictionary schema.

use crate::chains::str_to_chars;
use vstd::prelude::*;

verus! {

/// A request to translate `content` from language `from` to language `to`.
pub struct TransReq {
    pub content: String,
    pub from: String,
    pub to: String,
}

impl TransReq {
    pub fn new(content: &str, from: &str, to: &str) -> (r: TransReq)
        ensures
            r.content@ == content@,
            r.from@ == from@,
            r.to@ == to@,
    {
        TransReq {
            content: content.to_owned(),
            from: from.to_owned(),
            to: to.to_owned(),
        }
    }
}

/// The outcome of a translate request: the resolved content and whether the
/// whole input could be translated.
pub struct TransResponse {
    pub content: String,
    pub able_to_translate: bool,
}

impl TransResponse {
    pub fn from(content: String, able_to_translate: bool) -> (r: TransResponse)
        ensures
            r.content == content,
            r.able_to_translate == able_to_translate,
    {
        TransResponse { content, able_to_translate }
    }
}

/// A hard failure of a translate request, carrying a readable message.
pub struct TransErr {
    pub content: String,
}

impl TransErr {
    pub fn new(content: &str) -> (r: TransErr)
        ensures
            r.content@ == content@,
    {
        TransErr { content: content.to_owned() }
    }
}

/// A failure to decode an incoming payload, carrying a readable message.
pub struct JsonErr {
    pub content: String,
}

impl JsonErr {
    pub fn new(content: &str) -> (r: JsonErr)
        ensures
            r.content@ == content@,
    {
        JsonErr { content: content.to_owned() }
    }
}

/// A request to register `word` of `from_lang` with candidate `meanings`
/// in `to_lang`.
pub struct NewTransReq {
    pub from_lang: String,
    pub to_lang: String,
    pub word: String,
    pub meanings: Vec<String>,
}

impl NewTransReq {
    pub fn new(from_lang: &str, to_lang: &str, word: &str, meanings: Vec<&str>) -> (r: NewTransReq)
        ensures
            r.from_lang@ == from_lang@,
            r.to_lang@ == to_lang@,
            r.word@ == word@,
            r.meanings@.len() == meanings@.len(),
            forall|i: int| 0 <= i < meanings@.len() ==> r.meanings@[i]@ == meanings@[i]@,
    {
        let mut ms: Vec<String> = Vec::new();
        let mut i: usize = 0;
        while i < meanings.len()
            invariant
                i <= meanings@.len(),
                ms@.len() == i,
                forall|j: int| 0 <= j < i ==> ms@[j]@ == meanings@[j]@,
            decreases meanings@.len() - i,
        {
            ms.push(meanings[i].to_owned());
            i += 1;
        }
        NewTransReq {
            from_lang: from_lang.to_owned(),
            to_lang: to_lang.to_owned(),
            word: word.to_owned(),
            meanings: ms,
        }
    }
}

/// A hard failure of a registration request, carrying a readable message.
pub struct NewTransErr {
    pub content: String,
}

impl NewTransErr {
    pub fn new(content: &str) -> (r: NewTransErr)
        ensures
            r.content@ == content@,
    {
        NewTransErr { content: content.to_owned() }
    }
}

/// A dictionary word: its spelling in the owning language and its renderings
/// in other languages.
pub struct TransWord {
    pub symbol_chain: Vec<char>,
    pub meanings: Vec<WordToOtherLang>,
}

impl TransWord {
    pub fn new(word: &str, meanings: Vec<&str>) -> (r: TransWord)
        ensures
            r.symbol_chain@ == word@,
            r.meanings@.len() == meanings@.len(),
            forall|i: int| 0 <= i < meanings@.len() ==> r.meanings@[i].symbol_chain@
                == meanings@[i]@,
    {
        let mut ms: Vec<WordToOtherLang> = Vec::new();
        let mut i: usize = 0;
        while i < meanings.len()
            invariant
                i <= meanings@.len(),
                ms@.len() == i,
                forall|j: int| 0 <= j < i ==> ms@[j].symbol_chain@ == meanings@[j]@,
            decreases meanings@.len() - i,
        {
            ms.push(WordToOtherLang::new(str_to_chars(meanings[i])));
            i += 1;
        }
        TransWord { symbol_chain: str_to_chars(word), meanings: ms }
    }
}

/// One translated rendering of a word.
pub struct WordToOtherLang {
    pub symbol_chain: Vec<char>,
}

impl WordToOtherLang {
    pub fn new(symbol_chain: Vec<char>) -> (r: WordToOtherLang)
        ensures
            r.symbol_chain == symbol_chain,
    {
        WordToOtherLang { symbol_chain }
    }
}

/// A language: its stable id, display label, the characters that split
/// content into units, the characters allowed inside a unit, and its word
/// list. A freshly created language starts with an empty word list; words
/// enter it only through registration.
pub struct Language {
    pub id: String,
    pub label: String,
    pub unit_split_symbols: Vec<char>,
    pub allowed_symbols: Vec<char>,
    pub words: Vec<TransWord>,
}

impl Language {
    pub fn new(
        id: &str,
        label: &str,
        unit_split_symbols: Vec<char>,
        allowed_symbols: Vec<char>,
        _words: Vec<TransWord>,
    ) -> (r: Language)
        ensures
            r.id@ == id@,
            r.label@ == label@,
            r.unit_split_symbols == unit_split_symbols,
            r.allowed_symbols == allowed_symbols,
            r.words@.len() == 0,
    {
        Language {
            id: id.to_owned(),
            label: label.to_owned(),
            unit_split_symbols,
            allowed_symbols,
            words: Vec::new(),
        }
    }
}

} // verus!

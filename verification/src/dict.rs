//! The dictionary store: per-language word lists with tagged meanings,
//! exact lookup, and insertion.
//!
//! Each meaning entry carries the id of its destination language, so a word
//! with meanings in several languages stays unambiguous; the first entry for
//! a destination is the one a lookup selects.

use crate::chains::{chain_contains, chains_eq};
use vstd::prelude::*;

verus! {

/// One translated rendering of a word, tagged with the destination language
/// it belongs to.
pub struct Meaning {
    pub lang_id: String,
    pub symbol_chain: Vec<char>,
}

/// A stored word: its spelling in the owning language and its tagged
/// meanings.
pub struct DictWord {
    pub symbol_chain: Vec<char>,
    pub meanings: Vec<Meaning>,
}

/// A registered language: its stable id, display label, rule sets, and the
/// words known for it.
pub struct LangRecord {
    pub id: String,
    pub label: String,
    pub unit_split_symbols: Vec<char>,
    pub allowed_symbols: Vec<char>,
    pub words: Vec<DictWord>,
}

/// The dictionary store: every registered language with its words.
pub struct Dictionary {
    pub langs: Vec<LangRecord>,
}

/// The ways a dictionary operation can fail.
#[derive(Clone, Copy, Debug, PartialEq, Eq, Structural)]
pub enum DictError {
    UnknownLanguage,
    InvalidSymbol,
    DuplicateWord,
    DuplicateMeaning,
    DuplicateLanguage,
}

/// Every character of `chain` belongs to `allowed`.
pub open spec fn chain_valid(chain: Seq<char>, allowed: Seq<char>) -> bool {
    forall|k: int| 0 <= k < chain.len() ==> allowed.contains(chain[k])
}

/// A word's meanings form a mapping from destination language to meaning:
/// no two entries carry the same destination tag.
pub open spec fn word_tags_unique(w: DictWord) -> bool {
    forall|i: int, j: int|
        #![auto]
        0 <= i < j < w.meanings@.len() ==> w.meanings@[i].lang_id@ != w.meanings@[j].lang_id@
}

/// A language's word list is well formed: word spellings are unique, every
/// stored spelling uses only the language's allowed symbols, and each word
/// keeps at most one meaning per destination language.
pub open spec fn lang_wf(l: LangRecord) -> bool {
    &&& forall|i: int, j: int|
        #![auto]
        0 <= i < j < l.words@.len() ==> l.words@[i].symbol_chain@ != l.words@[j].symbol_chain@
    &&& forall|i: int|
        #![auto]
        0 <= i < l.words@.len() ==> chain_valid(l.words@[i].symbol_chain@, l.allowed_symbols@)
    &&& forall|i: int| #![auto] 0 <= i < l.words@.len() ==> word_tags_unique(l.words@[i])
}

/// The first registered language with the given id, if any.
pub open spec fn find_lang(langs: Seq<LangRecord>, id: Seq<char>) -> Option<LangRecord>
    decreases langs.len(),
{
    if langs.len() == 0 {
        None
    } else if langs[0].id@ == id {
        Some(langs[0])
    } else {
        find_lang(langs.skip(1), id)
    }
}

/// The position of the first language with the given id (the list's length
/// when there is none).
pub open spec fn lang_index(langs: Seq<LangRecord>, id: Seq<char>) -> int
    decreases langs.len(),
{
    if langs.len() == 0 {
        0
    } else if langs[0].id@ == id {
        0
    } else {
        1 + lang_index(langs.skip(1), id)
    }
}

/// The first stored word with the given spelling, if any.
pub open spec fn find_word(words: Seq<DictWord>, chain: Seq<char>) -> Option<DictWord>
    decreases words.len(),
{
    if words.len() == 0 {
        None
    } else if words[0].symbol_chain@ == chain {
        Some(words[0])
    } else {
        find_word(words.skip(1), chain)
    }
}

/// The position of the first word with the given spelling (the list's length
/// when there is none).
pub open spec fn word_index(words: Seq<DictWord>, chain: Seq<char>) -> int
    decreases words.len(),
{
    if words.len() == 0 {
        0
    } else if words[0].symbol_chain@ == chain {
        0
    } else {
        1 + word_index(words.skip(1), chain)
    }
}

/// The first meaning recorded for the given destination language, if any.
pub open spec fn find_meaning(meanings: Seq<Meaning>, destination: Seq<char>) -> Option<Seq<char>>
    decreases meanings.len(),
{
    if meanings.len() == 0 {
        None
    } else if meanings[0].lang_id@ == destination {
        Some(meanings[0].symbol_chain@)
    } else {
        find_meaning(meanings.skip(1), destination)
    }
}

/// Two language records with the same id, label and rule sets.
pub open spec fn same_lang_rules(a: LangRecord, b: LangRecord) -> bool {
    &&& a.id == b.id
    &&& a.label == b.label
    &&& a.unit_split_symbols == b.unit_split_symbols
    &&& a.allowed_symbols == b.allowed_symbols
}

/// A scan that saw no id match in the first `i` entries may resume from
/// position `i`.
pub proof fn lemma_find_lang_prefix(langs: Seq<LangRecord>, id: Seq<char>, i: int)
    requires
        0 <= i <= langs.len(),
        forall|j: int| 0 <= j < i ==> langs[j].id@ != id,
    ensures
        find_lang(langs, id) == find_lang(langs.skip(i), id),
        lang_index(langs, id) == i + lang_index(langs.skip(i), id),
    decreases i,
{
    if i == 0 {
        assert(langs.skip(0) =~= langs);
    } else {
        assert(langs[0].id@ != id);
        assert forall|j: int| 0 <= j < i - 1 implies langs.skip(1)[j].id@ != id by {
            assert(langs.skip(1)[j] == langs[j + 1]);
        }
        lemma_find_lang_prefix(langs.skip(1), id, i - 1);
        assert(langs.skip(1).skip(i - 1) =~= langs.skip(i));
    }
}

/// A language is found exactly when some entry carries its id.
pub proof fn lemma_find_lang_none(langs: Seq<LangRecord>, id: Seq<char>)
    ensures
        (find_lang(langs, id) is None) <==> (forall|j: int|
            0 <= j < langs.len() ==> langs[j].id@ != id),
    decreases langs.len(),
{
    if langs.len() > 0 {
        lemma_find_lang_none(langs.skip(1), id);
        assert forall|j: int| 1 <= j < langs.len() implies langs[j] == langs.skip(1)[j - 1] by {}
    }
}

/// A scan that saw no spelling match in the first `i` entries may resume
/// from position `i`.
pub proof fn lemma_find_word_prefix(words: Seq<DictWord>, chain: Seq<char>, i: int)
    requires
        0 <= i <= words.len(),
        forall|j: int| 0 <= j < i ==> words[j].symbol_chain@ != chain,
    ensures
        find_word(words, chain) == find_word(words.skip(i), chain),
        word_index(words, chain) == i + word_index(words.skip(i), chain),
    decreases i,
{
    if i == 0 {
        assert(words.skip(0) =~= words);
    } else {
        assert(words[0].symbol_chain@ != chain);
        assert forall|j: int| 0 <= j < i - 1 implies words.skip(1)[j].symbol_chain@ != chain by {
            assert(words.skip(1)[j] == words[j + 1]);
        }
        lemma_find_word_prefix(words.skip(1), chain, i - 1);
        assert(words.skip(1).skip(i - 1) =~= words.skip(i));
    }
}

/// A word is found exactly when some entry carries its spelling.
pub proof fn lemma_find_word_none(words: Seq<DictWord>, chain: Seq<char>)
    ensures
        (find_word(words, chain) is None) <==> (forall|j: int|
            0 <= j < words.len() ==> words[j].symbol_chain@ != chain),
    decreases words.len(),
{
    if words.len() > 0 {
        lemma_find_word_none(words.skip(1), chain);
        assert forall|j: int| 1 <= j < words.len() implies words[j] == words.skip(1)[j - 1] by {}
    }
}

/// A found word is a member of the list, standing at `word_index` with the
/// spelling that was asked for, and no earlier entry has that spelling.
pub proof fn lemma_find_word_found(words: Seq<DictWord>, chain: Seq<char>)
    requires
        find_word(words, chain) is Some,
    ensures
        0 <= word_index(words, chain) < words.len(),
        find_word(words, chain) == Some(words[word_index(words, chain)]),
        words[word_index(words, chain)].symbol_chain@ == chain,
        forall|j: int| 0 <= j < word_index(words, chain) ==> words[j].symbol_chain@ != chain,
    decreases words.len(),
{
    if words.len() > 0 && words[0].symbol_chain@ != chain {
        lemma_find_word_found(words.skip(1), chain);
        assert(words.skip(1)[word_index(words.skip(1), chain)] == words[1 + word_index(
            words.skip(1),
            chain,
        )]);
        assert forall|j: int| 0 <= j < word_index(words, chain) implies words[j].symbol_chain@
            != chain by {
            if j > 0 {
                assert(words.skip(1)[j - 1] == words[j]);
            }
        }
    }
}

/// A found language is a member of the list, standing at `lang_index` with
/// the id that was asked for, and no earlier entry has that id.
pub proof fn lemma_find_lang_found(langs: Seq<LangRecord>, id: Seq<char>)
    requires
        find_lang(langs, id) is Some,
    ensures
        0 <= lang_index(langs, id) < langs.len(),
        find_lang(langs, id) == Some(langs[lang_index(langs, id)]),
        langs[lang_index(langs, id)].id@ == id,
        forall|j: int| 0 <= j < lang_index(langs, id) ==> langs[j].id@ != id,
    decreases langs.len(),
{
    if langs.len() > 0 && langs[0].id@ != id {
        lemma_find_lang_found(langs.skip(1), id);
        assert(langs.skip(1)[lang_index(langs.skip(1), id)] == langs[1 + lang_index(
            langs.skip(1),
            id,
        )]);
        assert forall|j: int| 0 <= j < lang_index(langs, id) implies langs[j].id@ != id by {
            if j > 0 {
                assert(langs.skip(1)[j - 1] == langs[j]);
            }
        }
    }
}

/// A scan that saw no destination match in the first `i` entries may resume
/// from position `i`.
pub proof fn lemma_find_meaning_prefix(meanings: Seq<Meaning>, destination: Seq<char>, i: int)
    requires
        0 <= i <= meanings.len(),
        forall|j: int| 0 <= j < i ==> meanings[j].lang_id@ != destination,
    ensures
        find_meaning(meanings, destination) == find_meaning(meanings.skip(i), destination),
    decreases i,
{
    if i == 0 {
        assert(meanings.skip(0) =~= meanings);
    } else {
        assert(meanings[0].lang_id@ != destination);
        assert forall|j: int| 0 <= j < i - 1 implies meanings.skip(1)[j].lang_id@ != destination by {
            assert(meanings.skip(1)[j] == meanings[j + 1]);
        }
        lemma_find_meaning_prefix(meanings.skip(1), destination, i - 1);
        assert(meanings.skip(1).skip(i - 1) =~= meanings.skip(i));
    }
}

/// A meaning is found exactly when some entry carries the destination's id.
pub proof fn lemma_find_meaning_none(meanings: Seq<Meaning>, destination: Seq<char>)
    ensures
        (find_meaning(meanings, destination) is None) <==> (forall|j: int|
            0 <= j < meanings.len() ==> meanings[j].lang_id@ != destination),
    decreases meanings.len(),
{
    if meanings.len() > 0 {
        lemma_find_meaning_none(meanings.skip(1), destination);
        assert forall|j: int| 1 <= j < meanings.len() implies meanings[j] == meanings.skip(1)[j
            - 1] by {}
    }
}

/// Every character of `chain` is tested against `allowed`.
pub fn chain_valid_exec(chain: &Vec<char>, allowed: &Vec<char>) -> (r: bool)
    ensures
        r == chain_valid(chain@, allowed@),
{
    let mut i: usize = 0;
    while i < chain.len()
        invariant
            i <= chain@.len(),
            forall|k: int| 0 <= k < i ==> allowed@.contains(chain@[k]),
        decreases chain@.len() - i,
    {
        if !chain_contains(allowed, chain[i]) {
            return false;
        }
        i += 1;
    }
    true
}

/// The position of the first word with the given spelling, if any.
pub fn find_word_idx(words: &Vec<DictWord>, chain: &Vec<char>) -> (r: Option<usize>)
    ensures
        match r {
            Some(i) => {
                &&& i < words@.len()
                &&& words@[i as int].symbol_chain@ == chain@
                &&& find_word(words@, chain@) == Some(words@[i as int])
                &&& word_index(words@, chain@) == i as int
            },
            None => find_word(words@, chain@) is None,
        },
{
    let mut i: usize = 0;
    while i < words.len()
        invariant
            i <= words@.len(),
            forall|j: int| 0 <= j < i ==> words@[j].symbol_chain@ != chain@,
        decreases words@.len() - i,
    {
        if chains_eq(&words[i].symbol_chain, chain) {
            proof {
                lemma_find_word_prefix(words@, chain@, i as int);
                assert(words@.skip(i as int)[0] == words@[i as int]);
            }
            return Some(i);
        }
        i += 1;
    }
    proof {
        lemma_find_word_prefix(words@, chain@, words@.len() as int);
        assert(words@.skip(words@.len() as int) =~= Seq::<DictWord>::empty());
    }
    None
}

impl DictWord {
    /// Selects the meaning recorded for the destination language, if any.
    pub fn meaning_in(&self, destination: &String) -> (r: Option<&Vec<char>>)
        ensures
            match r {
                Some(m) => find_meaning(self.meanings@, destination@) == Some(m@),
                None => find_meaning(self.meanings@, destination@) is None,
            },
    {
        let mut i: usize = 0;
        while i < self.meanings.len()
            invariant
                i <= self.meanings@.len(),
                forall|j: int| 0 <= j < i ==> self.meanings@[j].lang_id@ != destination@,
            decreases self.meanings@.len() - i,
        {
            if self.meanings[i].lang_id == *destination {
                proof {
                    lemma_find_meaning_prefix(self.meanings@, destination@, i as int);
                    assert(self.meanings@.skip(i as int)[0] == self.meanings@[i as int]);
                }
                return Some(&self.meanings[i].symbol_chain);
            }
            i += 1;
        }
        proof {
            lemma_find_meaning_prefix(self.meanings@, destination@, self.meanings@.len() as int);
            assert(self.meanings@.skip(self.meanings@.len() as int) =~= Seq::<Meaning>::empty());
        }
        None
    }
}

impl Dictionary {
    /// The store is well formed: language ids are unique and every language's
    /// word list is well formed.
    pub open spec fn wf(self) -> bool {
        &&& forall|i: int, j: int|
            #![auto]
            0 <= i < j < self.langs@.len() ==> self.langs@[i].id@ != self.langs@[j].id@
        &&& forall|i: int| #![auto] 0 <= i < self.langs@.len() ==> lang_wf(self.langs@[i])
    }

    /// An empty store with no registered language.
    pub fn new() -> (r: Dictionary)
        ensures
            r.wf(),
            r.langs@.len() == 0,
    {
        Dictionary { langs: Vec::new() }
    }

    /// The position of the first language with the given id, if any.
    pub fn find_lang_idx(&self, id: &String) -> (r: Option<usize>)
        ensures
            match r {
                Some(i) => {
                    &&& i < self.langs@.len()
                    &&& self.langs@[i as int].id@ == id@
                    &&& find_lang(self.langs@, id@) == Some(self.langs@[i as int])
                    &&& lang_index(self.langs@, id@) == i as int
                },
                None => find_lang(self.langs@, id@) is None,
            },
    {
        let mut i: usize = 0;
        while i < self.langs.len()
            invariant
                i <= self.langs@.len(),
                forall|j: int| 0 <= j < i ==> self.langs@[j].id@ != id@,
            decreases self.langs@.len() - i,
        {
            if self.langs[i].id == *id {
                proof {
                    lemma_find_lang_prefix(self.langs@, id@, i as int);
                    assert(self.langs@.skip(i as int)[0] == self.langs@[i as int]);
                }
                return Some(i);
            }
            i += 1;
        }
        proof {
            lemma_find_lang_prefix(self.langs@, id@, self.langs@.len() as int);
            assert(self.langs@.skip(self.langs@.len() as int) =~= Seq::<LangRecord>::empty());
        }
        None
    }

    /// Exact lookup of a word in a language's word list.
    pub fn lookup(&self, language_id: &String, symbol_chain: &Vec<char>) -> (r: Option<&DictWord>)
        ensures
            match r {
                Some(w) => find_lang(self.langs@, language_id@) matches Some(l) && find_word(
                    l.words@,
                    symbol_chain@,
                ) == Some(*w),
                None => find_lang(self.langs@, language_id@) is None || find_word(
                    find_lang(self.langs@, language_id@)->0.words@,
                    symbol_chain@,
                ) is None,
            },
    {
        match self.find_lang_idx(language_id) {
            None => None,
            Some(i) => match find_word_idx(&self.langs[i].words, symbol_chain) {
                None => None,
                Some(wi) => Some(&self.langs[i].words[wi]),
            },
        }
    }

    /// Registers a new language. The language starts with no words; its
    /// word list grows only through insertion and registration.
    pub fn add_language(&mut self, lang: crate::dtos::Language) -> (r: Result<(), DictError>)
        requires
            old(self).wf(),
        ensures
            final(self).wf(),
            r is Err ==> *final(self) == *old(self),
            (r == Err::<(), DictError>(DictError::DuplicateLanguage)) <==> find_lang(
                old(self).langs@,
                lang.id@,
            ) is Some,
            (r is Ok) <==> find_lang(old(self).langs@, lang.id@) is None,
            r is Ok ==> {
                &&& final(self).langs@.len() == old(self).langs@.len() + 1
                &&& forall|j: int|
                    0 <= j < old(self).langs@.len() ==> final(self).langs@[j] == old(self).langs@[j]
                &&& final(self).langs@.last().id == lang.id
                &&& final(self).langs@.last().label == lang.label
                &&& final(self).langs@.last().unit_split_symbols == lang.unit_split_symbols
                &&& final(self).langs@.last().allowed_symbols == lang.allowed_symbols
                &&& final(self).langs@.last().words@.len() == 0
            },
    {
        match self.find_lang_idx(&lang.id) {
            Some(_) => Err(DictError::DuplicateLanguage),
            None => {
                proof {
                    lemma_find_lang_none(self.langs@, lang.id@);
                }
                let rec = LangRecord {
                    id: lang.id,
                    label: lang.label,
                    unit_split_symbols: lang.unit_split_symbols,
                    allowed_symbols: lang.allowed_symbols,
                    words: Vec::new(),
                };
                self.langs.push(rec);
                Ok(())
            },
        }
    }

    /// Inserts a brand-new word with its tagged meanings into a language's
    /// word list. The caller has already validated the spelling against the
    /// language's allowed symbols; validation of raw requests is the
    /// registration service's task.
    pub fn insert(
        &mut self,
        language_id: &String,
        symbol_chain: Vec<char>,
        meanings: Vec<Meaning>,
    ) -> (r: Result<(), DictError>)
        requires
            old(self).wf(),
            find_lang(old(self).langs@, language_id@) matches Some(l) ==> chain_valid(
                symbol_chain@,
                l.allowed_symbols@,
            ),
            forall|i: int, j: int|
                #![auto]
                0 <= i < j < meanings@.len() ==> meanings@[i].lang_id@ != meanings@[j].lang_id@,
        ensures
            final(self).wf(),
            r is Err ==> *final(self) == *old(self),
            (r == Err::<(), DictError>(DictError::UnknownLanguage)) <==> find_lang(
                old(self).langs@,
                language_id@,
            ) is None,
            (find_lang(old(self).langs@, language_id@) matches Some(l) && find_word(
                l.words@,
                symbol_chain@,
            ) is Some) ==> r == Err::<(), DictError>(DictError::DuplicateWord),
            (find_lang(old(self).langs@, language_id@) matches Some(l) && find_word(
                l.words@,
                symbol_chain@,
            ) is None) ==> ({
                let li = lang_index(old(self).langs@, language_id@);
                &&& r is Ok
                &&& final(self).langs@.len() == old(self).langs@.len()
                &&& forall|j: int|
                    0 <= j < old(self).langs@.len() && j != li ==> final(self).langs@[j] == old(
                        self,
                    ).langs@[j]
                &&& same_lang_rules(final(self).langs@[li], old(self).langs@[li])
                &&& final(self).langs@[li].words@ == old(self).langs@[li].words@.push(
                    (DictWord { symbol_chain, meanings }),
                )
            }),
    {
        match self.find_lang_idx(language_id) {
            None => Err(DictError::UnknownLanguage),
            Some(i) => {
                match find_word_idx(&self.langs[i].words, &symbol_chain) {
                    Some(_) => Err(DictError::DuplicateWord),
                    None => {
                        proof {
                            lemma_find_word_none(self.langs@[i as int].words@, symbol_chain@);
                        }
                        let ghost old_langs = self.langs@;
                        let mut rec = self.langs.remove(i);
                        let w = DictWord { symbol_chain, meanings };
                        rec.words.push(w);
                        let ghost grec = rec;
                        self.langs.insert(i, rec);
                        proof {
                            assert(self.langs@ =~= old_langs.update(i as int, grec));
                            assert(grec.words@ == old_langs[i as int].words@.push(w));
                            assert forall|a: int, b: int|
                                0 <= a < b < self.langs@.len() implies self.langs@[a].id@
                                != self.langs@[b].id@ by {
                                assert(self.langs@[a].id == old_langs[a].id);
                                assert(self.langs@[b].id == old_langs[b].id);
                            }
                            assert forall|a: int|
                                0 <= a < self.langs@.len() implies lang_wf(self.langs@[a]) by {
                                if a != i as int {
                                    assert(self.langs@[a] == old_langs[a]);
                                } else {
                                    assert forall|x: int, y: int|
                                        0 <= x < y < grec.words@.len() implies grec.words@[x].symbol_chain@
                                        != grec.words@[y].symbol_chain@ by {
                                        if y < grec.words@.len() - 1 {
                                            assert(grec.words@[x]
                                                == old_langs[i as int].words@[x]);
                                            assert(grec.words@[y]
                                                == old_langs[i as int].words@[y]);
                                        } else {
                                            assert(grec.words@[x]
                                                == old_langs[i as int].words@[x]);
                                            assert(grec.words@[y] == w);
                                        }
                                    }
                                    assert forall|x: int|
                                        0 <= x < grec.words@.len() implies chain_valid(
                                        grec.words@[x].symbol_chain@,
                                        grec.allowed_symbols@,
                                    ) by {
                                        if x < grec.words@.len() - 1 {
                                            assert(grec.words@[x]
                                                == old_langs[i as int].words@[x]);
                                        }
                                    }
                                    assert forall|x: int|
                                        0 <= x < grec.words@.len() implies word_tags_unique(
                                        grec.words@[x],
                                    ) by {
                                        if x < grec.words@.len() - 1 {
                                            assert(grec.words@[x]
                                                == old_langs[i as int].words@[x]);
                                        } else {
                                            assert(grec.words@[x] == w);
                                        }
                                    }
                                }
                            }
                        }
                        Ok(())
                    },
                }
            },
        }
    }
}

} // verus!

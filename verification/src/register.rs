//! The registration service: validates a new-word request against the
//! languages' rule sets and commits it to the dictionary store, all or
//! nothing. The store keeps one meaning per destination language (its
//! destination-to-meaning mapping), so of a request's candidate meanings the
//! first is stored; all of them are validated.

use crate::chains::str_to_chars;
use crate::dict::{
    chain_valid, chain_valid_exec, find_lang, find_meaning, find_word, find_word_idx, lang_index,
    lemma_find_meaning_none, lemma_find_word_none, same_lang_rules, word_index, word_tags_unique,
    DictError, DictWord, Dictionary, LangRecord, Meaning,
};
use crate::dtos::NewTransReq;
use vstd::prelude::*;

verus! {

/// How a registration request can fail. The invalid-symbol case carries the
/// offending string, so the transport can name it to the caller.
#[derive(Debug, PartialEq, Eq)]
pub enum RegisterErr {
    UnknownLanguage,
    InvalidSymbol(String),
    DuplicateMeaning,
}

/// The failure category of a registration error, with any payload stripped.
pub open spec fn register_err_kind(e: RegisterErr) -> DictError {
    match e {
        RegisterErr::UnknownLanguage => DictError::UnknownLanguage,
        RegisterErr::InvalidSymbol(_) => DictError::InvalidSymbol,
        RegisterErr::DuplicateMeaning => DictError::DuplicateMeaning,
    }
}

impl RegisterErr {
    /// A readable message for the transport layer; the invalid-symbol case
    /// names the offending string.
    pub fn message(&self) -> (m: String)
        ensures
            *self is UnknownLanguage ==> m@ == "unknown language"@,
            *self is DuplicateMeaning ==> m@ == "duplicate meaning"@,
            *self is InvalidSymbol ==> m@ == "invalid symbol in: "@ + self->InvalidSymbol_0@,
    {
        match self {
            RegisterErr::UnknownLanguage => String::from_str("unknown language"),
            RegisterErr::DuplicateMeaning => String::from_str("duplicate meaning"),
            RegisterErr::InvalidSymbol(s) => String::from_str("invalid symbol in: ").concat(
                s.as_str(),
            ),
        }
    }
}

/// Every character of the request's word belongs to the source language's
/// allowed set, and every character of every candidate meaning belongs to
/// the destination language's allowed set.
pub open spec fn req_symbols_valid(from: LangRecord, to: LangRecord, req: NewTransReq) -> bool {
    &&& chain_valid(req.word@, from.allowed_symbols@)
    &&& forall|i: int|
        0 <= i < req.meanings@.len() ==> chain_valid(req.meanings@[i]@, to.allowed_symbols@)
}

/// The position of the first candidate meaning whose characters fall outside
/// the allowed set (the list's length when all are valid).
pub open spec fn first_invalid_meaning(meanings: Seq<String>, allowed: Seq<char>) -> int
    decreases meanings.len(),
{
    if meanings.len() == 0 {
        0
    } else if !chain_valid(meanings[0]@, allowed) {
        0
    } else {
        1 + first_invalid_meaning(meanings.skip(1), allowed)
    }
}

/// The string a rejected registration is blamed on: the word itself when its
/// spelling breaks the source alphabet, else the first candidate meaning
/// that breaks the destination alphabet.
pub open spec fn offending_string(from: LangRecord, to: LangRecord, req: NewTransReq) -> Seq<
    char,
> {
    if !chain_valid(req.word@, from.allowed_symbols@) {
        req.word@
    } else {
        req.meanings@[first_invalid_meaning(req.meanings@, to.allowed_symbols@)]@
    }
}

/// A scan that saw only valid candidates in the first `i` entries may resume
/// from position `i`.
proof fn lemma_first_invalid_prefix(meanings: Seq<String>, allowed: Seq<char>, i: int)
    requires
        0 <= i <= meanings.len(),
        forall|j: int| 0 <= j < i ==> chain_valid(meanings[j]@, allowed),
    ensures
        first_invalid_meaning(meanings, allowed) == i + first_invalid_meaning(
            meanings.skip(i),
            allowed,
        ),
    decreases i,
{
    if i == 0 {
        assert(meanings.skip(0) =~= meanings);
    } else {
        assert(chain_valid(meanings[0]@, allowed));
        assert forall|j: int| 0 <= j < i - 1 implies chain_valid(
            meanings.skip(1)[j]@,
            allowed,
        ) by {
            assert(meanings.skip(1)[j] == meanings[j + 1]);
        }
        lemma_first_invalid_prefix(meanings.skip(1), allowed, i - 1);
        assert(meanings.skip(1).skip(i - 1) =~= meanings.skip(i));
    }
}

/// The word already carries a meaning for the request's destination.
pub open spec fn req_duplicate_meaning(from: LangRecord, req: NewTransReq) -> bool {
    find_word(from.words@, req.word@) matches Some(w) && find_meaning(
        w.meanings@,
        req.to_lang@,
    ) is Some
}

/// What category of result a registration request must get, judged against
/// the store it was applied to: unknown languages first, then symbol
/// validation, then the duplicate-meaning check; everything else succeeds.
pub open spec fn register_outcome(d: Dictionary, req: NewTransReq) -> Result<(), DictError> {
    if find_lang(d.langs@, req.from_lang@) is None || find_lang(d.langs@, req.to_lang@) is None {
        Err(DictError::UnknownLanguage)
    } else {
        let f = find_lang(d.langs@, req.from_lang@)->0;
        let t = find_lang(d.langs@, req.to_lang@)->0;
        if !req_symbols_valid(f, t, req) {
            Err(DictError::InvalidSymbol)
        } else if req_duplicate_meaning(f, req) {
            Err(DictError::DuplicateMeaning)
        } else {
            Ok(())
        }
    }
}

/// The word's meaning list after a successful registration: unchanged when
/// the request carried no candidate, else extended by exactly one entry,
/// tagged with the request's destination and spelling the first candidate.
pub open spec fn meanings_appended(m0: Seq<Meaning>, m1: Seq<Meaning>, req: NewTransReq) -> bool {
    if req.meanings@.len() == 0 {
        m1 == m0
    } else {
        &&& m1.len() == m0.len() + 1
        &&& forall|k: int| 0 <= k < m0.len() ==> m1[k] == m0[k]
        &&& m1.last().lang_id@ == req.to_lang@
        &&& m1.last().symbol_chain@ == req.meanings@[0]@
    }
}

/// The source language's word list after a successful registration: an
/// existing word keeps its place and gains the new meaning; a new word is
/// appended with it.
pub open spec fn words_registered(w0: Seq<DictWord>, w1: Seq<DictWord>, req: NewTransReq) -> bool {
    if find_word(w0, req.word@) is Some {
        let wi = word_index(w0, req.word@);
        &&& w1.len() == w0.len()
        &&& forall|k: int| 0 <= k < w0.len() && k != wi ==> w1[k] == w0[k]
        &&& w1[wi].symbol_chain == w0[wi].symbol_chain
        &&& meanings_appended(w0[wi].meanings@, w1[wi].meanings@, req)
    } else {
        &&& w1.len() == w0.len() + 1
        &&& forall|k: int| 0 <= k < w0.len() ==> w1[k] == w0[k]
        &&& w1.last().symbol_chain@ == req.word@
        &&& meanings_appended(Seq::empty(), w1.last().meanings@, req)
    }
}

/// The store after a successful registration: every other language is
/// untouched, the source language keeps its id, label and rule sets, and its
/// word list absorbs the request.
pub open spec fn registered(d0: Dictionary, d1: Dictionary, req: NewTransReq) -> bool {
    let i = lang_index(d0.langs@, req.from_lang@);
    &&& d1.langs@.len() == d0.langs@.len()
    &&& forall|j: int| 0 <= j < d0.langs@.len() && j != i ==> d1.langs@[j] == d0.langs@[j]
    &&& same_lang_rules(d1.langs@[i], d0.langs@[i])
    &&& words_registered(d0.langs@[i].words@, d1.langs@[i].words@, req)
}

/// Registers a word with its candidate meanings. Fails hard on unknown
/// languages, on a character outside the proper allowed-symbol set (naming
/// the offending string), and on a meaning already recorded for the
/// destination; a failure leaves the store exactly as it was.
#[verifier::loop_isolation(false)]
pub fn register(store: &mut Dictionary, req: &NewTransReq) -> (r: Result<(), RegisterErr>)
    requires
        old(store).wf(),
    ensures
        final(store).wf(),
        r is Err ==> *final(store) == *old(store),
        (r is Ok) <==> register_outcome(*old(store), *req) is Ok,
        r is Ok ==> registered(*old(store), *final(store), *req),
        r is Err ==> Err::<(), DictError>(register_err_kind(r->Err_0)) == register_outcome(
            *old(store),
            *req,
        ),
        (r is Err && r->Err_0 is InvalidSymbol) ==> r->Err_0->InvalidSymbol_0@ == offending_string(
            find_lang(old(store).langs@, req.from_lang@)->0,
            find_lang(old(store).langs@, req.to_lang@)->0,
            *req,
        ),
{
    let from_idx = match store.find_lang_idx(&req.from_lang) {
        Some(i) => i,
        None => {
            return Err(RegisterErr::UnknownLanguage);
        },
    };
    match store.find_lang_idx(&req.to_lang) {
        Some(_) => (),
        None => {
            return Err(RegisterErr::UnknownLanguage);
        },
    };
    let ghost f = store.langs@[from_idx as int];
    let ghost t = find_lang(store.langs@, req.to_lang@)->0;
    let word_chain = str_to_chars(req.word.as_str());
    if !chain_valid_exec(&word_chain, &store.langs[from_idx].allowed_symbols) {
        return Err(RegisterErr::InvalidSymbol(req.word.clone()));
    }
    let mut k: usize = 0;
    while k < req.meanings.len()
        invariant
            k <= req.meanings@.len(),
            forall|j: int| 0 <= j < k ==> chain_valid(req.meanings@[j]@, t.allowed_symbols@),
        decreases req.meanings@.len() - k,
    {
        let m_chain = str_to_chars(req.meanings[k].as_str());
        let to_idx = match store.find_lang_idx(&req.to_lang) {
            Some(i) => i,
            None => {
                proof {
                    assert(false);
                }
                return Err(RegisterErr::UnknownLanguage);
            },
        };
        if !chain_valid_exec(&m_chain, &store.langs[to_idx].allowed_symbols) {
            proof {
                lemma_first_invalid_prefix(req.meanings@, t.allowed_symbols@, k as int);
                assert(req.meanings@.skip(k as int)[0] == req.meanings@[k as int]);
            }
            return Err(RegisterErr::InvalidSymbol(req.meanings[k].clone()));
        }
        k += 1;
    }
    let mut new_meanings: Vec<Meaning> = Vec::new();
    if req.meanings.len() > 0 {
        let tag = req.to_lang.clone();
        let first_chain = str_to_chars(req.meanings[0].as_str());
        new_meanings.push(Meaning { lang_id: tag, symbol_chain: first_chain });
        proof {
            assert(new_meanings@.last().lang_id@ == req.to_lang@);
            assert(new_meanings@.last().symbol_chain@ == req.meanings@[0]@);
        }
    }
    let existing = find_word_idx(&store.langs[from_idx].words, &word_chain);
    match existing {
        Some(wi) => {
            if store.langs[from_idx].words[wi].meaning_in(&req.to_lang).is_some() {
                return Err(RegisterErr::DuplicateMeaning);
            }
            proof {
                lemma_find_meaning_none(
                    f.words@[wi as int].meanings@,
                    req.to_lang@,
                );
            }
            let ghost old_langs = store.langs@;
            let ghost old_words = f.words@;
            let mut rec = store.langs.remove(from_idx);
            let mut w = rec.words.remove(wi);
            let ghost old_meanings = w.meanings@;
            let ghost gnew = new_meanings@;
            w.meanings.append(&mut new_meanings);
            let ghost gw = w;
            rec.words.insert(wi, w);
            let ghost grec = rec;
            store.langs.insert(from_idx, rec);
            proof {
                assert(store.langs@ =~= old_langs.update(from_idx as int, grec));
                assert(grec.words@ =~= old_words.update(wi as int, gw));
                assert(gw.meanings@ == old_meanings + gnew);
                assert forall|a: int| 0 <= a < old_meanings.len() implies gw.meanings@[a]
                    == old_meanings[a] by {}
                if req.meanings@.len() == 0 {
                    assert(gw.meanings@ =~= old_meanings);
                } else {
                    assert(gw.meanings@.last() == gnew[0]);
                }
                assert(meanings_appended(old_meanings, gw.meanings@, *req));
                assert(words_registered(old_words, grec.words@, *req));
                assert(registered(*old(store), *store, *req));
                assert(word_tags_unique(gw)) by {
                    assert forall|a: int, b: int|
                        0 <= a < b < gw.meanings@.len() implies gw.meanings@[a].lang_id@
                        != gw.meanings@[b].lang_id@ by {
                        if b < old_meanings.len() {
                            assert(gw.meanings@[a] == old_meanings[a]);
                            assert(gw.meanings@[b] == old_meanings[b]);
                            assert(word_tags_unique(old_langs[from_idx as int].words@[wi as int]));
                        } else {
                            assert(gw.meanings@[a] == old_meanings[a]);
                            assert(gw.meanings@[b] == gnew[0]);
                            assert(gw.meanings@[b].lang_id@ == req.to_lang@);
                        }
                    }
                }
                lemma_register_wf_update(*old(store), *store, from_idx as int, grec, gw, wi as int);
            }
            Ok(())
        },
        None => {
            proof {
                assert(chain_valid(word_chain@, f.allowed_symbols@));
                if new_meanings@.len() > 0 {
                    assert(new_meanings@[0].lang_id@ == req.to_lang@);
                }
            }
            let ghost gnew = new_meanings@;
            let r = store.insert(&req.from_lang, word_chain, new_meanings);
            let r = match r {
                Ok(()) => Ok(()),
                Err(_) => {
                    proof {
                        assert(false);
                    }
                    Err(RegisterErr::UnknownLanguage)
                },
            };
            proof {
                let li = lang_index(old(store).langs@, req.from_lang@);
                assert(li == from_idx as int);
                assert(store.langs@[li].words@ == old(store).langs@[li].words@.push(
                    (DictWord { symbol_chain: word_chain, meanings: new_meanings }),
                ));
                let new_ms = store.langs@[li].words@.last().meanings@;
                assert(new_ms == gnew);
                if req.meanings@.len() == 0 {
                    assert(new_ms =~= Seq::<Meaning>::empty());
                } else {
                    assert(new_ms.last() == gnew[0]);
                }
                assert(meanings_appended(Seq::empty(), new_ms, *req));
                assert(words_registered(f.words@, store.langs@[li].words@, *req));
                assert(registered(*old(store), *store, *req));
            }
            r
        },
    }
}

/// After replacing one language record with a version whose word list only
/// gained a meaning on one word, the store stays well formed.
proof fn lemma_register_wf_update(
    d0: Dictionary,
    d1: Dictionary,
    i: int,
    grec: LangRecord,
    gw: DictWord,
    wi: int,
)
    requires
        d0.wf(),
        0 <= i < d0.langs@.len(),
        d1.langs@ == d0.langs@.update(i, grec),
        0 <= wi < d0.langs@[i].words@.len(),
        grec.words@ == d0.langs@[i].words@.update(wi, gw),
        gw.symbol_chain == d0.langs@[i].words@[wi].symbol_chain,
        word_tags_unique(gw),
        grec.id == d0.langs@[i].id,
        grec.allowed_symbols == d0.langs@[i].allowed_symbols,
    ensures
        d1.wf(),
{
    assert forall|a: int, b: int| 0 <= a < b < d1.langs@.len() implies d1.langs@[a].id@
        != d1.langs@[b].id@ by {
        assert(d1.langs@[a].id == d0.langs@[a].id);
        assert(d1.langs@[b].id == d0.langs@[b].id);
    }
    assert forall|a: int| 0 <= a < d1.langs@.len() implies crate::dict::lang_wf(d1.langs@[a]) by {
        if a != i {
            assert(d1.langs@[a] == d0.langs@[a]);
        } else {
            assert forall|x: int, y: int|
                0 <= x < y < grec.words@.len() implies grec.words@[x].symbol_chain@
                != grec.words@[y].symbol_chain@ by {
                assert(grec.words@[x].symbol_chain == d0.langs@[i].words@[x].symbol_chain);
                assert(grec.words@[y].symbol_chain == d0.langs@[i].words@[y].symbol_chain);
            }
            assert forall|x: int| 0 <= x < grec.words@.len() implies chain_valid(
                grec.words@[x].symbol_chain@,
                grec.allowed_symbols@,
            ) by {
                assert(grec.words@[x].symbol_chain == d0.langs@[i].words@[x].symbol_chain);
            }
            assert forall|x: int| 0 <= x < grec.words@.len() implies word_tags_unique(
                grec.words@[x],
            ) by {
                if x != wi {
                    assert(grec.words@[x] == d0.langs@[i].words@[x]);
                }
            }
        }
    }
}

} // verus!

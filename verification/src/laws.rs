//! General properties of the engine, stated over the same spec functions the
//! executable contracts use, and proved once and for all.

use crate::dict::{
    find_lang, find_meaning, find_word, lang_index, lang_wf, lemma_find_lang_found,
    lemma_find_meaning_none, lemma_find_meaning_prefix, lemma_find_word_found,
    lemma_find_word_none, lemma_find_word_prefix, same_lang_rules, word_index, DictError,
    Dictionary, LangRecord, Meaning,
};
use crate::dtos::NewTransReq;
use crate::register::{register_outcome, registered, req_duplicate_meaning, req_symbols_valid};
use crate::resolve::{lemma_translate_one, lemma_translate_split, spec_translate_tokens};
use crate::segment::{lemma_seg_all_delims, lemma_seg_single_unit, seg};
use crate::symbols::{is_allowed_spec, unit_valid};
use vstd::prelude::*;

verus! {

/// Law: a word already in a well-formed language's word list, spelled
/// without split symbols, resolves to exactly the meaning recorded for the
/// destination language. Together with `resolve`'s contract this is the
/// round-trip guarantee: the response carries that meaning's symbol chain
/// and `able_to_translate` is true. (A word spelled with a character that is
/// both allowed and a split symbol would be segmented apart, so such
/// spellings stand outside this law.)
pub proof fn lemma_known_word_resolves(l: LangRecord, to_id: Seq<char>, w: Seq<char>)
    requires
        lang_wf(l),
        w.len() > 0,
        forall|k: int| 0 <= k < w.len() ==> !l.unit_split_symbols@.contains(w[k]),
        find_word(l.words@, w) is Some,
        find_meaning(find_word(l.words@, w)->0.meanings@, to_id) is Some,
    ensures
        spec_translate_tokens(l, to_id, seg(l.unit_split_symbols@, w)) == Some(
            find_meaning(find_word(l.words@, w)->0.meanings@, to_id)->0,
        ),
{
    lemma_seg_single_unit(l.unit_split_symbols@, w);
    lemma_find_word_found(l.words@, w);
    let wi = word_index(l.words@, w);
    assert(unit_valid(l, w)) by {
        assert forall|k: int| 0 <= k < w.len() implies is_allowed_spec(l, w[k]) by {
            assert(l.words@[wi].symbol_chain@ == w);
            assert(l.allowed_symbols@.contains(w[k]));
        }
    }
    lemma_translate_one(l, to_id, (w, false));
}

/// Law: content made only of the language's split symbols segments into
/// delimiter tokens alone — no translatable unit — and resolves to itself,
/// whatever the destination language and the word lists hold.
pub proof fn lemma_all_delims_resolve_identity(l: LangRecord, to_id: Seq<char>, s: Seq<char>)
    requires
        forall|k: int| 0 <= k < s.len() ==> l.unit_split_symbols@.contains(s[k]),
    ensures
        forall|k: int|
            #![auto]
            0 <= k < seg(l.unit_split_symbols@, s).len() ==> seg(l.unit_split_symbols@, s)[k].1,
        spec_translate_tokens(l, to_id, seg(l.unit_split_symbols@, s)) == Some(s),
    decreases s.len(),
{
    lemma_seg_all_delims(l.unit_split_symbols@, s);
    if s.len() == 0 {
        assert(seg(l.unit_split_symbols@, s) =~= Seq::<(Seq<char>, bool)>::empty());
    } else {
        lemma_all_delims_resolve_identity(l, to_id, s.drop_last());
        let toks = seg(l.unit_split_symbols@, s);
        let pre = seg(l.unit_split_symbols@, s.drop_last());
        assert(toks == pre.push((seq![s.last()], true)));
        lemma_translate_split(l, to_id, toks, toks.len() - 1);
        assert(toks.take(toks.len() - 1) =~= pre);
        assert(toks.skip(toks.len() - 1) =~= seq![(seq![s.last()], true)]);
        lemma_translate_one(l, to_id, (seq![s.last()], true));
        assert(s.drop_last() + seq![s.last()] =~= s);
    }
}

/// The meanings a word carried before a registration: those of the found
/// entry, or none when the word was not yet present.
pub open spec fn prior_meanings(words: Seq<crate::dict::DictWord>, chain: Seq<char>) -> Seq<
    Meaning,
> {
    if find_word(words, chain) is Some {
        find_word(words, chain)->0.meanings@
    } else {
        Seq::empty()
    }
}

/// Law: a successful registration leaves a meaning for its destination
/// language on the word, so submitting the same registration again is
/// refused as a duplicate meaning — and `register`'s contract then leaves
/// the store unchanged.
pub proof fn lemma_reregister_same_destination_fails(
    d0: Dictionary,
    d1: Dictionary,
    req: NewTransReq,
)
    requires
        register_outcome(d0, req) is Ok,
        registered(d0, d1, req),
        req.meanings@.len() > 0,
    ensures
        register_outcome(d1, req) == Err::<(), DictError>(DictError::DuplicateMeaning),
{
    let i = lang_index(d0.langs@, req.from_lang@);
    lemma_registered_lang_lookup(d0, d1, req.from_lang@, req.to_lang@, req);
    let f1 = find_lang(d1.langs@, req.from_lang@)->0;
    let t1 = find_lang(d1.langs@, req.to_lang@)->0;
    assert(req_symbols_valid(f1, t1, req));
    lemma_registered_word_found(d0, d1, req);
    let m0 = prior_meanings(d0.langs@[i].words@, req.word@);
    let w1 = find_word(f1.words@, req.word@)->0;
    assert(w1.meanings@[m0.len() as int].lang_id@ == req.to_lang@);
    lemma_find_meaning_none(w1.meanings@, req.to_lang@);
    assert(req_duplicate_meaning(f1, req));
}

/// Law: a registration already acceptable on the original store — same word,
/// same source language, a different destination — is still acceptable after
/// the first registration: the two destinations do not block each other.
pub proof fn lemma_register_second_destination_allowed(
    d0: Dictionary,
    d1: Dictionary,
    req1: NewTransReq,
    req2: NewTransReq,
)
    requires
        register_outcome(d0, req1) is Ok,
        registered(d0, d1, req1),
        register_outcome(d0, req2) is Ok,
        req2.word@ == req1.word@,
        req2.from_lang@ == req1.from_lang@,
        req2.to_lang@ != req1.to_lang@,
    ensures
        register_outcome(d1, req2) is Ok,
{
    let i = lang_index(d0.langs@, req1.from_lang@);
    lemma_registered_lang_lookup(d0, d1, req2.from_lang@, req2.to_lang@, req1);
    let f0 = d0.langs@[i];
    let f1 = find_lang(d1.langs@, req2.from_lang@)->0;
    let t1 = find_lang(d1.langs@, req2.to_lang@)->0;
    assert(f1 == d1.langs@[i]);
    assert(req_symbols_valid(f1, t1, req2));
    lemma_registered_word_found(d0, d1, req1);
    let m0 = prior_meanings(f0.words@, req1.word@);
    let w1 = find_word(f1.words@, req2.word@)->0;
    assert(find_meaning(w1.meanings@, req2.to_lang@) is None) by {
        assert forall|j: int| 0 <= j < w1.meanings@.len() implies w1.meanings@[j].lang_id@
            != req2.to_lang@ by {
            if j < m0.len() {
                assert(w1.meanings@[j] == m0[j]);
                assert(!req_duplicate_meaning(f0, req2));
                if find_word(f0.words@, req2.word@) is Some {
                    lemma_find_meaning_none(m0, req2.to_lang@);
                }
            } else {
                if req1.meanings@.len() == 0 {
                    assert(w1.meanings@ == m0);
                } else {
                    assert(j == m0.len());
                    assert(w1.meanings@[m0.len() as int].lang_id@ == req1.to_lang@);
                }
            }
        }
        lemma_find_meaning_none(w1.meanings@, req2.to_lang@);
    }
    assert(!req_duplicate_meaning(f1, req2));
}

/// Law: after registering the same word for two different destination
/// languages, the two meanings are independently retrievable: looking the
/// word up for each destination yields the first candidate of that
/// destination's own request.
pub proof fn lemma_both_meanings_retrievable(
    d0: Dictionary,
    d1: Dictionary,
    d2: Dictionary,
    req1: NewTransReq,
    req2: NewTransReq,
)
    requires
        register_outcome(d0, req1) is Ok,
        registered(d0, d1, req1),
        register_outcome(d1, req2) is Ok,
        registered(d1, d2, req2),
        req2.word@ == req1.word@,
        req2.from_lang@ == req1.from_lang@,
        req2.to_lang@ != req1.to_lang@,
        req1.meanings@.len() > 0,
        req2.meanings@.len() > 0,
    ensures
        find_lang(d2.langs@, req1.from_lang@) is Some,
        find_word(find_lang(d2.langs@, req1.from_lang@)->0.words@, req1.word@) is Some,
        find_meaning(
            find_word(find_lang(d2.langs@, req1.from_lang@)->0.words@, req1.word@)->0.meanings@,
            req1.to_lang@,
        ) == Some(req1.meanings@[0]@),
        find_meaning(
            find_word(find_lang(d2.langs@, req1.from_lang@)->0.words@, req1.word@)->0.meanings@,
            req2.to_lang@,
        ) == Some(req2.meanings@[0]@),
{
    let i = lang_index(d0.langs@, req1.from_lang@);
    lemma_registered_lang_lookup(d0, d1, req1.from_lang@, req1.to_lang@, req1);
    assert(lang_index(d1.langs@, req2.from_lang@) == i);
    lemma_registered_lang_lookup(d1, d2, req1.from_lang@, req2.to_lang@, req2);
    lemma_registered_word_found(d0, d1, req1);
    lemma_registered_word_found(d1, d2, req2);
    let f0 = d0.langs@[i];
    let f1 = d1.langs@[i];
    let f2 = find_lang(d2.langs@, req1.from_lang@)->0;
    assert(f2 == d2.langs@[i]);
    let m0 = prior_meanings(f0.words@, req1.word@);
    let w1 = find_word(f1.words@, req1.word@)->0;
    assert(prior_meanings(f1.words@, req2.word@) == w1.meanings@);
    let w2 = find_word(f2.words@, req1.word@)->0;
    let n1: int = 1;
    assert(w1.meanings@.len() == m0.len() + n1);
    assert(w2.meanings@.len() == m0.len() + n1 + 1);
    assert(find_meaning(w2.meanings@, req1.to_lang@) == Some(req1.meanings@[0]@)) by {
        assert forall|j: int| 0 <= j < m0.len() implies w2.meanings@[j].lang_id@
            != req1.to_lang@ by {
            assert(w2.meanings@[j] == w1.meanings@[j]);
            assert(w1.meanings@[j] == m0[j]);
            assert(!req_duplicate_meaning(f0, req1));
            if find_word(f0.words@, req1.word@) is Some {
                lemma_find_meaning_none(m0, req1.to_lang@);
            }
        }
        lemma_find_meaning_prefix(w2.meanings@, req1.to_lang@, m0.len() as int);
        assert(w2.meanings@.skip(m0.len() as int)[0] == w2.meanings@[m0.len() as int]);
        assert(w2.meanings@[m0.len() as int] == w1.meanings@[m0.len() as int]);
        assert(w1.meanings@[m0.len() as int].lang_id@ == req1.to_lang@);
        assert(w1.meanings@[m0.len() as int].symbol_chain@ == req1.meanings@[0]@);
    }
    assert(find_meaning(w2.meanings@, req2.to_lang@) == Some(req2.meanings@[0]@)) by {
        assert(!req_duplicate_meaning(f1, req2));
        lemma_find_meaning_none(w1.meanings@, req2.to_lang@);
        assert forall|j: int| 0 <= j < m0.len() + n1 implies w2.meanings@[j].lang_id@
            != req2.to_lang@ by {
            assert(w2.meanings@[j] == w1.meanings@[j]);
        }
        lemma_find_meaning_prefix(w2.meanings@, req2.to_lang@, m0.len() + n1);
        assert(w2.meanings@.skip(m0.len() + n1)[0] == w2.meanings@[m0.len() + n1]);
        assert(w1.meanings@.len() as int == m0.len() + n1);
        assert(w2.meanings@[w1.meanings@.len() as int].lang_id@ == req2.to_lang@);
        assert(w2.meanings@[w1.meanings@.len() as int].symbol_chain@ == req2.meanings@[0]@);
    }
}

/// Language ids alone steer a language lookup: lists that agree on ids
/// entrywise agree on the index and on whether the lookup succeeds.
proof fn lemma_find_lang_id_only(a: Seq<LangRecord>, b: Seq<LangRecord>, id: Seq<char>)
    requires
        a.len() == b.len(),
        forall|j: int| #![auto] 0 <= j < a.len() ==> b[j].id@ == a[j].id@,
    ensures
        lang_index(b, id) == lang_index(a, id),
        (find_lang(b, id) is Some) <==> (find_lang(a, id) is Some),
    decreases a.len(),
{
    if a.len() > 0 {
        assert(b[0].id@ == a[0].id@);
        assert forall|j: int| #![auto] 0 <= j < a.skip(1).len() implies b.skip(1)[j].id@ == a.skip(
            1,
        )[j].id@ by {
            assert(a.skip(1)[j] == a[j + 1]);
            assert(b.skip(1)[j] == b[j + 1]);
        }
        lemma_find_lang_id_only(a.skip(1), b.skip(1), id);
    }
}

/// After a registration, a language lookup by any id that succeeded before
/// still lands on the same index; the record there keeps its rule sets, and
/// only the source language's word list may differ.
proof fn lemma_registered_lang_lookup(
    d0: Dictionary,
    d1: Dictionary,
    from_id: Seq<char>,
    to_id: Seq<char>,
    req: NewTransReq,
)
    requires
        register_outcome(d0, req) is Ok,
        registered(d0, d1, req),
        from_id == req.from_lang@,
        find_lang(d0.langs@, to_id) is Some,
    ensures
        ({
            let i = lang_index(d0.langs@, req.from_lang@);
            &&& 0 <= i < d0.langs@.len()
            &&& d1.langs@.len() == d0.langs@.len()
            &&& lang_index(d1.langs@, from_id) == i
            &&& find_lang(d0.langs@, req.from_lang@) == Some(d0.langs@[i])
            &&& find_lang(d1.langs@, from_id) == Some(d1.langs@[i])
            &&& same_lang_rules(d1.langs@[i], d0.langs@[i])
            &&& find_lang(d1.langs@, to_id) is Some
            &&& find_lang(d1.langs@, to_id)->0.allowed_symbols == find_lang(
                d0.langs@,
                to_id,
            )->0.allowed_symbols
        }),
{
    let i = lang_index(d0.langs@, req.from_lang@);
    lemma_find_lang_found(d0.langs@, req.from_lang@);
    assert forall|j: int| #![auto] 0 <= j < d0.langs@.len() implies d1.langs@[j].id@
        == d0.langs@[j].id@ by {
        if j != i {
            assert(d1.langs@[j] == d0.langs@[j]);
        }
    }
    lemma_find_lang_id_only(d0.langs@, d1.langs@, from_id);
    lemma_find_lang_id_only(d0.langs@, d1.langs@, to_id);
    lemma_find_lang_found(d1.langs@, from_id);
    lemma_find_lang_found(d0.langs@, to_id);
    lemma_find_lang_found(d1.langs@, to_id);
    let i2 = lang_index(d0.langs@, to_id);
    if i2 != i {
        assert(d1.langs@[i2] == d0.langs@[i2]);
    }
}

/// After a registration, the word is found in the source language's list,
/// its earlier meanings stand unchanged in front, and the request's
/// candidates stand appended behind them, each tagged with the request's
/// destination language.
proof fn lemma_registered_word_found(d0: Dictionary, d1: Dictionary, req: NewTransReq)
    requires
        register_outcome(d0, req) is Ok,
        registered(d0, d1, req),
    ensures
        ({
            let i = lang_index(d0.langs@, req.from_lang@);
            let w0s = d0.langs@[i].words@;
            let w1s = d1.langs@[i].words@;
            let m0 = prior_meanings(w0s, req.word@);
            let w1 = find_word(w1s, req.word@)->0;
            &&& find_word(w1s, req.word@) is Some
            &&& (forall|j: int| 0 <= j < m0.len() ==> w1.meanings@[j] == m0[j])
            &&& (req.meanings@.len() == 0 ==> w1.meanings@ == m0)
            &&& (req.meanings@.len() > 0 ==> w1.meanings@.len() == m0.len() + 1
                && w1.meanings@[m0.len() as int].lang_id@ == req.to_lang@
                && w1.meanings@[m0.len() as int].symbol_chain@ == req.meanings@[0]@)
        }),
{
    let i = lang_index(d0.langs@, req.from_lang@);
    lemma_find_lang_found(d0.langs@, req.from_lang@);
    let w0s = d0.langs@[i].words@;
    let w1s = d1.langs@[i].words@;
    if find_word(w0s, req.word@) is Some {
        lemma_find_word_found(w0s, req.word@);
        let wi = word_index(w0s, req.word@);
        assert(w1s[wi].symbol_chain@ == req.word@);
        assert forall|j: int| 0 <= j < wi implies w1s[j].symbol_chain@ != req.word@ by {
            assert(w1s[j] == w0s[j]);
        }
        lemma_find_word_prefix(w1s, req.word@, wi);
        assert(w1s.skip(wi)[0] == w1s[wi]);
        assert(find_word(w1s, req.word@) == Some(w1s[wi]));
        let m0 = prior_meanings(w0s, req.word@);
        assert(m0 == w0s[wi].meanings@);
        assert(find_word(w1s, req.word@)->0 == w1s[wi]);
        assert(crate::register::meanings_appended(m0, w1s[wi].meanings@, req));
    } else {
        lemma_find_word_none(w0s, req.word@);
        assert forall|j: int| 0 <= j < w0s.len() implies w1s[j].symbol_chain@ != req.word@ by {
            assert(w1s[j] == w0s[j]);
        }
        lemma_find_word_prefix(w1s, req.word@, w0s.len() as int);
        assert(w1s.skip(w0s.len() as int)[0] == w1s[w0s.len() as int]);
        assert(w1s[w0s.len() as int] == w1s.last());
        assert(find_word(w1s, req.word@) == Some(w1s.last()));
        let m0 = prior_meanings(w0s, req.word@);
        assert(m0 =~= Seq::<Meaning>::empty());
        assert(find_word(w1s, req.word@)->0 == w1s.last());
        assert(crate::register::meanings_appended(m0, w1s.last().meanings@, req));
    }
}

} // verus!

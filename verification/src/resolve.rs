//! The translation resolver: segments the content, validates each unit,
//! looks units up in the source language's word list, selects the meaning in
//! the destination language, and reassembles the output around the original
//! delimiters. Untranslatable content is a soft outcome; an unknown language
//! is a hard error.

use crate::chains::{chars_to_string, extend_chain, str_to_chars};
use crate::dict::{find_lang, find_meaning, find_word, Dictionary, LangRecord};
use crate::dtos::{TransErr, TransReq, TransResponse};
use crate::segment::{seg, segment, tok_view, toks_view};
use crate::symbols::{unit_valid, unit_valid_exec};
use vstd::prelude::*;

verus! {

/// Sequential composition of two translation outcomes: both parts must
/// succeed, and their outputs concatenate.
pub open spec fn combine(a: Option<Seq<char>>, b: Option<Seq<char>>) -> Option<Seq<char>> {
    if a is None || b is None {
        None
    } else {
        Some(a->0 + b->0)
    }
}

/// The translation of a token list, from the left: a delimiter passes
/// through verbatim; a unit must be valid for the source language, present
/// in its word list, and carry a meaning for the destination, else the whole
/// content is untranslatable.
pub open spec fn spec_translate_tokens(
    l: LangRecord,
    to: Seq<char>,
    toks: Seq<(Seq<char>, bool)>,
) -> Option<Seq<char>>
    decreases toks.len(),
{
    if toks.len() == 0 {
        Some(Seq::empty())
    } else {
        let t = toks[0];
        let rest = spec_translate_tokens(l, to, toks.skip(1));
        if t.1 {
            combine(Some(t.0), rest)
        } else if !unit_valid(l, t.0) {
            None
        } else {
            match find_word(l.words@, t.0) {
                None => None,
                Some(w) => match find_meaning(w.meanings@, to) {
                    None => None,
                    Some(m) => combine(Some(m), rest),
                },
            }
        }
    }
}

/// Translation distributes over splitting the token list at any position.
pub proof fn lemma_translate_split(
    l: LangRecord,
    to: Seq<char>,
    toks: Seq<(Seq<char>, bool)>,
    i: int,
)
    requires
        0 <= i <= toks.len(),
    ensures
        spec_translate_tokens(l, to, toks) == combine(
            spec_translate_tokens(l, to, toks.take(i)),
            spec_translate_tokens(l, to, toks.skip(i)),
        ),
    decreases i,
{
    if i == 0 {
        assert(toks.take(0) =~= Seq::<(Seq<char>, bool)>::empty());
        assert(toks.skip(0) =~= toks);
        if spec_translate_tokens(l, to, toks) is Some {
            assert(Seq::<char>::empty() + spec_translate_tokens(l, to, toks)->0
                =~= spec_translate_tokens(l, to, toks)->0);
        }
    } else {
        let t = toks[0];
        let rest = toks.skip(1);
        lemma_translate_split(l, to, rest, i - 1);
        assert(toks.take(i).skip(1) =~= rest.take(i - 1));
        assert(toks.skip(i) =~= rest.skip(i - 1));
        assert(toks.take(i)[0] == t);
        let a = spec_translate_tokens(l, to, rest.take(i - 1));
        let b = spec_translate_tokens(l, to, rest.skip(i - 1));
        if a is Some && b is Some {
            if t.1 {
                assert((t.0 + a->0) + b->0 =~= t.0 + (a->0 + b->0));
            } else if unit_valid(l, t.0) && find_word(l.words@, t.0) is Some && find_meaning(
                find_word(l.words@, t.0)->0.meanings@,
                to,
            ) is Some {
                let m = find_meaning(find_word(l.words@, t.0)->0.meanings@, to)->0;
                assert((m + a->0) + b->0 =~= m + (a->0 + b->0));
            }
        }
    }
}

/// The translation of a single token, written out.
pub proof fn lemma_translate_one(l: LangRecord, to: Seq<char>, t: (Seq<char>, bool))
    ensures
        spec_translate_tokens(l, to, seq![t]) == (if t.1 {
            Some(t.0)
        } else if !unit_valid(l, t.0) {
            None::<Seq<char>>
        } else {
            match find_word(l.words@, t.0) {
                None => None::<Seq<char>>,
                Some(w) => match find_meaning(w.meanings@, to) {
                    None => None::<Seq<char>>,
                    Some(m) => Some(m),
                },
            }
        }),
{
    let one = seq![t];
    assert(one.skip(1) =~= Seq::<(Seq<char>, bool)>::empty());
    assert(spec_translate_tokens(l, to, one.skip(1)) == Some(Seq::<char>::empty()));
    if t.1 {
        assert(t.0 + Seq::<char>::empty() =~= t.0);
    } else if unit_valid(l, t.0) && find_word(l.words@, t.0) is Some && find_meaning(
        find_word(l.words@, t.0)->0.meanings@,
        to,
    ) is Some {
        let m = find_meaning(find_word(l.words@, t.0)->0.meanings@, to)->0;
        assert(m + Seq::<char>::empty() =~= m);
    }
}

/// Answers a translate request. Unknown source or destination languages are
/// a hard error; otherwise the request succeeds, and the response either
/// carries the fully translated content, or echoes the original content with
/// `able_to_translate` false when any unit is invalid, unknown, or has no
/// meaning in the destination language.
#[verifier::loop_isolation(false)]
pub fn resolve(store: &Dictionary, req: &TransReq) -> (r: Result<TransResponse, TransErr>)
    requires
        store.wf(),
    ensures
        (r is Err) <==> (find_lang(store.langs@, req.from@) is None || find_lang(
            store.langs@,
            req.to@,
        ) is None),
        r is Err ==> r->Err_0.content@ == "unknown language"@,
        (find_lang(store.langs@, req.from@) is Some && find_lang(
            store.langs@,
            req.to@,
        ) is Some) ==> ({
            let f = find_lang(store.langs@, req.from@)->0;
            let outcome = spec_translate_tokens(
                f,
                req.to@,
                seg(f.unit_split_symbols@, req.content@),
            );
            &&& r is Ok
            &&& (outcome matches Some(out) ==> r->Ok_0.able_to_translate == true
                && r->Ok_0.content@ == out)
            &&& (outcome is None ==> r->Ok_0.able_to_translate == false && r->Ok_0.content@
                == req.content@)
        }),
{
    let from_idx = match store.find_lang_idx(&req.from) {
        Some(i) => i,
        None => {
            return Err(TransErr::new("unknown language"));
        },
    };
    match store.find_lang_idx(&req.to) {
        Some(_) => (),
        None => {
            return Err(TransErr::new("unknown language"));
        },
    };
    let ghost f = store.langs@[from_idx as int];
    let lang = &store.langs[from_idx];
    let content = str_to_chars(req.content.as_str());
    let toks = segment(lang, &content);
    let ghost tv = toks_view(toks@);
    let ghost outcome = spec_translate_tokens(f, req.to@, seg(f.unit_split_symbols@, req.content@));
    proof {
        assert(tv == seg(f.unit_split_symbols@, req.content@));
    }
    let mut out: Vec<char> = Vec::new();
    let mut i: usize = 0;
    while i < toks.len()
        invariant
            i <= toks@.len(),
            spec_translate_tokens(f, req.to@, tv.take(i as int)) == Some(out@),
        decreases toks@.len() - i,
    {
        let ghost old_out = out@;
        proof {
            assert(tv[i as int] == tok_view(toks@[i as int]));
            assert(tv.take(i + 1 as int).take(i as int) =~= tv.take(i as int));
            assert(tv.take(i + 1 as int).skip(i as int) =~= seq![tv[i as int]]);
            lemma_translate_split(f, req.to@, tv.take(i + 1 as int), i as int);
            lemma_translate_one(f, req.to@, tv[i as int]);
        }
        let t = &toks[i];
        if t.is_delimiter {
            extend_chain(&mut out, &t.chain);
        } else {
            if !unit_valid_exec(lang, &t.chain) {
                proof {
                    lemma_translate_split(f, req.to@, tv, i as int);
                    assert(spec_translate_tokens(f, req.to@, tv.skip(i as int)) is None) by {
                        assert(tv.skip(i as int)[0] == tv[i as int]);
                    }
                }
                return Ok(TransResponse::from(req.content.clone(), false));
            }
            let found = crate::dict::find_word_idx(&lang.words, &t.chain);
            match found {
                None => {
                    proof {
                        lemma_translate_split(f, req.to@, tv, i as int);
                        assert(spec_translate_tokens(f, req.to@, tv.skip(i as int)) is None) by {
                            assert(tv.skip(i as int)[0] == tv[i as int]);
                        }
                    }
                    return Ok(TransResponse::from(req.content.clone(), false));
                },
                Some(wi) => {
                    let w = &lang.words[wi];
                    match w.meaning_in(&req.to) {
                        None => {
                            proof {
                                lemma_translate_split(f, req.to@, tv, i as int);
                                assert(spec_translate_tokens(
                                    f,
                                    req.to@,
                                    tv.skip(i as int),
                                ) is None) by {
                                    assert(tv.skip(i as int)[0] == tv[i as int]);
                                }
                            }
                            return Ok(TransResponse::from(req.content.clone(), false));
                        },
                        Some(m) => {
                            extend_chain(&mut out, m);
                        },
                    }
                },
            }
        }
        i += 1;
    }
    proof {
        assert(tv.take(toks@.len() as int) =~= tv);
    }
    Ok(TransResponse::from(chars_to_string(&out), true))
}

} // verus!

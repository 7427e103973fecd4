//! The unit segmenter: splits content into an ordered sequence of tokens,
//! where every maximal run of non-split characters is one translatable unit
//! and every single split character is a delimiter token, preserved verbatim.

use crate::dict::LangRecord;
use vstd::prelude::*;

verus! {

/// One token of segmented content: a symbol chain, and whether it is a
/// delimiter (a single split character) or a translatable unit.
pub struct Token {
    pub chain: Vec<char>,
    pub is_delimiter: bool,
}

/// The mathematical value of a token.
pub open spec fn tok_view(t: Token) -> (Seq<char>, bool) {
    (t.chain@, t.is_delimiter)
}

/// The mathematical value of a token list.
pub open spec fn toks_view(ts: Seq<Token>) -> Seq<(Seq<char>, bool)> {
    ts.map_values(|t: Token| tok_view(t))
}

/// Segmentation of `s` under the split set `splits`: scanning from the left,
/// each split character becomes one delimiter token and each maximal run of
/// other characters becomes one unit token. Stated by recursion on the last
/// character: a split character closes a delimiter token of its own; any
/// other character extends a trailing unit, or opens one.
pub open spec fn seg(splits: Seq<char>, s: Seq<char>) -> Seq<(Seq<char>, bool)>
    decreases s.len(),
{
    if s.len() == 0 {
        Seq::empty()
    } else {
        let c = s.last();
        let pre = seg(splits, s.drop_last());
        if splits.contains(c) {
            pre.push((seq![c], true))
        } else if pre.len() > 0 && !pre.last().1 {
            pre.update(pre.len() - 1, (pre.last().0.push(c), false))
        } else {
            pre.push((seq![c], false))
        }
    }
}

/// A nonempty chain free of split characters segments to a single unit.
pub proof fn lemma_seg_single_unit(splits: Seq<char>, w: Seq<char>)
    requires
        w.len() > 0,
        forall|k: int| 0 <= k < w.len() ==> !splits.contains(w[k]),
    ensures
        seg(splits, w) == seq![(w, false)],
    decreases w.len(),
{
    assert(!splits.contains(w.last()));
    if w.len() == 1 {
        assert(seg(splits, w.drop_last()) =~= Seq::<(Seq<char>, bool)>::empty());
        assert(seq![w.last()] =~= w);
        assert(seg(splits, w) =~= seq![(w, false)]);
    } else {
        lemma_seg_single_unit(splits, w.drop_last());
        assert(seg(splits, w.drop_last()) == seq![(w.drop_last(), false)]);
        assert(w.drop_last().push(w.last()) =~= w);
        assert(seg(splits, w) =~= seq![(w, false)]);
    }
}

/// Content made only of split characters segments to one delimiter token per
/// character: no translatable unit appears.
pub proof fn lemma_seg_all_delims(splits: Seq<char>, s: Seq<char>)
    requires
        forall|k: int| 0 <= k < s.len() ==> splits.contains(s[k]),
    ensures
        seg(splits, s).len() == s.len(),
        forall|k: int|
            #![auto]
            0 <= k < s.len() ==> seg(splits, s)[k] == (seq![s[k]], true),
    decreases s.len(),
{
    if s.len() > 0 {
        lemma_seg_all_delims(splits, s.drop_last());
        assert(splits.contains(s.last()));
        assert(seg(splits, s) == seg(splits, s.drop_last()).push((seq![s.last()], true)));
    }
}

/// Segments `content` by the language's split-symbol set. Empty content
/// yields an empty token list.
pub fn segment(language: &LangRecord, content: &Vec<char>) -> (r: Vec<Token>)
    ensures
        toks_view(r@) == seg(language.unit_split_symbols@, content@),
{
    let ghost splits = language.unit_split_symbols@;
    let mut toks: Vec<Token> = Vec::new();
    let mut cur: Vec<char> = Vec::new();
    let mut i: usize = 0;
    while i < content.len()
        invariant
            i <= content@.len(),
            splits == language.unit_split_symbols@,
            cur@.len() == 0 ==> (toks@.len() == 0 || toks@.last().is_delimiter),
            toks_view(toks@) + (if cur@.len() == 0 {
                Seq::<(Seq<char>, bool)>::empty()
            } else {
                seq![(cur@, false)]
            }) =~= seg(splits, content@.take(i as int)),
        decreases content@.len() - i,
    {
        let c = content[i];
        proof {
            assert(content@.take(i + 1 as int).drop_last() =~= content@.take(i as int));
            assert(content@.take(i + 1 as int).last() == content@[i as int]);
        }
        if crate::chains::chain_contains(&language.unit_split_symbols, c) {
            if cur.len() > 0 {
                let ghost old_toks = toks@;
                let unit = Token { chain: cur, is_delimiter: false };
                toks.push(unit);
                cur = Vec::new();
                proof {
                    assert(toks_view(toks@) =~= toks_view(old_toks).push((unit.chain@, false)));
                }
            }
            let ghost mid_toks = toks@;
            toks.push(Token { chain: vec![c], is_delimiter: true });
            proof {
                assert(toks@.last().is_delimiter);
                assert(toks@.last().chain@ =~= seq![c]);
                assert(toks_view(toks@) =~= toks_view(mid_toks).push((seq![c], true)));
            }
        } else {
            let ghost old_cur = cur@;
            cur.push(c);
            proof {
                assert(cur@ == old_cur.push(c));
                let pre = seg(splits, content@.take(i as int));
                if old_cur.len() == 0 {
                    assert(pre.len() == 0 || pre.last().1) by {
                        if toks@.len() > 0 {
                            assert(pre.last() == toks_view(toks@).last());
                            assert(toks_view(toks@).last() == tok_view(toks@.last()));
                        }
                    }
                    assert(seg(splits, content@.take(i + 1 as int)) == pre.push(
                        (seq![c], false),
                    ));
                    assert(old_cur.push(c) =~= seq![c]);
                } else {
                    assert(pre.len() > 0 && !pre.last().1) by {
                        assert(pre.last() == (old_cur, false));
                    }
                    assert(seg(splits, content@.take(i + 1 as int)) == pre.update(
                        pre.len() - 1,
                        (pre.last().0.push(c), false),
                    ));
                    assert(pre.last().0 == old_cur);
                }
            }
        }
        i += 1;
    }
    if cur.len() > 0 {
        let ghost old_toks = toks@;
        let unit = Token { chain: cur, is_delimiter: false };
        toks.push(unit);
        proof {
            assert(toks_view(toks@) =~= toks_view(old_toks).push((unit.chain@, false)));
        }
    }
    proof {
        assert(content@.take(content@.len() as int) =~= content@);
        assert(toks_view(toks@) =~= seg(splits, content@));
    }
    toks
}

} // verus!

//! The symbol validator: membership of a character in a language's alphabet.

use crate::chains::chain_contains;
use crate::dict::LangRecord;
use vstd::prelude::*;

verus! {

/// A character is structurally valid for a language when it belongs to the
/// allowed-symbol set or to the unit-split set: split symbols are always
/// valid even when they are not alphabet characters.
pub open spec fn is_allowed_spec(language: LangRecord, character: char) -> bool {
    language.allowed_symbols@.contains(character) || language.unit_split_symbols@.contains(
        character,
    )
}

/// Checks whether a character is valid for the language.
pub fn is_allowed(language: &LangRecord, character: char) -> (r: bool)
    ensures
        r == is_allowed_spec(*language, character),
{
    chain_contains(&language.allowed_symbols, character) || chain_contains(
        &language.unit_split_symbols,
        character,
    )
}

/// Every character of the unit is valid for the language.
pub open spec fn unit_valid(language: LangRecord, unit: Seq<char>) -> bool {
    forall|k: int| 0 <= k < unit.len() ==> is_allowed_spec(language, unit[k])
}

/// Checks every character of a unit against the language's alphabet.
pub fn unit_valid_exec(language: &LangRecord, unit: &Vec<char>) -> (r: bool)
    ensures
        r == unit_valid(*language, unit@),
{
    let mut i: usize = 0;
    while i < unit.len()
        invariant
            i <= unit@.len(),
            forall|k: int| 0 <= k < i ==> is_allowed_spec(*language, unit@[k]),
        decreases unit@.len() - i,
    {
        if !is_allowed(language, unit[i]) {
            return false;
        }
        i += 1;
    }
    true
}

} // verus!

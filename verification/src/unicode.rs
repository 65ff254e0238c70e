//! The Unicode identifier classes that unquoted attribute names are made of.
use vstd::prelude::*;

verus! {

/// Whether a character has the Unicode property `ID_Start`, as pest's tables give it.
pub uninterp spec fn unicode_id_start(c: char) -> bool;

/// Whether a character has the Unicode property `ID_Continue`, as pest's tables give it.
pub uninterp spec fn unicode_id_continue(c: char) -> bool;

/// `pest::unicode::ID_START`: whether `c` is in pest's table of the `ID_Start`
/// property. Its contract claims only that the answer is a function of the character.
#[verifier::external_body]
pub(crate) fn id_start(c: char) -> (r: bool)
    ensures
        r == unicode_id_start(c),
{
    pest::unicode::ID_START(c)
}

/// `pest::unicode::ID_CONTINUE`: whether `c` is in pest's table of the `ID_Continue`
/// property. Its contract claims only that the answer is a function of the character.
#[verifier::external_body]
pub(crate) fn id_continue(c: char) -> (r: bool)
    ensures
        r == unicode_id_continue(c),
{
    pest::unicode::ID_CONTINUE(c)
}

} // verus!

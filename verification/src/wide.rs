//! Wide strings, which the `widestring` crate makes.
use vstd::prelude::*;

use crate::name::no_nul;

verus! {

/// The UTF-16 units of a character.
pub open spec fn char_units(c: char) -> Seq<u16> {
    let code = c as int;
    if code < 0x10000 {
        seq![code as u16]
    } else {
        seq![
            (0xD800 + (code - 0x10000) / 0x400) as u16,
            (0xDC00 + (code - 0x10000) % 0x400) as u16,
        ]
    }
}

/// The UTF-16 units of a string.
pub open spec fn utf16(s: Seq<char>) -> Seq<u16>
    decreases s.len(),
{
    if s.len() == 0 {
        Seq::empty()
    } else {
        utf16(s.drop_last()) + char_units(s.last())
    }
}

proof fn lemma_char_no_nul(c: char)
    requires
        c != '\0',
    ensures
        no_nul(char_units(c)),
{
    let code = c as int;
    assert(0 < code <= 0x10FFFF);
    if code >= 0x10000 {
        assert(0 <= (code - 0x10000) / 0x400 < 0x400);
    }
}

/// A string without a nul character has no nul unit.
pub proof fn lemma_utf16_no_nul(s: Seq<char>)
    requires
        forall|i: int| 0 <= i < s.len() ==> s[i] != '\0',
    ensures
        no_nul(utf16(s)),
    decreases s.len(),
{
    if s.len() > 0 {
        lemma_utf16_no_nul(s.drop_last());
        lemma_char_no_nul(s.last());
    }
}

/// `widestring::U16CString::from_ustr` on the string of `units`: the same units, unless one of
/// them is nul.
#[verifier::external_body]
fn c_string_from_units(units: &[u16]) -> (r: Option<Vec<u16>>)
    ensures
        match r {
            Some(s) => no_nul(units@) && s@ == units@,
            None => !no_nul(units@),
        },
{
    match widestring::U16CString::from_ustr(widestring::U16Str::from_slice(units)) {
        Ok(s) => Some(s.into_vec()),
        Err(_) => None,
    }
}

/// `widestring::U16CString::from_str`: the UTF-16 units of `s`, unless one of them is nul.
#[verifier::external_body]
fn c_string_from_str(s: &str) -> (r: Option<Vec<u16>>)
    ensures
        match r {
            Some(units) => no_nul(utf16(s@)) && units@ == utf16(s@),
            None => !no_nul(utf16(s@)),
        },
{
    match widestring::U16CString::from_str(s) {
        Ok(units) => Some(units.into_vec()),
        Err(_) => None,
    }
}

/// `widestring::U16String::from_str`: the UTF-16 units of `s`.
#[verifier::external_body]
pub(crate) fn string_from_str(s: &str) -> (r: Vec<u16>)
    ensures
        r@ == utf16(s@),
{
    widestring::U16String::from_str(s).into_vec()
}

/// A name that can be handed out.
pub(crate) fn name_from_units(units: &[u16]) -> (r: Vec<u16>)
    requires
        no_nul(units@),
    ensures
        r@ == units@,
{
    match c_string_from_units(units) {
        Some(s) => s,
        None => vstd::pervasive::unreached(),
    }
}

/// A fixed name that can be handed out.
pub(crate) fn name_from_str(s: &str) -> (r: Vec<u16>)
    requires
        forall|i: int| 0 <= i < s@.len() ==> s@[i] != '\0',
    ensures
        r@ == utf16(s@),
{
    proof {
        lemma_utf16_no_nul(s@);
    }
    match c_string_from_str(s) {
        Some(units) => units,
        None => vstd::pervasive::unreached(),
    }
}

} // verus!

//! Normalizing identifiers before they are interned.

use unicode_normalization::UnicodeNormalization;
use vstd::prelude::*;

use crate::terebinth_span::symbol::{Interner, Symbol};

verus! {

/// `s` in Unicode Normalization Form C, as `unicode_normalization` computes it.
pub uninterp spec fn nfc_form(s: Seq<char>) -> Seq<char>;

/// Whether `unicode_normalization::is_nfc_quick` answers `Yes` for `s`.
pub uninterp spec fn nfc_quick_yes(s: Seq<char>) -> bool;

/// Calls `unicode_normalization::is_nfc_quick` on the characters of `s` and
/// tells whether it answered `IsNormalized::Yes`. The crate answers `Yes` only
/// for a text that is definitely in NFC, that is one that NFC leaves as it is;
/// when it answers `No` or `Maybe` nothing is claimed.
#[verifier::external_body]
fn is_nfc_quick_yes(s: &str) -> (r: bool)
    ensures
        r == nfc_quick_yes(s@),
        r ==> nfc_form(s@) == s@,
{
    match unicode_normalization::is_nfc_quick(s.chars()) {
        unicode_normalization::IsNormalized::Yes => true,
        unicode_normalization::IsNormalized::No => false,
        unicode_normalization::IsNormalized::Maybe => false,
    }
}

/// Calls `UnicodeNormalization::nfc` of `unicode_normalization` on the
/// characters of `s` and collects them: `s` in Normalization Form C.
#[verifier::external_body]
fn nfc_string(s: &str) -> (r: String)
    ensures
        r@ == nfc_form(s@),
{
    s.chars().nfc().collect()
}

/// The symbol of `string` in Normalization Form C. A text that the quick
/// check finds normalized is interned as it is, any other after normalizing.
pub fn nfc_normalize(string: &str, interner: &mut Interner) -> (r: Symbol)
    requires
        old(interner).wf(),
        old(interner)@.len() < u32::MAX,
    ensures
        final(interner).wf(),
        old(interner)@.is_prefix_of(final(interner)@),
        r.0 < final(interner)@.len(),
        final(interner)@[r.0 as int] == nfc_form(string@),
{
    if is_nfc_quick_yes(string) {
        Symbol::intern(string, interner)
    } else {
        let normalized = nfc_string(string);
        Symbol::intern(normalized.as_str(), interner)
    }
}

} // verus!

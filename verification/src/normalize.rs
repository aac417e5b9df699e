//! Unicode normalization, computed by `unicode_normalization`.

use vstd::prelude::*;
use unicode_normalization::UnicodeNormalization;

verus! {

/// The NFC form of `s`.
pub uninterp spec fn nfc_of(s: Seq<char>) -> Seq<char>;

/// The NFKC form of `s`.
pub uninterp spec fn nfkc_of(s: Seq<char>) -> Seq<char>;

/// `UnicodeNormalization::nfc` on `s`, collected into a string.
#[verifier::external_body]
pub(crate) fn nfc(s: &str) -> (r: String)
    ensures
        r@ == nfc_of(s@),
{
    s.nfc().collect::<String>()
}

/// `UnicodeNormalization::nfkc` on `s`, collected into a string.
#[verifier::external_body]
pub(crate) fn nfkc(s: &str) -> (r: String)
    ensures
        r@ == nfkc_of(s@),
{
    s.nfkc().collect::<String>()
}

} // verus!

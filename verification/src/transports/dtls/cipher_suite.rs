//! Cipher suite negotiation.

use vstd::prelude::*;

verus! {

/// TLS_ECDHE_ECDSA_WITH_AES_128_GCM_SHA256, the one cipher suite that is
/// supported.
pub const SUPPORTED_CIPHER_SUITE: u16 = 0xC02B;

/// The cipher suite that a server picks from an offer: the supported one,
/// wherever it stands in the offer.
pub open spec fn negotiated(offered: Seq<u16>) -> Option<u16> {
    if offered.contains(SUPPORTED_CIPHER_SUITE) {
        Some(SUPPORTED_CIPHER_SUITE)
    } else {
        None
    }
}

/// Picks a cipher suite from a client's offer.
pub fn negotiate_cipher_suite(offered: &[u16]) -> (suite: Option<u16>)
    ensures
        suite == negotiated(offered@),
{
    for i in 0..offered.len()
        invariant
            forall|j: int| 0 <= j < i ==> offered@[j] != SUPPORTED_CIPHER_SUITE,
    {
        if offered[i] == SUPPORTED_CIPHER_SUITE {
            assert(offered@[i as int] == SUPPORTED_CIPHER_SUITE);
            return Some(SUPPORTED_CIPHER_SUITE);
        }
    }
    None
}

/// Suites that are not supported neither help nor harm an offer.
pub proof fn other_suites_are_irrelevant(before: Seq<u16>, offered: Seq<u16>, after: Seq<u16>)
    requires
        !before.contains(SUPPORTED_CIPHER_SUITE),
        !after.contains(SUPPORTED_CIPHER_SUITE),
    ensures
        negotiated(before + offered + after) == negotiated(offered),
{
    let all = before + offered + after;
    if offered.contains(SUPPORTED_CIPHER_SUITE) {
        let i = choose|i: int| 0 <= i < offered.len() && offered[i] == SUPPORTED_CIPHER_SUITE;
        assert(all[before.len() + i] == SUPPORTED_CIPHER_SUITE);
    }
    if all.contains(SUPPORTED_CIPHER_SUITE) {
        let i = choose|i: int| 0 <= i < all.len() && all[i] == SUPPORTED_CIPHER_SUITE;
        if i < before.len() {
            assert(before[i] == SUPPORTED_CIPHER_SUITE);
        } else if i < before.len() + offered.len() {
            assert(offered[i - before.len()] == SUPPORTED_CIPHER_SUITE);
        } else {
            assert(after[i - before.len() - offered.len()] == SUPPORTED_CIPHER_SUITE);
        }
    }
}

/// Suite 0xC02B is picked exactly if it is offered, and no other ever is.
pub proof fn only_offered_c02b_is_picked(offered: Seq<u16>)
    ensures
        offered.contains(0xC02B) <==> negotiated(offered) == Some(0xC02Bu16),
        !offered.contains(0xC02B) <==> negotiated(offered) is None,
{
}

} // verus!

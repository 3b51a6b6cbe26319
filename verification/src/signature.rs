//! Facts about signatures: which bits a signature holds after the
//! operations the world applies to it.
use vstd::prelude::*;

use crate::components::{sig_bit, Components};
use crate::entities::{Sigtype, TypeKey};

verus! {

/// Whether a signature has every bit of a component signature.
pub open spec fn sig_has(entity_sig: Sigtype, component_sig: Sigtype) -> bool {
    entity_sig & component_sig == component_sig
}

/// Whether a signature holds no bit at position `n` or above.
pub open spec fn sig_below(s: Sigtype, n: int) -> bool {
    n >= 128 || (s >> (n as u128)) == 0
}

/// Adding or toggling bit `i` leaves the presence of a different bit `j`
/// as it was; bit `i` alone holds no other bit, and no signature without bit
/// `i` has it after toggling.
pub proof fn lemma_other_bits(s: Sigtype, i: u128, j: u128)
    requires
        i < 128,
        j < 128,
        i != j,
    ensures
        sig_has(s | sig_bit(i as int), sig_bit(j as int)) == sig_has(s, sig_bit(j as int)),
        sig_has(s ^ sig_bit(i as int), sig_bit(j as int)) == sig_has(s, sig_bit(j as int)),
        !sig_has(sig_bit(i as int), sig_bit(j as int)),
        !sig_has(0u128, sig_bit(j as int)),
{
    assert(sig_bit(i as int) == (1u128 << i));
    assert(sig_bit(j as int) == (1u128 << j));
    assert((((s | (1u128 << i)) & (1u128 << j)) == (1u128 << j)) == ((s & (1u128 << j)) == (1u128
        << j))) by (bit_vector)
        requires
            i < 128,
            j < 128,
            i != j,
    ;
    assert((((s ^ (1u128 << i)) & (1u128 << j)) == (1u128 << j)) == ((s & (1u128 << j)) == (1u128
        << j))) by (bit_vector)
        requires
            i < 128,
            j < 128,
            i != j,
    ;
    assert(((1u128 << i) & (1u128 << j)) != (1u128 << j)) by (bit_vector)
        requires
            i < 128,
            j < 128,
            i != j,
    ;
    assert((0u128 & (1u128 << j)) != (1u128 << j)) by (bit_vector)
        requires
            j < 128,
    ;
}

/// Adding bit `i` gives the signature that bit; toggling it away from a
/// signature that has it takes the bit away.
pub proof fn lemma_same_bit(s: Sigtype, i: u128)
    requires
        i < 128,
    ensures
        sig_has(s | sig_bit(i as int), sig_bit(i as int)),
        sig_has(sig_bit(i as int), sig_bit(i as int)),
        sig_has(s, sig_bit(i as int)) ==> !sig_has(s ^ sig_bit(i as int), sig_bit(i as int)),
{
    assert(sig_bit(i as int) == (1u128 << i));
    assert(((s | (1u128 << i)) & (1u128 << i)) == (1u128 << i)) by (bit_vector);
    assert(((1u128 << i) & (1u128 << i)) == (1u128 << i)) by (bit_vector);
    assert((s & (1u128 << i)) == (1u128 << i) ==> ((s ^ (1u128 << i)) & (1u128 << i)) != (1u128
        << i)) by (bit_vector)
        requires
            i < 128,
    ;
}

/// Signatures below `n` stay below `n` when a bit below `n` is added or
/// toggled; a bit below `n`, and the empty signature, are below `n`.
pub proof fn lemma_below(s: Sigtype, i: u128, n: u128)
    requires
        i < n,
        n <= 128,
        sig_below(s, n as int),
    ensures
        sig_below(s | sig_bit(i as int), n as int),
        sig_below(s ^ sig_bit(i as int), n as int),
        sig_below(sig_bit(i as int), n as int),
        sig_below(0u128, n as int),
{
    assert(sig_bit(i as int) == (1u128 << i));
    if n < 128 {
        assert((s >> n) == 0u128);
        assert(((s | (1u128 << i)) >> n) == 0u128) by (bit_vector)
            requires
                i < n,
                n < 128,
                (s >> n) == 0u128,
        ;
        assert(((s ^ (1u128 << i)) >> n) == 0u128) by (bit_vector)
            requires
                i < n,
                n < 128,
                (s >> n) == 0u128,
        ;
        assert(((1u128 << i) >> n) == 0u128) by (bit_vector)
            requires
                i < n,
                n < 128,
        ;
        assert((0u128 >> n) == 0u128) by (bit_vector);
    }
}

/// The empty signature holds no bit at all.
pub proof fn lemma_zero_below(n: u128)
    requires
        n <= 128,
    ensures
        sig_below(0u128, n as int),
{
    if n < 128 {
        assert((0u128 >> n) == 0u128) by (bit_vector);
    }
}

/// A signature below `n` is below `n + 1` and, for `n < 128`, does not
/// hold bit `n`.
pub proof fn lemma_below_grow(s: Sigtype, n: u128)
    requires
        n <= 128,
        sig_below(s, n as int),
    ensures
        sig_below(s, n + 1),
        n < 128 ==> !sig_has(s, sig_bit(n as int)),
{
    if n < 128 {
        assert((s >> n) == 0u128);
        assert(n + 1 < 128 ==> (s >> (n + 1)) == 0u128) by (bit_vector)
            requires
                n < 128,
                (s >> n) == 0u128,
        ;
        assert(sig_bit(n as int) == (1u128 << n));
        assert((s & (1u128 << n)) != (1u128 << n)) by (bit_vector)
            requires
                n < 128,
                (s >> n) == 0u128,
        ;
    }
}

/// The signature bit of a registered kind, and its position.
pub proof fn lemma_registered_bit(c: Components, k: TypeKey) -> (i: int)
    requires
        c.wf(),
        c.is_registered(k),
    ensures
        0 <= i < c.sig_offset,
        c.registered@[i] == k,
        c.type_to_sig@[k] == sig_bit(i),
{
    assert(c.registered@.contains(k));
    let i = choose|i: int| 0 <= i < c.registered@.len() && c.registered@[i] == k;
    assert(c.type_to_sig@.contains_key(c.registered@[i]));
    i
}

} // verus!

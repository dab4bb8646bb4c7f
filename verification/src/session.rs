//! The seed of a session, derived from the identifiers of its two peers.

use vstd::prelude::*;

verus! {

/// Whether a byte is an ASCII decimal digit.
pub open spec fn is_digit(b: u8) -> bool {
    48 <= b <= 57
}

/// The number spelled by the decimal digits of an identifier, read in order
/// with every other byte skipped.
pub open spec fn digits_value(id: Seq<u8>) -> nat
    decreases id.len(),
{
    if id.len() == 0 {
        0
    } else {
        let rest = digits_value(id.drop_last());
        if is_digit(id.last()) {
            rest * 10 + (id.last() - 48) as nat
        } else {
            rest
        }
    }
}

/// Whether an identifier holds a decimal digit at all.
pub open spec fn has_digit(id: Seq<u8>) -> bool {
    exists|k: int| 0 <= k < id.len() && is_digit(#[trigger] id[k])
}

/// The seed of a session: the product of the low 64 bits of the two
/// identifier numbers, modulo 2^64.
pub open spec fn seed_of(peer_id: u128, self_id: u128) -> u64 {
    (((peer_id % 0x1_0000_0000_0000_0000) * (self_id % 0x1_0000_0000_0000_0000))
        % 0x1_0000_0000_0000_0000) as u64
}

proof fn lemma_digits_grow(id: Seq<u8>, k: int)
    requires
        0 <= k <= id.len(),
    ensures
        digits_value(id.take(k)) <= digits_value(id),
    decreases id.len(),
{
    if k == id.len() {
        assert(id.take(k) =~= id);
    } else {
        assert(id.drop_last().take(k) =~= id.take(k));
        lemma_digits_grow(id.drop_last(), k);
    }
}

/// The number spelled by the decimal digits of an identifier, or `None`
/// where it holds no digit or the number does not fit in 128 bits.
pub fn id_number(id: &[u8]) -> (n: Option<u128>)
    ensures
        n == if has_digit(id@) && digits_value(id@) <= u128::MAX {
            Some(digits_value(id@) as u128)
        } else {
            None
        },
{
    let mut value: u128 = 0;
    let mut seen = false;
    let mut k: usize = 0;
    while k < id.len()
        invariant
            k <= id@.len(),
            value == digits_value(id@.take(k as int)),
            seen == has_digit(id@.take(k as int)),
        decreases id@.len() - k,
    {
        let b = id[k];
        proof {
            assert(id@.take(k + 1).drop_last() =~= id@.take(k as int));
            assert(id@.take(k + 1).last() == b);
            lemma_digits_grow(id@, k + 1);
            if has_digit(id@.take(k as int)) {
                let j = choose|j: int| 0 <= j < k && is_digit(#[trigger] id@.take(k as int)[j]);
                assert(is_digit(id@.take(k + 1)[j]));
            }
            if has_digit(id@.take(k + 1)) && !is_digit(b) {
                let j = choose|j: int| 0 <= j < k + 1 && is_digit(#[trigger] id@.take(k + 1)[j]);
                assert(is_digit(id@.take(k as int)[j]));
            }
            if is_digit(b) {
                assert(is_digit(id@.take(k + 1)[k as int]));
            }
        }
        if 48 <= b && b <= 57 {
            let digit: u128 = (b - 48) as u128;
            if value > (u128::MAX - digit) / 10 {
                return None;
            }
            value = value * 10 + digit;
            seen = true;
        }
        k += 1;
    }
    assert(id@.take(k as int) =~= id@);
    if seen {
        Some(value)
    } else {
        None
    }
}

/// Derives the seed that both peers of a session share from the numbers of
/// their two identifiers.
pub fn session_seed(peer_id: u128, self_id: u128) -> (seed: u64)
    ensures
        seed == seed_of(peer_id, self_id),
        seed == seed_of(self_id, peer_id),
{
    let a: u64 = #[verifier::truncate]
    (peer_id as u64);
    let b: u64 = #[verifier::truncate]
    (self_id as u64);
    assert(a == peer_id % 0x1_0000_0000_0000_0000) by (bit_vector)
        requires
            a == peer_id as u64,
    ;
    assert(b == self_id % 0x1_0000_0000_0000_0000) by (bit_vector)
        requires
            b == self_id as u64,
    ;
    assert(a as int * b as int == b as int * a as int) by (nonlinear_arith);
    assert(a as int * b as int >= 0) by (nonlinear_arith)
        requires
            a >= 0,
            b >= 0,
    ;
    a.wrapping_mul(b)
}

} // verus!

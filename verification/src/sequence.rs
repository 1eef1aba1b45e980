//! Terms of the additive recurrence, by index.
//!
//! Index 0 names the value 1, index 1 names 1, index 2 names 2, and so on:
//! every index is one step ahead of the textbook numbering, in which the
//! sequence starts 0, 1, 1, 2.
//!
//! Terms are 32 bits wide, and the sequence outgrows that width after index
//! [`LAST_EXACT_INDEX`]. Two policies are offered for the indices beyond it:
//! [`fibonacci`] wraps around silently and returns the term modulo 2^32,
//! [`checked_fibonacci`] refuses with [`GameError::Overflow`].

use vstd::prelude::*;
use crate::error::GameError;

verus! {

/// The largest index whose term fits in 32 bits.
pub const LAST_EXACT_INDEX: u32 = 46;

/// The sequence in its textbook numbering: 0, 1, 1, 2, 3, 5, 8, ...
pub open spec fn textbook_term(k: nat) -> nat
    decreases k,
{
    if k < 2 {
        k
    } else {
        textbook_term((k - 1) as nat) + textbook_term((k - 2) as nat)
    }
}

/// The term that index `n` names, as an unbounded number.
pub open spec fn nth_term(n: nat) -> nat {
    textbook_term(n + 1)
}

/// The number of values that 32 bits can hold.
pub open spec fn modulus() -> nat {
    0x1_0000_0000
}

/// The term that index `n` names, reduced to 32 bits.
pub open spec fn wrapped_term(n: nat) -> nat {
    nth_term(n) % modulus()
}

/// The pair (total, next) that the computation holds after `steps` advances.
///
/// It starts as (0, 1); an advance replaces (total, next) by
/// (total + next, total).
pub open spec fn pair_after(steps: nat) -> (nat, nat)
    decreases steps,
{
    if steps == 0 {
        (0, 1)
    } else {
        let before = pair_after((steps - 1) as nat);
        (before.0 + before.1, before.0)
    }
}

/// After `steps` advances the pair holds the textbook term of that number and
/// the one before it.
pub proof fn lemma_pair_holds_terms(steps: nat)
    ensures
        pair_after(steps).0 == textbook_term(steps),
        steps > 0 ==> pair_after(steps).1 == textbook_term((steps - 1) as nat),
    decreases steps,
{
    if steps > 0 {
        lemma_pair_holds_terms((steps - 1) as nat);
    }
}

/// Later terms are never smaller than earlier ones.
pub proof fn lemma_terms_grow(i: nat, j: nat)
    requires
        i <= j,
    ensures
        nth_term(i) <= nth_term(j),
    decreases j,
{
    if i < j {
        lemma_terms_grow(i, (j - 1) as nat);
    }
}

/// The last term that fits in 32 bits and the first that does not.
proof fn lemma_terms_at_the_edge()
    ensures
        nth_term(46) == 2971215073,
        nth_term(47) == 4807526976,
{
    assert(pair_after(16) == (987nat, 610nat)) by {
        reveal_with_fuel(pair_after, 17);
    }
    assert(pair_after(32) == (2178309nat, 1346269nat)) by {
        reveal_with_fuel(pair_after, 17);
    }
    assert(pair_after(48) == (4807526976nat, 2971215073nat)) by {
        reveal_with_fuel(pair_after, 17);
    }
    lemma_pair_holds_terms(48);
}

/// The term at index `n` fits in 32 bits exactly when `n` is at most
/// [`LAST_EXACT_INDEX`].
pub proof fn lemma_last_exact_index(n: nat)
    ensures
        nth_term(n) <= u32::MAX <==> n <= LAST_EXACT_INDEX,
{
    lemma_terms_at_the_edge();
    if n <= 46 {
        lemma_terms_grow(n, 46);
    } else {
        lemma_terms_grow(47, n);
    }
}

/// Every term from index 1 on is the sum of the two terms before it.
pub proof fn lemma_recurrence(n: nat)
    requires
        n >= 1,
    ensures
        nth_term(n + 1) == nth_term(n) + nth_term((n - 1) as nat),
{
}

/// The recurrence holds of the wrapped terms too, with a wrapping sum: this
/// is what [`fibonacci`] returns at three indices in a row, whatever their
/// size.
pub proof fn lemma_wrapped_recurrence(n: nat)
    requires
        n >= 1,
    ensures
        wrapped_term(n + 1) == (wrapped_term(n) + wrapped_term((n - 1) as nat)) % modulus(),
{
}

/// Where the wrapped terms at `n` and `n - 1` add up within 32 bits, the
/// wrapped term at `n + 1` is their plain sum: there [`fibonacci`] returns
/// at `n + 1` the sum of what it returns at `n` and at `n - 1`.
pub proof fn lemma_exact_recurrence(n: nat)
    requires
        n >= 1,
        wrapped_term(n) + wrapped_term((n - 1) as nat) < modulus(),
    ensures
        wrapped_term(n + 1) == wrapped_term(n) + wrapped_term((n - 1) as nat),
{
}

/// Up to [`LAST_EXACT_INDEX`] nothing wraps: the wrapped terms are the terms
/// themselves, and two neighbours add up within 32 bits.
pub proof fn lemma_nothing_wraps_at_first(n: nat)
    requires
        n >= 1,
        n + 1 <= LAST_EXACT_INDEX,
    ensures
        wrapped_term(n + 1) == nth_term(n + 1),
        wrapped_term(n) == nth_term(n),
        wrapped_term((n - 1) as nat) == nth_term((n - 1) as nat),
        wrapped_term(n) + wrapped_term((n - 1) as nat) < modulus(),
{
    lemma_last_exact_index(n + 1);
}

/// Two values that both meet the contract of [`fibonacci`] for one index are
/// the same value: the term depends on the index and on nothing else.
pub proof fn lemma_same_index_same_term(n: u32, first: u32, second: u32)
    requires
        first == wrapped_term(n as nat),
        second == wrapped_term(n as nat),
    ensures
        first == second,
{
}

/// Where [`checked_fibonacci`] succeeds, [`fibonacci`] returns the same
/// value.
pub proof fn lemma_policies_agree(n: u32)
    requires
        n <= LAST_EXACT_INDEX,
    ensures
        wrapped_term(n as nat) == nth_term(n as nat),
{
    lemma_last_exact_index(n as nat);
}

/// Computes the term at index `n`, wrapping around on overflow.
///
/// Starting from the pair (0, 1), the pair is advanced `n + 1` times. The
/// additions wrap, so the result is the true term modulo 2^32; up to
/// [`LAST_EXACT_INDEX`] it is the true term.
pub fn fibonacci(n: u32) -> (value: u32)
    ensures
        value == wrapped_term(n as nat),
        n <= LAST_EXACT_INDEX ==> value == nth_term(n as nat),
{
    let mut total: u32 = 0;
    let mut next: u32 = 1;
    let mut steps: u64 = 0;
    while steps <= n as u64
        invariant
            steps <= n as u64 + 1,
            total == pair_after(steps as nat).0 % modulus(),
            next == pair_after(steps as nat).1 % modulus(),
        decreases n as u64 + 1 - steps,
    {
        let prev: u32 = total;
        proof {
            vstd::arithmetic::div_mod::lemma_add_mod_noop(
                pair_after(steps as nat).0 as int,
                pair_after(steps as nat).1 as int,
                modulus() as int,
            );
        }
        total = total.wrapping_add(next);
        next = prev;
        steps += 1;
    }
    proof {
        lemma_pair_holds_terms((n + 1) as nat);
        lemma_last_exact_index(n as nat);
    }
    total
}

/// Computes the term at index `n`, or reports that it does not fit.
///
/// The pair is advanced as in [`fibonacci`], but the first addition that
/// would leave 32 bits ends the computation with [`GameError::Overflow`].
/// That happens exactly for the indices above [`LAST_EXACT_INDEX`].
pub fn checked_fibonacci(n: u32) -> (outcome: Result<u32, GameError>)
    ensures
        n <= LAST_EXACT_INDEX ==> outcome == Ok::<u32, GameError>(nth_term(n as nat) as u32),
        n > LAST_EXACT_INDEX ==> outcome == Err::<u32, GameError>(GameError::Overflow),
        outcome is Ok <==> nth_term(n as nat) <= u32::MAX,
{
    let mut total: u32 = 0;
    let mut next: u32 = 1;
    let mut steps: u64 = 0;
    while steps <= n as u64
        invariant
            steps <= n as u64 + 1,
            total == pair_after(steps as nat).0,
            next == pair_after(steps as nat).1,
        decreases n as u64 + 1 - steps,
    {
        let prev: u32 = total;
        match total.checked_add(next) {
            Some(sum) => {
                total = sum;
            },
            None => {
                proof {
                    lemma_pair_holds_terms((steps + 1) as nat);
                    lemma_terms_grow(steps as nat, n as nat);
                    lemma_last_exact_index(n as nat);
                }
                return Err(GameError::Overflow);
            },
        }
        next = prev;
        steps += 1;
    }
    proof {
        lemma_pair_holds_terms((n + 1) as nat);
        lemma_last_exact_index(n as nat);
    }
    Ok(total)
}

} // verus!

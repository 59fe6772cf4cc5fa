//! How many shards a map has, and how their sizes are summed up.
use vstd::arithmetic::div_mod::{
    lemma_fundamental_div_mod, lemma_fundamental_div_mod_converse,
};
use vstd::arithmetic::power::pow;
use vstd::arithmetic::power2::{
    is_pow2, is_pow2_equiv, lemma2_to64, lemma2_to64_rest, lemma_pow2,
};
use vstd::prelude::*;

verus! {

/// The largest power of two that a `usize` holds.
pub const MAX_SHARDS: usize = usize::MAX / 2 + 1;

/// `size` doubled as often as it takes to reach `n`, or as often as a `usize` allows.
pub open spec fn doubled_to(n: nat, size: nat) -> nat
    decreases usize::MAX - size,
{
    if size == 0 || size >= n || size >= MAX_SHARDS {
        size
    } else {
        doubled_to(n, 2 * size)
    }
}

/// The number of shards of a map that is asked for `n`: `n` rounded up to a power of two.
pub open spec fn shard_count(n: nat) -> nat {
    doubled_to(n, 1)
}

/// Of two powers of two the larger is at least twice the smaller.
proof fn lemma_powers_apart(smaller: int, larger: int)
    requires
        is_pow2(smaller),
        is_pow2(larger),
        smaller < larger,
    ensures
        2 * smaller <= larger,
    decreases smaller,
{
    reveal(is_pow2);
    if smaller > 1 {
        lemma_powers_apart(smaller / 2, larger / 2);
    }
}

/// Twice a power of two is one too.
proof fn lemma_power_doubled(size: int)
    requires
        is_pow2(size),
    ensures
        size >= 1,
        is_pow2(2 * size),
{
    reveal(is_pow2);
    assert((2 * size) / 2 == size);
    assert((2 * size) % 2 == 0);
}

/// The largest power of two that a `usize` holds is a power of two.
proof fn lemma_max_shards()
    ensures
        is_pow2(MAX_SHARDS as int),
{
    lemma2_to64();
    lemma2_to64_rest();
    lemma_pow2(31);
    lemma_pow2(63);
    is_pow2_equiv(MAX_SHARDS as int);
    assert(MAX_SHARDS == pow(2, 31) || MAX_SHARDS == pow(2, 63));
}

/// Doubling a power of two that is not too large yet ends at a power of two that reaches
/// `n`, and half of which does not.
proof fn lemma_doubled(n: nat, size: nat)
    requires
        n <= MAX_SHARDS,
        size <= MAX_SHARDS,
        is_pow2(size as int),
        size == 1 || size < 2 * n,
    ensures
        is_pow2(doubled_to(n, size) as int),
        n <= doubled_to(n, size) <= MAX_SHARDS,
        doubled_to(n, size) == 1 || doubled_to(n, size) < 2 * n,
    decreases usize::MAX - size,
{
    lemma_max_shards();
    lemma_power_doubled(size as int);
    if size < n && size < MAX_SHARDS {
        lemma_powers_apart(size as int, MAX_SHARDS as int);
        lemma_doubled(n, 2 * size);
    }
}

/// The number of shards is the smallest power of two that is not below what was asked for.
pub proof fn law_shard_count(n: nat)
    requires
        n <= MAX_SHARDS,
    ensures
        is_pow2(shard_count(n) as int),
        shard_count(n) >= n,
        shard_count(n) <= MAX_SHARDS,
        forall|size: nat| #[trigger] is_pow2(size as int) && size >= n ==> size >= shard_count(n),
{
    reveal(is_pow2);
    lemma_max_shards();
    lemma_doubled(n, 1);
    let count = shard_count(n);
    assert forall|size: nat| #[trigger] is_pow2(size as int) && size >= n implies size >= count by {
        if size < count {
            lemma_powers_apart(size as int, count as int);
        }
    }
}

/// A power of two is rounded to itself.
pub proof fn lemma_power_of_two_stays(size: nat)
    requires
        size <= MAX_SHARDS,
        is_pow2(size as int),
    ensures
        shard_count(size) == size,
{
    law_shard_count(size);
}

/// Rounds `n` up to a power of two, or to the largest that there is.
pub(crate) fn round_shards(n: usize) -> (count: usize)
    ensures
        count == shard_count(n as nat),
        count >= 1,
{
    let mut count: usize = 1;
    while count < n && count < MAX_SHARDS
        invariant
            1 <= count,
            doubled_to(n as nat, count as nat) == shard_count(n as nat),
        decreases usize::MAX - count,
    {
        count = 2 * count;
    }
    count
}

/// Adding to the remainder of a sum, with wrapping, gives the remainder of the sum.
pub(crate) proof fn lemma_wrapping_sum(sum: nat, more: usize)
    ensures
        ((sum % (usize::MAX as nat + 1)) as usize).wrapping_add(more) == (sum + more) % (usize::MAX
            + 1),
{
    let size: int = usize::MAX + 1;
    let quotient: int = sum as int / size;
    let rest: int = sum as int % size;
    lemma_fundamental_div_mod(sum as int, size);
    if rest + more < size {
        lemma_fundamental_div_mod_converse(sum + more, size, quotient, rest + more);
    } else {
        assert((quotient + 1) * size == quotient * size + size) by (nonlinear_arith);
        lemma_fundamental_div_mod_converse(sum + more, size, quotient + 1, rest + more - size);
    }
}

} // verus!

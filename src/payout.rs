use vstd::prelude::*;

verus! {

/// The number of winners for `n` participants: a tenth, rounded up.
pub open spec fn winner_count_spec(n: int) -> int {
    (n + 9) / 10
}

/// Nine tenths of the pool, truncated.
pub open spec fn winner_share_spec(pool: int) -> int {
    pool * 90 / 100
}

/// One tenth of the pool, truncated.
pub open spec fn burn_share_spec(pool: int) -> int {
    pool * 10 / 100
}

/// `ceil(n / 10)`, computed without overflow.
pub fn winner_count(n: usize) -> (r: usize)
    ensures
        r == winner_count_spec(n as int),
        n >= 1 ==> r >= 1,
{
    let extra: usize = if n % 10 != 0 { 1 } else { 0 };
    n / 10 + extra
}

/// Splits a pool into the winners' share and the burn share, each truncated
/// independently; the two may fall short of the pool by a few units.
pub fn split_prize(pool: u64) -> (r: (u64, u64))
    ensures
        r.0 == winner_share_spec(pool as int),
        r.1 == burn_share_spec(pool as int),
        r.0 + r.1 <= pool,
{
    let wide: u128 = pool as u128;
    let winners: u128 = wide * 90 / 100;
    let burn: u128 = wide * 10 / 100;
    assert(winners <= pool && burn <= pool && winners + burn <= pool) by (nonlinear_arith)
        requires
            winners == wide * 90 / 100,
            burn == wide * 10 / 100,
            wide == pool,
    ;
    (winners as u64, burn as u64)
}

} // verus!

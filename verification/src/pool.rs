//! Outcome pool: pure, deterministic pricing and cost accounting.
//!
//! The pool holds one cumulative share-supply counter per outcome and the
//! liquidity parameter `b`. Prices and purchase costs are derived from a
//! strictly increasing per-outcome weighting `w(q) = q + b` and the strictly
//! convex cost function `C(n) = n*(q + b) + tri(n)` (the exact discrete sum
//! of the weights `w(q), w(q+1), ..., w(q+n-1)`), so that every computation
//! is exact integer arithmetic: bit-identical on every replica, no floating
//! point, and path independent by construction.

use vstd::prelude::*;
use vstd::arithmetic::div_mod::{
    lemma_div_pos_is_pos, lemma_fundamental_div_mod, lemma_mod_division_less_than_divisor,
    lemma_multiply_divide_lt,
};
use crate::errors::MarketError;

verus! {

/// Prices are fixed-point fractions of this denominator (parts per million).
pub const PRICE_SCALE: u64 = 1_000_000;

/// A market needs at least this many outcomes.
pub const MIN_OUTCOMES: usize = 2;

/// A market may hold at most this many outcomes.
pub const MAX_OUTCOMES: usize = 10;

/// Weight of one outcome at share supply `q` with liquidity parameter `b`.
/// Strictly increasing in `q`; strictly positive whenever `b >= 1`.
pub open spec fn weight(q: int, b: int) -> int {
    q + b
}

/// Sum of the weights of the outcomes `k..` of the share vector `q`.
pub open spec fn sum_weights_from(q: Seq<u64>, b: int, k: int) -> int
    decreases q.len() - k,
{
    if k < 0 || k >= q.len() {
        0
    } else {
        weight(q[k] as int, b) + sum_weights_from(q, b, k + 1)
    }
}

/// Sum of the weights of all outcomes of the share vector `q`.
pub open spec fn sum_weights(q: Seq<u64>, b: int) -> int {
    sum_weights_from(q, b, 0)
}

/// The fixed-point price of outcome `i`: each outcome receives one base part
/// per million, and the remaining `PRICE_SCALE - len` parts are divided in
/// proportion to the weights, rounding down. The base part keeps every price
/// strictly positive, and rounding down keeps the sum of all prices at most
/// `PRICE_SCALE`. Each price differs from the exact proportional share of
/// `PRICE_SCALE` by less than `MAX_OUTCOMES + 1` parts per million, far
/// inside the documented 0.1% tolerance.
pub open spec fn price_spec(q: Seq<u64>, b: int, i: int) -> int {
    1 + (weight(q[i] as int, b) * (PRICE_SCALE - q.len())) / sum_weights(q, b)
}

/// Sum of the prices of the outcomes `k..`.
pub open spec fn sum_prices_from(q: Seq<u64>, b: int, k: int) -> int
    decreases q.len() - k,
{
    if k < 0 || k >= q.len() {
        0
    } else {
        price_spec(q, b, k) + sum_prices_from(q, b, k + 1)
    }
}

/// Sum of the prices of all outcomes.
pub open spec fn sum_prices(q: Seq<u64>, b: int) -> int {
    sum_prices_from(q, b, 0)
}

/// The triangular number `0 + 1 + ... + (n-1)`.
pub open spec fn tri(n: int) -> int
    decreases n,
{
    if n <= 0 {
        0
    } else {
        tri(n - 1) + n - 1
    }
}

/// Collateral required to raise one outcome's share supply from `q` to
/// `q + n`: the sum of the weights `w(q) + w(q+1) + ... + w(q+n-1)`.
pub open spec fn cost_of(q: int, b: int, n: int) -> int {
    n * (q + b) + tri(n)
}

proof fn lemma_tri_nonneg(n: int)
    ensures
        tri(n) >= 0,
    decreases n,
{
    if n > 0 {
        lemma_tri_nonneg(n - 1);
    }
}

proof fn lemma_tri_closed(n: int)
    requires
        n >= 0,
    ensures
        2 * tri(n) == n * (n - 1),
        tri(n) >= 0,
    decreases n,
{
    if n == 0 {
    } else {
        lemma_tri_closed(n - 1);
        assert(2 * tri(n) == n * (n - 1)) by (nonlinear_arith)
            requires
                2 * tri(n - 1) == (n - 1) * (n - 2),
                tri(n) == tri(n - 1) + n - 1,
                n >= 1,
        ;
    }
}

/// Splitting a triangular number: `tri(a + c) == tri(a) + tri(c) + a*c`.
proof fn lemma_tri_split(a: int, c: int)
    requires
        a >= 0,
        c >= 0,
    ensures
        tri(a + c) == tri(a) + tri(c) + a * c,
    decreases c,
{
    if c == 0 {
        assert(a * 0 == 0) by (nonlinear_arith);
    } else {
        lemma_tri_split(a, c - 1);
        assert(tri(a + c) == tri(a) + tri(c) + a * c) by (nonlinear_arith)
            requires
                tri(a + c - 1) == tri(a) + tri(c - 1) + a * (c - 1),
                tri(a + c) == tri(a + c - 1) + a + c - 1,
                tri(c) == tri(c - 1) + c - 1,
                a >= 0,
                c >= 1,
        ;
    }
}

/// Buying one more share costs exactly the weight at the current supply.
pub proof fn lemma_cost_step(q: int, b: int, n: int)
    requires
        n >= 0,
    ensures
        cost_of(q, b, n + 1) == cost_of(q, b, n) + weight(q + n, b),
{
    assert((n + 1) * (q + b) == n * (q + b) + (q + b)) by (nonlinear_arith);
    assert(tri(n + 1) == tri(n) + n);
}

/// Cost is strictly increasing in the number of shares bought.
pub proof fn lemma_cost_strictly_increasing(q: int, b: int, n1: int, n2: int)
    requires
        q >= 0,
        b >= 1,
        0 <= n1 < n2,
    ensures
        cost_of(q, b, n1) < cost_of(q, b, n2),
    decreases n2 - n1,
{
    lemma_cost_step(q, b, n2 - 1);
    if n1 < n2 - 1 {
        lemma_cost_strictly_increasing(q, b, n1, n2 - 1);
    }
}

/// Cost is strictly convex: the second difference in the number of shares
/// bought is strictly positive, so buying more of the same outcome gets
/// progressively more expensive.
pub proof fn lemma_cost_strictly_convex(q: int, b: int, n: int)
    requires
        n >= 0,
    ensures
        cost_of(q, b, n + 2) - cost_of(q, b, n + 1) > cost_of(q, b, n + 1) - cost_of(q, b, n),
{
    lemma_cost_step(q, b, n);
    lemma_cost_step(q, b, n + 1);
}

/// Path independence: buying `a` shares and then `c` shares of the same
/// outcome costs exactly as much as buying `a + c` shares at once.
pub proof fn lemma_cost_path_independent(q: int, b: int, a: int, c: int)
    requires
        q >= 0,
        a >= 0,
        c >= 0,
    ensures
        cost_of(q, b, a) + cost_of(q + a, b, c) == cost_of(q, b, a + c),
{
    lemma_tri_split(a, c);
    assert(c * (q + a + b) == c * (q + b) + c * a) by (nonlinear_arith);
    assert((a + c) * (q + b) == a * (q + b) + c * (q + b)) by (nonlinear_arith);
    assert(c * a == a * c) by (nonlinear_arith);
}

/// A purchase of at least one share costs at least one unit of collateral,
/// and at least `q + n` (which bounds the new share supply by the cost).
pub proof fn lemma_cost_positive(q: int, b: int, n: int)
    requires
        q >= 0,
        b >= 1,
        n >= 1,
    ensures
        cost_of(q, b, n) >= q + n,
        cost_of(q, b, n) >= 1,
{
    lemma_tri_nonneg(n);
    assert(n * (q + b) >= q + n) by (nonlinear_arith)
        requires
            q >= 0,
            b >= 1,
            n >= 1,
    ;
}

proof fn lemma_sum_weights_lower(q: Seq<u64>, b: int, k: int)
    requires
        b >= 1,
        0 <= k <= q.len(),
    ensures
        sum_weights_from(q, b, k) >= (q.len() - k) * b,
    decreases q.len() - k,
{
    if k < q.len() {
        lemma_sum_weights_lower(q, b, k + 1);
        assert((q.len() - k) * b == b + (q.len() - k - 1) * b) by (nonlinear_arith);
    } else {
        assert((q.len() - k) * b == 0) by (nonlinear_arith)
            requires
                q.len() - k == 0,
        ;
    }
}

proof fn lemma_sum_weights_upper(q: Seq<u64>, b: int, k: int)
    requires
        b >= 0,
        0 <= k <= q.len(),
    ensures
        sum_weights_from(q, b, k) <= (q.len() - k) * (u64::MAX + b),
    decreases q.len() - k,
{
    if k < q.len() {
        lemma_sum_weights_upper(q, b, k + 1);
        assert((q.len() - k) * (u64::MAX + b) == (u64::MAX + b) + (q.len() - k - 1) * (u64::MAX
            + b)) by (nonlinear_arith);
    } else {
        assert((q.len() - k) * (u64::MAX + b) == 0) by (nonlinear_arith)
            requires
                q.len() - k == 0,
        ;
    }
}

proof fn lemma_weight_le_sum(q: Seq<u64>, b: int, k: int, i: int)
    requires
        b >= 1,
        0 <= k <= i < q.len(),
    ensures
        sum_weights_from(q, b, k) >= weight(q[i] as int, b) + (q.len() - k - 1) * b,
    decreases i - k,
{
    if k == i {
        lemma_sum_weights_lower(q, b, k + 1);
    } else {
        lemma_weight_le_sum(q, b, k + 1, i);
        assert((q.len() - k - 1) * b == b + (q.len() - k - 2) * b) by (nonlinear_arith);
    }
}

/// Every price is at least 1 part per million and at most
/// `PRICE_SCALE - len`, hence strictly between 0 and 1.
proof fn lemma_price_in_range(q: Seq<u64>, b: int, i: int)
    requires
        b >= 1,
        2 <= q.len() <= 10,
        0 <= i < q.len(),
    ensures
        0 < price_spec(q, b, i) <= PRICE_SCALE - q.len(),
{
    let s = sum_weights(q, b);
    let w = weight(q[i] as int, b);
    let m = PRICE_SCALE - q.len();
    lemma_sum_weights_lower(q, b, 0);
    assert(q.len() * b >= 2) by (nonlinear_arith)
        requires
            q.len() >= 2,
            b >= 1,
    ;
    lemma_weight_le_sum(q, b, 0, i);
    assert((q.len() - 1) * b >= 1) by (nonlinear_arith)
        requires
            q.len() >= 2,
            b >= 1,
    ;
    assert(w * m >= 0) by (nonlinear_arith)
        requires
            w >= 1,
            m >= 1,
    ;
    lemma_div_pos_is_pos(w * m, s);
    assert(w * m < s * m) by (nonlinear_arith)
        requires
            w < s,
            m >= 1,
    ;
    lemma_multiply_divide_lt(w * m, s, m);
}

proof fn lemma_sum_prices_bounds(q: Seq<u64>, b: int, k: int)
    requires
        b >= 1,
        2 <= q.len() <= 10,
        0 <= k <= q.len(),
    ensures
        sum_weights(q, b) * (sum_prices_from(q, b, k) - (q.len() - k)) <= (PRICE_SCALE - q.len())
            * sum_weights_from(q, b, k),
        sum_weights(q, b) * (sum_prices_from(q, b, k) - (q.len() - k)) >= (PRICE_SCALE - q.len())
            * sum_weights_from(q, b, k) - (q.len() - k) * (sum_weights(q, b) - 1),
    decreases q.len() - k,
{
    let s = sum_weights(q, b);
    let m = PRICE_SCALE - q.len();
    lemma_sum_weights_lower(q, b, 0);
    assert(q.len() * b >= 2) by (nonlinear_arith)
        requires
            q.len() >= 2,
            b >= 1,
    ;
    if k == q.len() {
        assert(s * 0 == 0) by (nonlinear_arith);
        assert(m * 0 == 0) by (nonlinear_arith);
        assert((q.len() - k) * (s - 1) == 0) by (nonlinear_arith)
            requires
                q.len() - k == 0,
        ;
    } else {
        lemma_sum_prices_bounds(q, b, k + 1);
        let w = weight(q[k] as int, b);
        let fk = (w * m) / s;
        let r = (w * m) % s;
        lemma_fundamental_div_mod(w * m, s);
        lemma_mod_division_less_than_divisor(w * m, s);
        let len = q.len() as int;
        let sp1 = sum_prices_from(q, b, k + 1);
        let sw1 = sum_weights_from(q, b, k + 1);
        assert(sum_prices_from(q, b, k) == 1 + fk + sp1);
        assert(sum_weights_from(q, b, k) == w + sw1);
        assert(s * (1 + fk + sp1 - (len - k)) <= m * (w + sw1)) by (nonlinear_arith)
            requires
                w * m == s * fk + r,
                r >= 0,
                s * (sp1 - (len - k - 1)) <= m * sw1,
        ;
        assert(s * (1 + fk + sp1 - (len - k)) >= m * (w + sw1) - (len - k) * (s - 1))
            by (nonlinear_arith)
            requires
                w * m == s * fk + r,
                r <= s - 1,
                s * (sp1 - (len - k - 1)) >= m * sw1 - (len - k - 1) * (s - 1),
        ;
    }
}

/// Price normalization: with a positive liquidity parameter and 2 to 10
/// outcomes, every price lies strictly between 0 and `PRICE_SCALE`, and the
/// prices sum to `PRICE_SCALE` within a shortfall of less than one part per
/// million per outcome (the documented rounding tolerance; rounding is
/// always downward, so the sum never exceeds `PRICE_SCALE`).
pub proof fn lemma_price_normalization(q: Seq<u64>, b: int)
    requires
        b >= 1,
        2 <= q.len() <= 10,
    ensures
        forall|i: int| 0 <= i < q.len() ==> 0 < #[trigger] price_spec(q, b, i) < PRICE_SCALE,
        PRICE_SCALE - q.len() < sum_prices(q, b) <= PRICE_SCALE,
{
    assert forall|i: int| 0 <= i < q.len() implies 0 < #[trigger] price_spec(q, b, i)
        < PRICE_SCALE by {
        lemma_price_in_range(q, b, i);
    }
    lemma_sum_prices_bounds(q, b, 0);
    let s = sum_weights(q, b);
    let m = PRICE_SCALE - q.len();
    let len = q.len() as int;
    let total = sum_prices(q, b);
    lemma_sum_weights_lower(q, b, 0);
    assert(q.len() * b >= 2) by (nonlinear_arith)
        requires
            q.len() >= 2,
            b >= 1,
    ;
    assert(total <= m + len) by (nonlinear_arith)
        requires
            s >= 2,
            s * (total - len) <= m * s,
    ;
    assert(total > m) by (nonlinear_arith)
        requires
            s >= 2,
            len >= 2,
            s * (total - len) >= m * s - len * (s - 1),
    ;
}

/// Per-outcome share-supply counters and the liquidity parameter of one
/// market. Supplies only grow while the market trades; shares are never
/// destroyed before resolution.
pub struct OutcomePool {
    /// Liquidity parameter `b`; fixed at creation, always at least 1.
    pub b: u64,
    /// Cumulative shares issued per outcome (`q_i`).
    pub shares: Vec<u64>,
}

impl OutcomePool {
    /// Structural invariant: positive liquidity and 2 to 10 outcomes.
    pub open spec fn wf(self) -> bool {
        &&& self.b >= 1
        &&& MIN_OUTCOMES <= self.shares@.len() <= MAX_OUTCOMES
    }

    /// A fresh pool with every share supply at zero.
    pub fn new(outcome_count: usize, b: u64) -> (pool: OutcomePool)
        requires
            MIN_OUTCOMES <= outcome_count <= MAX_OUTCOMES,
            b >= 1,
        ensures
            pool.wf(),
            pool.b == b,
            pool.shares@.len() == outcome_count,
            forall|i: int| 0 <= i < outcome_count ==> pool.shares@[i] == 0,
    {
        let mut shares: Vec<u64> = Vec::new();
        let mut k: usize = 0;
        while k < outcome_count
            invariant
                k <= outcome_count,
                shares@.len() == k,
                forall|i: int| 0 <= i < k ==> shares@[i] == 0,
            decreases outcome_count - k,
        {
            shares.push(0);
            k = k + 1;
        }
        OutcomePool { b, shares }
    }

    /// The instantaneous fixed-point price of outcome `i`, in parts per
    /// million of `PRICE_SCALE`. Always strictly between 0 and `PRICE_SCALE`.
    pub fn price(&self, i: usize) -> (p: u64)
        requires
            self.wf(),
            i < self.shares@.len(),
        ensures
            p == price_spec(self.shares@, self.b as int, i as int),
            0 < p < PRICE_SCALE,
    {
        let ghost bi = self.b as int;
        let n = self.shares.len();
        let mut total: u128 = 0;
        let mut k: usize = 0;
        proof {
            lemma_sum_weights_upper(self.shares@, bi, 0);
            assert((self.shares@.len() - 0) * (u64::MAX + bi) <= 10 * (u64::MAX + u64::MAX))
                by (nonlinear_arith)
                requires
                    self.shares@.len() <= 10,
                    1 <= bi <= u64::MAX,
            ;
        }
        while k < n
            invariant
                k <= n,
                n == self.shares@.len(),
                self.wf(),
                bi == self.b as int,
                sum_weights(self.shares@, bi) <= 10 * (u64::MAX + u64::MAX),
                total as int == sum_weights(self.shares@, bi) - sum_weights_from(
                    self.shares@,
                    bi,
                    k as int,
                ),
            decreases n - k,
        {
            proof {
                lemma_sum_weights_lower(self.shares@, bi, k as int + 1);
                assert((self.shares@.len() - (k + 1)) * bi >= 0) by (nonlinear_arith)
                    requires
                        self.shares@.len() - (k + 1) >= 0,
                        bi >= 1,
                ;
            }
            total = total + (self.shares[k] as u128 + self.b as u128);
            k = k + 1;
        }
        proof {
            lemma_sum_weights_lower(self.shares@, bi, 0);
            assert(self.shares@.len() * bi >= 2) by (nonlinear_arith)
                requires
                    self.shares@.len() >= 2,
                    bi >= 1,
            ;
            lemma_price_in_range(self.shares@, bi, i as int);
        }
        let w: u128 = self.shares[i] as u128 + self.b as u128;
        let m: u128 = (PRICE_SCALE as u128) - (n as u128);
        proof {
            assert(w * m <= (u64::MAX + u64::MAX) * (PRICE_SCALE as int)) by (nonlinear_arith)
                requires
                    0 <= w <= u64::MAX + u64::MAX,
                    0 <= m <= PRICE_SCALE as int,
            ;
        }
        let numer: u128 = w * m;
        let p128: u128 = 1 + numer / total;
        p128 as u64
    }

    /// The full price vector, one fixed-point price per outcome.
    pub fn prices(&self) -> (prices: Vec<u64>)
        requires
            self.wf(),
        ensures
            prices@.len() == self.shares@.len(),
            forall|j: int|
                0 <= j < prices@.len() ==> prices@[j] == price_spec(
                    self.shares@,
                    self.b as int,
                    j,
                ),
    {
        let n = self.shares.len();
        let mut prices: Vec<u64> = Vec::new();
        let mut k: usize = 0;
        while k < n
            invariant
                k <= n,
                n == self.shares@.len(),
                self.wf(),
                prices@.len() == k,
                forall|j: int|
                    0 <= j < k ==> prices@[j] == price_spec(self.shares@, self.b as int, j),
            decreases n - k,
        {
            let p = self.price(k);
            prices.push(p);
            k = k + 1;
        }
        prices
    }

    /// Total collateral required to raise the supply of outcome `i` by
    /// `delta` shares, holding all other supplies fixed. Exact difference of
    /// the cost function; fails with `ArithmeticOverflow` when the cost (and
    /// with it the new supply) would leave the range of `u64`, and with
    /// `LiquidityParameterInvalid` when `b` is zero (unreachable for any
    /// pool built by this crate, whose creation validates `b`).
    pub fn cost_to_buy(&self, i: usize, delta: u64) -> (r: Result<u64, MarketError>)
        requires
            i < self.shares@.len(),
        ensures
            ({
                let c = cost_of(self.shares@[i as int] as int, self.b as int, delta as int);
                &&& (self.b == 0 ==> r == Err::<u64, MarketError>(
                    MarketError::LiquidityParameterInvalid,
                ))
                &&& (self.b >= 1 && c <= u64::MAX ==> (r matches Ok(v) && v == c))
                &&& (self.b >= 1 && c > u64::MAX ==> r == Err::<u64, MarketError>(
                    MarketError::ArithmeticOverflow,
                ))
            }),
    {
        if self.b == 0 {
            return Err(MarketError::LiquidityParameterInvalid);
        }
        let q = self.shares[i];
        let ghost n = delta as int;
        let ghost qi = q as int;
        let ghost bi = self.b as int;
        proof {
            lemma_tri_closed(n);
        }
        if delta == 0 {
            assert(0 * (qi + bi) == 0) by (nonlinear_arith);
            return Ok(0);
        }
        let nn: u128 = delta as u128;
        let qq: u128 = q as u128;
        let bb: u128 = self.b as u128;
        let half: u128 = if nn % 2 == 0 {
            let h = nn / 2;
            proof {
                assert(h * (nn - 1) <= u128::MAX) by (nonlinear_arith)
                    requires
                        0 <= h,
                        h * 2 <= nn,
                        1 <= nn <= u64::MAX,
                ;
                assert(2 * (h * (nn - 1)) == nn * (nn - 1)) by (nonlinear_arith)
                    requires
                        nn == 2 * h,
                ;
            }
            h * (nn - 1)
        } else {
            let g = (nn - 1) / 2;
            proof {
                assert(nn * g <= u128::MAX) by (nonlinear_arith)
                    requires
                        0 <= g,
                        g * 2 <= nn,
                        1 <= nn <= u64::MAX,
                ;
                assert(2 * (nn * g) == nn * (nn - 1)) by (nonlinear_arith)
                    requires
                        nn - 1 == 2 * g,
                ;
            }
            nn * g
        };
        proof {
            assert(half == tri(n));
            assert(nn * bb <= u128::MAX && nn * qq <= u128::MAX) by (nonlinear_arith)
                requires
                    0 <= nn <= u64::MAX,
                    0 <= bb <= u64::MAX,
                    0 <= qq <= u64::MAX,
            ;
            assert(n * (qi + bi) == n * qi + n * bi) by (nonlinear_arith);
            assert(n * qi >= 0 && n * bi >= 0) by (nonlinear_arith)
                requires
                    n >= 0,
                    qi >= 0,
                    bi >= 0,
            ;
        }
        let t1: u128 = nn * bb;
        if t1 > u64::MAX as u128 {
            return Err(MarketError::ArithmeticOverflow);
        }
        let t2: u128 = nn * qq;
        if t2 > u64::MAX as u128 {
            return Err(MarketError::ArithmeticOverflow);
        }
        if half > u64::MAX as u128 {
            return Err(MarketError::ArithmeticOverflow);
        }
        let total: u128 = t1 + t2 + half;
        if total > u64::MAX as u128 {
            return Err(MarketError::ArithmeticOverflow);
        }
        Ok(total as u64)
    }

    /// Raises the supply of outcome `i` by `delta` shares and returns the new
    /// price vector. Invoked by the market lifecycle only after the cost has
    /// been computed and the collateral collected, so that quotation and
    /// execution stay one atomic step.
    pub fn apply_trade(&mut self, i: usize, delta: u64) -> (prices: Vec<u64>)
        requires
            old(self).wf(),
            i < old(self).shares@.len(),
            old(self).shares@[i as int] + delta <= u64::MAX,
        ensures
            final(self).wf(),
            final(self).b == old(self).b,
            final(self).shares@ == old(self).shares@.update(
                i as int,
                (old(self).shares@[i as int] + delta) as u64,
            ),
            prices@.len() == final(self).shares@.len(),
            forall|j: int|
                0 <= j < prices@.len() ==> prices@[j] == price_spec(
                    final(self).shares@,
                    final(self).b as int,
                    j,
                ),
    {
        let updated = self.shares[i] + delta;
        self.shares[i] = updated;
        self.prices()
    }
}

} // verus!

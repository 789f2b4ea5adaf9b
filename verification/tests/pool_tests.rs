use dejavu::errors::MarketError;
use dejavu::pool::{OutcomePool, PRICE_SCALE};

fn fresh_pool(b: u64, outcomes: usize) -> OutcomePool {
    OutcomePool::new(outcomes, b)
}

#[test]
fn initial_prices_split_evenly_for_two_outcomes() {
    let pool = fresh_pool(100, 2);
    assert_eq!(pool.price(0), 500_000);
    assert_eq!(pool.price(1), 500_000);
}

#[test]
fn cost_exact_values() {
    let pool = fresh_pool(100, 2);
    // cost(n) = n*(q + b) + n*(n-1)/2 with q = 0, b = 100
    assert_eq!(pool.cost_to_buy(0, 1), Ok(100));
    assert_eq!(pool.cost_to_buy(0, 2), Ok(201));
    assert_eq!(pool.cost_to_buy(0, 3), Ok(303));
    assert_eq!(pool.cost_to_buy(0, 10), Ok(1045));
    assert_eq!(pool.cost_to_buy(0, 0), Ok(0));
}

#[test]
fn cost_is_strictly_increasing_and_convex() {
    let pool = fresh_pool(7, 3);
    let mut previous: u64 = 0;
    let mut previous_step: u64 = 0;
    for n in 1..50u64 {
        let c = pool.cost_to_buy(1, n).unwrap();
        assert!(c > previous);
        let step = c - previous;
        if n > 1 {
            // second difference > 0: each further share costs strictly more
            assert!(step > previous_step);
        }
        previous = c;
        previous_step = step;
    }
}

#[test]
fn cost_is_path_independent() {
    // buying 4 then 6 shares costs the same as buying 10 at once
    let pool_a = fresh_pool(100, 2);
    let all_at_once = pool_a.cost_to_buy(0, 10).unwrap();

    let mut pool_b = fresh_pool(100, 2);
    let first = pool_b.cost_to_buy(0, 4).unwrap();
    pool_b.apply_trade(0, 4);
    let second = pool_b.cost_to_buy(0, 6).unwrap();

    assert_eq!(first, 406);
    assert_eq!(second, 639);
    assert_eq!(first + second, all_at_once);
}

#[test]
fn prices_sum_to_scale_within_tolerance() {
    let mut pool = fresh_pool(100, 2);
    pool.apply_trade(0, 10);
    let prices = pool.prices();
    assert_eq!(prices[0], 523_809);
    assert_eq!(prices[1], 476_190);
    let sum: u64 = prices.iter().sum();
    assert!(sum <= PRICE_SCALE);
    assert!(sum > PRICE_SCALE - 2);
    for p in prices {
        assert!(p > 0 && p < PRICE_SCALE);
    }
}

#[test]
fn prices_stay_normalized_across_many_trades() {
    let mut pool = fresh_pool(3, 5);
    for round in 0..20u64 {
        pool.apply_trade((round % 5) as usize, round * 13 + 1);
        let prices = pool.prices();
        let sum: u64 = prices.iter().sum();
        assert!(sum <= PRICE_SCALE);
        assert!(sum > PRICE_SCALE - 5);
        for p in prices {
            assert!(p > 0 && p < PRICE_SCALE);
        }
    }
}

#[test]
fn zero_liquidity_parameter_is_reported() {
    let pool = OutcomePool { b: 0, shares: vec![0, 0] };
    assert_eq!(pool.cost_to_buy(0, 5), Err(MarketError::LiquidityParameterInvalid));
}

#[test]
fn cost_overflow_is_reported() {
    let pool = fresh_pool(2, 2);
    assert_eq!(pool.cost_to_buy(0, u64::MAX), Err(MarketError::ArithmeticOverflow));
    let deep = OutcomePool { b: u64::MAX, shares: vec![u64::MAX, 0] };
    assert_eq!(deep.cost_to_buy(0, 2), Err(MarketError::ArithmeticOverflow));
}

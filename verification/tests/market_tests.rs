use dejavu::errors::MarketError;
use dejavu::market::{Market, MarketStatus};

const AUTHORITY: u64 = 1;
const ALICE: u64 = 42;
const BOB: u64 = 7;

fn yes_no_market(now: i64) -> Market {
    Market::create_market(
        AUTHORITY,
        String::from("Will it rain tomorrow?"),
        String::from("Resolves Yes if any rain falls."),
        now + 1000,
        vec![String::from("Yes"), String::from("No")],
        100,
        now,
    )
    .unwrap()
}

#[test]
fn two_outcome_market_scenario() {
    let mut market = yes_no_market(0);
    assert_eq!(market.status, MarketStatus::Active);
    assert_eq!(market.price(0), Ok(500_000));
    assert_eq!(market.price(1), Ok(500_000));

    // Alice buys 10 "Yes" shares
    let cost = market.buy_shares(ALICE, 0, 10, 1).unwrap();
    assert_eq!(cost, 1045);
    assert_eq!(market.total_volume, 1045);
    assert_eq!(market.total_liquidity, 1045);
    assert_eq!(market.balance_of(ALICE, 0), Ok(10));

    // the bought outcome got dearer, the other cheaper
    assert_eq!(market.price(0), Ok(523_809));
    assert_eq!(market.price(1), Ok(476_190));

    // time passes the deadline: trading is rejected
    assert_eq!(market.buy_shares(ALICE, 0, 1, 1000), Err(MarketError::MarketEnded));

    // the authority resolves "Yes"
    assert_eq!(market.resolve_market(AUTHORITY, 0, 1000), Ok(()));
    assert_eq!(market.status, MarketStatus::Resolved);
    assert_eq!(market.winning_outcome, Some(0));
    assert_eq!(market.resolution_time, Some(1000));

    // Alice redeems: 10 shares * floor(1045 / 10) = 1040, rounded down
    assert_eq!(market.redeem(ALICE), Ok(1040));
    assert_eq!(market.total_liquidity, 5);

    // Bob held no "Yes" shares
    assert_eq!(market.redeem(BOB), Err(MarketError::NothingToRedeem));
}

#[test]
fn boundary_rejection_on_creation() {
    let one = Market::create_market(
        AUTHORITY,
        String::from("t"),
        String::from("d"),
        1000,
        vec![String::from("only")],
        100,
        0,
    );
    assert_eq!(one.err(), Some(MarketError::InsufficientOutcomes));

    let labels: Vec<String> = (0..11).map(|i| format!("o{}", i)).collect();
    let eleven = Market::create_market(
        AUTHORITY,
        String::from("t"),
        String::from("d"),
        1000,
        labels,
        100,
        0,
    );
    assert_eq!(eleven.err(), Some(MarketError::TooManyOutcomes));

    let past = Market::create_market(
        AUTHORITY,
        String::from("t"),
        String::from("d"),
        5,
        vec![String::from("Yes"), String::from("No")],
        100,
        5,
    );
    assert_eq!(past.err(), Some(MarketError::InvalidEndTime));

    let no_liquidity = Market::create_market(
        AUTHORITY,
        String::from("t"),
        String::from("d"),
        1000,
        vec![String::from("Yes"), String::from("No")],
        0,
        0,
    );
    assert_eq!(no_liquidity.err(), Some(MarketError::LiquidityParameterInvalid));
}

#[test]
fn no_double_redemption() {
    let mut market = yes_no_market(0);
    market.buy_shares(ALICE, 0, 10, 1).unwrap();
    market.buy_shares(BOB, 0, 5, 2).unwrap();
    market.resolve_market(AUTHORITY, 0, 2000).unwrap();

    let paid = market.redeem(ALICE).unwrap();
    assert!(paid > 0);
    let liquidity_after_first = market.total_liquidity;

    // a second attempt fails and moves no value
    assert_eq!(market.redeem(ALICE), Err(MarketError::AlreadyRedeemed));
    assert_eq!(market.total_liquidity, liquidity_after_first);
    assert_eq!(market.balance_of(ALICE, 0), Ok(10));
}

#[test]
fn conservation_across_trades_and_redemptions() {
    let mut market = yes_no_market(0);
    let mut collected: u64 = 0;
    collected += market.buy_shares(ALICE, 0, 10, 1).unwrap();
    collected += market.buy_shares(BOB, 0, 3, 2).unwrap();
    collected += market.buy_shares(BOB, 1, 8, 3).unwrap();
    collected += market.buy_shares(ALICE, 1, 2, 4).unwrap();
    assert_eq!(market.total_volume, collected);
    assert_eq!(market.total_liquidity, collected);

    market.resolve_market(AUTHORITY, 0, 5000).unwrap();
    let liquidity_at_resolution = market.total_liquidity;

    let mut paid_out: u64 = 0;
    paid_out += market.redeem(ALICE).unwrap();
    paid_out += market.redeem(BOB).unwrap();
    assert!(paid_out <= liquidity_at_resolution);
    assert_eq!(market.total_liquidity, collected - paid_out);
    // payouts are proportional: 13 winning shares, rate rounded down
    assert_eq!(paid_out, 13 * (liquidity_at_resolution / 13));
}

#[test]
fn trading_rejections() {
    let mut market = yes_no_market(0);
    assert_eq!(market.buy_shares(ALICE, 5, 1, 1), Err(MarketError::InvalidOutcome));
    assert_eq!(market.buy_shares(ALICE, 0, 0, 1), Err(MarketError::InvalidShares));
    assert_eq!(market.price(9), Err(MarketError::InvalidOutcome));
    assert_eq!(market.balance_of(ALICE, 9), Err(MarketError::InvalidOutcome));

    // a purchase too large for the counters is rejected atomically
    assert_eq!(market.buy_shares(ALICE, 0, u64::MAX, 1), Err(MarketError::ArithmeticOverflow));
    assert_eq!(market.total_volume, 0);

    market.resolve_market(AUTHORITY, 0, 2000).unwrap();
    assert_eq!(market.buy_shares(ALICE, 0, 1, 2001), Err(MarketError::MarketNotActive));
}

#[test]
fn resolution_rejections() {
    let mut market = yes_no_market(0);
    assert_eq!(market.resolve_market(BOB, 0, 2000), Err(MarketError::Unauthorized));
    assert_eq!(market.resolve_market(AUTHORITY, 0, 500), Err(MarketError::MarketNotEnded));
    assert_eq!(market.resolve_market(AUTHORITY, 9, 2000), Err(MarketError::InvalidOutcome));
    assert_eq!(market.redeem(ALICE), Err(MarketError::MarketNotResolved));

    assert_eq!(market.resolve_market(AUTHORITY, 1, 2000), Ok(()));
    // a second resolution is rejected: the market is no longer active
    assert_eq!(market.resolve_market(AUTHORITY, 0, 2001), Err(MarketError::MarketNotActive));
}

#[test]
fn quotes_match_executed_costs() {
    let mut market = yes_no_market(0);
    let quote = market.cost_to_buy(0, 10).unwrap();
    let cost = market.buy_shares(ALICE, 0, 10, 1).unwrap();
    assert_eq!(quote, cost);
    // after the trade the same purchase costs strictly more
    let requote = market.cost_to_buy(0, 10).unwrap();
    assert!(requote > quote);
    assert_eq!(market.cost_to_buy(5, 1), Err(MarketError::InvalidOutcome));
}

#[test]
fn redemption_with_empty_winning_side() {
    // nobody bought the winning outcome: the payout rate is zero and every
    // redemption reports nothing to redeem
    let mut market = yes_no_market(0);
    market.buy_shares(ALICE, 1, 10, 1).unwrap();
    market.resolve_market(AUTHORITY, 0, 2000).unwrap();
    assert_eq!(market.payout_per_share, Some(0));
    assert_eq!(market.redeem(ALICE), Err(MarketError::NothingToRedeem));
}

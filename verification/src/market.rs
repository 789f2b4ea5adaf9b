//! Market lifecycle and settlement.
//!
//! A market moves from `Active` (trading) to `Resolved` (redemption), driven
//! by an externally supplied clock value `now` and an authority check.
//! Tradability is derived from the clock on every call, never from the
//! stored status alone, so trading can never continue past `end_time`.
//! Every mutating operation either applies completely or returns an error
//! with the market unchanged.

use vstd::prelude::*;
use vstd::arithmetic::div_mod::{lemma_fundamental_div_mod, lemma_mod_division_less_than_divisor};
use crate::errors::MarketError;
use crate::ledger::{
    bal_of, collat_of, lemma_bal_le_total, lemma_redeemed_sum_le_total,
    lemma_redeemed_sum_push_participant, total_bal, total_collat, redeemed_sum, PositionLedger,
};
use crate::pool::{
    cost_of, lemma_cost_positive, price_spec, OutcomePool, MAX_OUTCOMES, MIN_OUTCOMES, PRICE_SCALE,
};

verus! {

/// Lifecycle status of a market. `Closed` and `Disputed` are reserved for
/// the surrounding governance path; the core itself only moves a market
/// from `Active` to `Resolved`, and derives closure from the clock.
#[derive(Clone, Copy, Debug, PartialEq, Eq, Structural)]
pub enum MarketStatus {
    Active,
    Closed,
    Resolved,
    Disputed,
}

/// One prediction market: configuration, outcome pool, position ledger and
/// settlement state.
pub struct Market {
    /// Identity allowed to resolve the market.
    pub authority: u64,
    pub title: String,
    pub description: String,
    /// Ordered outcome labels; the position in this list is the canonical
    /// outcome index. Fixed at creation.
    pub outcome_names: Vec<String>,
    pub created_at: i64,
    /// Trading deadline; trading is rejected from this time on.
    pub end_time: i64,
    pub resolution_time: Option<i64>,
    pub status: MarketStatus,
    /// Cumulative collateral ever collected.
    pub total_volume: u64,
    /// Collateral currently held by the pool.
    pub total_liquidity: u64,
    pub outcome_count: u8,
    pub winning_outcome: Option<u8>,
    /// Fixed at resolution: collateral paid per winning share, rounded down
    /// so that the pool can never be over-drawn.
    pub payout_per_share: Option<u64>,
    pub pool: OutcomePool,
    pub ledger: PositionLedger,
}

impl Market {
    /// The winning outcome index; meaningful only once resolved.
    pub open spec fn winning(self) -> u8 {
        self.winning_outcome->0
    }

    /// The payout per winning share; meaningful only once resolved.
    pub open spec fn pps(self) -> int {
        self.payout_per_share->0 as int
    }

    /// Trading is allowed: the stored status reads `Active` and the clock
    /// has not reached the deadline.
    pub open spec fn tradable(self, now: i64) -> bool {
        self.status is Active && now < self.end_time
    }

    /// The exact collateral a purchase of `shares` of `outcome_id` costs at
    /// the current state (an unbounded integer; the operations reject it
    /// when it does not fit the counters).
    pub open spec fn quoted_cost(self, outcome_id: u8, shares: u64) -> int {
        cost_of(self.pool.shares@[outcome_id as int] as int, self.pool.b as int, shares as int)
    }

    /// Fields fixed at creation are shared between two market values.
    pub open spec fn same_config(self, other: Market) -> bool {
        &&& self.authority == other.authority
        &&& self.title@ == other.title@
        &&& self.description@ == other.description@
        &&& self.outcome_names@ == other.outcome_names@
        &&& self.created_at == other.created_at
        &&& self.end_time == other.end_time
        &&& self.outcome_count == other.outcome_count
        &&& self.pool.b == other.pool.b
    }

    /// Well-formedness: the structural invariants of the data model plus the
    /// conservation accounting. Established by `create_market` and preserved
    /// by every mutating operation.
    pub open spec fn wf(self) -> bool {
        &&& self.pool.wf()
        &&& self.ledger.wf()
        &&& self.outcome_count as int == self.pool.shares@.len()
        &&& self.outcome_names@.len() == self.pool.shares@.len()
        &&& self.end_time > self.created_at
        // every share in the ledger was issued by the pool, and conversely
        &&& forall|o: u8|
            o < self.outcome_count ==> #[trigger] total_bal(self.ledger.positions@, o)
                == self.pool.shares@[o as int]
        &&& forall|j: int|
            0 <= j < self.ledger.positions@.len() ==> (#[trigger] self.ledger.positions@[j]).outcome
                < self.outcome_count
        // every unit of collateral in the ledger was counted in the volume
        &&& total_collat(self.ledger.positions@) == self.total_volume
        &&& (self.status is Resolved ==> self.resolved_state_wf())
        &&& (!(self.status is Resolved) ==> self.winning_outcome is None
            && self.resolution_time is None && self.payout_per_share is None
            && self.ledger.redeemed@.len() == 0 && self.total_liquidity == self.total_volume)
    }

    /// The settlement invariant of a resolved market: the payout rate can
    /// pay every winning share out of the collected volume, and the
    /// liquidity on hand is the volume minus what was already redeemed.
    pub open spec fn resolved_state_wf(self) -> bool {
        &&& self.winning_outcome is Some
        &&& self.winning() < self.outcome_count
        &&& self.resolution_time is Some
        &&& self.payout_per_share is Some
        &&& self.pps() * (self.pool.shares@[self.winning() as int] as int)
            <= self.total_volume as int
        &&& self.total_liquidity as int == self.total_volume as int - self.pps() * redeemed_sum(
            self.ledger.redeemed@,
            self.ledger.positions@,
            self.winning(),
        )
    }

    /// What a successful purchase changes, and what it leaves alone.
    pub open spec fn buy_applied(
        self,
        post: Market,
        participant: u64,
        outcome_id: u8,
        shares: u64,
        cost: u64,
    ) -> bool {
        &&& cost == self.quoted_cost(outcome_id, shares)
        &&& cost >= 1
        &&& post.same_config(self)
        &&& post.status == self.status
        &&& post.winning_outcome == self.winning_outcome
        &&& post.resolution_time == self.resolution_time
        &&& post.payout_per_share == self.payout_per_share
        &&& post.pool.shares@ == self.pool.shares@.update(
            outcome_id as int,
            (self.pool.shares@[outcome_id as int] + shares) as u64,
        )
        &&& post.total_volume == self.total_volume + cost
        &&& post.total_liquidity == self.total_liquidity + cost
        &&& bal_of(post.ledger.positions@, participant, outcome_id) == bal_of(
            self.ledger.positions@,
            participant,
            outcome_id,
        ) + shares
        &&& collat_of(post.ledger.positions@, participant, outcome_id) == collat_of(
            self.ledger.positions@,
            participant,
            outcome_id,
        ) + cost
        // nobody else's holdings move
        &&& forall|p2: u64, o2: u8|
            !(p2 == participant && o2 == outcome_id) ==> #[trigger] bal_of(
                post.ledger.positions@,
                p2,
                o2,
            ) == bal_of(self.ledger.positions@, p2, o2) && collat_of(post.ledger.positions@, p2, o2)
                == collat_of(self.ledger.positions@, p2, o2)
        &&& post.ledger.redeemed@ == self.ledger.redeemed@
    }

    /// What resolution sets: the winning outcome, the resolution time, and
    /// the payout per winning share (liquidity over winning supply, rounded
    /// down; zero when nobody holds the winning outcome). Nothing else
    /// changes and no collateral moves.
    pub open spec fn resolution_applied(self, post: Market, winning_outcome: u8, now: i64) -> bool {
        &&& post.status is Resolved
        &&& post.winning_outcome == Some(winning_outcome)
        &&& post.resolution_time == Some(now)
        &&& post.payout_per_share is Some
        &&& post.pps() == (if self.pool.shares@[winning_outcome as int] == 0 {
            0int
        } else {
            self.total_liquidity as int / self.pool.shares@[winning_outcome as int] as int
        })
        &&& post.same_config(self)
        &&& post.pool == self.pool
        &&& post.ledger == self.ledger
        &&& post.total_volume == self.total_volume
        &&& post.total_liquidity == self.total_liquidity
    }

    /// What a successful redemption pays and records: the participant's full
    /// winning balance times the payout rate leaves the liquidity, and the
    /// participant is marked redeemed. Positions, pool and volume stay.
    pub open spec fn redemption_applied(self, post: Market, participant: u64, amount: u64) -> bool {
        &&& amount == bal_of(self.ledger.positions@, participant, self.winning()) * self.pps()
        &&& amount <= self.total_liquidity
        &&& post.total_liquidity == self.total_liquidity - amount
        &&& post.ledger.redeemed@ == self.ledger.redeemed@.push(participant)
        &&& post.ledger.positions@ == self.ledger.positions@
        &&& post.pool == self.pool
        &&& post.total_volume == self.total_volume
        &&& post.status == self.status
        &&& post.winning_outcome == self.winning_outcome
        &&& post.payout_per_share == self.payout_per_share
        &&& post.resolution_time == self.resolution_time
        &&& post.same_config(self)
    }

    /// Creates a market. Validates that the deadline lies in the future,
    /// that there are 2 to 10 outcomes and that the liquidity parameter is
    /// positive; on success the market starts `Active` with zero supplies,
    /// zero volume and an empty ledger.
    pub fn create_market(
        authority: u64,
        title: String,
        description: String,
        end_time: i64,
        outcome_names: Vec<String>,
        liquidity: u64,
        now: i64,
    ) -> (r: Result<Market, MarketError>)
        ensures
            end_time <= now ==> r == Err::<Market, MarketError>(MarketError::InvalidEndTime),
            end_time > now && outcome_names@.len() < MIN_OUTCOMES ==> r == Err::<
                Market,
                MarketError,
            >(MarketError::InsufficientOutcomes),
            end_time > now && outcome_names@.len() > MAX_OUTCOMES ==> r == Err::<
                Market,
                MarketError,
            >(MarketError::TooManyOutcomes),
            end_time > now && MIN_OUTCOMES <= outcome_names@.len() <= MAX_OUTCOMES && liquidity
                == 0 ==> r == Err::<Market, MarketError>(MarketError::LiquidityParameterInvalid),
            end_time > now && MIN_OUTCOMES <= outcome_names@.len() <= MAX_OUTCOMES && liquidity
                >= 1 ==> (r matches Ok(m) && m.wf() && m.authority == authority && m.title@
                == title@ && m.description@ == description@ && m.outcome_names@ == outcome_names@
                && m.created_at == now && m.end_time == end_time && m.status is Active
                && m.total_volume == 0 && m.total_liquidity == 0 && m.outcome_count as int
                == outcome_names@.len() && m.pool.b == liquidity && m.ledger.positions@.len() == 0
                && m.ledger.redeemed@.len() == 0 && m.winning_outcome is None
                && m.resolution_time is None && (forall|i: int|
                0 <= i < outcome_names@.len() ==> m.pool.shares@[i] == 0)),
    {
        if end_time <= now {
            return Err(MarketError::InvalidEndTime);
        }
        let count = outcome_names.len();
        if count < MIN_OUTCOMES {
            return Err(MarketError::InsufficientOutcomes);
        }
        if count > MAX_OUTCOMES {
            return Err(MarketError::TooManyOutcomes);
        }
        if liquidity == 0 {
            return Err(MarketError::LiquidityParameterInvalid);
        }
        let pool = OutcomePool::new(count, liquidity);
        let ledger = PositionLedger::new();
        let market = Market {
            authority,
            title,
            description,
            outcome_names,
            created_at: now,
            end_time,
            resolution_time: None,
            status: MarketStatus::Active,
            total_volume: 0,
            total_liquidity: 0,
            outcome_count: count as u8,
            winning_outcome: None,
            payout_per_share: None,
            pool,
            ledger,
        };
        proof {
            assert forall|o: u8| o < market.outcome_count implies #[trigger] total_bal(
                market.ledger.positions@,
                o,
            ) == market.pool.shares@[o as int] by {
                assert(total_bal(market.ledger.positions@, o) == 0);
            }
        }
        Ok(market)
    }

    /// The instantaneous fixed-point price of one outcome, in parts per
    /// million; strictly between 0 and `PRICE_SCALE`.
    pub fn price(&self, outcome_id: u8) -> (r: Result<u64, MarketError>)
        requires
            self.wf(),
        ensures
            outcome_id >= self.outcome_count ==> r == Err::<u64, MarketError>(
                MarketError::InvalidOutcome,
            ),
            outcome_id < self.outcome_count ==> (r matches Ok(p) && p == price_spec(
                self.pool.shares@,
                self.pool.b as int,
                outcome_id as int,
            ) && 0 < p < PRICE_SCALE),
    {
        if outcome_id >= self.outcome_count {
            return Err(MarketError::InvalidOutcome);
        }
        Ok(self.pool.price(outcome_id as usize))
    }

    /// Quotes the collateral needed to buy `shares` of one outcome at the
    /// current state, without mutating anything.
    pub fn cost_to_buy(&self, outcome_id: u8, shares: u64) -> (r: Result<u64, MarketError>)
        requires
            self.wf(),
        ensures
            outcome_id >= self.outcome_count ==> r == Err::<u64, MarketError>(
                MarketError::InvalidOutcome,
            ),
            outcome_id < self.outcome_count && self.quoted_cost(outcome_id, shares) <= u64::MAX
                ==> (r matches Ok(v) && v == self.quoted_cost(outcome_id, shares)),
            outcome_id < self.outcome_count && self.quoted_cost(outcome_id, shares) > u64::MAX
                ==> r == Err::<u64, MarketError>(MarketError::ArithmeticOverflow),
    {
        if outcome_id >= self.outcome_count {
            return Err(MarketError::InvalidOutcome);
        }
        self.pool.cost_to_buy(outcome_id as usize, shares)
    }

    /// Current share balance of one participant in one outcome; 0 when the
    /// participant never bought into it.
    pub fn balance_of(&self, participant: u64, outcome_id: u8) -> (r: Result<u64, MarketError>)
        requires
            self.wf(),
        ensures
            outcome_id >= self.outcome_count ==> r == Err::<u64, MarketError>(
                MarketError::InvalidOutcome,
            ),
            outcome_id < self.outcome_count ==> r == Ok::<u64, MarketError>(
                bal_of(self.ledger.positions@, participant, outcome_id) as u64,
            ),
    {
        if outcome_id >= self.outcome_count {
            return Err(MarketError::InvalidOutcome);
        }
        proof {
            lemma_bal_le_total(self.ledger.positions@, participant, outcome_id);
        }
        Ok(self.ledger.balance_of(participant, outcome_id))
    }

    /// Buys `shares` of one outcome for `participant` at clock value `now`:
    /// validates tradability, quotes the exact cost, applies the share delta
    /// to the pool, records the position, and adds the cost to both volume
    /// and liquidity — all or nothing. Returns the collateral collected,
    /// always at least 1.
    pub fn buy_shares(&mut self, participant: u64, outcome_id: u8, shares: u64, now: i64) -> (r:
        Result<u64, MarketError>)
        requires
            old(self).wf(),
        ensures
            final(self).wf(),
            !(old(self).status is Active) ==> r == Err::<u64, MarketError>(
                MarketError::MarketNotActive,
            ) && *final(self) == *old(self),
            old(self).status is Active && now >= old(self).end_time ==> r == Err::<
                u64,
                MarketError,
            >(MarketError::MarketEnded) && *final(self) == *old(self),
            old(self).tradable(now) && outcome_id >= old(self).outcome_count ==> r == Err::<
                u64,
                MarketError,
            >(MarketError::InvalidOutcome) && *final(self) == *old(self),
            old(self).tradable(now) && outcome_id < old(self).outcome_count && shares == 0 ==> r
                == Err::<u64, MarketError>(MarketError::InvalidShares) && *final(self) == *old(
                self,
            ),
            old(self).tradable(now) && outcome_id < old(self).outcome_count && shares >= 1 && (old(
                self,
            ).quoted_cost(outcome_id, shares) > u64::MAX || old(self).total_volume + old(
                self,
            ).quoted_cost(outcome_id, shares) > u64::MAX) ==> r == Err::<u64, MarketError>(
                MarketError::ArithmeticOverflow,
            ) && *final(self) == *old(self),
            old(self).tradable(now) && outcome_id < old(self).outcome_count && shares >= 1 && old(
                self,
            ).quoted_cost(outcome_id, shares) <= u64::MAX && old(self).total_volume + old(
                self,
            ).quoted_cost(outcome_id, shares) <= u64::MAX ==> (r matches Ok(cost) && old(
                self,
            ).buy_applied(*final(self), participant, outcome_id, shares, cost)),
    {
        if self.status != MarketStatus::Active {
            return Err(MarketError::MarketNotActive);
        }
        if now >= self.end_time {
            return Err(MarketError::MarketEnded);
        }
        if outcome_id >= self.outcome_count {
            return Err(MarketError::InvalidOutcome);
        }
        if shares == 0 {
            return Err(MarketError::InvalidShares);
        }
        let i = outcome_id as usize;
        let ghost qi = self.pool.shares@[i as int] as int;
        let ghost bi = self.pool.b as int;
        let cost = match self.pool.cost_to_buy(i, shares) {
            Ok(c) => c,
            Err(_) => {
                return Err(MarketError::ArithmeticOverflow);
            },
        };
        if self.total_volume > u64::MAX - cost {
            return Err(MarketError::ArithmeticOverflow);
        }
        proof {
            lemma_cost_positive(qi, bi, shares as int);
            lemma_bal_le_total(self.ledger.positions@, participant, outcome_id);
        }
        let _ = self.pool.apply_trade(i, shares);
        self.ledger.record_purchase(participant, outcome_id, shares, cost);
        self.total_volume = self.total_volume + cost;
        self.total_liquidity = self.total_liquidity + cost;
        Ok(cost)
    }

    /// Resolution, gated on the market's authority: records the winning
    /// outcome and the resolution time, freezes trading, and fixes the
    /// payout per winning share. No collateral moves here.
    pub fn resolve_market(&mut self, caller: u64, winning_outcome: u8, now: i64) -> (r: Result<
        (),
        MarketError,
    >)
        requires
            old(self).wf(),
        ensures
            final(self).wf(),
            caller != old(self).authority ==> r == Err::<(), MarketError>(MarketError::Unauthorized)
                && *final(self) == *old(self),
            caller == old(self).authority && !(old(self).status is Active) ==> r == Err::<
                (),
                MarketError,
            >(MarketError::MarketNotActive) && *final(self) == *old(self),
            caller == old(self).authority && old(self).status is Active && now < old(
                self,
            ).end_time ==> r == Err::<(), MarketError>(MarketError::MarketNotEnded) && *final(self)
                == *old(self),
            caller == old(self).authority && old(self).status is Active && now >= old(
                self,
            ).end_time && winning_outcome >= old(self).outcome_count ==> r == Err::<
                (),
                MarketError,
            >(MarketError::InvalidOutcome) && *final(self) == *old(self),
            caller == old(self).authority && old(self).status is Active && now >= old(
                self,
            ).end_time && winning_outcome < old(self).outcome_count ==> r == Ok::<(), MarketError>(
                (),
            ) && old(self).resolution_applied(*final(self), winning_outcome, now),
    {
        if caller != self.authority {
            return Err(MarketError::Unauthorized);
        }
        if self.status != MarketStatus::Active {
            return Err(MarketError::MarketNotActive);
        }
        if now < self.end_time {
            return Err(MarketError::MarketNotEnded);
        }
        if winning_outcome >= self.outcome_count {
            return Err(MarketError::InvalidOutcome);
        }
        let w = winning_outcome as usize;
        let winning_supply = self.pool.shares[w];
        let pp: u64 = if winning_supply == 0 {
            0
        } else {
            self.total_liquidity / winning_supply
        };
        proof {
            if winning_supply != 0 {
                lemma_fundamental_div_mod(self.total_liquidity as int, winning_supply as int);
                lemma_mod_division_less_than_divisor(
                    self.total_liquidity as int,
                    winning_supply as int,
                );
                assert((pp as int) * (winning_supply as int) == (winning_supply as int) * (
                pp as int)) by (nonlinear_arith);
            }
        }
        self.status = MarketStatus::Resolved;
        self.winning_outcome = Some(winning_outcome);
        self.resolution_time = Some(now);
        self.payout_per_share = Some(pp);
        Ok(())
    }

    /// Redemption: pays the participant their full winning-outcome balance
    /// times the fixed payout per share, decrements the pool's liquidity,
    /// and records the redemption so a second attempt fails. Returns the
    /// amount owed to the participant; the surrounding transfer mechanism
    /// moves the value.
    pub fn redeem(&mut self, participant: u64) -> (r: Result<u64, MarketError>)
        requires
            old(self).wf(),
        ensures
            final(self).wf(),
            !(old(self).status is Resolved) ==> r == Err::<u64, MarketError>(
                MarketError::MarketNotResolved,
            ) && *final(self) == *old(self),
            old(self).status is Resolved && old(self).ledger.redeemed@.contains(participant) ==> r
                == Err::<u64, MarketError>(MarketError::AlreadyRedeemed) && *final(self) == *old(
                self,
            ),
            old(self).status is Resolved && !old(self).ledger.redeemed@.contains(participant)
                && bal_of(old(self).ledger.positions@, participant, old(self).winning()) == 0 ==> r
                == Err::<u64, MarketError>(MarketError::NothingToRedeem) && *final(self) == *old(
                self,
            ),
            old(self).status is Resolved && !old(self).ledger.redeemed@.contains(participant)
                && bal_of(old(self).ledger.positions@, participant, old(self).winning()) > 0
                ==> (r matches Ok(amount) && old(self).redemption_applied(*final(self), participant, amount)),
    {
        if self.status != MarketStatus::Resolved {
            return Err(MarketError::MarketNotResolved);
        }
        let winning = self.winning_outcome.unwrap();
        let pp = self.payout_per_share.unwrap();
        if self.ledger.has_redeemed(participant) {
            return Err(MarketError::AlreadyRedeemed);
        }
        let ghost positions = self.ledger.positions@;
        let ghost redeemed = self.ledger.redeemed@;
        proof {
            lemma_bal_le_total(positions, participant, winning);
        }
        let balance = self.ledger.balance_of(participant, winning);
        if balance == 0 {
            return Err(MarketError::NothingToRedeem);
        }
        let ghost qw = self.pool.shares@[winning as int] as int;
        let ghost rs_old = redeemed_sum(redeemed, positions, winning);
        proof {
            // the new redeemed set stays duplicate-free and its summed
            // balances stay within the winning supply
            assert forall|i: int| 0 <= i < redeemed.len() implies redeemed[i] != participant by {
                if redeemed[i] == participant {
                    assert(redeemed.contains(participant));
                }
            }
            assert(redeemed.push(participant).no_duplicates());
            lemma_redeemed_sum_push_participant(redeemed, positions, participant, winning);
            lemma_redeemed_sum_le_total(redeemed.push(participant), positions, winning);
            lemma_redeemed_sum_le_total(redeemed, positions, winning);
            assert((balance as int) * (pp as int) <= qw * (pp as int)) by (nonlinear_arith)
                requires
                    0 <= balance as int <= qw,
                    pp as int >= 0,
            ;
            assert(qw * (pp as int) == (pp as int) * qw) by (nonlinear_arith);
            assert((pp as int) * (rs_old + balance as int) == (pp as int) * rs_old + (pp as int) * (
            balance as int)) by (nonlinear_arith);
            assert((pp as int) * (rs_old + balance as int) <= (pp as int) * qw)
                by (nonlinear_arith)
                requires
                    rs_old + balance as int <= qw,
                    pp as int >= 0,
            ;
            assert((balance as int) * (pp as int) == (pp as int) * (balance as int))
                by (nonlinear_arith);
        }
        let amount = balance * pp;
        self.total_liquidity = self.total_liquidity - amount;
        let _ = self.ledger.mark_redeemed(participant);
        Ok(amount)
    }
}

/// Conservation: the liquidity held always equals the collateral collected
/// minus the collateral redeemed; the payouts of all winning shares together
/// never exceed the collateral collected, so the liquidity on hand always
/// covers every redemption still outstanding.
pub proof fn lemma_conservation(m: Market)
    requires
        m.wf(),
    ensures
        !(m.status is Resolved) ==> m.total_liquidity == m.total_volume,
        m.status is Resolved ==> m.total_liquidity == m.total_volume - m.pps() * redeemed_sum(
            m.ledger.redeemed@,
            m.ledger.positions@,
            m.winning(),
        ),
        m.status is Resolved ==> m.pps() * total_bal(m.ledger.positions@, m.winning())
            <= m.total_volume,
        m.status is Resolved ==> m.total_liquidity >= m.pps() * (total_bal(
            m.ledger.positions@,
            m.winning(),
        ) - redeemed_sum(m.ledger.redeemed@, m.ledger.positions@, m.winning())),
        m.total_liquidity <= m.total_volume,
{
    if m.status is Resolved {
        let w = m.winning();
        let pp = m.pps();
        let t = total_bal(m.ledger.positions@, w);
        let rs = redeemed_sum(m.ledger.redeemed@, m.ledger.positions@, w);
        lemma_redeemed_sum_le_total(m.ledger.redeemed@, m.ledger.positions@, w);
        assert(pp * (t - rs) == pp * t - pp * rs) by (nonlinear_arith);
        assert(pp * rs >= 0 && pp * t >= pp * rs) by (nonlinear_arith)
            requires
                pp >= 0,
                0 <= rs <= t,
        ;
    }
}

} // verus!

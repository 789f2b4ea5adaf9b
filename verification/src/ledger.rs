//! Position ledger: who owns what, and the redemption guard.
//!
//! The ledger of one market maps (participant, outcome) to a share balance
//! and the cumulative collateral that participant paid into that outcome.
//! Positions are created on first purchase and never deleted; a zero balance
//! is a valid terminal state. A separate redemption record, one per
//! participant, makes redemption idempotent: a second attempt fails instead
//! of paying twice.

use vstd::prelude::*;
use crate::errors::MarketError;

verus! {

/// One participant's holding in one outcome of one market.
#[derive(Clone, Copy, Debug, PartialEq, Eq, Structural)]
pub struct Position {
    pub participant: u64,
    pub outcome: u8,
    /// Shares held; non-negative by type, never double-spent.
    pub shares: u64,
    /// Cumulative collateral this participant paid into this outcome,
    /// recorded for auditability.
    pub collateral_paid: u64,
}

/// Share balance of `(p, o)`: the sum of the shares of every matching entry.
/// With the ledger's one-entry-per-key invariant this is the one entry's
/// balance, or 0 when no entry exists.
pub open spec fn bal_of(s: Seq<Position>, p: u64, o: u8) -> int
    decreases s.len(),
{
    if s.len() == 0 {
        0
    } else {
        bal_of(s.drop_last(), p, o) + if s.last().participant == p && s.last().outcome == o {
            s.last().shares as int
        } else {
            0
        }
    }
}

/// Collateral paid by `(p, o)`, summed like `bal_of`.
pub open spec fn collat_of(s: Seq<Position>, p: u64, o: u8) -> int
    decreases s.len(),
{
    if s.len() == 0 {
        0
    } else {
        collat_of(s.drop_last(), p, o) + if s.last().participant == p && s.last().outcome == o {
            s.last().collateral_paid as int
        } else {
            0
        }
    }
}

/// Total shares of outcome `o` across all participants.
pub open spec fn total_bal(s: Seq<Position>, o: u8) -> int
    decreases s.len(),
{
    if s.len() == 0 {
        0
    } else {
        total_bal(s.drop_last(), o) + if s.last().outcome == o {
            s.last().shares as int
        } else {
            0
        }
    }
}

/// Total collateral paid across all positions.
pub open spec fn total_collat(s: Seq<Position>) -> int
    decreases s.len(),
{
    if s.len() == 0 {
        0
    } else {
        total_collat(s.drop_last()) + s.last().collateral_paid as int
    }
}

/// Sum, over the participants in `r`, of their balance in outcome `o`.
pub open spec fn redeemed_sum(r: Seq<u64>, s: Seq<Position>, o: u8) -> int
    decreases r.len(),
{
    if r.len() == 0 {
        0
    } else {
        redeemed_sum(r.drop_last(), s, o) + bal_of(s, r.last(), o)
    }
}

proof fn lemma_sums_nonneg(s: Seq<Position>, p: u64, o: u8)
    ensures
        bal_of(s, p, o) >= 0,
        collat_of(s, p, o) >= 0,
        total_bal(s, o) >= 0,
        total_collat(s) >= 0,
    decreases s.len(),
{
    if s.len() > 0 {
        lemma_sums_nonneg(s.drop_last(), p, o);
    }
}

/// One key's balance never exceeds the outcome's total, and one key's paid
/// collateral never exceeds the collateral total.
pub proof fn lemma_bal_le_total(s: Seq<Position>, p: u64, o: u8)
    ensures
        0 <= bal_of(s, p, o) <= total_bal(s, o),
        0 <= collat_of(s, p, o) <= total_collat(s),
    decreases s.len(),
{
    if s.len() > 0 {
        lemma_bal_le_total(s.drop_last(), p, o);
    }
}

/// A matching entry's fields are bounded by the key's sums.
proof fn lemma_entry_le_bal(s: Seq<Position>, j: int, p: u64, o: u8)
    requires
        0 <= j < s.len(),
        s[j].participant == p,
        s[j].outcome == o,
    ensures
        s[j].shares <= bal_of(s, p, o),
        s[j].collateral_paid <= collat_of(s, p, o),
    decreases s.len(),
{
    lemma_sums_nonneg(s.drop_last(), p, o);
    if j < s.len() - 1 {
        lemma_entry_le_bal(s.drop_last(), j, p, o);
    }
}

/// How every sum changes when an entry is appended.
proof fn lemma_sums_push(s: Seq<Position>, e: Position, p: u64, o: u8)
    ensures
        bal_of(s.push(e), p, o) == bal_of(s, p, o) + if e.participant == p && e.outcome == o {
            e.shares as int
        } else {
            0
        },
        collat_of(s.push(e), p, o) == collat_of(s, p, o) + if e.participant == p && e.outcome
            == o {
            e.collateral_paid as int
        } else {
            0
        },
        total_bal(s.push(e), o) == total_bal(s, o) + if e.outcome == o {
            e.shares as int
        } else {
            0
        },
        total_collat(s.push(e)) == total_collat(s) + e.collateral_paid,
{
    assert(s.push(e).drop_last() =~= s);
    assert(s.push(e).last() == e);
}

/// How every sum changes when the entry at `j` is replaced by one with the
/// same key.
proof fn lemma_sums_update(s: Seq<Position>, j: int, e2: Position, p: u64, o: u8)
    requires
        0 <= j < s.len(),
        e2.participant == s[j].participant,
        e2.outcome == s[j].outcome,
    ensures
        bal_of(s.update(j, e2), p, o) == bal_of(s, p, o) + if s[j].participant == p
            && s[j].outcome == o {
            e2.shares - s[j].shares
        } else {
            0
        },
        collat_of(s.update(j, e2), p, o) == collat_of(s, p, o) + if s[j].participant == p
            && s[j].outcome == o {
            e2.collateral_paid - s[j].collateral_paid
        } else {
            0
        },
        total_bal(s.update(j, e2), o) == total_bal(s, o) + if s[j].outcome == o {
            e2.shares - s[j].shares
        } else {
            0
        },
        total_collat(s.update(j, e2)) == total_collat(s) + e2.collateral_paid
            - s[j].collateral_paid,
    decreases s.len(),
{
    let s2 = s.update(j, e2);
    if j == s.len() - 1 {
        assert(s2.drop_last() =~= s.drop_last());
        assert(s2.last() == e2);
    } else {
        assert(s2.drop_last() =~= s.drop_last().update(j, e2));
        assert(s2.last() == s.last());
        lemma_sums_update(s.drop_last(), j, e2, p, o);
    }
}

/// Appending a position can raise a set of distinct participants' summed
/// balances by at most that position's shares (and only when its outcome
/// matches); participants outside the set are unaffected.
proof fn lemma_redeemed_sum_push_pos(r: Seq<u64>, s: Seq<Position>, e: Position, o: u8)
    requires
        r.no_duplicates(),
    ensures
        redeemed_sum(r, s, o) <= redeemed_sum(r, s.push(e), o) <= redeemed_sum(r, s, o) + if e.outcome
            == o {
            e.shares as int
        } else {
            0
        },
        !r.contains(e.participant) ==> redeemed_sum(r, s.push(e), o) == redeemed_sum(r, s, o),
    decreases r.len(),
{
    if r.len() > 0 {
        let last = r.last();
        let r1 = r.drop_last();
        assert(r1.no_duplicates());
        lemma_sums_push(s, e, last, o);
        lemma_redeemed_sum_push_pos(r1, s, e, o);
        if last == e.participant {
            assert(!r1.contains(e.participant));
        } else {
            if !r.contains(e.participant) {
                assert(forall|i: int| 0 <= i < r.len() ==> r[i] != e.participant);
                assert(forall|i: int| 0 <= i < r1.len() ==> r1[i] == r[i]);
                assert(!r1.contains(e.participant));
            }
        }
        if r1.contains(e.participant) {
            assert(r.contains(e.participant)) by {
                let i = choose|i: int| 0 <= i < r1.len() && r1[i] == e.participant;
                assert(r[i] == e.participant);
            }
        }
    }
}

/// The summed balances of any set of distinct participants never exceed the
/// outcome's total supply. This is what makes per-participant redemption
/// safe in aggregate.
pub proof fn lemma_redeemed_sum_le_total(r: Seq<u64>, s: Seq<Position>, o: u8)
    requires
        r.no_duplicates(),
    ensures
        0 <= redeemed_sum(r, s, o) <= total_bal(s, o),
    decreases s.len(),
{
    if s.len() == 0 {
        lemma_redeemed_sum_empty(r, s, o);
    } else {
        let s1 = s.drop_last();
        let e = s.last();
        lemma_redeemed_sum_le_total(r, s1, o);
        lemma_redeemed_sum_push_pos(r, s1, e, o);
        assert(s1.push(e) =~= s);
    }
}

proof fn lemma_redeemed_sum_empty(r: Seq<u64>, s: Seq<Position>, o: u8)
    requires
        s.len() == 0,
    ensures
        redeemed_sum(r, s, o) == 0,
    decreases r.len(),
{
    if r.len() > 0 {
        lemma_redeemed_sum_empty(r.drop_last(), s, o);
    }
}

/// Adding a participant to the redeemed set adds exactly their balance.
pub proof fn lemma_redeemed_sum_push_participant(r: Seq<u64>, s: Seq<Position>, p: u64, o: u8)
    ensures
        redeemed_sum(r.push(p), s, o) == redeemed_sum(r, s, o) + bal_of(s, p, o),
{
    assert(r.push(p).drop_last() =~= r);
    assert(r.push(p).last() == p);
}

/// The position ledger and redemption records of one market.
pub struct PositionLedger {
    /// At most one entry per (participant, outcome) pair.
    pub positions: Vec<Position>,
    /// Participants whose winnings have been paid out; each at most once.
    pub redeemed: Vec<u64>,
}

impl PositionLedger {
    /// Structural invariant: one position per key, one redemption record
    /// per participant.
    pub open spec fn wf(self) -> bool {
        &&& self.redeemed@.no_duplicates()
        &&& forall|i: int, j: int|
            0 <= i < j < self.positions@.len() ==> !(self.positions@[i].participant
                == self.positions@[j].participant && self.positions@[i].outcome
                == self.positions@[j].outcome)
    }

    /// An empty ledger.
    pub fn new() -> (ledger: PositionLedger)
        ensures
            ledger.wf(),
            ledger.positions@.len() == 0,
            ledger.redeemed@.len() == 0,
    {
        PositionLedger { positions: Vec::new(), redeemed: Vec::new() }
    }

    /// Current share count of `(p, o)`; 0 when no position exists.
    pub fn balance_of(&self, p: u64, o: u8) -> (balance: u64)
        requires
            bal_of(self.positions@, p, o) <= u64::MAX,
        ensures
            balance == bal_of(self.positions@, p, o),
    {
        let n = self.positions.len();
        let mut acc: u64 = 0;
        let mut k: usize = 0;
        while k < n
            invariant
                k <= n,
                n == self.positions@.len(),
                bal_of(self.positions@, p, o) <= u64::MAX,
                acc == bal_of(self.positions@.take(k as int), p, o),
            decreases n - k,
        {
            let e = self.positions[k];
            proof {
                let s = self.positions@;
                assert(s.take(k + 1).drop_last() =~= s.take(k as int));
                assert(s.take(k + 1).last() == s[k as int]);
                lemma_bal_prefix_le(s, k + 1, p, o);
            }
            if e.participant == p && e.outcome == o {
                acc = acc + e.shares;
            }
            k = k + 1;
        }
        proof {
            assert(self.positions@.take(n as int) =~= self.positions@);
        }
        acc
    }

    /// Adds `shares` and `collateral` to the participant's position for
    /// outcome `o`, creating the position on first purchase. Always succeeds;
    /// the market has already validated the trade and bounded the sums.
    #[verifier::loop_isolation(false)]
    pub fn record_purchase(&mut self, p: u64, o: u8, shares: u64, collateral: u64)
        requires
            old(self).wf(),
            bal_of(old(self).positions@, p, o) + shares <= u64::MAX,
            collat_of(old(self).positions@, p, o) + collateral <= u64::MAX,
        ensures
            final(self).wf(),
            final(self).redeemed@ == old(self).redeemed@,
            bal_of(final(self).positions@, p, o) == bal_of(old(self).positions@, p, o) + shares,
            collat_of(final(self).positions@, p, o) == collat_of(old(self).positions@, p, o)
                + collateral,
            forall|p2: u64, o2: u8|
                !(p2 == p && o2 == o) ==> #[trigger] bal_of(final(self).positions@, p2, o2)
                    == bal_of(old(self).positions@, p2, o2) && collat_of(
                    final(self).positions@,
                    p2,
                    o2,
                ) == collat_of(old(self).positions@, p2, o2),
            total_bal(final(self).positions@, o) == total_bal(old(self).positions@, o) + shares,
            forall|o2: u8|
                o2 != o ==> #[trigger] total_bal(final(self).positions@, o2) == total_bal(
                    old(self).positions@,
                    o2,
                ),
            total_collat(final(self).positions@) == total_collat(old(self).positions@)
                + collateral,
            forall|j: int|
                0 <= j < final(self).positions@.len() ==> (#[trigger] final(self).positions@[j]).outcome
                    == o || (j < old(self).positions@.len() && final(self).positions@[j].outcome
                    == old(self).positions@[j].outcome),
    {
        let n = self.positions.len();
        let mut k: usize = 0;
        while k < n
            invariant
                k <= n,
                *self == *old(self),
                forall|j: int|
                    0 <= j < k ==> !((#[trigger] self.positions@[j]).participant == p
                        && self.positions@[j].outcome == o),
            decreases n - k,
        {
            let e = self.positions[k];
            if e.participant == p && e.outcome == o {
                proof {
                    lemma_entry_le_bal(self.positions@, k as int, p, o);
                }
                let e2 = Position {
                    participant: e.participant,
                    outcome: e.outcome,
                    shares: e.shares + shares,
                    collateral_paid: e.collateral_paid + collateral,
                };
                proof {
                    lemma_sums_update(self.positions@, k as int, e2, p, o);
                    assert forall|p2: u64, o2: u8| !(p2 == p && o2 == o) implies #[trigger] bal_of(
                        self.positions@.update(k as int, e2),
                        p2,
                        o2,
                    ) == bal_of(self.positions@, p2, o2) && collat_of(
                        self.positions@.update(k as int, e2),
                        p2,
                        o2,
                    ) == collat_of(self.positions@, p2, o2) by {
                        lemma_sums_update(self.positions@, k as int, e2, p2, o2);
                    }
                    assert forall|o2: u8| o2 != o implies #[trigger] total_bal(
                        self.positions@.update(k as int, e2),
                        o2,
                    ) == total_bal(self.positions@, o2) by {
                        lemma_sums_update(self.positions@, k as int, e2, p, o2);
                    }
                }
                self.positions[k] = e2;
                return ;
            }
            k = k + 1;
        }
        let e = Position { participant: p, outcome: o, shares, collateral_paid: collateral };
        proof {
            lemma_sums_push(self.positions@, e, p, o);
            assert forall|p2: u64, o2: u8| !(p2 == p && o2 == o) implies #[trigger] bal_of(
                self.positions@.push(e),
                p2,
                o2,
            ) == bal_of(self.positions@, p2, o2) && collat_of(self.positions@.push(e), p2, o2)
                == collat_of(self.positions@, p2, o2) by {
                lemma_sums_push(self.positions@, e, p2, o2);
            }
            assert forall|o2: u8| o2 != o implies #[trigger] total_bal(
                self.positions@.push(e),
                o2,
            ) == total_bal(self.positions@, o2) by {
                lemma_sums_push(self.positions@, e, p, o2);
            }
        }
        self.positions.push(e);
    }

    /// Whether a redemption record for this participant already exists.
    pub fn has_redeemed(&self, p: u64) -> (r: bool)
        ensures
            r == self.redeemed@.contains(p),
    {
        let n = self.redeemed.len();
        let mut k: usize = 0;
        while k < n
            invariant
                k <= n,
                n == self.redeemed@.len(),
                forall|j: int| 0 <= j < k ==> self.redeemed@[j] != p,
            decreases n - k,
        {
            if self.redeemed[k] == p {
                return true;
            }
            k = k + 1;
        }
        assert(!self.redeemed@.contains(p));
        false
    }

    /// Idempotency guard for redemption: fails when a redemption record for
    /// this participant already exists, otherwise creates one.
    #[verifier::loop_isolation(false)]
    pub fn mark_redeemed(&mut self, p: u64) -> (r: Result<(), MarketError>)
        requires
            old(self).wf(),
        ensures
            final(self).wf(),
            final(self).positions@ == old(self).positions@,
            old(self).redeemed@.contains(p) ==> r == Err::<(), MarketError>(
                MarketError::AlreadyRedeemed,
            ) && *final(self) == *old(self),
            !old(self).redeemed@.contains(p) ==> r == Ok::<(), MarketError>(())
                && final(self).redeemed@ == old(self).redeemed@.push(p),
    {
        let n = self.redeemed.len();
        let mut k: usize = 0;
        while k < n
            invariant
                k <= n,
                *self == *old(self),
                forall|j: int| 0 <= j < k ==> self.redeemed@[j] != p,
            decreases n - k,
        {
            if self.redeemed[k] == p {
                return Err(MarketError::AlreadyRedeemed);
            }
            k = k + 1;
        }
        assert(!self.redeemed@.contains(p));
        self.redeemed.push(p);
        return Ok(());
    }
}

proof fn lemma_bal_prefix_le(s: Seq<Position>, j: int, p: u64, o: u8)
    requires
        0 <= j <= s.len(),
    ensures
        0 <= bal_of(s.take(j), p, o) <= bal_of(s, p, o),
    decreases s.len() - j,
{
    if j == s.len() {
        assert(s.take(j) =~= s);
        lemma_sums_nonneg(s, p, o);
    } else {
        lemma_bal_prefix_le(s, j + 1, p, o);
        assert(s.take(j + 1).drop_last() =~= s.take(j));
        assert(s.take(j + 1).last() == s[j]);
        lemma_sums_nonneg(s.take(j), p, o);
    }
}

} // verus!

//! Valuation of a record's balances in USD with its stored rates: the balance
//! breakdown and the portfolio summary.
use vstd::prelude::*;
use crate::arith::{capped_add, clamp_i128, scale, scaled, share_percent, FULL_PERCENT};
use crate::models::{
    lemma_net_sum_bound, net_sum, Currency, CurrencyRate, UserData, RATE_SCALE,
};
use crate::text::{fixed_text, push_fixed};

verus! {

/// Balances and their USD values (base units, 1e-8).
#[derive(Clone, Debug)]
pub struct BalanceBreakdown {
    pub usd_balance: i128,
    pub idr_balance: i128,
    pub btc_balance: i128,
    pub eth_balance: i128,
    pub sol_balance: i128,
    pub idr_usd_value: i128,
    pub btc_usd_value: i128,
    pub eth_usd_value: i128,
    pub sol_usd_value: i128,
    pub total_usd_value: i128,
    pub is_negative: bool,
    pub negative_reason: Option<String>,
}

/// The USD valuation with each asset's share of it.
#[derive(Clone, Debug)]
pub struct PortfolioSummary {
    pub total_value_usd: i128,
    pub total_value_idr: i128,
    pub asset_allocation: Vec<(Currency, i128)>,
    pub balance_breakdown: BalanceBreakdown,
    pub diversification_score: i128,
}

/// All four tracked rates are loaded.
pub open spec fn rates_loaded(r: CurrencyRate) -> bool {
    r.usd_to_idr > 0 && r.btc_to_usd > 0 && r.eth_to_usd > 0 && r.sol_to_usd > 0
}

/// The USD value of `balance` at `rate` (USD per unit), zero without loaded rates.
pub open spec fn usd_value(balance: int, rate: u64, loaded: bool) -> int {
    if loaded {
        scaled(balance, rate as int, RATE_SCALE as int)
    } else {
        0
    }
}

/// The USD value of an IDR balance, zero without loaded rates.
pub open spec fn idr_in_usd(balance: int, usd_to_idr: u64, loaded: bool) -> int {
    if loaded {
        scaled(balance, RATE_SCALE as int, usd_to_idr as int)
    } else {
        0
    }
}

/// The capped sum of the USD balance and the four USD values.
pub open spec fn total_value(usd: int, idr: int, btc: int, eth: int, sol: int) -> int {
    clamp_i128(clamp_i128(clamp_i128(clamp_i128(usd + btc) + eth) + sol) + idr)
}

/// The explanation given with a negative total.
pub open spec fn negative_text(usd: int, btc: int, eth: int, sol: int, idr: int) -> Seq<char> {
    "Total balance is negative: USD $"@ + fixed_text(usd, 2) + ", BTC $"@ + fixed_text(btc, 2)
        + ", ETH $"@ + fixed_text(eth, 2) + ", SOL $"@ + fixed_text(sol, 2) + ", IDR $"@
        + fixed_text(idr, 2)
}

/// What `get_balance_breakdown` reports for a record.
pub open spec fn breakdown_of(d: UserData, b: BalanceBreakdown) -> bool {
    let loaded = rates_loaded(d.currency_rates);
    let r = d.currency_rates;
    &&& b.usd_balance == d.balance_usd
    &&& b.idr_balance == d.balance_idr
    &&& b.btc_balance == d.balance_btc
    &&& b.eth_balance == d.balance_eth
    &&& b.sol_balance == d.balance_sol
    &&& b.btc_usd_value == usd_value(d.balance_btc as int, r.btc_to_usd, loaded)
    &&& b.eth_usd_value == usd_value(d.balance_eth as int, r.eth_to_usd, loaded)
    &&& b.sol_usd_value == usd_value(d.balance_sol as int, r.sol_to_usd, loaded)
    &&& b.idr_usd_value == idr_in_usd(d.balance_idr as int, r.usd_to_idr, loaded)
    &&& b.total_usd_value == total_value(
        d.balance_usd as int,
        b.idr_usd_value as int,
        b.btc_usd_value as int,
        b.eth_usd_value as int,
        b.sol_usd_value as int,
    )
    &&& b.is_negative == (b.total_usd_value < 0)
    &&& b.is_negative ==> b.negative_reason is Some && b.negative_reason->Some_0@ == negative_text(
        d.balance_usd as int,
        b.btc_usd_value as int,
        b.eth_usd_value as int,
        b.sol_usd_value as int,
        b.idr_usd_value as int,
    )
    &&& !b.is_negative ==> b.negative_reason is None
}

/// The share of each asset in a positive total (at `PERCENT_SCALE`), in the
/// order USD, BTC, ETH, SOL, IDR.
pub open spec fn allocation_of(b: BalanceBreakdown) -> Seq<(Currency, i128)> {
    let t = b.total_usd_value as int;
    seq![
        (Currency::Usd, scaled(b.usd_balance as int, FULL_PERCENT as int, t) as i128),
        (Currency::Btc, scaled(b.btc_usd_value as int, FULL_PERCENT as int, t) as i128),
        (Currency::Eth, scaled(b.eth_usd_value as int, FULL_PERCENT as int, t) as i128),
        (Currency::Sol, scaled(b.sol_usd_value as int, FULL_PERCENT as int, t) as i128),
        (Currency::Idr, scaled(b.idr_usd_value as int, FULL_PERCENT as int, t) as i128),
    ]
}

/// The largest share, or zero when all are negative.
pub open spec fn max_share(a: Seq<(Currency, i128)>) -> int
    decreases a.len(),
{
    if a.len() == 0 {
        0
    } else {
        let m = max_share(a.drop_last());
        if a.last().1 > m {
            a.last().1 as int
        } else {
            m
        }
    }
}

/// 100% minus the largest share, at least zero; zero for fewer than two assets.
pub open spec fn diversification(a: Seq<(Currency, i128)>) -> int {
    if a.len() > 1 {
        if FULL_PERCENT - max_share(a) > 0 {
            FULL_PERCENT - max_share(a)
        } else {
            0
        }
    } else {
        0
    }
}

impl UserData {
    proof fn lemma_balance_range(&self, n: usize)
        requires
            self.wf(),
            n == self.transactions@.len(),
        ensures
            forall|c: Currency| #[trigger] self.balance_of(c) > i128::MIN,
    {
        assert forall|c: Currency| #[trigger] self.balance_of(c) > i128::MIN by {
            lemma_net_sum_bound(self.transactions@, c);
            crate::transaction::lemma_bound_fits(n as int);
            assert(self.balance_of(c) == net_sum(self.transactions@, c));
        }
    }

    /// The balances valued in USD with the record's own rates; assets other
    /// than USD count as zero until all four rates are loaded.
    pub fn get_balance_breakdown(&self) -> (r: BalanceBreakdown)
        requires
            self.wf(),
        ensures
            breakdown_of(*self, r),
    {
        let n = self.transactions.len();
        proof {
            self.lemma_balance_range(n);
            assert(self.balance_of(Currency::Usd) == self.balance_usd);
            assert(self.balance_of(Currency::Idr) == self.balance_idr);
            assert(self.balance_of(Currency::Btc) == self.balance_btc);
            assert(self.balance_of(Currency::Eth) == self.balance_eth);
            assert(self.balance_of(Currency::Sol) == self.balance_sol);
        }
        let r = self.currency_rates;
        let loaded = r.usd_to_idr > 0 && r.btc_to_usd > 0 && r.eth_to_usd > 0 && r.sol_to_usd > 0;
        let btc_usd_value = if loaded {
            scale(self.balance_btc, r.btc_to_usd, RATE_SCALE)
        } else {
            0
        };
        let eth_usd_value = if loaded {
            scale(self.balance_eth, r.eth_to_usd, RATE_SCALE)
        } else {
            0
        };
        let sol_usd_value = if loaded {
            scale(self.balance_sol, r.sol_to_usd, RATE_SCALE)
        } else {
            0
        };
        let idr_usd_value = if loaded {
            scale(self.balance_idr, RATE_SCALE, r.usd_to_idr)
        } else {
            0
        };
        let t1 = capped_add(self.balance_usd, btc_usd_value);
        let t2 = capped_add(t1, eth_usd_value);
        let t3 = capped_add(t2, sol_usd_value);
        let total_usd_value = capped_add(t3, idr_usd_value);
        let is_negative = total_usd_value < 0;
        let negative_reason = if is_negative {
            let mut s = String::from_str("Total balance is negative: USD $");
            push_fixed(&mut s, self.balance_usd, 2);
            s.append(", BTC $");
            push_fixed(&mut s, btc_usd_value, 2);
            s.append(", ETH $");
            push_fixed(&mut s, eth_usd_value, 2);
            s.append(", SOL $");
            push_fixed(&mut s, sol_usd_value, 2);
            s.append(", IDR $");
            push_fixed(&mut s, idr_usd_value, 2);
            Some(s)
        } else {
            None
        };
        BalanceBreakdown {
            usd_balance: self.balance_usd,
            idr_balance: self.balance_idr,
            btc_balance: self.balance_btc,
            eth_balance: self.balance_eth,
            sol_balance: self.balance_sol,
            idr_usd_value,
            btc_usd_value,
            eth_usd_value,
            sol_usd_value,
            total_usd_value,
            is_negative,
            negative_reason,
        }
    }

    /// The USD and IDR totals, each asset's share of a positive total and a
    /// diversification score of 100% minus the largest share.
    pub fn get_portfolio_summary(&self) -> (r: PortfolioSummary)
        requires
            self.wf(),
        ensures
            breakdown_of(*self, r.balance_breakdown),
            r.total_value_usd == r.balance_breakdown.total_usd_value,
            r.total_value_idr == if self.currency_rates.usd_to_idr > 0 {
                scaled(
                    r.total_value_usd as int,
                    self.currency_rates.usd_to_idr as int,
                    RATE_SCALE as int,
                )
            } else {
                0
            },
            r.asset_allocation@ == if r.total_value_usd > 0 {
                allocation_of(r.balance_breakdown)
            } else {
                Seq::empty()
            },
            r.diversification_score == diversification(r.asset_allocation@),
    {
        let b = self.get_balance_breakdown();
        let n = self.transactions.len();
        proof {
            self.lemma_balance_range(n);
            assert(self.balance_of(Currency::Usd) == self.balance_usd);
        }
        let total = b.total_usd_value;
        let mut allocation: Vec<(Currency, i128)> = Vec::new();
        if total > 0 {
            allocation.push((Currency::Usd, share_percent(b.usd_balance, total)));
            allocation.push((Currency::Btc, share_percent(b.btc_usd_value, total)));
            allocation.push((Currency::Eth, share_percent(b.eth_usd_value, total)));
            allocation.push((Currency::Sol, share_percent(b.sol_usd_value, total)));
            allocation.push((Currency::Idr, share_percent(b.idr_usd_value, total)));
            proof {
                assert(allocation@ =~= allocation_of(b));
            }
        } else {
            proof {
                assert(allocation@ =~= Seq::<(Currency, i128)>::empty());
            }
        }
        let mut max: i128 = 0;
        let mut i: usize = 0;
        while i < allocation.len()
            invariant
                i <= allocation@.len(),
                max == max_share(allocation@.subrange(0, i as int)),
                0 <= max <= i128::MAX,
            decreases allocation@.len() - i,
        {
            proof {
                assert(allocation@.subrange(0, i + 1).drop_last() =~= allocation@.subrange(0, i as int));
            }
            if allocation[i].1 > max {
                max = allocation[i].1;
            }
            i = i + 1;
        }
        proof {
            assert(allocation@.subrange(0, allocation@.len() as int) =~= allocation@);
        }
        let score: i128 = if allocation.len() > 1 {
            if (FULL_PERCENT as i128) - max > 0 {
                (FULL_PERCENT as i128) - max
            } else {
                0
            }
        } else {
            0
        };
        let total_value_idr = if self.currency_rates.usd_to_idr > 0 {
            scale(total, self.currency_rates.usd_to_idr, RATE_SCALE)
        } else {
            0
        };
        PortfolioSummary {
            total_value_usd: total,
            total_value_idr,
            asset_allocation: allocation,
            balance_breakdown: b,
            diversification_score: score,
        }
    }

    /// The USD valuation's total.
    pub fn get_total_balance_usd(&self) -> (r: i128)
        requires
            self.wf(),
        ensures
            r == total_value(
                self.balance_usd as int,
                idr_in_usd(
                    self.balance_idr as int,
                    self.currency_rates.usd_to_idr,
                    rates_loaded(self.currency_rates),
                ),
                usd_value(
                    self.balance_btc as int,
                    self.currency_rates.btc_to_usd,
                    rates_loaded(self.currency_rates),
                ),
                usd_value(
                    self.balance_eth as int,
                    self.currency_rates.eth_to_usd,
                    rates_loaded(self.currency_rates),
                ),
                usd_value(
                    self.balance_sol as int,
                    self.currency_rates.sol_to_usd,
                    rates_loaded(self.currency_rates),
                ),
            ),
    {
        let b = self.get_balance_breakdown();
        b.total_usd_value
    }
}

} // verus!

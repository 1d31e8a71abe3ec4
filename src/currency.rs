//! The rate and conversion engine: a table of currency-pair rates owned by the
//! caller (one per process), manual overrides, atomic refreshes and conversion.
use vstd::prelude::*;
use crate::models::{currency_of_text, Currency, CurrencyRate, LedgerError, ValidationIssue, RATE_SCALE};

verus! {

/// One stored rate: 1 `from` is worth `rate / RATE_SCALE` of `to`.
#[derive(Clone, Copy, Debug, PartialEq, Eq, Structural)]
pub struct RateEntry {
    pub from: Currency,
    pub to: Currency,
    pub rate: u64,
}

/// The rate table, at most one entry per ordered pair.
#[derive(Clone, Debug)]
pub struct RateTable {
    pub entries: Vec<RateEntry>,
}

/// The rate stored for (`from`, `to`), if any.
pub open spec fn rate_in(es: Seq<RateEntry>, from: Currency, to: Currency) -> Option<u64>
    decreases es.len(),
{
    if es.len() == 0 {
        None
    } else if es.last().from == from && es.last().to == to {
        Some(es.last().rate)
    } else {
        rate_in(es.drop_last(), from, to)
    }
}

/// `amount` converted at the fixed-point `rate`, rounded toward zero.
pub open spec fn apply_rate(amount: int, rate: int) -> int {
    if amount >= 0 {
        amount * rate / RATE_SCALE as int
    } else {
        -((-amount) * rate / RATE_SCALE as int)
    }
}

/// The fixed-point inverse of a positive rate, rounded down.
pub open spec fn inverse_rate(rate: int) -> int {
    (RATE_SCALE as int * RATE_SCALE as int) / rate
}

impl RateTable {
    pub open spec fn wf(&self) -> bool {
        forall|i: int, j: int|
            0 <= i < j < self.entries@.len() ==> !((#[trigger] self.entries@[i]).from
                == (#[trigger] self.entries@[j]).from && self.entries@[i].to == self.entries@[j].to)
    }

    pub open spec fn rate(&self, from: Currency, to: Currency) -> Option<u64> {
        rate_in(self.entries@, from, to)
    }

    /// An empty table.
    pub fn new() -> (r: RateTable)
        ensures
            r.wf(),
            r.entries@.len() == 0,
            forall|a: Currency, b: Currency| #[trigger] r.rate(a, b) is None,
    {
        RateTable { entries: Vec::new() }
    }
}

proof fn lemma_rate_in_found(es: Seq<RateEntry>, i: int)
    requires
        0 <= i < es.len(),
        forall|x: int, y: int|
            0 <= x < y < es.len() ==> !((#[trigger] es[x]).from == (#[trigger] es[y]).from
                && es[x].to == es[y].to),
    ensures
        rate_in(es, es[i].from, es[i].to) == Some(es[i].rate),
    decreases es.len(),
{
    if i < es.len() - 1 {
        let init = es.drop_last();
        assert forall|x: int, y: int| 0 <= x < y < init.len() implies !((#[trigger] init[x]).from
            == (#[trigger] init[y]).from && init[x].to == init[y].to) by {
            assert(init[x] == es[x] && init[y] == es[y]);
        }
        assert(!(es[i].from == es.last().from && es[i].to == es.last().to));
        lemma_rate_in_found(init, i);
    }
}

proof fn lemma_rate_in_absent(es: Seq<RateEntry>, from: Currency, to: Currency)
    requires
        forall|x: int| 0 <= x < es.len() ==> !((#[trigger] es[x]).from == from && es[x].to == to),
    ensures
        rate_in(es, from, to) is None,
    decreases es.len(),
{
    if es.len() > 0 {
        lemma_rate_in_absent(es.drop_last(), from, to);
    }
}

proof fn lemma_rate_in_update(es: Seq<RateEntry>, i: int, e: RateEntry, a: Currency, b: Currency)
    requires
        0 <= i < es.len(),
        es[i].from == e.from && es[i].to == e.to,
        forall|x: int, y: int|
            0 <= x < y < es.len() ==> !((#[trigger] es[x]).from == (#[trigger] es[y]).from
                && es[x].to == es[y].to),
    ensures
        rate_in(es.update(i, e), a, b) == if a == e.from && b == e.to {
            Some(e.rate)
        } else {
            rate_in(es, a, b)
        },
    decreases es.len(),
{
    let es2 = es.update(i, e);
    if i == es.len() - 1 {
        assert(es2.drop_last() =~= es.drop_last());
    } else {
        let init = es.drop_last();
        assert forall|x: int, y: int| 0 <= x < y < init.len() implies !((#[trigger] init[x]).from
            == (#[trigger] init[y]).from && init[x].to == init[y].to) by {
            assert(init[x] == es[x] && init[y] == es[y]);
        }
        assert(es2.drop_last() =~= init.update(i, e));
        assert(!(es[i].from == es.last().from && es[i].to == es.last().to));
        lemma_rate_in_update(init, i, e, a, b);
    }
}

/// Stores `rate` for (`from`, `to`), replacing any earlier rate of that pair.
pub fn set_rate(rates: &mut RateTable, from: Currency, to: Currency, rate: u64)
    requires
        old(rates).wf(),
    ensures
        final(rates).wf(),
        forall|a: Currency, b: Currency| #[trigger] final(rates).rate(a, b) == if a == from && b
            == to {
            Some(rate)
        } else {
            old(rates).rate(a, b)
        },
{
    let ghost es = rates.entries@;
    let e = RateEntry { from, to, rate };
    let mut i: usize = 0;
    while i < rates.entries.len()
        invariant
            i <= es.len(),
            rates.entries@ == es,
            es == old(rates).entries@,
            e == (RateEntry { from, to, rate }),
            forall|x: int, y: int|
                0 <= x < y < es.len() ==> !((#[trigger] es[x]).from == (#[trigger] es[y]).from
                    && es[x].to == es[y].to),
            forall|k: int| 0 <= k < i ==> !((#[trigger] es[k]).from == from && es[k].to == to),
        decreases es.len() - i,
    {
        if rates.entries[i].from == from && rates.entries[i].to == to {
            rates.entries.set(i, e);
            proof {
                let es2 = rates.entries@;
                assert forall|x: int, y: int| 0 <= x < y < es2.len() implies !((#[trigger] es2[x]).from
                    == (#[trigger] es2[y]).from && es2[x].to == es2[y].to) by {
                    assert(!(es[x].from == es[y].from && es[x].to == es[y].to));
                }
                assert forall|a: Currency, b: Currency| #[trigger] rate_in(es2, a, b) == if a == from
                    && b == to {
                    Some(rate)
                } else {
                    rate_in(es, a, b)
                } by {
                    lemma_rate_in_update(es, i as int, e, a, b);
                }
            }
            return;
        }
        i = i + 1;
    }
    rates.entries.push(e);
    proof {
        let es2 = rates.entries@;
        assert(es2.drop_last() =~= es);
        assert forall|x: int, y: int| 0 <= x < y < es2.len() implies !((#[trigger] es2[x]).from
            == (#[trigger] es2[y]).from && es2[x].to == es2[y].to) by {
            if y == es.len() {
                assert(es2[x] == es[x]);
            } else {
                assert(es2[x] == es[x] && es2[y] == es[y]);
            }
        }
        assert forall|a: Currency, b: Currency| #[trigger] rate_in(es2, a, b) == if a == from && b
            == to {
            Some(rate)
        } else {
            rate_in(es, a, b)
        } by {
            assert(es2.drop_last() =~= es);
        }
    }
}

/// The rate stored for (`from`, `to`), if any.
pub fn get_rate(rates: &RateTable, from: Currency, to: Currency) -> (r: Option<u64>)
    requires
        rates.wf(),
    ensures
        r == rates.rate(from, to),
{
    let es = &rates.entries;
    let mut i: usize = 0;
    while i < es.len()
        invariant
            i <= es@.len(),
            rates.wf(),
            es@ == rates.entries@,
            forall|k: int| 0 <= k < i ==> !((#[trigger] es@[k]).from == from && es@[k].to == to),
        decreases es@.len() - i,
    {
        if es[i].from == from && es[i].to == to {
            proof {
                lemma_rate_in_found(es@, i as int);
            }
            return Some(es[i].rate);
        }
        i = i + 1;
    }
    proof {
        lemma_rate_in_absent(es@, from, to);
    }
    None
}

fn scale_amount(amount: i64, rate: u64) -> (r: i128)
    ensures
        r == apply_rate(amount as int, rate as int),
{
    let magnitude: u128 = if amount >= 0 {
        amount as u128
    } else {
        (-(amount as i128)) as u128
    };
    proof {
        assert(magnitude * rate <= 0x8000_0000_0000_0000 * 0xffff_ffff_ffff_ffff) by (nonlinear_arith)
            requires
                magnitude <= 0x8000_0000_0000_0000,
                rate <= 0xffff_ffff_ffff_ffff,
        ;
    }
    let scaled = magnitude * (rate as u128) / (RATE_SCALE as u128);
    proof {
        assert(scaled <= magnitude * rate);
    }
    if amount >= 0 {
        scaled as i128
    } else {
        -(scaled as i128)
    }
}

/// `amount` in `to`: itself when `from == to`, else converted at the stored
/// rate; `None` when no rate is stored for the pair.
pub fn convert(rates: &RateTable, amount: i64, from: Currency, to: Currency) -> (r: Option<i128>)
    requires
        rates.wf(),
    ensures
        from == to ==> r == Some(amount as i128),
        from != to ==> match rates.rate(from, to) {
            Some(rate) => r is Some && r->Some_0 == apply_rate(amount as int, rate as int),
            None => r is None,
        },
{
    if from == to {
        Some(amount as i128)
    } else {
        match get_rate(rates, from, to) {
            Some(rate) => Some(scale_amount(amount, rate)),
            None => None,
        }
    }
}

/// `amount` converted as `convert` does, or `amount` itself when no rate is stored.
pub fn convert_with_fallback(rates: &RateTable, amount: i64, from: Currency, to: Currency) -> (r: i128)
    requires
        rates.wf(),
    ensures
        from != to && rates.rate(from, to) is Some ==> r == apply_rate(
            amount as int,
            rates.rate(from, to)->Some_0 as int,
        ),
        from == to || rates.rate(from, to) is None ==> r == amount,
{
    match convert(rates, amount, from, to) {
        Some(v) => v,
        None => amount as i128,
    }
}

/// Every stored rate as (from, to, rate), in the order the pairs were first set.
pub fn get_all_rates(rates: &RateTable) -> (r: Vec<(Currency, Currency, u64)>)
    ensures
        r@.len() == rates.entries@.len(),
        forall|i: int|
            0 <= i < r@.len() ==> #[trigger] r@[i] == (
                rates.entries@[i].from,
                rates.entries@[i].to,
                rates.entries@[i].rate,
            ),
{
    let mut out: Vec<(Currency, Currency, u64)> = Vec::new();
    let mut i: usize = 0;
    while i < rates.entries.len()
        invariant
            i <= rates.entries@.len(),
            out@.len() == i,
            forall|k: int|
                0 <= k < i ==> #[trigger] out@[k] == (
                    rates.entries@[k].from,
                    rates.entries@[k].to,
                    rates.entries@[k].rate,
                ),
        decreases rates.entries@.len() - i,
    {
        let e = rates.entries[i];
        out.push((e.from, e.to, e.rate));
        i = i + 1;
    }
    out
}

/// Sets the rate of (`from`, `to`) given by their codes; an unsupported code is refused.
pub fn update_rate(rates: &mut RateTable, from: &str, to: &str, new_rate: u64) -> (r: Result<(), LedgerError>)
    requires
        old(rates).wf(),
    ensures
        final(rates).wf(),
        currency_of_text(from@) is None || currency_of_text(to@) is None ==> r == Err::<
            (),
            LedgerError,
        >(LedgerError::Validation(ValidationIssue::InvalidCurrency)) && *final(rates) == *old(rates),
        currency_of_text(from@) is Some && currency_of_text(to@) is Some ==> {
            &&& r is Ok
            &&& forall|a: Currency, b: Currency| #[trigger] final(rates).rate(a, b) == if a
                == currency_of_text(from@)->Some_0 && b == currency_of_text(to@)->Some_0 {
                Some(new_rate)
            } else {
                old(rates).rate(a, b)
            }
        },
{
    let f = match Currency::parse(from) {
        Some(c) => c,
        None => return Err(LedgerError::Validation(ValidationIssue::InvalidCurrency)),
    };
    let t = match Currency::parse(to) {
        Some(c) => c,
        None => return Err(LedgerError::Validation(ValidationIssue::InvalidCurrency)),
    };
    set_rate(rates, f, t, new_rate);
    Ok(())
}

/// Rates that are not loaded yet, stamped `now`.
pub fn get_empty_currency_rates(now: u64) -> (r: CurrencyRate)
    ensures
        r == crate::models::empty_rates(now),
{
    CurrencyRate { usd_to_idr: 0, btc_to_usd: 0, eth_to_usd: 0, sol_to_usd: 0, last_updated: now }
}

/// Whether any rate is stored.
pub fn has_rates(rates: &RateTable) -> (r: bool)
    ensures
        r == (rates.entries@.len() > 0),
{
    rates.entries.len() > 0
}

/// A stored rate, or zero when none is stored.
pub open spec fn rate_or_zero(rates: RateTable, from: Currency, to: Currency) -> u64 {
    match rates.rate(from, to) {
        Some(r) => r,
        None => 0,
    }
}

/// The tracked rates read from the table, stamped `now`; `NotLoaded` when the
/// table is empty.
pub fn get_currency_rates(rates: &RateTable, now: u64) -> (r: Result<CurrencyRate, LedgerError>)
    requires
        rates.wf(),
    ensures
        rates.entries@.len() == 0 ==> r == Err::<CurrencyRate, LedgerError>(LedgerError::NotLoaded),
        rates.entries@.len() > 0 ==> r == Ok::<CurrencyRate, LedgerError>(
            CurrencyRate {
                usd_to_idr: rate_or_zero(*rates, Currency::Usd, Currency::Idr),
                btc_to_usd: rate_or_zero(*rates, Currency::Btc, Currency::Usd),
                eth_to_usd: rate_or_zero(*rates, Currency::Eth, Currency::Usd),
                sol_to_usd: rate_or_zero(*rates, Currency::Sol, Currency::Usd),
                last_updated: now,
            },
        ),
{
    if !has_rates(rates) {
        return Err(LedgerError::NotLoaded);
    }
    let usd_to_idr = match get_rate(rates, Currency::Usd, Currency::Idr) {
        Some(r) => r,
        None => 0,
    };
    let btc_to_usd = match get_rate(rates, Currency::Btc, Currency::Usd) {
        Some(r) => r,
        None => 0,
    };
    let eth_to_usd = match get_rate(rates, Currency::Eth, Currency::Usd) {
        Some(r) => r,
        None => 0,
    };
    let sol_to_usd = match get_rate(rates, Currency::Sol, Currency::Usd) {
        Some(r) => r,
        None => 0,
    };
    Ok(CurrencyRate { usd_to_idr, btc_to_usd, eth_to_usd, sol_to_usd, last_updated: now })
}

fn invert(rate: u64) -> (r: u64)
    requires
        rate > 0,
    ensures
        r == inverse_rate(rate as int),
{
    let sq: u128 = 10_000_000_000_000_000;
    assert((RATE_SCALE as int) * (RATE_SCALE as int) == sq) by (nonlinear_arith)
        requires
            RATE_SCALE == 100_000_000,
            sq == 10_000_000_000_000_000,
    ;
    let q = sq / (rate as u128);
    assert(q <= sq) by (nonlinear_arith)
        requires
            rate >= 1,
            q == sq / (rate as u128),
    ;
    q as u64
}

/// `new` holds the four quotes and their inverses; every other pair is as in `old`.
pub open spec fn quotes_installed(
    new: RateTable,
    old: RateTable,
    usd_to_idr: u64,
    btc_to_usd: u64,
    eth_to_usd: u64,
    sol_to_usd: u64,
) -> bool {
    &&& new.rate(Currency::Usd, Currency::Idr) == Some(usd_to_idr)
    &&& new.rate(Currency::Idr, Currency::Usd) == Some(inverse_rate(usd_to_idr as int) as u64)
    &&& new.rate(Currency::Btc, Currency::Usd) == Some(btc_to_usd)
    &&& new.rate(Currency::Usd, Currency::Btc) == Some(inverse_rate(btc_to_usd as int) as u64)
    &&& new.rate(Currency::Eth, Currency::Usd) == Some(eth_to_usd)
    &&& new.rate(Currency::Usd, Currency::Eth) == Some(inverse_rate(eth_to_usd as int) as u64)
    &&& new.rate(Currency::Sol, Currency::Usd) == Some(sol_to_usd)
    &&& new.rate(Currency::Usd, Currency::Sol) == Some(inverse_rate(sol_to_usd as int) as u64)
    &&& forall|a: Currency, b: Currency|
        !(a == Currency::Usd && b != Currency::Usd) && !(b == Currency::Usd && a != Currency::Usd)
            ==> #[trigger] new.rate(a, b) == old.rate(a, b)
}

/// Installs freshly fetched quotes: USD/IDR and BTC, ETH, SOL against USD,
/// each with its inverse. A zero quote is refused and leaves the table as it
/// was; otherwise all eight pairs are replaced together.
pub fn apply_fetched_rates(
    rates: &mut RateTable,
    usd_to_idr: u64,
    btc_to_usd: u64,
    eth_to_usd: u64,
    sol_to_usd: u64,
    now: u64,
) -> (r: Result<CurrencyRate, LedgerError>)
    requires
        old(rates).wf(),
    ensures
        final(rates).wf(),
        usd_to_idr == 0 || btc_to_usd == 0 || eth_to_usd == 0 || sol_to_usd == 0 ==> r == Err::<
            CurrencyRate,
            LedgerError,
        >(LedgerError::Validation(ValidationIssue::InvalidRate)) && *final(rates) == *old(rates),
        usd_to_idr > 0 && btc_to_usd > 0 && eth_to_usd > 0 && sol_to_usd > 0 ==> {
            &&& r == Ok::<CurrencyRate, LedgerError>(
                CurrencyRate { usd_to_idr, btc_to_usd, eth_to_usd, sol_to_usd, last_updated: now },
            )
            &&& quotes_installed(
                *final(rates),
                *old(rates),
                usd_to_idr,
                btc_to_usd,
                eth_to_usd,
                sol_to_usd,
            )
        },
{
    if usd_to_idr == 0 || btc_to_usd == 0 || eth_to_usd == 0 || sol_to_usd == 0 {
        return Err(LedgerError::Validation(ValidationIssue::InvalidRate));
    }
    set_rate(rates, Currency::Usd, Currency::Idr, usd_to_idr);
    set_rate(rates, Currency::Idr, Currency::Usd, invert(usd_to_idr));
    set_rate(rates, Currency::Btc, Currency::Usd, btc_to_usd);
    set_rate(rates, Currency::Usd, Currency::Btc, invert(btc_to_usd));
    set_rate(rates, Currency::Eth, Currency::Usd, eth_to_usd);
    set_rate(rates, Currency::Usd, Currency::Eth, invert(eth_to_usd));
    set_rate(rates, Currency::Sol, Currency::Usd, sol_to_usd);
    set_rate(rates, Currency::Usd, Currency::Sol, invert(sol_to_usd));
    Ok(CurrencyRate { usd_to_idr, btc_to_usd, eth_to_usd, sol_to_usd, last_updated: now })
}

} // verus!

//! The blockchain sync adapter: records observed unspent outputs as income
//! transactions through the transaction engine, skipping those already recorded.
use vstd::prelude::*;
use vstd::string::StringSliceAdditionalSpecFns;
use crate::models::{Currency, LedgerError, Source, Transaction, TransactionType, UserData};
use crate::text::{decimal, fixed_text, push_decimal, push_fixed, str_eq};
use crate::transaction::{add_transaction, same_but_transactions, with_id};
use crate::utils::{date_text, timestamp_to_date};

verus! {

/// The outputs reported for an address.
#[derive(Clone, Debug)]
pub struct GetUtxosResponse {
    pub utxos: Vec<Utxo>,
}

/// One unspent output: where it is and its value in satoshis.
#[derive(Clone, Debug)]
pub struct Utxo {
    pub outpoint: OutPoint,
    pub value: u64,
}

/// A transaction id and an output index within it.
#[derive(Clone, Debug)]
pub struct OutPoint {
    pub txid: Vec<u8>,
    pub vout: u32,
}

/// The category under which received outputs are recorded.
pub open spec fn received_category() -> Seq<char> {
    "Crypto_Received"@
}

/// A lowercase hexadecimal digit.
pub open spec fn hex_digit(n: int) -> char {
    seq!['0', '1', '2', '3', '4', '5', '6', '7', '8', '9', 'a', 'b', 'c', 'd', 'e', 'f'][n]
}

/// Two lowercase hexadecimal digits per byte, most significant first.
pub open spec fn hex_text(b: Seq<u8>) -> Seq<char>
    decreases b.len(),
{
    if b.len() == 0 {
        Seq::empty()
    } else {
        hex_text(b.drop_last()) + seq![hex_digit((b.last() / 16) as int), hex_digit((b.last() % 16) as int)]
    }
}

/// Relies on `hex::encode`: each byte becomes two lowercase hex digits, in order.
#[verifier::external_body]
fn to_hex(bytes: &Vec<u8>) -> (r: String)
    ensures
        r@ == hex_text(bytes@),
{
    hex::encode(bytes)
}

/// The description of the transaction that records `u`; it embeds the
/// output's transaction id and index, which makes it the output's dedup key.
pub open spec fn utxo_description(u: Utxo) -> Seq<char> {
    "BTC UTXO received (txid: "@ + hex_text(u.outpoint.txid@) + ", vout: "@ + decimal(
        u.outpoint.vout as nat,
    ) + ")"@
}

/// Outputs whose value can be a positive amount.
pub open spec fn recordable(u: Utxo) -> bool {
    0 < u.value <= i64::MAX
}

/// `tx` records an output with description `desc` and amount `amount`.
pub open spec fn records(tx: Transaction, desc: Seq<char>, amount: int) -> bool {
    tx.description@ == desc && tx.category@ == received_category() && tx.amount == amount
}

/// Some transaction of `txs` records `u`.
pub open spec fn recorded(txs: Seq<Transaction>, u: Utxo) -> bool {
    exists|i: int|
        0 <= i < txs.len() && records(#[trigger] txs[i], utxo_description(u), u.value as int)
}

/// Two outputs are recorded by the same transactions.
pub open spec fn same_record(a: Utxo, b: Utxo) -> bool {
    utxo_description(a) == utxo_description(b) && a.value == b.value
}

/// The outputs of `utxos` that a sync over `txs` records, in order: those with
/// a recordable value that neither `txs` nor an earlier output already records.
pub open spec fn fresh_utxos(txs: Seq<Transaction>, utxos: Seq<Utxo>) -> Seq<Utxo>
    decreases utxos.len(),
{
    if utxos.len() == 0 {
        Seq::empty()
    } else {
        let prev = fresh_utxos(txs, utxos.drop_last());
        let u = utxos.last();
        if recordable(u) && !recorded(txs, u) && !(exists|k: int|
            0 <= k < prev.len() && same_record(#[trigger] prev[k], u)) {
            prev.push(u)
        } else {
            prev
        }
    }
}

/// `tx` is the income transaction synthesized for output `u` under id `id` at `now`.
pub open spec fn synced_tx(tx: Transaction, u: Utxo, id: u64, now: u64) -> bool {
    &&& records(tx, utxo_description(u), u.value as int)
    &&& tx.id == id
    &&& tx.currency == Currency::Btc
    &&& tx.is_income
    &&& tx.timestamp == now
    &&& tx.date@ == date_text(now)
    &&& tx.converted_amount is None
    &&& tx.converted_currency is None
    &&& tx.conversion_rate is None
    &&& tx.transaction_type == Some(TransactionType::Received)
    &&& tx.source == Some(Source::Blockchain)
    &&& tx.txid is Some && tx.txid->Some_0@ == hex_text(u.outpoint.txid@)
    &&& tx.confirmations == Some(6u32)
    &&& tx.fee is None
}

fn already_recorded(txs: &Vec<Transaction>, desc: &String, amount: i64) -> (r: bool)
    ensures
        r == exists|i: int|
            0 <= i < txs@.len() && records(#[trigger] txs@[i], desc@, amount as int),
{
    let mut i: usize = 0;
    while i < txs.len()
        invariant
            i <= txs@.len(),
            forall|k: int| 0 <= k < i ==> !records(#[trigger] txs@[k], desc@, amount as int),
        decreases txs@.len() - i,
    {
        if txs[i].description == *desc && str_eq(txs[i].category.as_str(), "Crypto_Received")
            && txs[i].amount == amount {
            return true;
        }
        i = i + 1;
    }
    false
}

proof fn lemma_fresh_prefix(txs: Seq<Transaction>, utxos: Seq<Utxo>, n: int)
    requires
        0 <= n <= utxos.len(),
    ensures
        fresh_utxos(txs, utxos.subrange(0, n)).len() <= fresh_utxos(txs, utxos).len(),
        fresh_utxos(txs, utxos).subrange(0, fresh_utxos(txs, utxos.subrange(0, n)).len() as int)
            == fresh_utxos(txs, utxos.subrange(0, n)),
    decreases utxos.len(),
{
    if n == utxos.len() {
        assert(utxos.subrange(0, n) =~= utxos);
        assert(fresh_utxos(txs, utxos).subrange(0, fresh_utxos(txs, utxos).len() as int)
            =~= fresh_utxos(txs, utxos));
    } else {
        let init = utxos.drop_last();
        lemma_fresh_prefix(txs, init, n);
        assert(init.subrange(0, n) =~= utxos.subrange(0, n));
        let f = fresh_utxos(txs, utxos);
        let g = fresh_utxos(txs, init);
        let h = fresh_utxos(txs, utxos.subrange(0, n));
        assert(f.subrange(0, h.len() as int) =~= g.subrange(0, h.len() as int));
    }
}

/// After a sync, the transactions hold the old ones followed by one record per
/// fresh output.
pub open spec fn extends_with(all: Seq<Transaction>, olds: Seq<Transaction>, fresh: Seq<Utxo>) -> bool {
    &&& all.len() == olds.len() + fresh.len()
    &&& all.subrange(0, olds.len() as int) == olds
    &&& forall|k: int|
        0 <= k < fresh.len() ==> records(
            #[trigger] all[olds.len() + k],
            utxo_description(fresh[k]),
            fresh[k].value as int,
        )
}

proof fn lemma_recorded_split(all: Seq<Transaction>, olds: Seq<Transaction>, fresh: Seq<Utxo>, u: Utxo)
    requires
        extends_with(all, olds, fresh),
    ensures
        recorded(all, u) <==> (recorded(olds, u) || exists|k: int|
            0 <= k < fresh.len() && same_record(#[trigger] fresh[k], u)),
{
    let n0 = olds.len() as int;
    if recorded(all, u) {
        let i = choose|i: int|
            0 <= i < all.len() && records(#[trigger] all[i], utxo_description(u), u.value as int);
        if i < n0 {
            assert(all[i] == all.subrange(0, n0)[i]);
            assert(records(olds[i], utxo_description(u), u.value as int));
        } else {
            let k = i - n0;
            assert(records(all[n0 + k], utxo_description(fresh[k]), fresh[k].value as int));
            assert(same_record(fresh[k], u));
        }
    }
    if recorded(olds, u) {
        let i = choose|i: int|
            0 <= i < olds.len() && records(#[trigger] olds[i], utxo_description(u), u.value as int);
        assert(all[i] == all.subrange(0, n0)[i]);
        assert(records(all[i], utxo_description(u), u.value as int));
    }
    if exists|k: int| 0 <= k < fresh.len() && same_record(#[trigger] fresh[k], u) {
        let k = choose|k: int| 0 <= k < fresh.len() && same_record(#[trigger] fresh[k], u);
        assert(records(all[n0 + k], utxo_description(fresh[k]), fresh[k].value as int));
        assert(records(all[n0 + k], utxo_description(u), u.value as int));
    }
}

/// Records each output of `utxos_response` that is not recorded yet as a BTC
/// income transaction (source blockchain, type received), added through the
/// transaction engine so the BTC balance follows. Returns how many were added.
pub fn sync_utxos_to_transactions(user_data: &mut UserData, utxos_response: &GetUtxosResponse, now: u64) -> (r: Result<u64, LedgerError>)
    requires
        old(user_data).wf(),
        old(user_data).next_tx_id + utxos_response.utxos@.len() <= u64::MAX,
    ensures
        final(user_data).wf(),
        ({
            let fresh = fresh_utxos(old(user_data).transactions@, utxos_response.utxos@);
            let n0 = old(user_data).transactions@.len();
            &&& r == Ok::<u64, LedgerError>(fresh.len() as u64)
            &&& final(user_data).transactions@.len() == n0 + fresh.len()
            &&& final(user_data).transactions@.subrange(0, n0 as int) == old(user_data).transactions@
            &&& forall|k: int|
                0 <= k < fresh.len() ==> synced_tx(
                    #[trigger] final(user_data).transactions@[n0 + k],
                    fresh[k],
                    (old(user_data).next_tx_id + k) as u64,
                    now,
                )
            &&& final(user_data).next_tx_id == old(user_data).next_tx_id + fresh.len()
            &&& same_but_transactions(*final(user_data), *old(user_data))
        }),
{
    let ghost old_data = *user_data;
    let ghost olds = old_data.transactions@;
    let ghost us = utxos_response.utxos@;
    let n0 = user_data.transactions.len();
    let date = timestamp_to_date(now);
    let utxos = &utxos_response.utxos;
    let mut count: u64 = 0;
    let mut i: usize = 0;
    proof {
        assert(us.subrange(0, 0) =~= Seq::<Utxo>::empty());
        assert(user_data.transactions@.subrange(0, n0 as int) =~= olds);
    }
    while i < utxos.len()
        invariant
            i <= us.len(),
            us == utxos@,
            olds == old_data.transactions@,
            n0 == olds.len(),
            date@ == date_text(now),
            old_data.next_tx_id + us.len() <= u64::MAX,
            user_data.wf(),
            same_but_transactions(*user_data, old_data),
            count == fresh_utxos(olds, us.subrange(0, i as int)).len(),
            count <= i,
            user_data.next_tx_id == old_data.next_tx_id + count,
            extends_with(user_data.transactions@, olds, fresh_utxos(olds, us.subrange(0, i as int))),
            forall|k: int|
                0 <= k < count ==> synced_tx(
                    #[trigger] user_data.transactions@[n0 + k],
                    fresh_utxos(olds, us.subrange(0, i as int))[k],
                    (old_data.next_tx_id + k) as u64,
                    now,
                ),
        decreases us.len() - i,
    {
        let ghost before = *user_data;
        let ghost prev = fresh_utxos(olds, us.subrange(0, i as int));
        let ghost u = us[i as int];
        proof {
            assert(us.subrange(0, i + 1).drop_last() =~= us.subrange(0, i as int));
            assert(us.subrange(0, i + 1).last() == u);
            lemma_recorded_split(before.transactions@, olds, prev, u);
        }
        let utxo = &utxos[i];
        if 0 < utxo.value && utxo.value <= 0x7fff_ffff_ffff_ffff {
            let hex = to_hex(&utxo.outpoint.txid);
            let mut desc = String::from_str("BTC UTXO received (txid: ");
            desc.append(hex.as_str());
            desc.append(", vout: ");
            push_decimal(&mut desc, utxo.outpoint.vout as u128);
            desc.append(")");
            let amount = utxo.value as i64;
            assert(desc@ == utxo_description(u));
            if !already_recorded(&user_data.transactions, &desc, amount) {
                let tx = Transaction {
                    id: user_data.next_tx_id,
                    amount,
                    currency: Currency::Btc,
                    description: desc,
                    is_income: true,
                    timestamp: now,
                    date: date.clone(),
                    category: String::from_str("Crypto_Received"),
                    converted_amount: None,
                    converted_currency: None,
                    conversion_rate: None,
                    transaction_type: Some(TransactionType::Received),
                    source: Some(Source::Blockchain),
                    txid: Some(hex),
                    confirmations: Some(6),
                    fee: None,
                };
                proof {
                    assert(us.len() >= i + 1);
                }
                let _ = add_transaction(user_data, tx);
                proof {
                    let all = user_data.transactions@;
                    let next = prev.push(u);
                    assert(fresh_utxos(olds, us.subrange(0, i + 1)) == next);
                    assert(all == before.transactions@.push(with_id(tx, before.next_tx_id)));
                    assert(all.subrange(0, n0 as int) =~= olds) by {
                        assert(before.transactions@.subrange(0, n0 as int) == olds);
                        assert forall|j: int| 0 <= j < n0 implies all[j] == olds[j] by {
                            assert(all[j] == before.transactions@[j]);
                            assert(before.transactions@[j] == before.transactions@.subrange(0, n0 as int)[j]);
                        }
                    }
                    assert forall|k: int| 0 <= k < next.len() implies records(
                        #[trigger] all[n0 + k],
                        utxo_description(next[k]),
                        next[k].value as int,
                    ) && synced_tx(all[n0 + k], next[k], (old_data.next_tx_id + k) as u64, now) by {
                        if k < prev.len() {
                            assert(all[n0 + k] == before.transactions@[n0 + k]);
                            assert(synced_tx(before.transactions@[n0 + k], prev[k], (old_data.next_tx_id + k) as u64, now));
                        } else {
                            assert(all[n0 + k] == with_id(tx, before.next_tx_id));
                        }
                    }
                }
                count = count + 1;
            } else {
                proof {
                    assert(fresh_utxos(olds, us.subrange(0, i + 1)) == prev);
                }
            }
        } else {
            proof {
                assert(fresh_utxos(olds, us.subrange(0, i + 1)) == prev);
            }
        }
        i = i + 1;
    }
    proof {
        assert(us.subrange(0, us.len() as int) =~= us);
    }
    Ok(count)
}

/// Syncing the same outputs a second time records nothing new: after a sync
/// whose added transactions record the fresh outputs, no output is fresh.
pub proof fn lemma_sync_twice_adds_nothing(olds: Seq<Transaction>, utxos: Seq<Utxo>, all: Seq<Transaction>)
    requires
        extends_with(all, olds, fresh_utxos(olds, utxos)),
    ensures
        fresh_utxos(all, utxos).len() == 0,
    decreases utxos.len(),
{
    let fresh = fresh_utxos(olds, utxos);
    if utxos.len() > 0 {
        let init = utxos.drop_last();
        let u = utxos.last();
        lemma_fresh_prefix(olds, utxos, init.len() as int);
        assert(utxos.subrange(0, init.len() as int) =~= init);
        let prev = fresh_utxos(olds, init);
        // the records of the outputs fresh in `init` form a prefix of `all`
        let part = all.subrange(0, (olds.len() + prev.len()) as int);
        assert(extends_with(part, olds, prev)) by {
            assert(part.subrange(0, olds.len() as int) =~= all.subrange(0, olds.len() as int));
            assert forall|k: int| 0 <= k < prev.len() implies records(
                #[trigger] part[olds.len() + k],
                utxo_description(prev[k]),
                prev[k].value as int,
            ) by {
                assert(prev[k] == fresh.subrange(0, prev.len() as int)[k]);
                assert(part[olds.len() + k] == all[olds.len() + k]);
            }
        }
        lemma_sync_twice_adds_nothing(olds, init, part);
        lemma_fresh_none_grow(part, all, init);
        lemma_recorded_split(all, olds, fresh, u);
        if recordable(u) && !recorded(olds, u) {
            if exists|k: int| 0 <= k < prev.len() && same_record(#[trigger] prev[k], u) {
                let k = choose|k: int| 0 <= k < prev.len() && same_record(#[trigger] prev[k], u);
                assert(prev[k] == fresh.subrange(0, prev.len() as int)[k]);
                assert(same_record(fresh[k], u));
            } else {
                assert(fresh == prev.push(u));
                assert(same_record(fresh[prev.len() as int], u));
            }
        }
        assert(!(recordable(u) && !recorded(all, u)));
    }
}

proof fn lemma_recorded_grow(part: Seq<Transaction>, all: Seq<Transaction>, u: Utxo)
    requires
        part.len() <= all.len(),
        all.subrange(0, part.len() as int) == part,
        recorded(part, u),
    ensures
        recorded(all, u),
{
    let i = choose|i: int|
        0 <= i < part.len() && records(#[trigger] part[i], utxo_description(u), u.value as int);
    assert(all[i] == all.subrange(0, part.len() as int)[i]);
}

proof fn lemma_fresh_none_grow(part: Seq<Transaction>, all: Seq<Transaction>, utxos: Seq<Utxo>)
    requires
        part.len() <= all.len(),
        all.subrange(0, part.len() as int) == part,
        fresh_utxos(part, utxos).len() == 0,
    ensures
        fresh_utxos(all, utxos).len() == 0,
    decreases utxos.len(),
{
    if utxos.len() > 0 {
        let init = utxos.drop_last();
        let u = utxos.last();
        let p = fresh_utxos(part, init);
        if p.len() > 0 {
            assert(fresh_utxos(part, utxos).len() >= p.len());
        }
        lemma_fresh_none_grow(part, all, init);
        if recordable(u) && !recorded(part, u) {
            assert(fresh_utxos(part, utxos) == p.push(u));
        }
        if recorded(part, u) {
            lemma_recorded_grow(part, all, u);
        }
    }
}

/// Whether the UTF-8 bytes `a` of an address have the length (26 to 35) and
/// the prefix ("1", "3", "bc1" or "bcrt1") of a BTC address.
pub open spec fn btc_address_shape(a: Seq<u8>) -> bool {
    &&& 26 <= a.len() <= 35
    &&& (a[0] == 0x31 || a[0] == 0x33 || (a[0] == 0x62 && a[1] == 0x63 && a[2] == 0x31) || (a[0]
        == 0x62 && a[1] == 0x63 && a[2] == 0x72 && a[3] == 0x74 && a[4] == 0x31))
}

/// A basic shape check of a BTC address: its length in bytes and its prefix.
pub fn validate_btc_address(address: &str) -> (r: bool)
    ensures
        r == btc_address_shape(address.spec_bytes()),
{
    let b = address.as_bytes();
    let n = b.len();
    if n < 26 || n > 35 {
        return false;
    }
    b[0] == 0x31 || b[0] == 0x33 || (b[0] == 0x62 && b[1] == 0x63 && b[2] == 0x31) || (b[0] == 0x62
        && b[1] == 0x63 && b[2] == 0x72 && b[3] == 0x74 && b[4] == 0x31)
}

/// `amount` satoshis as "₿ " followed by the amount in BTC with eight decimals.
pub fn format_btc_amount(amount: i64) -> (r: String)
    ensures
        r@ == "\u{20bf} "@ + fixed_text(amount as int, 8),
{
    let mut s = String::from_str("\u{20bf} ");
    push_fixed(&mut s, amount as i128, 8);
    s
}

/// The USD value of `btc_amount` satoshis at `btc_to_usd_rate` (fixed-point).
pub fn calculate_btc_value_in_usd(btc_amount: i128, btc_to_usd_rate: u64) -> (r: i128)
    requires
        btc_amount > i128::MIN,
    ensures
        r == crate::arith::scaled(btc_amount as int, btc_to_usd_rate as int, crate::models::RATE_SCALE as int),
{
    crate::arith::scale(btc_amount, btc_to_usd_rate, crate::models::RATE_SCALE)
}

/// The IDR value of `btc_amount` satoshis at `btc_to_idr_rate` (fixed-point).
pub fn calculate_btc_value_in_idr(btc_amount: i128, btc_to_idr_rate: u64) -> (r: i128)
    requires
        btc_amount > i128::MIN,
    ensures
        r == crate::arith::scaled(btc_amount as int, btc_to_idr_rate as int, crate::models::RATE_SCALE as int),
{
    crate::arith::scale(btc_amount, btc_to_idr_rate, crate::models::RATE_SCALE)
}

} // verus!

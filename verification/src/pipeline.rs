use crate::model::{seq_model, zero_stats, StatsModel, Transfer, TransferModel, UserStats};
use crate::storage::{Storage, StoreError};
use vstd::arithmetic::div_mod::{lemma_div_is_ordered, lemma_div_multiples_vanish};
use vstd::arithmetic::mul::lemma_mul_inequality;
use vstd::prelude::*;

verus! {

/// The (price, amount) pairs, in input order, of the transfers in `ts`
/// that `a` sent.
pub open spec fn sell_pairs(ts: Seq<TransferModel>, a: Seq<char>) -> Seq<(u32, u32)>
    decreases ts.len(),
{
    if ts.len() == 0 {
        Seq::empty()
    } else if ts.last().from == a {
        sell_pairs(ts.drop_last(), a).push((ts.last().usd_price, ts.last().amount))
    } else {
        sell_pairs(ts.drop_last(), a)
    }
}

/// The (price, amount) pairs, in input order, of the transfers in `ts`
/// that `a` received.
pub open spec fn buy_pairs(ts: Seq<TransferModel>, a: Seq<char>) -> Seq<(u32, u32)>
    decreases ts.len(),
{
    if ts.len() == 0 {
        Seq::empty()
    } else if ts.last().to == a {
        buy_pairs(ts.drop_last(), a).push((ts.last().usd_price, ts.last().amount))
    } else {
        buy_pairs(ts.drop_last(), a)
    }
}

/// Sum of the amounts of a (price, amount) pair list.
pub open spec fn sum_amount(ps: Seq<(u32, u32)>) -> int
    decreases ps.len(),
{
    if ps.len() == 0 {
        0
    } else {
        sum_amount(ps.drop_last()) + ps.last().1
    }
}

/// Sum of price times amount over a (price, amount) pair list.
pub open spec fn sum_weighted(ps: Seq<(u32, u32)>) -> int
    decreases ps.len(),
{
    if ps.len() == 0 {
        0
    } else {
        sum_weighted(ps.drop_last()) + ps.last().0 * ps.last().1
    }
}

/// Volume-weighted average price of a pair list: the weighted sum divided
/// by the total amount, or zero when the total amount is zero.
pub open spec fn pairs_avg(ps: Seq<(u32, u32)>) -> int {
    if sum_amount(ps) == 0 {
        0
    } else {
        sum_weighted(ps) / sum_amount(ps)
    }
}

/// Whether `a` takes part in `t`, as sender or as receiver.
pub open spec fn participates(t: TransferModel, a: Seq<char>) -> bool {
    t.from == a || t.to == a
}

/// Whether `a` takes part in any transfer of `ts`.
pub open spec fn appears(ts: Seq<TransferModel>, a: Seq<char>) -> bool {
    exists|i: int| 0 <= i < ts.len() && participates(ts[i], a)
}

/// Total volume of `a` over `ts`: every sent amount plus every received
/// amount. A transfer from `a` to itself counts its amount on both sides.
pub open spec fn batch_total_volume(ts: Seq<TransferModel>, a: Seq<char>) -> int {
    sum_amount(sell_pairs(ts, a)) + sum_amount(buy_pairs(ts, a))
}

/// Volume-weighted average sell price of `a` over `ts`.
pub open spec fn batch_avg_sell(ts: Seq<TransferModel>, a: Seq<char>) -> int {
    pairs_avg(sell_pairs(ts, a))
}

/// Volume-weighted average buy price of `a` over `ts`.
pub open spec fn batch_avg_buy(ts: Seq<TransferModel>, a: Seq<char>) -> int {
    pairs_avg(buy_pairs(ts, a))
}

/// Largest single transfer amount among the transfers of `ts` in which `a`
/// takes part; zero when there is none.
pub open spec fn batch_max_amount(ts: Seq<TransferModel>, a: Seq<char>) -> int
    decreases ts.len(),
{
    if ts.len() == 0 {
        0
    } else if participates(ts.last(), a) && ts.last().amount > batch_max_amount(ts.drop_last(), a) {
        ts.last().amount as int
    } else {
        batch_max_amount(ts.drop_last(), a)
    }
}

/// The running pairwise average rule of the incremental updater: the first
/// recorded price replaces the zero default; each later price is averaged,
/// unweighted, with the previous average. The result is order-dependent.
pub open spec fn avg_step(current_avg: int, new_price: int) -> int {
    if current_avg == 0 {
        new_price
    } else {
        (current_avg + new_price) / 2
    }
}

/// One pairwise-average step, exact over the fixed-point scale
/// (the integer mean rounds toward zero).
fn calculate_avg_price(current_avg: u64, new_price: u64) -> (r: u64)
    ensures
        r as int == avg_step(current_avg as int, new_price as int),
{
    if current_avg == 0 {
        new_price
    } else {
        ((current_avg as u128 + new_price as u128) / 2) as u64
    }
}

/// Working accumulator for one address during a batch scan.
pub struct UserState {
    /// Largest single transfer amount seen for the address so far.
    pub max_balance: u32,
    /// (price, amount) of every transfer received so far, in input order.
    pub buy_prices: Vec<(u32, u32)>,
    /// (price, amount) of every transfer sent so far, in input order.
    pub sell_prices: Vec<(u32, u32)>,
}

impl Default for UserState {
    fn default() -> (r: Self)
        ensures
            r.max_balance == 0,
            r.buy_prices@ == Seq::<(u32, u32)>::empty(),
            r.sell_prices@ == Seq::<(u32, u32)>::empty(),
    {
        UserState { max_balance: 0, buy_prices: Vec::new(), sell_prices: Vec::new() }
    }
}

/// Sums the amounts of a pair list without overflow: each amount is below
/// `u32::MAX` and a slice holds fewer than `u64::MAX` of them.
fn sum_amounts(data: &[(u32, u32)]) -> (r: u128)
    ensures
        r as int == sum_amount(data@),
        r as int <= data@.len() * 0xffff_ffff,
{
    let n = data.len();
    let mut total: u128 = 0;
    for i in 0..n
        invariant
            n == data@.len(),
            total as int == sum_amount(data@.subrange(0, i as int)),
            total as int <= i * 0xffff_ffff,
    {
        proof {
            assert(data@.subrange(0, i + 1).drop_last() =~= data@.subrange(0, i as int));
            assert(data@.subrange(0, i + 1).last() == data@[i as int]);
        }
        total = total + (data[i].1 as u128);
    }
    proof {
        assert(data@.subrange(0, n as int) =~= data@);
    }
    total
}

impl UserState {
    /// Everything the address moved: sent amounts plus received amounts.
    fn total_volume(&self) -> (r: u128)
        ensures
            r as int == sum_amount(self.sell_prices@) + sum_amount(self.buy_prices@),
    {
        let nb = self.buy_prices.len();
        let ns = self.sell_prices.len();
        proof {
            assert(self.buy_prices@.len() == nb && self.sell_prices@.len() == ns);
        }
        let b = sum_amounts(self.buy_prices.as_slice());
        let s = sum_amounts(self.sell_prices.as_slice());
        s + b
    }

    /// Volume-weighted average over the buys recorded so far.
    fn avg_buy_price(&self) -> (r: u64)
        ensures
            r as int == pairs_avg(self.buy_prices@),
    {
        self.avg_price(self.buy_prices.as_slice())
    }

    /// Volume-weighted average over the sells recorded so far.
    fn avg_sell_price(&self) -> (r: u64)
        ensures
            r as int == pairs_avg(self.sell_prices@),
    {
        self.avg_price(self.sell_prices.as_slice())
    }

    /// Volume-weighted average price of a pair list; zero when the total
    /// amount is zero, so a degenerate list never divides by zero.
    fn avg_price(&self, data: &[(u32, u32)]) -> (r: u64)
        ensures
            r as int == pairs_avg(data@),
    {
        let n = data.len();
        let mut sum_px: u128 = 0;
        let mut sum_amt: u128 = 0;
        for i in 0..n
            invariant
                n == data@.len(),
                sum_amt as int == sum_amount(data@.subrange(0, i as int)),
                sum_px as int == sum_weighted(data@.subrange(0, i as int)),
                sum_amt as int <= i * 0xffff_ffff,
                sum_px as int <= sum_amt * 0xffff_ffff,
        {
            let (p, a) = data[i];
            proof {
                assert(data@.subrange(0, i + 1).drop_last() =~= data@.subrange(0, i as int));
                assert(data@.subrange(0, i + 1).last() == data@[i as int]);
                lemma_mul_inequality(p as int, 0xffff_ffff, a as int);
                lemma_mul_inequality(sum_amt as int, i * 0xffff_ffff, 0xffff_ffff);
            }
            sum_px = sum_px + (p as u128) * (a as u128);
            sum_amt = sum_amt + (a as u128);
        }
        proof {
            assert(data@.subrange(0, n as int) =~= data@);
        }
        if sum_amt == 0 {
            0
        } else {
            proof {
                lemma_div_is_ordered(sum_px as int, sum_amt * 0xffff_ffff, sum_amt as int);
                lemma_div_multiples_vanish(0xffff_ffff, sum_amt as int);
            }
            (sum_px / sum_amt) as u64
        }
    }
}

/// Extending a transfer sequence by one transfer extends the pair lists and
/// the participation facts of every address in the evident way.
proof fn lemma_batch_push(ts: Seq<TransferModel>, t: TransferModel, a: Seq<char>)
    ensures
        sell_pairs(ts.push(t), a) == (if t.from == a {
            sell_pairs(ts, a).push((t.usd_price, t.amount))
        } else {
            sell_pairs(ts, a)
        }),
        buy_pairs(ts.push(t), a) == (if t.to == a {
            buy_pairs(ts, a).push((t.usd_price, t.amount))
        } else {
            buy_pairs(ts, a)
        }),
        batch_max_amount(ts.push(t), a) == (if participates(t, a) && t.amount
            > batch_max_amount(ts, a) {
            t.amount as int
        } else {
            batch_max_amount(ts, a)
        }),
        appears(ts.push(t), a) <==> (appears(ts, a) || participates(t, a)),
{
    assert(ts.push(t).drop_last() =~= ts);
    assert(ts.push(t).last() == t);
    if appears(ts, a) {
        let i = choose|i: int| 0 <= i < ts.len() && participates(ts[i], a);
        assert(participates(ts.push(t)[i], a));
    }
    if participates(t, a) {
        assert(participates(ts.push(t)[ts.len() as int], a));
    }
    if appears(ts.push(t), a) && !participates(t, a) {
        let i = choose|i: int| 0 <= i < ts.push(t).len() && participates(ts.push(t)[i], a);
        if i < ts.len() {
            assert(participates(ts[i], a));
        }
    }
}

/// An address that takes part in no transfer of `ts` has empty pair lists
/// and a zero maximum.
proof fn lemma_absent(ts: Seq<TransferModel>, a: Seq<char>)
    requires
        !appears(ts, a),
    ensures
        sell_pairs(ts, a) == Seq::<(u32, u32)>::empty(),
        buy_pairs(ts, a) == Seq::<(u32, u32)>::empty(),
        batch_max_amount(ts, a) == 0,
    decreases ts.len(),
{
    if ts.len() > 0 {
        assert(!participates(ts[ts.len() - 1], a));
        assert(!appears(ts.drop_last(), a)) by {
            if appears(ts.drop_last(), a) {
                let i = choose|i: int|
                    0 <= i < ts.drop_last().len() && participates(ts.drop_last()[i], a);
                assert(participates(ts[i], a));
            }
        }
        lemma_absent(ts.drop_last(), a);
    }
}

/// Whether some accumulator entry carries the address `a`.
spec fn acc_has(accs: Seq<(String, UserState)>, a: Seq<char>) -> bool {
    exists|k: int| 0 <= k < accs.len() && accs[k].0@ == a
}

/// Whether every address that takes part in `ts` has an accumulator entry.
spec fn covered(ts: Seq<TransferModel>, accs: Seq<(String, UserState)>) -> bool {
    forall|a: Seq<char>| #[trigger] appears(ts, a) ==> acc_has(accs, a)
}

/// Whether the accumulator `st` holds exactly the pair lists and the peak
/// amount of address `a` over the transfers `ts`.
spec fn entry_matches(st: UserState, ts: Seq<TransferModel>, a: Seq<char>) -> bool {
    &&& st.sell_prices@ == sell_pairs(ts, a)
    &&& st.buy_prices@ == buy_pairs(ts, a)
    &&& st.max_balance as int == batch_max_amount(ts, a)
}

/// Index of the entry that carries `key`, if there is one.
fn find_index(accs: &Vec<(String, UserState)>, key: &String) -> (r: Option<usize>)
    ensures
        r matches Some(k) ==> k < accs@.len() && accs@[k as int].0@ == key@,
        r is None ==> forall|k: int| 0 <= k < accs@.len() ==> accs@[k].0@ != key@,
{
    let n = accs.len();
    for k in 0..n
        invariant
            n == accs@.len(),
            forall|j: int| 0 <= j < k ==> accs@[j].0@ != key@,
    {
        if accs[k].0 == *key {
            return Some(k);
        }
    }
    None
}

/// Records one side of a transfer against the accumulator of `addr`,
/// creating the accumulator when the address is new. Returns the index of
/// the touched entry.
fn upsert_state(
    accs: &mut Vec<(String, UserState)>,
    addr: &String,
    price: u32,
    amount: u32,
    is_sell: bool,
) -> (si: usize)
    requires
        forall|p: int, q: int|
            0 <= p < q < old(accs)@.len() ==> old(accs)@[p].0@ != old(accs)@[q].0@,
    ensures
        forall|p: int, q: int|
            0 <= p < q < final(accs)@.len() ==> final(accs)@[p].0@ != final(accs)@[q].0@,
        si < final(accs)@.len(),
        final(accs)@[si as int].0@ == addr@,
        forall|k: int|
            0 <= k < old(accs)@.len() && k != si ==> final(accs)@[k] == old(accs)@[k],
        (si as int) < old(accs)@.len() ==> {
            &&& final(accs)@.len() == old(accs)@.len()
            &&& old(accs)@[si as int].0@ == addr@
            &&& final(accs)@[si as int].1.sell_prices@ == (if is_sell {
                old(accs)@[si as int].1.sell_prices@.push((price, amount))
            } else {
                old(accs)@[si as int].1.sell_prices@
            })
            &&& final(accs)@[si as int].1.buy_prices@ == (if is_sell {
                old(accs)@[si as int].1.buy_prices@
            } else {
                old(accs)@[si as int].1.buy_prices@.push((price, amount))
            })
            &&& final(accs)@[si as int].1.max_balance == (if amount > old(
                accs)@[si as int].1.max_balance {
                amount
            } else {
                old(accs)@[si as int].1.max_balance
            })
        },
        (si as int) >= old(accs)@.len() ==> {
            &&& si as int == old(accs)@.len()
            &&& final(accs)@.len() == old(accs)@.len() + 1
            &&& (forall|k: int| 0 <= k < old(accs)@.len() ==> old(accs)@[k].0@ != addr@)
            &&& final(accs)@[si as int].1.sell_prices@ == (if is_sell {
                Seq::<(u32, u32)>::empty().push((price, amount))
            } else {
                Seq::<(u32, u32)>::empty()
            })
            &&& final(accs)@[si as int].1.buy_prices@ == (if is_sell {
                Seq::<(u32, u32)>::empty()
            } else {
                Seq::<(u32, u32)>::empty().push((price, amount))
            })
            &&& final(accs)@[si as int].1.max_balance == amount
        },
{
    match find_index(accs, addr) {
        Some(k) => {
            if is_sell {
                accs[k].1.sell_prices.push((price, amount));
            } else {
                accs[k].1.buy_prices.push((price, amount));
            }
            if amount > accs[k].1.max_balance {
                accs[k].1.max_balance = amount;
            }
            k
        },
        None => {
            let mut st = UserState::default();
            if is_sell {
                st.sell_prices.push((price, amount));
            } else {
                st.buy_prices.push((price, amount));
            }
            if amount > st.max_balance {
                st.max_balance = amount;
            }
            accs.push((addr.clone(), st));
            accs.len() - 1
        },
    }
}

/// Whether the record `s` carries exactly the batch statistics of its own
/// address over the transfers `ts`.
pub open spec fn stats_match_batch(s: StatsModel, ts: Seq<TransferModel>) -> bool {
    &&& s.total_volume == batch_total_volume(ts, s.address)
    &&& s.avg_buy_price == batch_avg_buy(ts, s.address)
    &&& s.avg_sell_price == batch_avg_sell(ts, s.address)
    &&& s.max_balance == batch_max_amount(ts, s.address)
}

/// Whether the snapshot `rs` holds a record for address `a`.
pub open spec fn has_stats_for(rs: Seq<UserStats>, a: Seq<char>) -> bool {
    exists|k: int| 0 <= k < rs.len() && rs[k]@.address == a
}

/// Batch aggregator: one pass over a transfer set, from empty state, giving
/// one statistics record per participating address.
///
/// The averages are volume-weighted; `max_balance` is the largest single
/// transfer amount the address took part in. The pass accepts any input —
/// empty sequences, repeated addresses, zero amounts and zero prices — and
/// the result holds exactly the participating addresses, each once.
pub fn compute(transfers: &Vec<Transfer>) -> (r: Vec<UserStats>)
    ensures
        forall|p: int, q: int| 0 <= p < q < r@.len() ==> r@[p]@.address != r@[q]@.address,
        forall|k: int|
            0 <= k < r@.len() ==> stats_match_batch(#[trigger] r@[k]@, seq_model(transfers@)),
        forall|k: int|
            0 <= k < r@.len() ==> appears(seq_model(transfers@), (#[trigger] r@[k]@).address),
        forall|a: Seq<char>| #[trigger] appears(seq_model(transfers@), a) ==> has_stats_for(r@, a),
        transfers@.len() == 0 ==> r@.len() == 0,
{
    let ghost tm = seq_model(transfers@);
    let n = transfers.len();
    let mut accs: Vec<(String, UserState)> = Vec::new();
    for i in 0..n
        invariant
            n == transfers@.len(),
            tm == seq_model(transfers@),
            forall|p: int, q: int| 0 <= p < q < accs@.len() ==> accs@[p].0@ != accs@[q].0@,
            forall|k: int|
                0 <= k < accs@.len() ==> entry_matches(
                    (#[trigger] accs@[k]).1,
                    tm.subrange(0, i as int),
                    accs@[k].0@,
                ),
            forall|k: int|
                0 <= k < accs@.len() ==> appears(tm.subrange(0, i as int), (#[trigger] accs@[k]).0@),
            covered(tm.subrange(0, i as int), accs@),
    {
        let ghost prefix = tm.subrange(0, i as int);
        let ghost prefix1 = tm.subrange(0, i + 1);
        let ghost tmi = tm[i as int];
        proof {
            assert(prefix1 =~= prefix.push(tmi));
            assert(transfers@[i as int]@ == tmi);
        }
        let t = &transfers[i];
        let ghost accs0 = accs@;
        let si = upsert_state(&mut accs, &t.from, t.usd_price, t.amount, true);
        let ghost accs1 = accs@;
        let ri = upsert_state(&mut accs, &t.to, t.usd_price, t.amount, false);
        let ghost accs2 = accs@;
        proof {
            // addresses of the entries that were already there are kept
            assert forall|j: int| 0 <= j < accs0.len() implies accs2[j].0@ == accs0[j].0@ by {
                if j != si {
                    assert(accs1[j] == accs0[j]);
                } else {
                    assert((si as int) < accs0.len());
                    assert(accs1[j].0@ == tmi.from && accs0[j].0@ == tmi.from);
                }
                if j != ri {
                    assert(accs2[j] == accs1[j]);
                } else {
                    assert((ri as int) < accs1.len());
                    assert(accs2[j].0@ == tmi.to && accs1[j].0@ == tmi.to);
                }
            }
            // the two touched indices agree exactly when sender and receiver do
            if tmi.from == tmi.to {
                assert(accs1[si as int].0@ == tmi.to);
                assert((ri as int) < accs1.len());
                assert(si == ri);
            } else {
                assert(si != ri);
            }
            // every entry matches the extended prefix
            assert forall|k: int| 0 <= k < accs2.len() implies entry_matches(
                accs2[k].1,
                prefix1,
                accs2[k].0@,
            ) by {
                let a = accs2[k].0@;
                lemma_batch_push(prefix, tmi, a);
                if k == si || k == ri {
                    if si == ri {
                        // one entry took both sides of a self-transfer
                        assert(a == tmi.to);
                        if (si as int) < accs0.len() {
                            assert(accs0[si as int].0@ == a);
                            assert(entry_matches(accs0[si as int].1, prefix, a));
                        } else {
                            assert(!acc_has(accs0, a));
                            assert(!appears(prefix, a)) by {
                                assert(covered(tm.subrange(0, i as int), accs0));
                                if appears(tm.subrange(0, i as int), a) {
                                    assert(acc_has(accs0, a));
                                }
                            }
                            lemma_absent(prefix, a);
                        }
                    } else if k == si {
                        assert(accs2[k] == accs1[k]);
                        assert(a == tmi.from && a != tmi.to);
                        if (si as int) < accs0.len() {
                            assert(accs0[si as int].0@ == a);
                            assert(entry_matches(accs0[si as int].1, prefix, a));
                        } else {
                            assert(!acc_has(accs0, a));
                            assert(!appears(prefix, a)) by {
                                assert(covered(tm.subrange(0, i as int), accs0));
                                if appears(tm.subrange(0, i as int), a) {
                                    assert(acc_has(accs0, a));
                                }
                            }
                            lemma_absent(prefix, a);
                        }
                    } else {
                        // k == ri, the receiver side
                        assert(a == tmi.to && a != tmi.from);
                        if (ri as int) < accs1.len() {
                            assert((ri as int) < accs0.len());
                            assert(accs1[ri as int] == accs0[ri as int]);
                            assert(entry_matches(accs0[ri as int].1, prefix, a));
                        } else {
                            assert(!acc_has(accs0, a)) by {
                                if acc_has(accs0, a) {
                                    let j = choose|j: int|
                                        0 <= j < accs0.len() && accs0[j].0@ == a;
                                    assert(accs1[j].0@ == a);
                                }
                            }
                            assert(!appears(prefix, a)) by {
                                assert(covered(tm.subrange(0, i as int), accs0));
                                if appears(tm.subrange(0, i as int), a) {
                                    assert(acc_has(accs0, a));
                                }
                            }
                            lemma_absent(prefix, a);
                        }
                    }
                } else {
                    // untouched entry: its address is neither side
                    assert(k < accs0.len());
                    assert(accs1[k] == accs0[k] && accs2[k] == accs1[k]);
                    assert(a != tmi.from) by {
                        if si == ri {
                            assert(accs2[si as int].0@ == tmi.to);
                        } else {
                            assert(accs2[si as int].0@ == tmi.from);
                        }
                    }
                    assert(a != tmi.to) by {
                        assert(accs2[ri as int].0@ == tmi.to);
                    }
                    assert(entry_matches(accs0[k].1, prefix, a));
                }
            }
            // every entry's address takes part in the extended prefix
            assert forall|k: int| 0 <= k < accs2.len() implies appears(
                prefix1,
                accs2[k].0@,
            ) by {
                let a = accs2[k].0@;
                lemma_batch_push(prefix, tmi, a);
                if k == si || k == ri {
                    assert(participates(tmi, a));
                } else {
                    assert(k < accs0.len());
                    assert(accs2[k] == accs0[k]);
                    assert(appears(prefix, a));
                }
            }
            // every participating address has an entry
            assert forall|a: Seq<char>| #[trigger] appears(prefix1, a) implies acc_has(
                accs2,
            a) by {
                lemma_batch_push(prefix, tmi, a);
                if appears(prefix, a) {
                    assert(covered(tm.subrange(0, i as int), accs0));
                    assert(appears(tm.subrange(0, i as int), a));
                    assert(acc_has(accs0, a));
                    let j = choose|j: int| 0 <= j < accs0.len() && accs0[j].0@ == a;
                    assert(accs2[j].0@ == a);
                    assert(acc_has(accs2, a));
                } else {
                    assert(participates(tmi, a));
                    if tmi.from == a && si != ri {
                        assert(accs2[si as int].0@ == a);
                    } else {
                        assert(accs2[ri as int].0@ == a);
                    }
                }
            }
            assert(covered(prefix1, accs2));
        }
    }
    proof {
        assert(tm.subrange(0, n as int) =~= tm);
        assert(covered(tm.subrange(0, n as int), accs@));
        assert forall|a: Seq<char>| #[trigger] appears(tm, a) implies acc_has(accs@, a) by {
            assert(appears(tm.subrange(0, n as int), a));
        }
        assert(covered(tm, accs@));
        assert forall|j: int| 0 <= j < accs@.len() implies entry_matches(
            accs@[j].1,
            tm,
            accs@[j].0@,
        ) && appears(tm, accs@[j].0@) by {
            assert(entry_matches(accs@[j].1, tm.subrange(0, n as int), accs@[j].0@));
            assert(appears(tm.subrange(0, n as int), accs@[j].0@));
        }
    }
    // finalize: one statistics record per accumulator entry
    let m = accs.len();
    let mut result: Vec<UserStats> = Vec::new();
    for k in 0..m
        invariant
            m == accs@.len(),
            tm == seq_model(transfers@),
            forall|p: int, q: int| 0 <= p < q < accs@.len() ==> accs@[p].0@ != accs@[q].0@,
            forall|j: int|
                0 <= j < accs@.len() ==> entry_matches((#[trigger] accs@[j]).1, tm, accs@[j].0@),
            forall|j: int| 0 <= j < accs@.len() ==> appears(tm, (#[trigger] accs@[j]).0@),
            covered(tm, accs@),
            result@.len() == k,
            forall|j: int| 0 <= j < k ==> (#[trigger] result@[j])@.address == accs@[j].0@,
            forall|j: int| 0 <= j < k ==> stats_match_batch((#[trigger] result@[j])@, tm),
    {
        let entry = &accs[k];
        let volume = entry.1.total_volume();
        let buy_avg = entry.1.avg_buy_price();
        let sell_avg = entry.1.avg_sell_price();
        let stats = UserStats {
            address: entry.0.clone(),
            total_volume: volume,
            avg_buy_price: buy_avg,
            avg_sell_price: sell_avg,
            max_balance: entry.1.max_balance,
        };
        result.push(stats);
    }
    proof {
        assert forall|a: Seq<char>| #[trigger] appears(tm, a) implies has_stats_for(
            result@,
        a) by {
            assert(covered(tm, accs@));
            assert(acc_has(accs@, a));
            let j = choose|j: int| 0 <= j < accs@.len() && accs@[j].0@ == a;
            assert(result@[j]@.address == a);
        }
        if transfers@.len() == 0 && result@.len() > 0 {
            assert(appears(tm, accs@[0].0@));
        }
    }
    result
}

/// The stored record of `a`, or the all-zero record when the store holds
/// none: records come to be lazily, on first reference.
pub open spec fn stats_or_zero(m: Map<Seq<char>, StatsModel>, a: Seq<char>) -> StatsModel {
    if m.contains_key(a) {
        m[a]
    } else {
        zero_stats(a)
    }
}

/// One transfer's effect on the sender's record: the volume grows by the
/// amount, the sell average takes one pairwise step with the price, the
/// peak single-transfer amount is kept, and the buy average is untouched.
pub open spec fn sender_updated(s: StatsModel, t: TransferModel) -> StatsModel {
    StatsModel {
        address: s.address,
        total_volume: s.total_volume + t.amount,
        avg_buy_price: s.avg_buy_price,
        avg_sell_price: avg_step(s.avg_sell_price, t.usd_price as int),
        max_balance: if t.amount > s.max_balance {
            t.amount as int
        } else {
            s.max_balance
        },
    }
}

/// One transfer's effect on the receiver's record: as for the sender, with
/// the buy average stepped and the sell average untouched.
pub open spec fn receiver_updated(s: StatsModel, t: TransferModel) -> StatsModel {
    StatsModel {
        address: s.address,
        total_volume: s.total_volume + t.amount,
        avg_buy_price: avg_step(s.avg_buy_price, t.usd_price as int),
        avg_sell_price: s.avg_sell_price,
        max_balance: if t.amount > s.max_balance {
            t.amount as int
        } else {
            s.max_balance
        },
    }
}

/// What the receiver-side update starts from: the sender's freshly updated
/// record when a transfer goes from an address to itself — the two sides
/// apply sequentially to the one record — else the receiver's stored record.
pub open spec fn receiver_base(m: Map<Seq<char>, StatsModel>, t: TransferModel) -> StatsModel {
    if t.to == t.from {
        sender_updated(stats_or_zero(m, t.from), t)
    } else {
        stats_or_zero(m, t.to)
    }
}

/// The statistics map after one transfer is applied: the sender's record
/// is replaced by its update, then the receiver's by its own.
pub open spec fn applied_stats(
    m: Map<Seq<char>, StatsModel>,
    t: TransferModel,
) -> Map<Seq<char>, StatsModel> {
    m.insert(t.from, sender_updated(stats_or_zero(m, t.from), t)).insert(
        t.to,
        receiver_updated(receiver_base(m, t), t),
    )
}

/// Incremental updater: applies one transfer against the store.
///
/// The sender's and the receiver's records are read (zero records when
/// absent), each takes the update rule — `total_volume` grows by the
/// amount, the matching average follows the pairwise rule of `avg_step`,
/// `max_balance` keeps the peak single-transfer amount — and the transfer
/// plus both records are written back, in that order. A transfer from an
/// address to itself applies the sender side first and the receiver side
/// to its result.
///
/// A store failure is handed back unchanged, and the update is one logical
/// transaction: reads do not change the store, and the writes go through
/// the store's own `commit_transaction`, so on failure the log and every
/// record stand exactly as before.
pub fn make_transaction<S: Storage>(storage: &mut S, transfer: &Transfer) -> (r: Result<
    (),
    StoreError,
>)
    requires
        stats_or_zero(old(storage).stats_view(), transfer@.from).total_volume + transfer@.amount
            <= u128::MAX,
        receiver_base(old(storage).stats_view(), transfer@).total_volume + transfer@.amount
            <= u128::MAX,
    ensures
        r is Ok ==> final(storage).log_view() == old(storage).log_view().push(transfer@)
            && final(storage).stats_view() == applied_stats(old(storage).stats_view(), transfer@),
        r is Err ==> final(storage).log_view() == old(storage).log_view()
            && final(storage).stats_view() == old(storage).stats_view(),
        old(storage).infallible() ==> r is Ok,
        final(storage).infallible() == old(storage).infallible(),
{
    // the seller's side
    let mut sender_stats = match storage.get_user_stats(transfer.from.as_str()) {
        Ok(Some(s)) => s,
        Ok(None) => UserStats::new(transfer.from.as_str()),
        Err(e) => {
            return Err(e);
        },
    };
    sender_stats.total_volume = sender_stats.total_volume + (transfer.amount as u128);
    sender_stats.avg_sell_price = calculate_avg_price(
        sender_stats.avg_sell_price,
        transfer.usd_price as u64,
    );
    if transfer.amount > sender_stats.max_balance {
        sender_stats.max_balance = transfer.amount;
    }
    proof {
        assert(sender_stats@ =~= sender_updated(
            stats_or_zero(old(storage).stats_view(), transfer@.from),
            transfer@,
        ));
    }
    // the buyer's side; a self-transfer reads the sender's updated record
    let mut receiver_stats = if transfer.to == transfer.from {
        sender_stats.clone()
    } else {
        match storage.get_user_stats(transfer.to.as_str()) {
            Ok(Some(s)) => s,
            Ok(None) => UserStats::new(transfer.to.as_str()),
            Err(e) => {
                return Err(e);
            },
        }
    };
    receiver_stats.total_volume = receiver_stats.total_volume + (transfer.amount as u128);
    receiver_stats.avg_buy_price = calculate_avg_price(
        receiver_stats.avg_buy_price,
        transfer.usd_price as u64,
    );
    if transfer.amount > receiver_stats.max_balance {
        receiver_stats.max_balance = transfer.amount;
    }
    proof {
        assert(receiver_stats@ =~= receiver_updated(
            receiver_base(old(storage).stats_view(), transfer@),
            transfer@,
        ));
    }
    // one transactional write: log entry, sender record, receiver record
    match storage.commit_transaction(transfer, &sender_stats, &receiver_stats) {
        Ok(u) => u,
        Err(e) => {
            return Err(e);
        },
    };
    Ok(())
}

/// The update rule touches one average only: a transfer leaves its
/// sender's buy average and its receiver's sell average exactly as they
/// were, so an address that never sells keeps a zero sell average under
/// incremental updates, and one that never buys a zero buy average.
pub proof fn lemma_update_touches_one_average(s: StatsModel, t: TransferModel)
    ensures
        sender_updated(s, t).avg_buy_price == s.avg_buy_price,
        receiver_updated(s, t).avg_sell_price == s.avg_sell_price,
{
}

/// The empty pair list sums and averages to zero: an accumulator with no
/// recorded sells has a zero sell average, and one with no recorded buys a
/// zero buy average.
pub proof fn lemma_empty_pairs_average_zero()
    ensures
        sum_amount(Seq::<(u32, u32)>::empty()) == 0,
        sum_weighted(Seq::<(u32, u32)>::empty()) == 0,
        pairs_avg(Seq::<(u32, u32)>::empty()) == 0,
{
}

/// Sum of a per-transfer weight over a transfer sequence.
pub open spec fn tsum(ts: Seq<TransferModel>, f: spec_fn(TransferModel) -> int) -> int
    decreases ts.len(),
{
    if ts.len() == 0 {
        0
    } else {
        tsum(ts.drop_last(), f) + f(ts.last())
    }
}

/// The amount a transfer moves to or from `a`; a self-transfer counts its
/// amount on both sides.
pub open spec fn volume_weight(a: Seq<char>) -> spec_fn(TransferModel) -> int {
    |t: TransferModel|
        (if t.from == a {
            t.amount as int
        } else {
            0
        }) + (if t.to == a {
            t.amount as int
        } else {
            0
        })
}

/// The amount a transfer sells for `a`: its amount when `a` sends, else
/// zero.
pub open spec fn sell_amount_weight(a: Seq<char>) -> spec_fn(TransferModel) -> int {
    |t: TransferModel|
        if t.from == a {
            t.amount as int
        } else {
            0
        }
}

/// Price times amount of a transfer `a` sends, else zero.
pub open spec fn sell_weighted_weight(a: Seq<char>) -> spec_fn(TransferModel) -> int {
    |t: TransferModel|
        if t.from == a {
            t.usd_price * t.amount
        } else {
            0
        }
}

/// The amount a transfer buys for `a`: its amount when `a` receives, else
/// zero.
pub open spec fn buy_amount_weight(a: Seq<char>) -> spec_fn(TransferModel) -> int {
    |t: TransferModel|
        if t.to == a {
            t.amount as int
        } else {
            0
        }
}

/// Price times amount of a transfer `a` receives, else zero.
pub open spec fn buy_weighted_weight(a: Seq<char>) -> spec_fn(TransferModel) -> int {
    |t: TransferModel|
        if t.to == a {
            t.usd_price * t.amount
        } else {
            0
        }
}

/// The filtered pair-list sums equal the direct weighted sums over the
/// transfers themselves.
proof fn lemma_sums_as_tsum(ts: Seq<TransferModel>, a: Seq<char>)
    ensures
        sum_amount(sell_pairs(ts, a)) == tsum(ts, sell_amount_weight(a)),
        sum_weighted(sell_pairs(ts, a)) == tsum(ts, sell_weighted_weight(a)),
        sum_amount(buy_pairs(ts, a)) == tsum(ts, buy_amount_weight(a)),
        sum_weighted(buy_pairs(ts, a)) == tsum(ts, buy_weighted_weight(a)),
    decreases ts.len(),
{
    if ts.len() > 0 {
        lemma_sums_as_tsum(ts.drop_last(), a);
        let t = ts.last();
        if t.from == a {
            let ps = sell_pairs(ts.drop_last(), a);
            assert(ps.push((t.usd_price, t.amount)).drop_last() =~= ps);
        }
        if t.to == a {
            let ps = buy_pairs(ts.drop_last(), a);
            assert(ps.push((t.usd_price, t.amount)).drop_last() =~= ps);
        }
    }
}

/// The total volume of an address over a batch is the plain sum, over every
/// transfer, of the amount it moves to or from that address.
pub proof fn lemma_total_volume_is_sum(ts: Seq<TransferModel>, a: Seq<char>)
    ensures
        batch_total_volume(ts, a) == tsum(ts, volume_weight(a)),
    decreases ts.len(),
{
    lemma_sums_as_tsum(ts, a);
    if ts.len() > 0 {
        lemma_total_volume_is_sum(ts.drop_last(), a);
        lemma_sums_as_tsum(ts.drop_last(), a);
    }
}

/// An address never named as sender sold nothing.
proof fn lemma_no_sells(ts: Seq<TransferModel>, a: Seq<char>)
    requires
        forall|i: int| 0 <= i < ts.len() ==> (#[trigger] ts[i]).from != a,
    ensures
        sell_pairs(ts, a) == Seq::<(u32, u32)>::empty(),
    decreases ts.len(),
{
    if ts.len() > 0 {
        assert(ts[ts.len() - 1].from != a);
        assert(forall|i: int| 0 <= i < ts.drop_last().len() ==> (#[trigger] ts.drop_last()[i]).from
            != a) by {
            assert(forall|i: int|
                0 <= i < ts.drop_last().len() ==> ts.drop_last()[i] == ts[i]);
        }
        lemma_no_sells(ts.drop_last(), a);
    }
}

/// An address never named as receiver bought nothing.
proof fn lemma_no_buys(ts: Seq<TransferModel>, a: Seq<char>)
    requires
        forall|i: int| 0 <= i < ts.len() ==> (#[trigger] ts[i]).to != a,
    ensures
        buy_pairs(ts, a) == Seq::<(u32, u32)>::empty(),
    decreases ts.len(),
{
    if ts.len() > 0 {
        assert(ts[ts.len() - 1].to != a);
        assert(forall|i: int| 0 <= i < ts.drop_last().len() ==> (#[trigger] ts.drop_last()[i]).to
            != a) by {
            assert(forall|i: int|
                0 <= i < ts.drop_last().len() ==> ts.drop_last()[i] == ts[i]);
        }
        lemma_no_buys(ts.drop_last(), a);
    }
}

/// An address that never appears as a sender has a zero batch average sell
/// price; one that never appears as a receiver, a zero batch average buy
/// price.
pub proof fn lemma_unused_role_has_zero_average(ts: Seq<TransferModel>, a: Seq<char>)
    ensures
        (forall|i: int| 0 <= i < ts.len() ==> (#[trigger] ts[i]).from != a) ==> batch_avg_sell(
            ts,
            a,
        ) == 0,
        (forall|i: int| 0 <= i < ts.len() ==> (#[trigger] ts[i]).to != a) ==> batch_avg_buy(ts, a)
            == 0,
{
    if forall|i: int| 0 <= i < ts.len() ==> (#[trigger] ts[i]).from != a {
        lemma_no_sells(ts, a);
    }
    if forall|i: int| 0 <= i < ts.len() ==> (#[trigger] ts[i]).to != a {
        lemma_no_buys(ts, a);
    }
}

/// Taking one transfer out takes its weight out of the sum.
proof fn lemma_tsum_remove(ts: Seq<TransferModel>, i: int, f: spec_fn(TransferModel) -> int)
    requires
        0 <= i < ts.len(),
    ensures
        tsum(ts.remove(i), f) == tsum(ts, f) - f(ts[i]),
    decreases ts.len(),
{
    if i == ts.len() - 1 {
        assert(ts.remove(i) =~= ts.drop_last());
    } else {
        assert(ts.remove(i).drop_last() =~= ts.drop_last().remove(i));
        assert(ts.remove(i).last() == ts.last());
        lemma_tsum_remove(ts.drop_last(), i, f);
        assert(ts.drop_last()[i] == ts[i]);
    }
}

/// A weighted sum over transfers does not depend on their order.
proof fn lemma_tsum_permutation(
    t1: Seq<TransferModel>,
    t2: Seq<TransferModel>,
    f: spec_fn(TransferModel) -> int,
)
    requires
        t1.to_multiset() == t2.to_multiset(),
    ensures
        tsum(t1, f) == tsum(t2, f),
    decreases t1.len(),
{
    broadcast use vstd::seq_lib::group_to_multiset_ensures;

    if t1.len() == 0 {
        assert(t1.to_multiset().len() == 0);
        assert(t2.to_multiset().len() == t2.len());
        assert(t2.len() == 0);
    } else {
        let x = t1.last();
        assert(t1.contains(x));
        assert(t2.to_multiset().count(x) > 0);
        assert(t2.contains(x));
        let j = choose|j: int| 0 <= j < t2.len() && t2[j] == x;
        assert(t1.drop_last() =~= t1.remove(t1.len() - 1));
        assert(t1.remove(t1.len() - 1).to_multiset() == t1.to_multiset().remove(x));
        assert(t2.remove(j).to_multiset() == t2.to_multiset().remove(x));
        lemma_tsum_permutation(t1.drop_last(), t2.remove(j), f);
        lemma_tsum_remove(t2, j, f);
    }
}

/// Batch aggregation is order-independent: over two transfer sequences that
/// hold the same transfers as a multiset, every address comes out with the
/// same total volume, average buy price and average sell price. (The
/// incremental updater's pairwise averages are order-dependent on purpose.)
pub proof fn lemma_batch_order_independent(
    t1: Seq<TransferModel>,
    t2: Seq<TransferModel>,
    a: Seq<char>,
)
    requires
        t1.to_multiset() == t2.to_multiset(),
    ensures
        batch_total_volume(t1, a) == batch_total_volume(t2, a),
        batch_avg_buy(t1, a) == batch_avg_buy(t2, a),
        batch_avg_sell(t1, a) == batch_avg_sell(t2, a),
{
    lemma_sums_as_tsum(t1, a);
    lemma_sums_as_tsum(t2, a);
    lemma_tsum_permutation(t1, t2, sell_amount_weight(a));
    lemma_tsum_permutation(t1, t2, sell_weighted_weight(a));
    lemma_tsum_permutation(t1, t2, buy_amount_weight(a));
    lemma_tsum_permutation(t1, t2, buy_weighted_weight(a));
}

} // verus!

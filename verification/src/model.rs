use vstd::prelude::*;

verus! {

/// One immutable asset movement between two addresses.
///
/// `amount` and `usd_price` are fixed-point quantities: the caller picks a
/// scale (for example, tenths of a unit) and uses it consistently. All
/// statistics are exact integer arithmetic over that scale.
#[derive(Debug)]
pub struct Transfer {
    /// Timestamp in seconds.
    pub ts: u64,
    /// Sender address, an opaque identifier.
    pub from: String,
    /// Receiver address, an opaque identifier.
    pub to: String,
    /// Quantity of the asset moved, in fixed-point units.
    pub amount: u32,
    /// Unit price in the reference currency at the time of transfer,
    /// in fixed-point units.
    pub usd_price: u32,
}

/// The mathematical value of a `Transfer`.
#[verifier::ext_equal]
pub ghost struct TransferModel {
    pub ts: u64,
    pub from: Seq<char>,
    pub to: Seq<char>,
    pub amount: u32,
    pub usd_price: u32,
}

impl View for Transfer {
    type V = TransferModel;

    open spec fn view(&self) -> TransferModel {
        TransferModel {
            ts: self.ts,
            from: self.from@,
            to: self.to@,
            amount: self.amount,
            usd_price: self.usd_price,
        }
    }
}

/// The mathematical values of a sequence of transfers.
pub open spec fn seq_model(ts: Seq<Transfer>) -> Seq<TransferModel> {
    ts.map_values(|t: Transfer| t@)
}

/// Appending a transfer appends its model.
pub proof fn lemma_seq_model_push(ts: Seq<Transfer>, t: Transfer)
    ensures
        seq_model(ts.push(t)) == seq_model(ts).push(t@),
{
    assert(seq_model(ts.push(t)) =~= seq_model(ts).push(t@));
}

impl Default for Transfer {
    /// The zero transfer: empty addresses, zero time, amount and price.
    fn default() -> (r: Self)
        ensures
            r@.ts == 0 && r@.amount == 0 && r@.usd_price == 0,
            r@.from.len() == 0 && r@.to.len() == 0,
    {
        Transfer { ts: 0, from: String::new(), to: String::new(), amount: 0, usd_price: 0 }
    }
}

impl Clone for Transfer {
    fn clone(&self) -> (r: Self)
        ensures
            r@ == self@,
    {
        Transfer {
            ts: self.ts,
            from: self.from.clone(),
            to: self.to.clone(),
            amount: self.amount,
            usd_price: self.usd_price,
        }
    }
}

/// Per-address running statistics.
///
/// The averages are volume-weighted when produced by the batch aggregator
/// and pairwise running averages when produced by the incremental updater;
/// the two rules are distinct on purpose and each producer documents its own.
/// `max_balance` uniformly holds the largest single transfer amount in which
/// the address took part.
#[derive(Debug)]
pub struct UserStats {
    pub address: String,
    pub total_volume: u128,
    pub avg_buy_price: u64,
    pub avg_sell_price: u64,
    pub max_balance: u32,
}

/// The mathematical value of a `UserStats` record.
#[verifier::ext_equal]
pub ghost struct StatsModel {
    pub address: Seq<char>,
    pub total_volume: int,
    pub avg_buy_price: int,
    pub avg_sell_price: int,
    pub max_balance: int,
}

impl View for UserStats {
    type V = StatsModel;

    open spec fn view(&self) -> StatsModel {
        StatsModel {
            address: self.address@,
            total_volume: self.total_volume as int,
            avg_buy_price: self.avg_buy_price as int,
            avg_sell_price: self.avg_sell_price as int,
            max_balance: self.max_balance as int,
        }
    }
}

impl Clone for UserStats {
    fn clone(&self) -> (r: Self)
        ensures
            r@ == self@,
    {
        UserStats {
            address: self.address.clone(),
            total_volume: self.total_volume,
            avg_buy_price: self.avg_buy_price,
            avg_sell_price: self.avg_sell_price,
            max_balance: self.max_balance,
        }
    }
}

/// The all-zero statistics record for `address`: what an address that has
/// never taken part in a transfer carries.
pub open spec fn zero_stats(address: Seq<char>) -> StatsModel {
    StatsModel { address: address, total_volume: 0, avg_buy_price: 0, avg_sell_price: 0, max_balance: 0 }
}

impl UserStats {
    /// A fresh record with every statistic at zero.
    pub fn new(address: &str) -> (r: Self)
        ensures
            r@ == zero_stats(address@),
    {
        Self {
            address: address.to_owned(),
            total_volume: 0,
            avg_buy_price: 0,
            avg_sell_price: 0,
            max_balance: 0,
        }
    }
}

} // verus!

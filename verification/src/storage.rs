use crate::model::{lemma_seq_model_push, seq_model, StatsModel, Transfer, TransferModel, UserStats};
use vstd::prelude::*;

verus! {

/// Failure of a store operation, handed back to the caller unchanged.
#[derive(Debug)]
pub struct StoreError {
    /// What the backing medium reported.
    pub message: String,
}

/// A statistics store: append access to a transfer log and keyed read/write
/// access to one statistics record per address. The aggregation code is
/// agnostic to the backing medium; any implementation must be synchronous
/// and strongly consistent, and a failed operation must leave the store
/// unchanged.
pub trait Storage: Sized {
    /// The per-address statistics records the store currently holds.
    spec fn stats_view(&self) -> Map<Seq<char>, StatsModel>;

    /// The transfer log the store currently holds, in append order.
    spec fn log_view(&self) -> Seq<TransferModel>;

    /// Whether this store promises success of every operation. A store that
    /// reports `true` never returns an error, and no operation changes the
    /// promise.
    spec fn infallible(&self) -> bool;

    /// Appends to the transfer log, without deduplication or reordering.
    fn save_transfers(&mut self, transfers: &[Transfer]) -> (r: Result<(), StoreError>)
        ensures
            r is Ok ==> final(self).log_view() == old(self).log_view() + seq_model(transfers@)
                && final(self).stats_view() == old(self).stats_view(),
            r is Err ==> final(self).log_view() == old(self).log_view()
                && final(self).stats_view() == old(self).stats_view(),
            old(self).infallible() ==> r is Ok,
            final(self).infallible() == old(self).infallible(),
    ;

    /// Upserts one record, keyed by the address it carries.
    fn save_user_stats(&mut self, stats: &UserStats) -> (r: Result<(), StoreError>)
        ensures
            r is Ok ==> final(self).stats_view() == old(self).stats_view().insert(
                stats@.address,
                stats@,
            ) && final(self).log_view() == old(self).log_view(),
            r is Err ==> final(self).log_view() == old(self).log_view()
                && final(self).stats_view() == old(self).stats_view(),
            old(self).infallible() ==> r is Ok,
            final(self).infallible() == old(self).infallible(),
    ;

    /// Point lookup of the record saved for `address`, if any.
    fn get_user_stats(&self, address: &str) -> (r: Result<Option<UserStats>, StoreError>)
        ensures
            r matches Ok(Some(s)) ==> self.stats_view().contains_key(address@) && s@
                == self.stats_view()[address@] && s@.address == address@,
            r matches Ok(None) ==> !self.stats_view().contains_key(address@),
            self.infallible() ==> r is Ok,
    ;

    /// Commits the writes of one applied transfer as a single logical
    /// transaction: the transfer appended to the log and the two records
    /// upserted, sender first — or, on failure, nothing at all.
    fn commit_transaction(
        &mut self,
        transfer: &Transfer,
        sender: &UserStats,
        receiver: &UserStats,
    ) -> (r: Result<(), StoreError>)
        ensures
            r is Ok ==> final(self).log_view() == old(self).log_view().push(transfer@)
                && final(self).stats_view() == old(self).stats_view().insert(
                sender@.address,
                sender@,
            ).insert(receiver@.address, receiver@),
            r is Err ==> final(self).log_view() == old(self).log_view()
                && final(self).stats_view() == old(self).stats_view(),
            old(self).infallible() ==> r is Ok,
            final(self).infallible() == old(self).infallible(),
    ;
}

/// The mapping denoted by a record list in save order: for each address,
/// its newest record.
pub open spec fn stats_map_of(s: Seq<UserStats>) -> Map<Seq<char>, StatsModel>
    decreases s.len(),
{
    if s.len() == 0 {
        Map::empty()
    } else {
        stats_map_of(s.drop_last()).insert(s.last()@.address, s.last()@)
    }
}

/// In-memory store for tests and examples. Saved records are kept in save
/// order; a lookup resolves to the newest record for the address. No
/// operation of it ever fails.
pub struct MockStorage {
    /// Every transfer saved, in order.
    pub transfers: Vec<Transfer>,
    /// Every record saved, in order; later entries shadow earlier ones.
    pub stats: Vec<UserStats>,
}

impl Default for MockStorage {
    /// An empty store.
    fn default() -> (r: Self)
        ensures
            r.stats_view() == Map::<Seq<char>, StatsModel>::empty(),
            r.log_view() == Seq::<TransferModel>::empty(),
    {
        let r = MockStorage { transfers: Vec::new(), stats: Vec::new() };
        proof {
            assert(seq_model(r.transfers@) =~= Seq::<TransferModel>::empty());
        }
        r
    }
}

impl Storage for MockStorage {
    open spec fn stats_view(&self) -> Map<Seq<char>, StatsModel> {
        stats_map_of(self.stats@)
    }

    open spec fn log_view(&self) -> Seq<TransferModel> {
        seq_model(self.transfers@)
    }

    open spec fn infallible(&self) -> bool {
        true
    }

    fn save_transfers(&mut self, transfers: &[Transfer]) -> (r: Result<(), StoreError>)
        ensures
            r is Ok,
    {
        let n = transfers.len();
        for j in 0..n
            invariant
                n == transfers@.len(),
                self.stats == old(self).stats,
                seq_model(self.transfers@) == seq_model(old(self).transfers@) + seq_model(
                    transfers@.subrange(0, j as int),
                ),
        {
            let c = transfers[j].clone();
            let ghost before = self.transfers@;
            self.transfers.push(c);
            proof {
                lemma_seq_model_push(before, c);
                assert(transfers@.subrange(0, j + 1).drop_last() =~= transfers@.subrange(
                    0,
                    j as int,
                ));
                lemma_seq_model_push(transfers@.subrange(0, j as int), transfers@[j as int]);
                assert(transfers@.subrange(0, j + 1) =~= transfers@.subrange(0, j as int).push(
                    transfers@[j as int],
                ));
                assert(seq_model(self.transfers@) =~= seq_model(old(self).transfers@) + seq_model(
                    transfers@.subrange(0, j + 1),
                ));
            }
        }
        proof {
            assert(transfers@.subrange(0, n as int) =~= transfers@);
        }
        Ok(())
    }

    fn save_user_stats(&mut self, stats: &UserStats) -> (r: Result<(), StoreError>)
        ensures
            r is Ok,
    {
        let c = stats.clone();
        self.stats.push(c);
        proof {
            assert(self.stats@.drop_last() =~= old(self).stats@);
        }
        Ok(())
    }

    fn get_user_stats(&self, address: &str) -> (r: Result<Option<UserStats>, StoreError>)
        ensures
            r is Ok,
    {
        let key: String = address.to_owned();
        let n = self.stats.len();
        let mut found: Option<UserStats> = None;
        for k in 0..n
            invariant
                n == self.stats@.len(),
                key@ == address@,
                found matches Some(s) ==> stats_map_of(
                    self.stats@.subrange(0, k as int),
                ).contains_key(address@) && s@ == stats_map_of(
                    self.stats@.subrange(0, k as int),
                )[address@] && s@.address == address@,
                found is None ==> !stats_map_of(self.stats@.subrange(0, k as int)).contains_key(
                    address@,
                ),
        {
            proof {
                assert(self.stats@.subrange(0, k + 1).drop_last() =~= self.stats@.subrange(
                    0,
                    k as int,
                ));
                assert(self.stats@.subrange(0, k + 1).last() == self.stats@[k as int]);
            }
            if self.stats[k].address == key {
                found = Some(self.stats[k].clone());
            }
        }
        proof {
            assert(self.stats@.subrange(0, n as int) =~= self.stats@);
        }
        Ok(found)
    }

    fn commit_transaction(
        &mut self,
        transfer: &Transfer,
        sender: &UserStats,
        receiver: &UserStats,
    ) -> (r: Result<(), StoreError>)
        ensures
            r is Ok,
    {
        let ghost log_before = self.transfers@;
        let t = transfer.clone();
        self.transfers.push(t);
        let s = sender.clone();
        self.stats.push(s);
        let ghost mid = self.stats@;
        let v = receiver.clone();
        self.stats.push(v);
        proof {
            lemma_seq_model_push(log_before, t);
            assert(mid.drop_last() =~= old(self).stats@);
            assert(self.stats@.drop_last() =~= mid);
            assert(stats_map_of(mid) == stats_map_of(old(self).stats@).insert(s@.address, s@));
            assert(stats_map_of(self.stats@) == stats_map_of(mid).insert(v@.address, v@));
        }
        Ok(())
    }
}

} // verus!

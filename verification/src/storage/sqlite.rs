//! The store as the library sees it: the rounds, the samples and the charts
//! that it holds, and what is computed from them.
//!
//! The database file itself is read and written by the caller; the library
//! keeps the same rows in memory and decides what they become.

use vstd::prelude::*;
use vstd::string::*;
use crate::clock::now_millis;
use crate::collectors::types::{Metric, MetricModel};
use crate::ident::new_round_id;
use crate::storage::{Chart, CollectionRound, StorageStats};
use crate::text::same_text;

verus! {

/// A sample as the store keeps it: with the round that it belongs to.
#[derive(Debug, Clone, PartialEq, Eq)]
pub struct StoredMetric {
    pub collection_round_id: String,
    pub metric: Metric,
}

/// The store: where the database lives, and the rows that it holds, each
/// list in the order in which the rows were written.
pub struct SqliteStorage {
    pub db_path: String,
    pub rounds: Vec<CollectionRound>,
    pub metrics: Vec<StoredMetric>,
    pub charts: Vec<Chart>,
}

/// Why the store refuses a batch of samples.
#[derive(Debug, Clone, Copy, PartialEq, Eq, Structural)]
pub enum StorageError {
    /// There is nothing to store.
    EmptyCollection,
    /// A round with this identifier exists already.
    DuplicateRound,
}

/// Whether a round with the given identifier is among the rounds.
pub open spec fn has_round(rounds: Seq<CollectionRound>, id: Seq<char>) -> bool {
    exists|i: int| 0 <= i < rounds.len() && (#[trigger] rounds[i]).id@ == id
}

/// How many of the samples belong to the round with the given identifier.
pub open spec fn samples_in_round(metrics: Seq<StoredMetric>, id: Seq<char>) -> nat
    decreases metrics.len(),
{
    if metrics.len() == 0 {
        0
    } else if metrics.last().collection_round_id@ == id {
        samples_in_round(metrics.drop_last(), id) + 1
    } else {
        samples_in_round(metrics.drop_last(), id)
    }
}

/// The stored samples, each as the identifier of its round and its model.
pub open spec fn stored_models(metrics: Seq<StoredMetric>) -> Seq<(Seq<char>, MetricModel)> {
    Seq::new(metrics.len(), |i: int| (metrics[i].collection_round_id@, metrics[i].metric@))
}

/// Samples as they are stored under a round.
pub open spec fn stored_under(id: Seq<char>, metrics: Seq<Metric>) -> Seq<(Seq<char>, MetricModel)> {
    Seq::new(metrics.len(), |i: int| (id, metrics[i]@))
}

/// The position of the most recent round: the one with the greatest
/// timestamp, and among several of those the one stored last.
pub open spec fn most_recent(rounds: Seq<CollectionRound>) -> Option<int>
    decreases rounds.len(),
{
    if rounds.len() == 0 {
        None
    } else {
        match most_recent(rounds.drop_last()) {
            Some(i) => if rounds[i].timestamp > rounds.last().timestamp {
                Some(i)
            } else {
                Some(rounds.len() - 1)
            },
            None => Some(rounds.len() - 1),
        }
    }
}

/// `n` as a 64-bit count, the largest such count if `n` is above it.
pub open spec fn counted(n: nat) -> i64 {
    if n > i64::MAX {
        i64::MAX
    } else {
        n as i64
    }
}

/// Where the database lives when no place is given: below the home directory,
/// or below the working directory when there is no home.
pub open spec fn default_db_path(home_dir: Option<Seq<char>>) -> Seq<char> {
    match home_dir {
        Some(home) => home + "/.thrud/thrud.db"@,
        None => "."@ + "/.thrud/thrud.db"@,
    }
}

impl SqliteStorage {
    /// An empty store at `db_path`, or at the default place below `home_dir`.
    pub fn new(db_path: Option<String>, home_dir: Option<String>) -> (storage: Self)
        ensures
            storage.db_path@ == match db_path {
                Some(path) => path@,
                None => default_db_path(
                    match home_dir {
                        Some(home) => Some(home@),
                        None => None,
                    },
                ),
            },
            storage.rounds@.len() == 0,
            storage.metrics@.len() == 0,
            storage.charts@.len() == 0,
    {
        let path = match db_path {
            Some(path) => path,
            None => {
                let home = match home_dir {
                    Some(home) => home,
                    None => String::from_str("."),
                };
                home.concat("/.thrud/thrud.db")
            },
        };
        Self { db_path: path, rounds: Vec::new(), metrics: Vec::new(), charts: Vec::new() }
    }

    /// Whether the rows fit together: no two rounds share an identifier,
    /// every sample belongs to a round, and every round counts exactly the
    /// samples that belong to it.
    pub open spec fn wf(&self) -> bool {
        &&& forall|i: int, j: int|
            0 <= i < j < self.rounds@.len() ==> (#[trigger] self.rounds@[i]).id@ != (
            #[trigger] self.rounds@[j]).id@
        &&& forall|k: int|
            0 <= k < self.metrics@.len() ==> has_round(
                self.rounds@,
                (#[trigger] self.metrics@[k]).collection_round_id@,
            )
        &&& forall|i: int|
            0 <= i < self.rounds@.len() ==> samples_in_round(
                self.metrics@,
                (#[trigger] self.rounds@[i]).id@,
            ) == self.rounds@[i].metrics_count
    }

    /// Whether the rows fit together.
    pub fn is_consistent(&self) -> (consistent: bool)
        ensures
            consistent == self.wf(),
    {
        let rounds = self.rounds.len();
        let mut i: usize = 0;
        while i < rounds
            invariant
                i <= rounds,
                rounds == self.rounds@.len(),
                forall|a: int, b: int|
                    0 <= a < b < i ==> (#[trigger] self.rounds@[a]).id@ != (
                    #[trigger] self.rounds@[b]).id@,
                forall|a: int|
                    0 <= a < i ==> samples_in_round(
                        self.metrics@,
                        (#[trigger] self.rounds@[a]).id@,
                    ) == self.rounds@[a].metrics_count,
            decreases rounds - i,
        {
            let round = &self.rounds[i];
            let mut k: usize = 0;
            while k < i
                invariant
                    k <= i < rounds,
                    rounds == self.rounds@.len(),
                    *round == self.rounds@[i as int],
                    forall|a: int| 0 <= a < k ==> (#[trigger] self.rounds@[a]).id@ != round.id@,
                decreases i - k,
            {
                if same_text(self.rounds[k].id.as_str(), round.id.as_str()) {
                    assert(self.rounds@[k as int].id@ == self.rounds@[i as int].id@);
                    return false;
                }
                k = k + 1;
            }
            let mut count: usize = 0;
            let mut m: usize = 0;
            while m < self.metrics.len()
                invariant
                    m <= self.metrics@.len(),
                    i < rounds,
                    rounds == self.rounds@.len(),
                    *round == self.rounds@[i as int],
                    count == samples_in_round(self.metrics@.take(m as int), round.id@),
                    count <= m,
                decreases self.metrics@.len() - m,
            {
                assert(self.metrics@.take(m + 1).drop_last() =~= self.metrics@.take(m as int));
                if same_text(self.metrics[m].collection_round_id.as_str(), round.id.as_str()) {
                    count = count + 1;
                }
                m = m + 1;
            }
            assert(self.metrics@.take(self.metrics@.len() as int) =~= self.metrics@);
            if count != round.metrics_count {
                return false;
            }
            i = i + 1;
        }
        let mut m: usize = 0;
        while m < self.metrics.len()
            invariant
                m <= self.metrics@.len(),
                forall|k: int|
                    0 <= k < m ==> has_round(
                        self.rounds@,
                        (#[trigger] self.metrics@[k]).collection_round_id@,
                    ),
            decreases self.metrics@.len() - m,
        {
            if !self.contains_round(self.metrics[m].collection_round_id.as_str()) {
                return false;
            }
            m = m + 1;
        }
        true
    }

    /// The stored samples, in the order in which they were stored.
    pub fn samples(&self) -> (metrics: Vec<Metric>)
        ensures
            metrics@.len() == self.metrics@.len(),
            forall|i: int|
                0 <= i < metrics@.len() ==> (#[trigger] metrics@[i])@ == self.metrics@[i].metric@,
    {
        let mut metrics: Vec<Metric> = Vec::new();
        let mut i: usize = 0;
        while i < self.metrics.len()
            invariant
                i <= self.metrics@.len(),
                metrics@.len() == i,
                forall|k: int|
                    0 <= k < i ==> (#[trigger] metrics@[k])@ == self.metrics@[k].metric@,
            decreases self.metrics@.len() - i,
        {
            metrics.push(self.metrics[i].metric.clone());
            i = i + 1;
        }
        metrics
    }

    /// Whether a round with the given identifier is stored.
    pub fn contains_round(&self, id: &str) -> (found: bool)
        ensures
            found == has_round(self.rounds@, id@),
    {
        let mut i: usize = 0;
        while i < self.rounds.len()
            invariant
                i <= self.rounds@.len(),
                forall|k: int| 0 <= k < i ==> (#[trigger] self.rounds@[k]).id@ != id@,
            decreases self.rounds@.len() - i,
        {
            if same_text(self.rounds[i].id.as_str(), id) {
                return true;
            }
            i = i + 1;
        }
        false
    }

    /// Stores a batch of samples as one round with the given identifier and
    /// timestamp.
    ///
    /// The round and all its samples are stored together, or nothing is: an
    /// empty batch is refused, and so is an identifier that is in use.
    pub fn store_round(&mut self, id: String, timestamp: i64, metrics: Vec<Metric>) -> (stored:
        Result<CollectionRound, StorageError>)
        ensures
            old(self).wf() ==> final(self).wf(),
            final(self).db_path == old(self).db_path,
            final(self).charts == old(self).charts,
            metrics@.len() == 0 ==> stored == Err::<CollectionRound, StorageError>(
                StorageError::EmptyCollection,
            ),
            metrics@.len() > 0 && has_round(old(self).rounds@, id@) ==> stored == Err::<
                CollectionRound,
                StorageError,
            >(StorageError::DuplicateRound),
            metrics@.len() > 0 && !has_round(old(self).rounds@, id@) ==> stored == Ok::<
                CollectionRound,
                StorageError,
            >(CollectionRound { id, timestamp, metrics_count: metrics@.len() as usize }),
            stored is Err ==> final(self).rounds == old(self).rounds && final(self).metrics == old(
                self,
            ).metrics,
            stored is Ok ==> final(self).rounds@ == old(self).rounds@.push(stored->Ok_0)
                && stored_models(final(self).metrics@) == stored_models(old(self).metrics@)
                + stored_under(id@, metrics@),
    {
        if metrics.len() == 0 {
            return Err(StorageError::EmptyCollection);
        }
        if self.contains_round(id.as_str()) {
            return Err(StorageError::DuplicateRound);
        }
        let ghost old_rounds = self.rounds@;
        let ghost old_metrics = self.metrics@;
        let ghost all = metrics@;
        let ghost fits = self.wf();
        let count = metrics.len();
        proof {
            if fits {
                Self::lemma_unknown_round_is_empty(old_rounds, old_metrics, id@);
            }
        }
        for metric in it: metrics
            invariant
                it.seq() == all,
                self.rounds@ == old_rounds,
                self.db_path == old(self).db_path,
                self.charts == old(self).charts,
                !has_round(old_rounds, id@),
                stored_models(self.metrics@) =~= stored_models(old_metrics) + stored_under(
                    id@,
                    all,
                ).take(it.index() as int),
                fits == old(self).wf(),
                fits ==> samples_in_round(self.metrics@, id@) == it.index(),
                fits ==> forall|i: int|
                    0 <= i < old_rounds.len() ==> samples_in_round(
                        self.metrics@,
                        (#[trigger] old_rounds[i]).id@,
                    ) == old_rounds[i].metrics_count,
                fits ==> forall|k: int|
                    0 <= k < self.metrics@.len() ==> has_round(
                        old_rounds,
                        (#[trigger] self.metrics@[k]).collection_round_id@,
                    ) || self.metrics@[k].collection_round_id@ == id@,
        {
            let ghost before = self.metrics@;
            let stored = StoredMetric { collection_round_id: id.clone(), metric };
            self.metrics.push(stored);
            assert(self.metrics@.drop_last() =~= before);
            assert(stored_models(self.metrics@) =~= stored_models(before).push((id@, metric@)));
            assert(stored_under(id@, all).take(it.index() + 1) =~= stored_under(id@, all).take(
                it.index() as int,
            ).push((id@, metric@)));
        }
        assert(stored_under(id@, all).take(all.len() as int) =~= stored_under(id@, all));
        let round = CollectionRound { id, timestamp, metrics_count: count };
        self.rounds.push(round.clone());
        proof {
            if fits {
                Self::lemma_round_fits(old_rounds, self.rounds@, self.metrics@, round);
            }
        }
        Ok(round)
    }

    /// A store stays consistent when a round with a fresh identifier is
    /// added together with as many samples as it counts.
    proof fn lemma_round_fits(
        old_rounds: Seq<CollectionRound>,
        rounds: Seq<CollectionRound>,
        metrics: Seq<StoredMetric>,
        round: CollectionRound,
    )
        requires
            rounds == old_rounds.push(round),
            !has_round(old_rounds, round.id@),
            forall|i: int, j: int|
                0 <= i < j < old_rounds.len() ==> (#[trigger] old_rounds[i]).id@ != (
                #[trigger] old_rounds[j]).id@,
            samples_in_round(metrics, round.id@) == round.metrics_count,
            forall|i: int|
                0 <= i < old_rounds.len() ==> samples_in_round(
                    metrics,
                    (#[trigger] old_rounds[i]).id@,
                ) == old_rounds[i].metrics_count,
            forall|k: int|
                0 <= k < metrics.len() ==> has_round(
                    old_rounds,
                    (#[trigger] metrics[k]).collection_round_id@,
                ) || metrics[k].collection_round_id@ == round.id@,
        ensures
            forall|i: int, j: int|
                0 <= i < j < rounds.len() ==> (#[trigger] rounds[i]).id@ != (
                #[trigger] rounds[j]).id@,
            forall|k: int|
                0 <= k < metrics.len() ==> has_round(
                    rounds,
                    (#[trigger] metrics[k]).collection_round_id@,
                ),
            forall|i: int|
                0 <= i < rounds.len() ==> samples_in_round(metrics, (#[trigger] rounds[i]).id@)
                    == rounds[i].metrics_count,
    {
        assert forall|k: int| 0 <= k < metrics.len() implies has_round(
            rounds,
            (#[trigger] metrics[k]).collection_round_id@,
        ) by {
            let wanted = metrics[k].collection_round_id@;
            if has_round(old_rounds, wanted) {
                let i = choose|i: int|
                    0 <= i < old_rounds.len() && (#[trigger] old_rounds[i]).id@ == wanted;
                assert(rounds[i].id@ == wanted);
            } else {
                assert(rounds[old_rounds.len() as int].id@ == wanted);
            }
        }
        assert forall|i: int, j: int| 0 <= i < j < rounds.len() implies (
        #[trigger] rounds[i]).id@ != (#[trigger] rounds[j]).id@ by {
            if j < old_rounds.len() {
                assert(old_rounds[i].id@ != old_rounds[j].id@);
            } else {
                assert(old_rounds[i].id@ != round.id@);
            }
        }
    }

    /// Stores a batch of samples as one round, with a fresh identifier and
    /// the present instant.
    ///
    /// An empty batch is refused. A batch that is not empty is stored in a
    /// store without rounds, where every identifier is fresh. In a store
    /// with rounds the identifier decides: the batch is stored unless a
    /// round with the same identifier exists.
    pub fn store_metrics(&mut self, metrics: Vec<Metric>) -> (stored: Result<
        CollectionRound,
        StorageError,
    >)
        ensures
            old(self).wf() ==> final(self).wf(),
            final(self).db_path == old(self).db_path,
            final(self).charts == old(self).charts,
            metrics@.len() == 0 <==> stored == Err::<CollectionRound, StorageError>(
                StorageError::EmptyCollection,
            ),
            metrics@.len() > 0 && old(self).rounds@.len() == 0 ==> stored is Ok,
            stored == Err::<CollectionRound, StorageError>(StorageError::DuplicateRound)
                ==> metrics@.len() > 0 && old(self).rounds@.len() > 0,
            stored is Err ==> final(self).rounds == old(self).rounds && final(self).metrics == old(
                self,
            ).metrics,
            stored is Ok ==> stored->Ok_0.metrics_count == metrics@.len() && !has_round(
                old(self).rounds@,
                stored->Ok_0.id@,
            ) && final(self).rounds@ == old(self).rounds@.push(stored->Ok_0) && stored_models(
                final(self).metrics@,
            ) == stored_models(old(self).metrics@) + stored_under(stored->Ok_0.id@, metrics@),
    {
        if metrics.len() == 0 {
            return Err(StorageError::EmptyCollection);
        }
        let id = new_round_id();
        let timestamp = now_millis();
        self.store_round(id, timestamp, metrics)
    }

    /// Figures about the store. The size of the database file is the
    /// caller's to find out.
    pub fn get_stats(&self, database_size_bytes: Option<u64>) -> (stats: StorageStats)
        ensures
            stats.total_metrics == counted(self.metrics@.len()),
            stats.total_collection_rounds == counted(self.rounds@.len()),
            stats.latest_collection == match most_recent(self.rounds@) {
                Some(i) => Some(self.rounds@[i]),
                None => None,
            },
            stats.database_size_bytes == database_size_bytes,
    {
        let total_metrics = Self::count_of(self.metrics.len());
        let total_collection_rounds = Self::count_of(self.rounds.len());
        let mut latest: Option<usize> = None;
        let mut i: usize = 0;
        while i < self.rounds.len()
            invariant
                i <= self.rounds@.len(),
                match latest {
                    Some(at) => most_recent(self.rounds@.take(i as int)) == Some(at as int) && at
                        < i,
                    None => most_recent(self.rounds@.take(i as int)) is None,
                },
            decreases self.rounds@.len() - i,
        {
            assert(self.rounds@.take(i + 1).drop_last() =~= self.rounds@.take(i as int));
            latest = match latest {
                Some(at) => if self.rounds[at].timestamp > self.rounds[i].timestamp {
                    Some(at)
                } else {
                    Some(i)
                },
                None => Some(i),
            };
            i = i + 1;
        }
        assert(self.rounds@.take(self.rounds@.len() as int) =~= self.rounds@);
        let latest_collection = match latest {
            Some(at) => Some(self.rounds[at].clone()),
            None => None,
        };
        StorageStats {
            total_metrics,
            total_collection_rounds,
            latest_collection,
            database_size_bytes,
        }
    }

    /// A length as a 64-bit count.
    fn count_of(n: usize) -> (count: i64)
        ensures
            count == counted(n as nat),
    {
        if n as u64 > 0x7fff_ffff_ffff_ffff {
            i64::MAX
        } else {
            n as i64
        }
    }

    /// No sample belongs to a round that is not stored.
    proof fn lemma_unknown_round_is_empty(
        rounds: Seq<CollectionRound>,
        metrics: Seq<StoredMetric>,
        id: Seq<char>,
    )
        requires
            !has_round(rounds, id),
            forall|k: int|
                0 <= k < metrics.len() ==> has_round(
                    rounds,
                    (#[trigger] metrics[k]).collection_round_id@,
                ),
        ensures
            samples_in_round(metrics, id) == 0,
        decreases metrics.len(),
    {
        if metrics.len() > 0 {
            assert(has_round(rounds, metrics[metrics.len() - 1].collection_round_id@));
            assert forall|k: int| 0 <= k < metrics.drop_last().len() implies has_round(
                rounds,
                (#[trigger] metrics.drop_last()[k]).collection_round_id@,
            ) by {
                assert(metrics.drop_last()[k] == metrics[k]);
            }
            Self::lemma_unknown_round_is_empty(rounds, metrics.drop_last(), id);
        }
    }
}

} // verus!

//! Per-index statistics and their totals.

use vstd::prelude::*;

verus! {

/// Statistics of one index, as the catalog reports them.
///
/// The catalog normally reports `pri_store_size <= store_size`. A row that
/// breaks this is tolerated: its replica size counts as zero.
#[derive(Debug)]
pub struct CatIndexResult {
    pub index: String,
    pub docs_count: u64,
    pub docs_deleted: u64,
    pub store_size: u64,
    pub pri_store_size: u64,
}

/// What a `CatIndexResult` stands for.
pub struct IndexStats {
    pub index: Seq<char>,
    pub docs_count: nat,
    pub docs_deleted: nat,
    pub store_size: nat,
    pub pri_store_size: nat,
}

/// The quantities that are summed over the indexes of a group.
#[derive(Clone, Copy, Debug, PartialEq, Eq, Structural)]
pub enum Measure {
    DocsCount,
    DocsDeleted,
    StoreSize,
    PriStoreSize,
    SecStoreSize,
}

impl IndexStats {
    /// The primary shards take no more than the whole index.
    pub open spec fn is_consistent(self) -> bool {
        self.pri_store_size <= self.store_size
    }

    /// Storage taken by the replicas: the total less the primaries, and zero
    /// for a row that reports more primary storage than total storage.
    pub open spec fn sec_store_size(self) -> nat {
        if self.pri_store_size <= self.store_size {
            (self.store_size - self.pri_store_size) as nat
        } else {
            0
        }
    }

    /// What this index adds to the sum of a measure.
    pub open spec fn measure(self, m: Measure) -> nat {
        match m {
            Measure::DocsCount => self.docs_count,
            Measure::DocsDeleted => self.docs_deleted,
            Measure::StoreSize => self.store_size,
            Measure::PriStoreSize => self.pri_store_size,
            Measure::SecStoreSize => self.sec_store_size(),
        }
    }
}

impl View for CatIndexResult {
    type V = IndexStats;

    open spec fn view(&self) -> IndexStats {
        IndexStats {
            index: self.index@,
            docs_count: self.docs_count as nat,
            docs_deleted: self.docs_deleted as nat,
            store_size: self.store_size as nat,
            pri_store_size: self.pri_store_size as nat,
        }
    }
}

impl Clone for CatIndexResult {
    fn clone(&self) -> (copy: Self)
        ensures
            copy == *self,
    {
        CatIndexResult {
            index: self.index.clone(),
            docs_count: self.docs_count,
            docs_deleted: self.docs_deleted,
            store_size: self.store_size,
            pri_store_size: self.pri_store_size,
        }
    }
}

impl CatIndexResult {
    /// Storage taken by the replicas of this index.
    pub fn sec_store_size(&self) -> (size: u64)
        ensures
            size == self@.sec_store_size(),
    {
        self.store_size.saturating_sub(self.pri_store_size)
    }
}

/// The statistics that a sequence of rows stands for, row by row.
pub open spec fn stats_of(rows: Seq<CatIndexResult>) -> Seq<IndexStats> {
    rows.map_values(|row: CatIndexResult| row@)
}

/// Sum of one measure over a sequence of indexes.
pub open spec fn total(stats: Seq<IndexStats>, m: Measure) -> nat
    decreases stats.len(),
{
    if stats.len() == 0 {
        0
    } else {
        total(stats.drop_last(), m) + stats.last().measure(m)
    }
}

/// Sum of `store_size - pri_store_size` over a sequence of indexes, each
/// difference taken as it is, negative where the row is inconsistent.
pub open spec fn total_store_less_primary(stats: Seq<IndexStats>) -> int
    decreases stats.len(),
{
    if stats.len() == 0 {
        0
    } else {
        total_store_less_primary(stats.drop_last()) + (stats.last().store_size
            - stats.last().pri_store_size)
    }
}

/// A count as a gauge holds it: itself while it fits, else the largest value.
pub open spec fn saturated(n: nat) -> u64 {
    if n <= u64::MAX {
        n as u64
    } else {
        u64::MAX
    }
}

/// Totals over the indexes of one group.
#[derive(Clone, Copy, Debug, PartialEq, Eq, Structural)]
pub struct AggregateResult {
    pub index_count: u64,
    pub docs_count_sum: u64,
    pub docs_deleted_sum: u64,
    pub store_size_sum: u64,
    pub pri_store_size_sum: u64,
    pub sec_store_size_sum: u64,
}

/// The totals of a group with these indexes. Each sum stops at `u64::MAX`.
pub open spec fn aggregate_of(stats: Seq<IndexStats>) -> AggregateResult {
    AggregateResult {
        index_count: saturated(stats.len()),
        docs_count_sum: saturated(total(stats, Measure::DocsCount)),
        docs_deleted_sum: saturated(total(stats, Measure::DocsDeleted)),
        store_size_sum: saturated(total(stats, Measure::StoreSize)),
        pri_store_size_sum: saturated(total(stats, Measure::PriStoreSize)),
        sec_store_size_sum: saturated(total(stats, Measure::SecStoreSize)),
    }
}

/// Adding one more index to a sum.
pub proof fn lemma_total_push(stats: Seq<IndexStats>, next: IndexStats, m: Measure)
    ensures
        total(stats.push(next), m) == total(stats, m) + next.measure(m),
{
    assert(stats.push(next).drop_last() =~= stats);
}

/// A saturating addition keeps a running sum equal to the saturated total.
proof fn lemma_saturated_step(sum: nat, next: u64)
    ensures
        saturated(sum + next as nat) == if saturated(sum) + next > u64::MAX {
            u64::MAX
        } else {
            (saturated(sum) + next) as u64
        },
{
}

/// Sums the statistics of the given indexes.
pub fn aggregate(rows: &Vec<CatIndexResult>) -> (result: AggregateResult)
    ensures
        result == aggregate_of(stats_of(rows@)),
{
    let ghost stats = stats_of(rows@);
    let mut docs_count_sum: u64 = 0;
    let mut docs_deleted_sum: u64 = 0;
    let mut store_size_sum: u64 = 0;
    let mut pri_store_size_sum: u64 = 0;
    let mut sec_store_size_sum: u64 = 0;
    let mut i: usize = 0;
    while i < rows.len()
        invariant
            i <= rows.len(),
            stats == stats_of(rows@),
            docs_count_sum == saturated(total(stats.take(i as int), Measure::DocsCount)),
            docs_deleted_sum == saturated(total(stats.take(i as int), Measure::DocsDeleted)),
            store_size_sum == saturated(total(stats.take(i as int), Measure::StoreSize)),
            pri_store_size_sum == saturated(total(stats.take(i as int), Measure::PriStoreSize)),
            sec_store_size_sum == saturated(total(stats.take(i as int), Measure::SecStoreSize)),
        decreases rows.len() - i,
    {
        let row = &rows[i];
        proof {
            let done = stats.take(i as int);
            assert(stats.take(i + 1) =~= done.push(row@));
            lemma_total_push(done, row@, Measure::DocsCount);
            lemma_total_push(done, row@, Measure::DocsDeleted);
            lemma_total_push(done, row@, Measure::StoreSize);
            lemma_total_push(done, row@, Measure::PriStoreSize);
            lemma_total_push(done, row@, Measure::SecStoreSize);
            lemma_saturated_step(total(done, Measure::DocsCount), row.docs_count);
            lemma_saturated_step(total(done, Measure::DocsDeleted), row.docs_deleted);
            lemma_saturated_step(total(done, Measure::StoreSize), row.store_size);
            lemma_saturated_step(total(done, Measure::PriStoreSize), row.pri_store_size);
            lemma_saturated_step(
                total(done, Measure::SecStoreSize),
                saturated(row@.sec_store_size()),
            );
        }
        docs_count_sum = docs_count_sum.saturating_add(row.docs_count);
        docs_deleted_sum = docs_deleted_sum.saturating_add(row.docs_deleted);
        store_size_sum = store_size_sum.saturating_add(row.store_size);
        pri_store_size_sum = pri_store_size_sum.saturating_add(row.pri_store_size);
        sec_store_size_sum = sec_store_size_sum.saturating_add(row.sec_store_size());
        i += 1;
    }
    assert(stats.take(rows.len() as int) =~= stats);
    AggregateResult {
        index_count: rows.len() as u64,
        docs_count_sum,
        docs_deleted_sum,
        store_size_sum,
        pri_store_size_sum,
        sec_store_size_sum,
    }
}

/// The indexes of one group together with their totals.
#[derive(Debug)]
pub struct CatIndices {
    pub cat_index_results: Vec<CatIndexResult>,
    pub docs_count_sum: u64,
    pub docs_deleted_sum: u64,
    pub store_size_sum: u64,
    pub pri_store_size_sum: u64,
    pub sec_store_size_sum: u64,
}

impl CatIndices {
    /// The statistics of the indexes held.
    pub open spec fn stats(self) -> Seq<IndexStats> {
        stats_of(self.cat_index_results@)
    }

    /// The totals held, with the number of indexes.
    pub open spec fn totals(self) -> AggregateResult {
        AggregateResult {
            index_count: saturated(self.cat_index_results@.len()),
            docs_count_sum: self.docs_count_sum,
            docs_deleted_sum: self.docs_deleted_sum,
            store_size_sum: self.store_size_sum,
            pri_store_size_sum: self.pri_store_size_sum,
            sec_store_size_sum: self.sec_store_size_sum,
        }
    }

    /// The totals held are those of the indexes held.
    pub open spec fn well_formed(self) -> bool {
        self.totals() == aggregate_of(self.stats())
    }

    /// Takes the indexes of a group and sums their statistics.
    pub fn new(cat_index_results: Vec<CatIndexResult>) -> (made: Self)
        ensures
            made.cat_index_results == cat_index_results,
            made.well_formed(),
    {
        let sums = aggregate(&cat_index_results);
        CatIndices {
            cat_index_results,
            docs_count_sum: sums.docs_count_sum,
            docs_deleted_sum: sums.docs_deleted_sum,
            store_size_sum: sums.store_size_sum,
            pri_store_size_sum: sums.pri_store_size_sum,
            sec_store_size_sum: sums.sec_store_size_sum,
        }
    }

    /// The number of indexes held.
    pub fn index_count(&self) -> (count: u64)
        ensures
            count == self.cat_index_results@.len(),
    {
        self.cat_index_results.len() as u64
    }

    /// The totals held, with the number of indexes.
    pub fn aggregate_result(&self) -> (result: AggregateResult)
        ensures
            result == self.totals(),
    {
        AggregateResult {
            index_count: self.index_count(),
            docs_count_sum: self.docs_count_sum,
            docs_deleted_sum: self.docs_deleted_sum,
            store_size_sum: self.store_size_sum,
            pri_store_size_sum: self.pri_store_size_sum,
            sec_store_size_sum: self.sec_store_size_sum,
        }
    }
}

/// A group without indexes has all its totals at zero.
pub proof fn lemma_aggregate_of_nothing()
    ensures
        aggregate_of(Seq::<IndexStats>::empty()) == (AggregateResult {
            index_count: 0,
            docs_count_sum: 0,
            docs_deleted_sum: 0,
            store_size_sum: 0,
            pri_store_size_sum: 0,
            sec_store_size_sum: 0,
        }),
{
}

/// Where every index is consistent, the replica sizes add up to the sum of
/// the differences `store_size - pri_store_size`, which is also the total
/// storage less the primary storage.
pub proof fn lemma_secondary_total(stats: Seq<IndexStats>)
    requires
        forall|i: int| 0 <= i < stats.len() ==> (#[trigger] stats[i]).is_consistent(),
    ensures
        total(stats, Measure::SecStoreSize) == total_store_less_primary(stats),
        total(stats, Measure::SecStoreSize) == total(stats, Measure::StoreSize) - total(
            stats,
            Measure::PriStoreSize,
        ),
    decreases stats.len(),
{
    if stats.len() > 0 {
        let before = stats.drop_last();
        assert forall|i: int| 0 <= i < before.len() implies (#[trigger] before[i]).is_consistent() by {
            assert(before[i] == stats[i]);
        }
        lemma_secondary_total(before);
        assert(stats.last().is_consistent());
    }
}

/// The replica total of a group is the sum, over its indexes, of
/// `store_size - pri_store_size`, where every index is consistent and that
/// sum fits a `u64`.
pub proof fn lemma_secondary_store_size_sum(stats: Seq<IndexStats>)
    requires
        forall|i: int| 0 <= i < stats.len() ==> (#[trigger] stats[i]).is_consistent(),
        total_store_less_primary(stats) <= u64::MAX,
    ensures
        aggregate_of(stats).sec_store_size_sum == total_store_less_primary(stats),
{
    lemma_secondary_total(stats);
}

/// While a sum fits a `u64`, the total of a group is that sum exactly.
pub proof fn lemma_aggregate_exact(stats: Seq<IndexStats>, m: Measure)
    requires
        total(stats, m) <= u64::MAX,
    ensures
        saturated(total(stats, m)) == total(stats, m),
{
}

} // verus!

//! The gauges that the exporter publishes, and the store that holds the
//! value last published for each of them.

use crate::elasticsearch::AggregateResult;
use vstd::prelude::*;

verus! {

/// The kinds of gauge. Each is labelled by a group.
#[derive(Clone, Copy, Debug, PartialEq, Eq, Hash, Structural)]
pub enum MetricKind {
    /// Number of indexes in the group.
    GroupedIndexes,
    /// Total stored size of the group, in bytes.
    StoreBytes,
    /// Size of the primary shards of the group, in bytes.
    PriStoreBytes,
    /// Size of all replicas of the group, in bytes.
    SecStoreBytes,
    /// Number of documents in the group.
    DocsCount,
    /// Number of deleted documents in the group.
    DocsDeleted,
    /// Number of indexes that a configured group asked for and that fit none
    /// of its groups. Labelled by the configured name as it stands.
    UngroupedIndexes,
}

/// The name under which a kind of gauge is exported.
pub open spec fn metric_name(kind: MetricKind) -> Seq<char> {
    match kind {
        MetricKind::GroupedIndexes => "esindex_grouped_indexes_total"@,
        MetricKind::StoreBytes => "esindex_store_bytes"@,
        MetricKind::PriStoreBytes => "esindex_pri_store_bytes"@,
        MetricKind::SecStoreBytes => "esindex_sec_store_bytes"@,
        MetricKind::DocsCount => "esindex_docs_count_total"@,
        MetricKind::DocsDeleted => "esindex_docs_deleted_total"@,
        MetricKind::UngroupedIndexes => "esindex_ungrouped_indexes_total"@,
    }
}

/// The help text of a kind of gauge.
pub open spec fn metric_help(kind: MetricKind) -> Seq<char> {
    match kind {
        MetricKind::GroupedIndexes => "Number of indexes in group"@,
        MetricKind::StoreBytes => "Total stored size of group in bytes"@,
        MetricKind::PriStoreBytes => "Total primary stored size of group in bytes"@,
        MetricKind::SecStoreBytes => "Total secondary (all replicas) stored size of group in bytes"@,
        MetricKind::DocsCount => "Total number of documents in group"@,
        MetricKind::DocsDeleted => "Total number of deleted documents in group"@,
        MetricKind::UngroupedIndexes => "Number of indexes that could not be made part of the group it was requested to be part of"@,
    }
}

/// What a group's totals say for a kind of gauge; nothing for the count of
/// ungrouped indexes, which is not a total of a group.
pub open spec fn metric_value(kind: MetricKind, totals: AggregateResult) -> Option<u64> {
    match kind {
        MetricKind::GroupedIndexes => Some(totals.index_count),
        MetricKind::StoreBytes => Some(totals.store_size_sum),
        MetricKind::PriStoreBytes => Some(totals.pri_store_size_sum),
        MetricKind::SecStoreBytes => Some(totals.sec_store_size_sum),
        MetricKind::DocsCount => Some(totals.docs_count_sum),
        MetricKind::DocsDeleted => Some(totals.docs_deleted_sum),
        MetricKind::UngroupedIndexes => None,
    }
}

impl MetricKind {
    /// The name under which this kind of gauge is exported.
    pub fn name(self) -> (name: &'static str)
        ensures
            name@ == metric_name(self),
    {
        match self {
            MetricKind::GroupedIndexes => "esindex_grouped_indexes_total",
            MetricKind::StoreBytes => "esindex_store_bytes",
            MetricKind::PriStoreBytes => "esindex_pri_store_bytes",
            MetricKind::SecStoreBytes => "esindex_sec_store_bytes",
            MetricKind::DocsCount => "esindex_docs_count_total",
            MetricKind::DocsDeleted => "esindex_docs_deleted_total",
            MetricKind::UngroupedIndexes => "esindex_ungrouped_indexes_total",
        }
    }

    /// The help text of this kind of gauge.
    pub fn help(self) -> (help: &'static str)
        ensures
            help@ == metric_help(self),
    {
        match self {
            MetricKind::GroupedIndexes => "Number of indexes in group",
            MetricKind::StoreBytes => "Total stored size of group in bytes",
            MetricKind::PriStoreBytes => "Total primary stored size of group in bytes",
            MetricKind::SecStoreBytes => "Total secondary (all replicas) stored size of group in bytes",
            MetricKind::DocsCount => "Total number of documents in group",
            MetricKind::DocsDeleted => "Total number of deleted documents in group",
            MetricKind::UngroupedIndexes => "Number of indexes that could not be made part of the group it was requested to be part of",
        }
    }

    /// Every kind of gauge, in the order in which they are registered.
    pub fn all() -> (kinds: Vec<MetricKind>)
        ensures
            kinds@ == seq![
                MetricKind::GroupedIndexes,
                MetricKind::StoreBytes,
                MetricKind::PriStoreBytes,
                MetricKind::SecStoreBytes,
                MetricKind::DocsCount,
                MetricKind::DocsDeleted,
                MetricKind::UngroupedIndexes,
            ],
    {
        let mut kinds: Vec<MetricKind> = Vec::new();
        kinds.push(MetricKind::GroupedIndexes);
        kinds.push(MetricKind::StoreBytes);
        kinds.push(MetricKind::PriStoreBytes);
        kinds.push(MetricKind::SecStoreBytes);
        kinds.push(MetricKind::DocsCount);
        kinds.push(MetricKind::DocsDeleted);
        kinds.push(MetricKind::UngroupedIndexes);
        assert(kinds@ =~= seq![
            MetricKind::GroupedIndexes,
            MetricKind::StoreBytes,
            MetricKind::PriStoreBytes,
            MetricKind::SecStoreBytes,
            MetricKind::DocsCount,
            MetricKind::DocsDeleted,
            MetricKind::UngroupedIndexes,
        ]);
        kinds
    }

    /// What a group's totals say for this kind of gauge.
    pub fn value_in(self, totals: &AggregateResult) -> (value: Option<u64>)
        ensures
            value == metric_value(self, *totals),
    {
        match self {
            MetricKind::GroupedIndexes => Some(totals.index_count),
            MetricKind::StoreBytes => Some(totals.store_size_sum),
            MetricKind::PriStoreBytes => Some(totals.pri_store_size_sum),
            MetricKind::SecStoreBytes => Some(totals.sec_store_size_sum),
            MetricKind::DocsCount => Some(totals.docs_count_sum),
            MetricKind::DocsDeleted => Some(totals.docs_deleted_sum),
            MetricKind::UngroupedIndexes => None,
        }
    }
}

/// One gauge: its kind, its `group` label and the value last published.
#[derive(Debug)]
pub struct Sample {
    pub kind: MetricKind,
    pub group: String,
    pub value: u64,
}

impl Sample {
    /// The gauge that this sample is the value of.
    pub open spec fn key(self) -> (MetricKind, Seq<char>) {
        (self.kind, self.group@)
    }
}

/// The gauges that a sequence of samples stands for, a later sample
/// replacing an earlier one of the same gauge.
pub open spec fn gauges_of(samples: Seq<Sample>) -> Map<(MetricKind, Seq<char>), u64>
    decreases samples.len(),
{
    if samples.len() == 0 {
        Map::empty()
    } else {
        gauges_of(samples.drop_last()).insert(samples.last().key(), samples.last().value)
    }
}

/// No gauge has two samples.
pub open spec fn one_sample_each(samples: Seq<Sample>) -> bool {
    forall|i: int, j: int|
        0 <= i < j < samples.len() ==> (#[trigger] samples[i]).key() != (
        #[trigger] samples[j]).key()
}

/// A gauge is there exactly if it has a sample.
proof fn lemma_gauges_dom(samples: Seq<Sample>, key: (MetricKind, Seq<char>))
    ensures
        gauges_of(samples).dom().contains(key) <==> exists|i: int|
            0 <= i < samples.len() && (#[trigger] samples[i]).key() == key,
    decreases samples.len(),
{
    if samples.len() > 0 {
        let before = samples.drop_last();
        lemma_gauges_dom(before, key);
        if exists|i: int| 0 <= i < before.len() && (#[trigger] before[i]).key() == key {
            let i = choose|i: int| 0 <= i < before.len() && (#[trigger] before[i]).key() == key;
            assert(samples[i].key() == key);
        }
        if exists|i: int| 0 <= i < samples.len() && (#[trigger] samples[i]).key() == key {
            let i = choose|i: int| 0 <= i < samples.len() && (#[trigger] samples[i]).key() == key;
            if i < before.len() {
                assert(before[i].key() == key);
            }
        }
    }
}

/// Where every gauge has one sample, it holds the value of that sample.
proof fn lemma_gauges_value(samples: Seq<Sample>, i: int)
    requires
        one_sample_each(samples),
        0 <= i < samples.len(),
    ensures
        gauges_of(samples).dom().contains(samples[i].key()),
        gauges_of(samples)[samples[i].key()] == samples[i].value,
    decreases samples.len(),
{
    let before = samples.drop_last();
    if i < samples.len() - 1 {
        assert(one_sample_each(before)) by {
            assert forall|a: int, b: int| 0 <= a < b < before.len() implies (
            #[trigger] before[a]).key() != (#[trigger] before[b]).key() by {
                assert(samples[a].key() != samples[b].key());
            }
        }
        lemma_gauges_value(before, i);
        assert(before[i] == samples[i]);
        assert(samples[i].key() != samples[samples.len() - 1].key());
    }
}

/// Replacing the value of a sample replaces the value of its gauge.
proof fn lemma_gauges_update(samples: Seq<Sample>, i: int, replaced: Sample)
    requires
        one_sample_each(samples),
        0 <= i < samples.len(),
        replaced.key() == samples[i].key(),
    ensures
        one_sample_each(samples.update(i, replaced)),
        gauges_of(samples.update(i, replaced)) == gauges_of(samples).insert(
            replaced.key(),
            replaced.value,
        ),
    decreases samples.len(),
{
    let updated = samples.update(i, replaced);
    let before = samples.drop_last();
    let last = samples.len() - 1;
    assert(one_sample_each(updated)) by {
        assert forall|a: int, b: int| 0 <= a < b < updated.len() implies (
        #[trigger] updated[a]).key() != (#[trigger] updated[b]).key() by {
            assert(samples[a].key() != samples[b].key());
        }
    }
    if i == last {
        assert(updated.drop_last() =~= before);
        assert(gauges_of(updated) =~= gauges_of(samples).insert(replaced.key(), replaced.value));
    } else {
        assert(one_sample_each(before)) by {
            assert forall|a: int, b: int| 0 <= a < b < before.len() implies (
            #[trigger] before[a]).key() != (#[trigger] before[b]).key() by {
                assert(samples[a].key() != samples[b].key());
            }
        }
        lemma_gauges_update(before, i, replaced);
        assert(updated.drop_last() =~= before.update(i, replaced));
        assert(updated.last() == samples.last());
        assert(samples[i].key() != samples[last].key());
        assert(gauges_of(updated) =~= gauges_of(samples).insert(replaced.key(), replaced.value));
    }
}

/// The value last published for each gauge.
///
/// A gauge keeps its value until it is set again: the store drops nothing,
/// so the gauges of a group that has disappeared from the cluster stay at
/// what was last published for it.
///
/// A gauge is set through `&mut`, one gauge at a time. Where a store is
/// shared between the refresh and the readers of the metrics it stands
/// behind a lock, and a reader finds each gauge at a value that was set,
/// never at one half written; it may find some groups refreshed and others
/// not yet.
#[derive(Debug)]
pub struct MetricStore {
    samples: Vec<Sample>,
}

impl View for MetricStore {
    type V = Map<(MetricKind, Seq<char>), u64>;

    closed spec fn view(&self) -> Map<(MetricKind, Seq<char>), u64> {
        gauges_of(self.samples@)
    }
}

impl MetricStore {
    /// The store holds one sample for each gauge that has a value.
    pub closed spec fn well_formed(self) -> bool {
        one_sample_each(self.samples@)
    }

    /// A store without gauges.
    pub fn new() -> (store: MetricStore)
        ensures
            store.well_formed(),
            store@ == Map::<(MetricKind, Seq<char>), u64>::empty(),
    {
        MetricStore { samples: Vec::new() }
    }

    /// Where the sample of a gauge stands.
    fn position(&self, kind: MetricKind, group: &String) -> (found: Option<usize>)
        ensures
            match found {
                Some(i) => i < self.samples@.len() && self.samples@[i as int].key() == (
                    kind,
                    group@,
                ),
                None => forall|i: int|
                    0 <= i < self.samples@.len() ==> (#[trigger] self.samples@[i]).key() != (
                        kind,
                        group@,
                    ),
            },
    {
        let mut i: usize = 0;
        while i < self.samples.len()
            invariant
                i <= self.samples@.len(),
                forall|j: int|
                    0 <= j < i ==> (#[trigger] self.samples@[j]).key() != (kind, group@),
            decreases self.samples@.len() - i,
        {
            if self.samples[i].kind == kind && self.samples[i].group == *group {
                return Some(i);
            }
            i += 1;
        }
        None
    }

    /// The value last published for a gauge, if any was.
    pub fn get(&self, kind: MetricKind, group: &str) -> (value: Option<u64>)
        requires
            self.well_formed(),
        ensures
            match value {
                Some(value) => self@.dom().contains((kind, group@)) && self@[(kind, group@)]
                    == value,
                None => !self@.dom().contains((kind, group@)),
            },
    {
        proof {
            lemma_gauges_dom(self.samples@, (kind, group@));
        }
        match self.position(kind, &group.to_owned()) {
            Some(i) => {
                proof {
                    lemma_gauges_value(self.samples@, i as int);
                }
                Some(self.samples[i].value)
            },
            None => None,
        }
    }

    /// Sets a gauge. The value replaces what the gauge held; every other
    /// gauge keeps its value.
    pub fn set(&mut self, kind: MetricKind, group: &str, value: u64)
        requires
            old(self).well_formed(),
        ensures
            final(self).well_formed(),
            final(self)@ == old(self)@.insert((kind, group@), value),
    {
        let label = group.to_owned();
        match self.position(kind, &label) {
            Some(i) => {
                proof {
                    lemma_gauges_update(
                        self.samples@,
                        i as int,
                        Sample { kind, group: self.samples@[i as int].group, value },
                    );
                }
                self.samples[i].value = value;
                assert(self.samples@ =~= old(self).samples@.update(
                    i as int,
                    Sample { kind, group: old(self).samples@[i as int].group, value },
                ));
            },
            None => {
                self.samples.push(Sample { kind, group: label, value });
                assert(self.samples@.drop_last() =~= old(self).samples@);
            },
        }
    }

    /// The number of gauges that hold a value.
    pub fn len(&self) -> (count: usize)
        requires
            self.well_formed(),
        ensures
            count == self@.dom().len(),
    {
        proof {
            lemma_gauges_len(self.samples@);
        }
        self.samples.len()
    }

    /// The gauges that hold a value, each once.
    pub fn samples(&self) -> (samples: &Vec<Sample>)
        requires
            self.well_formed(),
        ensures
            one_sample_each(samples@),
            gauges_of(samples@) == self@,
    {
        &self.samples
    }
}

/// Where every gauge has one sample, there are as many gauges as samples.
proof fn lemma_gauges_len(samples: Seq<Sample>)
    requires
        one_sample_each(samples),
    ensures
        gauges_of(samples).dom().finite(),
        gauges_of(samples).dom().len() == samples.len(),
    decreases samples.len(),
{
    if samples.len() > 0 {
        let before = samples.drop_last();
        assert(one_sample_each(before)) by {
            assert forall|a: int, b: int| 0 <= a < b < before.len() implies (
            #[trigger] before[a]).key() != (#[trigger] before[b]).key() by {
                assert(samples[a].key() != samples[b].key());
            }
        }
        lemma_gauges_len(before);
        lemma_gauges_dom(before, samples.last().key());
        if gauges_of(before).dom().contains(samples.last().key()) {
            let i = choose|i: int|
                0 <= i < before.len() && (#[trigger] before[i]).key() == samples.last().key();
            assert(samples[i].key() != samples[samples.len() - 1].key());
        }
    }
}

/// The gauges after the totals of a group are published under its name.
pub open spec fn with_group(
    gauges: Map<(MetricKind, Seq<char>), u64>,
    group: Seq<char>,
    totals: AggregateResult,
) -> Map<(MetricKind, Seq<char>), u64> {
    gauges.insert((MetricKind::GroupedIndexes, group), totals.index_count).insert(
        (MetricKind::StoreBytes, group),
        totals.store_size_sum,
    ).insert((MetricKind::PriStoreBytes, group), totals.pri_store_size_sum).insert(
        (MetricKind::SecStoreBytes, group),
        totals.sec_store_size_sum,
    ).insert((MetricKind::DocsCount, group), totals.docs_count_sum).insert(
        (MetricKind::DocsDeleted, group),
        totals.docs_deleted_sum,
    )
}

impl MetricStore {
    /// Publishes the totals of a group under its name: each of the six
    /// gauges of the group is set, and no other gauge changes.
    pub fn publish_group(&mut self, group: &str, totals: &AggregateResult)
        requires
            old(self).well_formed(),
        ensures
            final(self).well_formed(),
            final(self)@ == with_group(old(self)@, group@, *totals),
    {
        self.set(MetricKind::GroupedIndexes, group, totals.index_count);
        self.set(MetricKind::StoreBytes, group, totals.store_size_sum);
        self.set(MetricKind::PriStoreBytes, group, totals.pri_store_size_sum);
        self.set(MetricKind::SecStoreBytes, group, totals.sec_store_size_sum);
        self.set(MetricKind::DocsCount, group, totals.docs_count_sum);
        self.set(MetricKind::DocsDeleted, group, totals.docs_deleted_sum);
    }
}

/// After the totals of a group are published, each of its six gauges holds
/// what the totals say, and every gauge of another label, as well as the
/// count of ungrouped indexes under any label, is as before.
pub proof fn lemma_with_group(
    gauges: Map<(MetricKind, Seq<char>), u64>,
    group: Seq<char>,
    totals: AggregateResult,
    kind: MetricKind,
    label: Seq<char>,
)
    ensures
        label == group && kind != MetricKind::UngroupedIndexes ==> {
            &&& with_group(gauges, group, totals).dom().contains((kind, label))
            &&& Some(with_group(gauges, group, totals)[(kind, label)]) == metric_value(
                kind,
                totals,
            )
        },
        label != group || kind == MetricKind::UngroupedIndexes ==> {
            &&& with_group(gauges, group, totals).dom().contains((kind, label))
                == gauges.dom().contains((kind, label))
            &&& with_group(gauges, group, totals)[(kind, label)] == gauges[(kind, label)]
        },
{
}

} // verus!

//! One refresh: for each configured group in turn, ask the catalog for its
//! indexes, sort them into groups, and publish the totals of each group.

use crate::catalog::{cat_indices_url, cat_indices_url_of, FetchError};
use crate::configuration::Configuration;
use crate::elasticsearch::{aggregate_of, saturated, stats_of, CatIndexResult, CatIndices};
use crate::grouping::{names_of, partition_of, IndexGroupView, Partition, PartitionView};
use crate::metrics::{lemma_with_group, metric_value, with_group, MetricKind, MetricStore};
use crate::template::TemplateSubstitutionError;
use vstd::prelude::*;

verus! {

/// The gauges after the totals of each of the groups are published, in their
/// order.
pub open spec fn with_groups(
    gauges: Map<(MetricKind, Seq<char>), u64>,
    groups: Seq<IndexGroupView>,
) -> Map<(MetricKind, Seq<char>), u64>
    decreases groups.len(),
{
    if groups.len() == 0 {
        gauges
    } else {
        with_group(
            with_groups(gauges, groups.drop_last()),
            groups.last().name,
            aggregate_of(groups.last().stats),
        )
    }
}

/// The gauges after a partition is published: the number of ungrouped
/// indexes under the configured name as it stands, and the totals of each
/// group under the name of the group.
pub open spec fn with_partition(
    gauges: Map<(MetricKind, Seq<char>), u64>,
    configured_name: Seq<char>,
    partition: PartitionView,
) -> Map<(MetricKind, Seq<char>), u64> {
    with_groups(
        gauges.insert(
            (MetricKind::UngroupedIndexes, configured_name),
            saturated(partition.ungrouped.len()),
        ),
        partition.index_groups,
    )
}

/// Publishes the partition of a configured group.
pub fn publish_partition(store: &mut MetricStore, configured_name: &str, partition: &Partition)
    requires
        old(store).well_formed(),
        partition.well_formed(),
    ensures
        final(store).well_formed(),
        final(store)@ == with_partition(old(store)@, configured_name@, partition@),
{
    let ghost groups = partition@.index_groups;
    store.set(MetricKind::UngroupedIndexes, configured_name, partition.ungrouped.len() as u64);
    let ghost counted = store@;
    let mut k: usize = 0;
    while k < partition.index_groups.len()
        invariant
            k <= partition.index_groups.len(),
            partition.well_formed(),
            groups == partition@.index_groups,
            store.well_formed(),
            store@ == with_groups(counted, groups.take(k as int)),
        decreases partition.index_groups.len() - k,
    {
        let group = &partition.index_groups[k];
        proof {
            assert(groups.take(k + 1).drop_last() =~= groups.take(k as int));
            assert(groups.take(k + 1).last() == group@);
        }
        store.publish_group(group.name.as_str(), &group.cat_indices.aggregate_result());
        k += 1;
    }
    assert(groups.take(partition.index_groups.len() as int) =~= groups);
}

/// Why a refresh ended before all groups were published.
#[derive(Debug)]
pub enum CycleError {
    /// The indexes of the configured group of this name could not be had.
    Fetch { group: String, error: FetchError },
    /// An index of the configured group of this name has no group name.
    Template { group: String, unresolved: TemplateSubstitutionError },
}

/// How far a refresh has come.
#[derive(Clone, Copy, Debug, PartialEq, Eq, Structural)]
pub enum CycleState {
    /// No refresh is under way.
    Idle,
    /// The indexes of the configured group at this position were asked for.
    Awaiting(usize),
}

/// What happened outside.
#[derive(Debug)]
pub enum CycleEvent {
    /// It is time for a refresh.
    Started,
    /// The catalog was asked as requested, with this outcome.
    Fetched(Result<Vec<CatIndexResult>, FetchError>),
}

/// What is to be done outside.
#[derive(Debug)]
pub enum CycleAction {
    /// Ask the catalog at this URL and report the outcome.
    Fetch { url: String },
    /// The refresh is complete.
    Finish,
    /// The refresh ends here. What was published before stays published.
    Abort(CycleError),
}

/// The refresh moves on to the configured group at `position`: it asks for
/// the indexes of that group, ends if there is no such group, and fails if
/// the request has no URL.
pub open spec fn moves_on_to(
    configuration: Configuration,
    position: int,
    state: CycleState,
    action: CycleAction,
) -> bool {
    if position >= configuration.groups@.len() {
        state == CycleState::Idle && action is Finish
    } else {
        match cat_indices_url_of(
            configuration.base_url@,
            configuration.groups@[position]@.index_patterns,
        ) {
            Some(wanted) => {
                &&& state == CycleState::Awaiting(position as usize)
                &&& action matches CycleAction::Fetch { url }
                &&& url@ == wanted
            },
            None => {
                &&& state == CycleState::Idle
                &&& action matches CycleAction::Abort(CycleError::Fetch { group, error })
                &&& group@ == configuration.groups@[position]@.name
                &&& error is InvalidUrl
            },
        }
    }
}

/// The course of one refresh after another over the groups of a
/// configuration.
pub struct RefreshCycle<'a> {
    configuration: &'a Configuration,
    state: CycleState,
}

impl<'a> RefreshCycle<'a> {
    #[verifier::type_invariant]
    spec fn awaits_a_group(self) -> bool {
        self.state matches CycleState::Awaiting(position) ==> position
            < self.configuration.groups@.len()
    }

    /// How far the refresh has come.
    pub closed spec fn spec_state(&self) -> CycleState {
        self.state
    }

    /// The configuration whose groups are refreshed.
    pub closed spec fn configuration(&self) -> Configuration {
        *self.configuration
    }

    /// No refresh is under way yet.
    pub fn new(configuration: &'a Configuration) -> (cycle: RefreshCycle<'a>)
        ensures
            cycle.state() == CycleState::Idle,
            cycle.configuration() == *configuration,
    {
        RefreshCycle { configuration, state: CycleState::Idle }
    }

    /// How far the refresh has come.
    #[verifier::when_used_as_spec(spec_state)]
    pub fn state(&self) -> (state: CycleState)
        ensures
            state == self.spec_state(),
    {
        self.state
    }

    /// Moves on to the configured group at `position`.
    fn move_on_to(&mut self, position: usize) -> (action: CycleAction)
        ensures
            final(self).configuration() == old(self).configuration(),
            moves_on_to(old(self).configuration(), position as int, final(self).state(), action),
    {
        if position >= self.configuration.groups.len() {
            self.state = CycleState::Idle;
            return CycleAction::Finish;
        }
        let group = &self.configuration.groups[position];
        match cat_indices_url(self.configuration.base_url.as_str(), group.index_patterns()) {
            Ok(url) => {
                self.state = CycleState::Awaiting(position);
                CycleAction::Fetch { url }
            },
            Err(_) => {
                self.state = CycleState::Idle;
                CycleAction::Abort(
                    CycleError::Fetch { group: group.name().clone(), error: FetchError::InvalidUrl },
                )
            },
        }
    }

    /// Takes note of what happened and says what is to be done next.
    ///
    /// `Started` begins a refresh with the first configured group, whatever
    /// was under way. `Fetched` is the answer to the last `Fetch`: a failure
    /// ends the refresh; rows are sorted into the groups of the configured
    /// group that was asked for, the totals of each are published, and the
    /// refresh moves on to the next configured group. Rows in which a group
    /// name cannot be resolved end the refresh with nothing published for
    /// their configured group. `Fetched` while nothing was asked for changes
    /// nothing.
    pub fn step(&mut self, store: &mut MetricStore, event: CycleEvent) -> (action: CycleAction)
        requires
            old(store).well_formed(),
        ensures
            final(store).well_formed(),
            final(self).configuration() == old(self).configuration(),
            match event {
                CycleEvent::Started => {
                    &&& final(store)@ == old(store)@
                    &&& moves_on_to(old(self).configuration(), 0, final(self).state(), action)
                },
                CycleEvent::Fetched(fetched) => match old(self).state() {
                    CycleState::Idle => {
                        &&& final(store)@ == old(store)@
                        &&& final(self).state() == CycleState::Idle
                        &&& action is Finish
                    },
                    CycleState::Awaiting(position) => {
                        let asked = old(self).configuration().groups@[position as int]@;
                        match fetched {
                            Err(failure) => {
                                &&& final(store)@ == old(store)@
                                &&& final(self).state() == CycleState::Idle
                                &&& action matches CycleAction::Abort(
                                    CycleError::Fetch { group, error },
                                )
                                &&& group@ == asked.name
                                &&& error == failure
                            },
                            Ok(rows) => match partition_of(asked, stats_of(rows@)) {
                                Err(placeholder) => {
                                    &&& final(store)@ == old(store)@
                                    &&& final(self).state() == CycleState::Idle
                                    &&& action matches CycleAction::Abort(
                                        CycleError::Template { group, unresolved },
                                    )
                                    &&& group@ == asked.name
                                    &&& unresolved.placeholder@ == placeholder
                                },
                                Ok(partition) => {
                                    &&& final(store)@ == with_partition(
                                        old(store)@,
                                        asked.name,
                                        partition,
                                    )
                                    &&& moves_on_to(
                                        old(self).configuration(),
                                        position + 1,
                                        final(self).state(),
                                        action,
                                    )
                                },
                            },
                        }
                    },
                },
            },
    {
        proof {
            use_type_invariant(&*self);
        }
        match event {
            CycleEvent::Started => self.move_on_to(0),
            CycleEvent::Fetched(fetched) => match self.state {
                CycleState::Idle => CycleAction::Finish,
                CycleState::Awaiting(position) => {
                    let groups = &self.configuration.groups;
                    let group = &groups[position];
                    assert(position < groups.len());
                    match fetched {
                        Err(error) => {
                            self.state = CycleState::Idle;
                            CycleAction::Abort(
                                CycleError::Fetch { group: group.name().clone(), error },
                            )
                        },
                        Ok(rows) => match CatIndices::new(rows).group(group) {
                            Err(unresolved) => {
                                self.state = CycleState::Idle;
                                CycleAction::Abort(
                                    CycleError::Template {
                                        group: group.name().clone(),
                                        unresolved,
                                    },
                                )
                            },
                            Ok(partition) => {
                                publish_partition(store, group.name().as_str(), &partition);
                                self.move_on_to(position + 1)
                            },
                        },
                    }
                },
            },
        }
    }
}

/// Publishing groups leaves every gauge as it is whose label is the name of
/// none of them, and every count of ungrouped indexes: what was published
/// for a group that is there no longer stays.
pub proof fn lemma_with_groups_keeps_other_gauges(
    gauges: Map<(MetricKind, Seq<char>), u64>,
    groups: Seq<IndexGroupView>,
    kind: MetricKind,
    label: Seq<char>,
)
    requires
        kind == MetricKind::UngroupedIndexes || !names_of(groups).contains(label),
    ensures
        with_groups(gauges, groups).dom().contains((kind, label)) == gauges.dom().contains(
            (kind, label),
        ),
        with_groups(gauges, groups)[(kind, label)] == gauges[(kind, label)],
    decreases groups.len(),
{
    if groups.len() > 0 {
        let before = groups.drop_last();
        if kind != MetricKind::UngroupedIndexes {
            assert(names_of(groups)[groups.len() - 1] == groups.last().name);
            assert forall|k: int| 0 <= k < before.len() implies names_of(before)[k] != label by {
                assert(names_of(groups)[k] == names_of(before)[k]);
            }
        }
        lemma_with_groups_keeps_other_gauges(gauges, before, kind, label);
        lemma_with_group(
            with_groups(gauges, before),
            groups.last().name,
            aggregate_of(groups.last().stats),
            kind,
            label,
        );
    }
}

/// Where no two groups have one name, publishing them sets each of the six
/// gauges of each group to what the totals of that group say.
pub proof fn lemma_with_groups_sets_group_gauges(
    gauges: Map<(MetricKind, Seq<char>), u64>,
    groups: Seq<IndexGroupView>,
    k: int,
    kind: MetricKind,
)
    requires
        names_of(groups).no_duplicates(),
        0 <= k < groups.len(),
        kind != MetricKind::UngroupedIndexes,
    ensures
        with_groups(gauges, groups).dom().contains((kind, groups[k].name)),
        Some(with_groups(gauges, groups)[(kind, groups[k].name)]) == metric_value(
            kind,
            aggregate_of(groups[k].stats),
        ),
    decreases groups.len(),
{
    let before = groups.drop_last();
    let last = groups.len() - 1;
    lemma_with_group(
        with_groups(gauges, before),
        groups.last().name,
        aggregate_of(groups.last().stats),
        kind,
        groups[k].name,
    );
    if k < last {
        assert(names_of(groups)[k] != names_of(groups)[last]);
        assert(names_of(before).no_duplicates()) by {
            assert forall|i: int, j: int|
                0 <= i < before.len() && 0 <= j < before.len() && i != j implies names_of(
                before,
            )[i] != names_of(before)[j] by {
                assert(names_of(groups)[i] != names_of(groups)[j]);
            }
        }
        lemma_with_groups_sets_group_gauges(gauges, before, k, kind);
        assert(before[k] == groups[k]);
    }
}

/// After a partition whose groups have different names is published: the
/// count of ungrouped indexes under the configured name is the number of
/// ungrouped indexes; each of the six gauges of each group is what the totals
/// of the group say; and every other gauge is as before.
pub proof fn lemma_with_partition(
    gauges: Map<(MetricKind, Seq<char>), u64>,
    configured_name: Seq<char>,
    partition: PartitionView,
    kind: MetricKind,
    label: Seq<char>,
)
    requires
        names_of(partition.index_groups).no_duplicates(),
    ensures
        kind == MetricKind::UngroupedIndexes && label == configured_name ==> {
            &&& with_partition(gauges, configured_name, partition).dom().contains((kind, label))
            &&& with_partition(gauges, configured_name, partition)[(kind, label)] == saturated(
                partition.ungrouped.len(),
            )
        },
        kind != MetricKind::UngroupedIndexes ==> forall|k: int|
            0 <= k < partition.index_groups.len() && label == (
            #[trigger] partition.index_groups[k]).name ==> {
                &&& with_partition(gauges, configured_name, partition).dom().contains(
                    (kind, label),
                )
                &&& Some(with_partition(gauges, configured_name, partition)[(kind, label)])
                    == metric_value(kind, aggregate_of(partition.index_groups[k].stats))
            },
        (kind == MetricKind::UngroupedIndexes && label != configured_name) || (kind
            != MetricKind::UngroupedIndexes && !names_of(partition.index_groups).contains(label))
            ==> {
            &&& with_partition(gauges, configured_name, partition).dom().contains((kind, label))
                == gauges.dom().contains((kind, label))
            &&& with_partition(gauges, configured_name, partition)[(kind, label)] == gauges[(
                kind,
                label,
            )]
        },
{
    let counted = gauges.insert(
        (MetricKind::UngroupedIndexes, configured_name),
        saturated(partition.ungrouped.len()),
    );
    if kind == MetricKind::UngroupedIndexes || !names_of(partition.index_groups).contains(label) {
        lemma_with_groups_keeps_other_gauges(counted, partition.index_groups, kind, label);
    }
    if kind != MetricKind::UngroupedIndexes {
        assert forall|k: int|
            0 <= k < partition.index_groups.len() && label == (
            #[trigger] partition.index_groups[k]).name implies {
            &&& with_partition(gauges, configured_name, partition).dom().contains((kind, label))
            &&& Some(with_partition(gauges, configured_name, partition)[(kind, label)])
                == metric_value(kind, aggregate_of(partition.index_groups[k].stats))
        } by {
            lemma_with_groups_sets_group_gauges(counted, partition.index_groups, k, kind);
        }
    }
}

} // verus!

//! Sorting the indexes of a configured group into named groups.

use crate::configuration::{Group, GroupView};
use crate::elasticsearch::{stats_of, CatIndexResult, CatIndices, IndexStats};
use crate::pattern::{found_groups, pattern_captures, search_pattern};
use crate::template::{
    named_captures,
    resolve,
    resolve_template,
    CaptureGroup,
    CaptureGroupView,
    TemplateSubstitutionError,
};
use vstd::prelude::*;

verus! {

/// Where an index belongs.
pub enum Placement {
    /// The grouping regex does not match the index name.
    Ungrouped,
    /// The index belongs to the group of this name.
    Grouped(Seq<char>),
    /// The name template holds this placeholder, and the match captured
    /// nothing for it.
    Unresolved(Seq<char>),
}

/// Where an index belongs whose name the grouping regex was searched in,
/// with `found` as the outcome of the search.
pub open spec fn placement_of_match(
    template: Seq<char>,
    found: Option<Seq<CaptureGroupView>>,
) -> Placement {
    match found {
        None => Placement::Ungrouped,
        Some(groups) => match resolve(template, named_captures(groups)) {
            Ok(name) => Placement::Grouped(name),
            Err(placeholder) => Placement::Unresolved(placeholder),
        },
    }
}

/// Where the index of the given name belongs. Without a grouping regex every
/// index belongs to the group whose name is the configured name as it stands.
pub open spec fn placement(group: GroupView, index: Seq<char>) -> Placement {
    match group.grouping_regex {
        None => Placement::Grouped(group.name),
        Some(pattern) => placement_of_match(group.name, pattern_captures(pattern, index)),
    }
}

/// The key under which an index is filed: the name of its group, or `None`
/// for an index that stays ungrouped.
pub open spec fn key_of(placement: Placement) -> Option<Seq<char>> {
    match placement {
        Placement::Grouped(name) => Some(name),
        _ => None,
    }
}

/// The group names among the keys, each once, in the order in which they
/// first occur.
pub open spec fn group_names(keys: Seq<Option<Seq<char>>>) -> Seq<Seq<char>>
    decreases keys.len(),
{
    if keys.len() == 0 {
        Seq::empty()
    } else {
        let before = group_names(keys.drop_last());
        match keys.last() {
            Some(name) => if before.contains(name) {
                before
            } else {
                before.push(name)
            },
            None => before,
        }
    }
}

/// The indexes filed under `key`, in their order. `keys` and `stats` run in
/// step: `keys[i]` is the key of `stats[i]`.
pub open spec fn members(
    keys: Seq<Option<Seq<char>>>,
    stats: Seq<IndexStats>,
    key: Option<Seq<char>>,
) -> Seq<IndexStats>
    decreases keys.len(),
{
    if keys.len() == 0 || stats.len() != keys.len() {
        Seq::empty()
    } else {
        let before = members(keys.drop_last(), stats.drop_last(), key);
        if keys.last() == key {
            before.push(stats.last())
        } else {
            before
        }
    }
}

/// A name is among the group names exactly if it is one of the keys.
pub proof fn lemma_group_names_contains(keys: Seq<Option<Seq<char>>>, name: Seq<char>)
    ensures
        group_names(keys).contains(name) <==> keys.contains(Some(name)),
    decreases keys.len(),
{
    if keys.len() > 0 {
        let before = keys.drop_last();
        lemma_group_names_contains(before, name);
        if keys.contains(Some(name)) {
            let i = choose|i: int| 0 <= i < keys.len() && keys[i] == Some(name);
            if i < keys.len() - 1 {
                assert(before[i] == Some(name));
            }
        }
        if before.contains(Some(name)) {
            let i = choose|i: int| 0 <= i < before.len() && before[i] == Some(name);
            assert(keys[i] == Some(name));
        }
        let names = group_names(before);
        match keys.last() {
            Some(last) => {
                if !names.contains(last) {
                    assert(names.push(last).last() == last);
                    if names.push(last).contains(name) && name != last {
                        let k = choose|k: int|
                            0 <= k < names.push(last).len() && names.push(last)[k] == name;
                        assert(names[k] == name);
                    }
                    if names.contains(name) {
                        let k = choose|k: int| 0 <= k < names.len() && names[k] == name;
                        assert(names.push(last)[k] == name);
                    }
                }
                if last == name {
                    assert(keys[keys.len() - 1] == Some(name));
                }
            },
            None => {},
        }
    }
}

/// No name occurs twice among the group names.
pub proof fn lemma_group_names_distinct(keys: Seq<Option<Seq<char>>>)
    ensures
        group_names(keys).no_duplicates(),
    decreases keys.len(),
{
    if keys.len() > 0 {
        lemma_group_names_distinct(keys.drop_last());
    }
}

/// Nothing is filed under a key that does not occur.
pub proof fn lemma_members_of_absent_key(
    keys: Seq<Option<Seq<char>>>,
    stats: Seq<IndexStats>,
    key: Option<Seq<char>>,
)
    requires
        !keys.contains(key),
    ensures
        members(keys, stats, key) == Seq::<IndexStats>::empty(),
    decreases keys.len(),
{
    if keys.len() > 0 && stats.len() == keys.len() {
        let before = keys.drop_last();
        assert(keys[keys.len() - 1] != key);
        assert forall|i: int| 0 <= i < before.len() implies before[i] != key by {
            assert(keys[i] == before[i]);
        }
        lemma_members_of_absent_key(before, stats.drop_last(), key);
    }
}

/// One more index filed: the group names grow by its key if that is new.
proof fn lemma_group_names_push(keys: Seq<Option<Seq<char>>>, key: Option<Seq<char>>)
    ensures
        group_names(keys.push(key)) == match key {
            Some(name) => if group_names(keys).contains(name) {
                group_names(keys)
            } else {
                group_names(keys).push(name)
            },
            None => group_names(keys),
        },
{
    assert(keys.push(key).drop_last() =~= keys);
}

/// One more index filed: it joins the indexes under its own key, and no
/// others.
proof fn lemma_members_push(
    keys: Seq<Option<Seq<char>>>,
    stats: Seq<IndexStats>,
    key: Option<Seq<char>>,
    next: IndexStats,
    under: Option<Seq<char>>,
)
    requires
        keys.len() == stats.len(),
    ensures
        members(keys.push(key), stats.push(next), under) == if key == under {
            members(keys, stats, under).push(next)
        } else {
            members(keys, stats, under)
        },
{
    assert(keys.push(key).drop_last() =~= keys);
    assert(stats.push(next).drop_last() =~= stats);
}

/// A named group of indexes.
#[derive(Debug)]
pub struct IndexGroup {
    pub name: String,
    pub cat_indices: CatIndices,
}

/// What an `IndexGroup` stands for.
pub struct IndexGroupView {
    pub name: Seq<char>,
    pub stats: Seq<IndexStats>,
}

impl View for IndexGroup {
    type V = IndexGroupView;

    open spec fn view(&self) -> IndexGroupView {
        IndexGroupView { name: self.name@, stats: self.cat_indices.stats() }
    }
}

/// The indexes of a configured group, sorted into named groups, and those
/// that belong to none.
#[derive(Debug)]
pub struct Partition {
    pub index_groups: Vec<IndexGroup>,
    pub ungrouped: Vec<CatIndexResult>,
}

/// What a `Partition` stands for.
pub struct PartitionView {
    pub index_groups: Seq<IndexGroupView>,
    pub ungrouped: Seq<IndexStats>,
}

impl View for Partition {
    type V = PartitionView;

    open spec fn view(&self) -> PartitionView {
        PartitionView {
            index_groups: self.index_groups@.map_values(|group: IndexGroup| group@),
            ungrouped: stats_of(self.ungrouped@),
        }
    }
}

impl Partition {
    /// Each group holds the totals of its indexes.
    pub open spec fn well_formed(self) -> bool {
        forall|k: int|
            0 <= k < self.index_groups@.len() ==> (
            #[trigger] self.index_groups@[k]).cat_indices.well_formed()
    }
}

/// The keys of a sequence of filed indexes.
pub open spec fn filed_keys(filed: Seq<(Option<String>, CatIndexResult)>) -> Seq<
    Option<Seq<char>>,
> {
    filed.map_values(
        |pair: (Option<String>, CatIndexResult)|
            match pair.0 {
                Some(name) => Some(name@),
                None => None,
            },
    )
}

/// The statistics of a sequence of filed indexes.
pub open spec fn filed_stats(filed: Seq<(Option<String>, CatIndexResult)>) -> Seq<IndexStats> {
    filed.map_values(|pair: (Option<String>, CatIndexResult)| pair.1@)
}

/// The partition of indexes with the given keys: one group for each name
/// among the keys, in the order in which the names first occur, each with the
/// indexes of that key in their order; and the indexes without a key.
pub open spec fn partition_by_keys(
    keys: Seq<Option<Seq<char>>>,
    stats: Seq<IndexStats>,
) -> PartitionView {
    PartitionView {
        index_groups: group_names(keys).map_values(
            |name: Seq<char>| IndexGroupView { name, stats: members(keys, stats, Some(name)) },
        ),
        ungrouped: members(keys, stats, None),
    }
}

/// The position of `name` among the buckets.
fn find_bucket(buckets: &Vec<(String, Vec<CatIndexResult>)>, name: &String) -> (found: Option<
    usize,
>)
    ensures
        match found {
            Some(k) => k < buckets.len() && buckets[k as int].0@ == name@,
            None => forall|k: int| 0 <= k < buckets.len() ==> buckets[k].0@ != name@,
        },
{
    let mut k: usize = 0;
    while k < buckets.len()
        invariant
            k <= buckets.len(),
            forall|j: int| 0 <= j < k ==> buckets[j].0@ != name@,
        decreases buckets.len() - k,
    {
        if buckets[k].0 == *name {
            return Some(k);
        }
        k += 1;
    }
    None
}

/// The names of the buckets.
spec fn bucket_names(buckets: Seq<(String, Vec<CatIndexResult>)>) -> Seq<Seq<char>> {
    buckets.map_values(|bucket: (String, Vec<CatIndexResult>)| bucket.0@)
}

/// Sorts indexes by the key that each comes with: the name of its group, or
/// `None` for an index that belongs to no group.
pub fn file_by_keys(filed: Vec<(Option<String>, CatIndexResult)>) -> (partition: Partition)
    ensures
        partition@ == partition_by_keys(filed_keys(filed@), filed_stats(filed@)),
        partition.well_formed(),
{
    let ghost keys = filed_keys(filed@);
    let ghost stats = filed_stats(filed@);
    let mut buckets: Vec<(String, Vec<CatIndexResult>)> = Vec::new();
    let mut ungrouped: Vec<CatIndexResult> = Vec::new();
    for pair in it: filed
        invariant
            it.seq() == filed@,
            keys == filed_keys(filed@),
            stats == filed_stats(filed@),
            bucket_names(buckets@) == group_names(keys.take(it.index())),
            forall|k: int|
                0 <= k < buckets@.len() ==> stats_of((#[trigger] buckets@[k]).1@) == members(
                    keys.take(it.index()),
                    stats.take(it.index()),
                    Some(buckets@[k].0@),
                ),
            stats_of(ungrouped@) == members(
                keys.take(it.index()),
                stats.take(it.index()),
                None,
            ),
    {
        let ghost i = it.index();
        let ghost old_buckets = buckets@;
        let ghost old_ungrouped = ungrouped@;
        let ghost key = keys[i];
        let ghost seen = keys.take(i);
        proof {
            assert(keys.take(i + 1) =~= seen.push(key));
            assert(stats.take(i + 1) =~= stats.take(i).push(pair.1@));
            lemma_group_names_push(seen, key);
            lemma_group_names_distinct(seen);
            lemma_members_push(seen, stats.take(i), key, pair.1@, None);
            assert forall|k: int| 0 <= k < old_buckets.len() implies members(
                keys.take(i + 1),
                stats.take(i + 1),
                Some(#[trigger] old_buckets[k].0@),
            ) == if key == Some(old_buckets[k].0@) {
                members(seen, stats.take(i), Some(old_buckets[k].0@)).push(pair.1@)
            } else {
                members(seen, stats.take(i), Some(old_buckets[k].0@))
            } by {
                lemma_members_push(seen, stats.take(i), key, pair.1@, Some(old_buckets[k].0@));
            }
            assert forall|k: int| 0 <= k < old_buckets.len() implies group_names(seen)[k]
                == #[trigger] old_buckets[k].0@ by {
                assert(bucket_names(old_buckets)[k] == old_buckets[k].0@);
            }
        }
        let (name, row) = pair;
        match name {
            None => {
                ungrouped.push(row);
                proof {
                    assert(stats_of(ungrouped@) =~= stats_of(old_ungrouped).push(row@));
                }
            },
            Some(name) => {
                match find_bucket(&buckets, &name) {
                    Some(k) => {
                        buckets[k].1.push(row);
                        proof {
                            assert(group_names(seen)[k as int] == name@);
                            assert(bucket_names(buckets@) =~= bucket_names(old_buckets));
                            assert(stats_of(buckets@[k as int].1@) =~= stats_of(
                                old_buckets[k as int].1@,
                            ).push(row@));
                            assert forall|j: int| 0 <= j < buckets@.len() && j != k implies key
                                != Some(old_buckets[j].0@) by {
                                assert(group_names(seen)[j] != group_names(seen)[k as int]);
                            }
                        }
                    },
                    None => {
                        let mut rows: Vec<CatIndexResult> = Vec::new();
                        rows.push(row);
                        proof {
                            if group_names(seen).contains(name@) {
                                let j = choose|j: int|
                                    0 <= j < group_names(seen).len() && group_names(seen)[j]
                                        == name@;
                                assert(old_buckets[j].0@ == name@);
                            }
                            lemma_group_names_contains(seen, name@);
                            lemma_members_of_absent_key(seen, stats.take(i), key);
                            lemma_members_push(seen, stats.take(i), key, row@, key);
                            assert(stats_of(rows@) =~= Seq::<IndexStats>::empty().push(row@));
                        }
                        buckets.push((name, rows));
                        proof {
                            assert(bucket_names(buckets@) =~= bucket_names(old_buckets).push(
                                key->0,
                            ));
                        }
                    },
                }
            },
        }
    }
    proof {
        assert(keys.take(keys.len() as int) =~= keys);
        assert(stats.take(stats.len() as int) =~= stats);
    }
    let ghost names = group_names(keys);
    let ghost filled = buckets@;
    let mut index_groups: Vec<IndexGroup> = Vec::new();
    for bucket in it: buckets
        invariant
            it.seq() == filled,
            index_groups@.len() == it.index(),
            forall|k: int|
                0 <= k < index_groups@.len() ==> {
                    &&& (#[trigger] index_groups@[k]).name@ == filled[k].0@
                    &&& index_groups@[k].cat_indices.stats() == stats_of(filled[k].1@)
                    &&& index_groups@[k].cat_indices.well_formed()
                },
    {
        let (name, rows) = bucket;
        index_groups.push(IndexGroup { name, cat_indices: CatIndices::new(rows) });
    }
    let partition = Partition { index_groups, ungrouped };
    proof {
        let wanted = partition_by_keys(keys, stats);
        assert(partition@.index_groups.len() == wanted.index_groups.len()) by {
            assert(bucket_names(filled).len() == names.len());
        }
        assert forall|k: int| 0 <= k < wanted.index_groups.len() implies partition@.index_groups[k]
            == wanted.index_groups[k] by {
            assert(bucket_names(filled)[k] == filled[k].0@);
        }
        assert(partition@.index_groups =~= wanted.index_groups);
    }
    partition
}

/// Where each of the indexes belongs.
pub open spec fn placements(group: GroupView, stats: Seq<IndexStats>) -> Seq<Placement> {
    stats.map_values(|index: IndexStats| placement(group, index.index))
}

/// The placeholder that the first index failed on whose name could not be
/// resolved.
pub open spec fn first_unresolved(placements: Seq<Placement>) -> Option<Seq<char>>
    decreases placements.len(),
{
    if placements.len() == 0 {
        None
    } else {
        match placements[0] {
            Placement::Unresolved(placeholder) => Some(placeholder),
            _ => first_unresolved(placements.drop_first()),
        }
    }
}

/// The partition of the indexes of a configured group.
///
/// Without a grouping regex it is one group under the configured name, with
/// all the indexes; that group is there even when there is no index. With a
/// grouping regex each index goes where `placement` says. One index whose
/// name cannot be resolved makes the whole partition fail, with the
/// placeholder of the first such index.
pub open spec fn partition_of(group: GroupView, stats: Seq<IndexStats>) -> Result<
    PartitionView,
    Seq<char>,
> {
    match group.grouping_regex {
        None => Ok(
            PartitionView {
                index_groups: seq![IndexGroupView { name: group.name, stats }],
                ungrouped: Seq::empty(),
            },
        ),
        Some(_) => match first_unresolved(placements(group, stats)) {
            Some(placeholder) => Err(placeholder),
            None => Ok(
                partition_by_keys(
                    placements(group, stats).map_values(|placed: Placement| key_of(placed)),
                    stats,
                ),
            ),
        },
    }
}

/// Where an index belongs whose name the grouping regex was searched in,
/// with `found` as the outcome of the search: the name of its group, or
/// `None` where the regex did not match.
pub fn place_match(template: &str, found: &Option<Vec<CaptureGroup>>) -> (placed: Result<
    Option<String>,
    TemplateSubstitutionError,
>)
    ensures
        match placed {
            Ok(Some(name)) => placement_of_match(template@, found_groups(*found))
                == Placement::Grouped(name@),
            Ok(None) => placement_of_match(template@, found_groups(*found))
                == Placement::Ungrouped,
            Err(e) => placement_of_match(template@, found_groups(*found))
                == Placement::Unresolved(e.placeholder@),
        },
{
    match found {
        None => Ok(None),
        Some(groups) => match resolve_template(template, groups) {
            Ok(name) => Ok(Some(name)),
            Err(e) => Err(e),
        },
    }
}

/// Where the index of the given name belongs in a configured group: the name
/// of its group, or `None` where the grouping regex does not match.
pub fn place(group: &Group, index: &str) -> (placed: Result<
    Option<String>,
    TemplateSubstitutionError,
>)
    ensures
        match placed {
            Ok(Some(name)) => placement(group@, index@) == Placement::Grouped(name@),
            Ok(None) => placement(group@, index@) == Placement::Ungrouped,
            Err(e) => placement(group@, index@) == Placement::Unresolved(e.placeholder@),
        },
{
    match group.grouping_regex() {
        None => Ok(Some(group.name().clone())),
        Some(pattern) => match search_pattern(pattern.as_str(), index) {
            Ok(found) => place_match(group.name().as_str(), &found),
            Err(_) => vstd::pervasive::unreached(),
        },
    }
}

impl CatIndices {
    /// Sorts the indexes into the named groups of a configured group.
    pub fn group(self, group: &Group) -> (grouped: Result<Partition, TemplateSubstitutionError>)
        ensures
            match grouped {
                Ok(partition) => partition_of(group@, self.stats()) == Ok::<
                    PartitionView,
                    Seq<char>,
                >(partition@) && partition.well_formed(),
                Err(e) => partition_of(group@, self.stats()) == Err::<PartitionView, Seq<char>>(
                    e.placeholder@,
                ),
            },
    {
        let ghost stats = self.stats();
        if group.grouping_regex().is_none() {
            let mut index_groups: Vec<IndexGroup> = Vec::new();
            index_groups.push(
                IndexGroup {
                    name: group.name().clone(),
                    cat_indices: CatIndices::new(self.cat_index_results),
                },
            );
            let partition = Partition { index_groups, ungrouped: Vec::new() };
            proof {
                assert(partition@.index_groups =~= seq![
                    IndexGroupView { name: group@.name, stats },
                ]);
                assert(partition@.ungrouped =~= Seq::<IndexStats>::empty());
            }
            return Ok(partition);
        }
        let ghost placed = placements(group@, stats);
        let ghost keys = placed.map_values(|placed: Placement| key_of(placed));
        let mut filed: Vec<(Option<String>, CatIndexResult)> = Vec::new();
        proof {
            assert(placed.skip(0) =~= placed);
        }
        for row in it: self.cat_index_results
            invariant
                it.seq() == self.cat_index_results@,
                stats == stats_of(self.cat_index_results@),
                placed == placements(group@, stats),
                keys == placed.map_values(|placed: Placement| key_of(placed)),
                first_unresolved(placed) == first_unresolved(placed.skip(it.index())),
                filed_keys(filed@) == keys.take(it.index()),
                filed_stats(filed@) == stats.take(it.index()),
        {
            let ghost i = it.index();
            let ghost before = filed@;
            proof {
                assert(placed.skip(i)[0] == placed[i]);
                assert(placed.skip(i).drop_first() =~= placed.skip(i + 1));
                assert(placed[i] == placement(group@, row@.index));
            }
            match place(group, row.index.as_str()) {
                Ok(key) => {
                    filed.push((key, row));
                    proof {
                        assert(filed_keys(filed@) =~= filed_keys(before).push(keys[i]));
                        assert(filed_stats(filed@) =~= filed_stats(before).push(stats[i]));
                        assert(keys.take(i + 1) =~= keys.take(i).push(keys[i]));
                        assert(stats.take(i + 1) =~= stats.take(i).push(stats[i]));
                    }
                },
                Err(e) => {
                    return Err(e);
                },
            }
        }
        proof {
            assert(keys.take(keys.len() as int) =~= keys);
            assert(stats.take(stats.len() as int) =~= stats);
            assert(placed.skip(placed.len() as int) =~= Seq::<Placement>::empty());
        }
        Ok(file_by_keys(filed))
    }
}

/// What is filed under a key are the indexes that came with that key.
pub proof fn lemma_members_contains(
    keys: Seq<Option<Seq<char>>>,
    stats: Seq<IndexStats>,
    key: Option<Seq<char>>,
    index: IndexStats,
)
    requires
        keys.len() == stats.len(),
    ensures
        members(keys, stats, key).contains(index) <==> exists|i: int|
            0 <= i < keys.len() && keys[i] == key && stats[i] == index,
    decreases keys.len(),
{
    if keys.len() > 0 {
        let keys_before = keys.drop_last();
        let stats_before = stats.drop_last();
        let before = members(keys_before, stats_before, key);
        let last = keys.len() - 1;
        lemma_members_contains(keys_before, stats_before, key, index);
        if members(keys, stats, key).contains(index) {
            let at = choose|at: int|
                0 <= at < members(keys, stats, key).len() && members(keys, stats, key)[at]
                    == index;
            if keys[last] == key && at == before.len() {
                assert(keys[last] == key && stats[last] == index);
            } else {
                assert(before[at] == index);
                let i = choose|i: int|
                    0 <= i < keys_before.len() && keys_before[i] == key && stats_before[i]
                        == index;
                assert(keys[i] == key && stats[i] == index);
            }
        }
        if exists|i: int| 0 <= i < keys.len() && keys[i] == key && stats[i] == index {
            let i = choose|i: int| 0 <= i < keys.len() && keys[i] == key && stats[i] == index;
            if i == last {
                assert(members(keys, stats, key).last() == index);
            } else {
                assert(keys_before[i] == key && stats_before[i] == index);
                let at = choose|at: int| 0 <= at < before.len() && before[at] == index;
                assert(members(keys, stats, key)[at] == index);
            }
        }
    }
}

/// Without a grouping regex the partition is exactly one group, under the
/// configured name taken as it stands and with every index, and no index
/// stays ungrouped.
pub proof fn lemma_group_without_regex(group: GroupView, stats: Seq<IndexStats>)
    requires
        group.grouping_regex is None,
    ensures
        partition_of(group, stats) matches Ok(partition) && {
            &&& partition.index_groups.len() == 1
            &&& partition.index_groups[0].name == group.name
            &&& partition.index_groups[0].stats == stats
            &&& partition.ungrouped.len() == 0
        },
{
}

/// The group of an index whose name the grouping regex matches depends on
/// the name template and on the text captured under each name, and on
/// nothing else: two matches with the same named captures give the same
/// group.
pub proof fn lemma_group_name_depends_on_captures(
    template: Seq<char>,
    first: Seq<CaptureGroupView>,
    second: Seq<CaptureGroupView>,
)
    requires
        named_captures(first) == named_captures(second),
    ensures
        placement_of_match(template, Some(first)) == placement_of_match(template, Some(second)),
{
}

/// An index whose name the grouping regex does not match is among the
/// ungrouped indexes and in none of the groups.
pub proof fn lemma_unmatched_index_is_ungrouped(group: GroupView, stats: Seq<IndexStats>, i: int)
    requires
        0 <= i < stats.len(),
        group.grouping_regex matches Some(pattern) && pattern_captures(pattern, stats[i].index)
            is None,
        partition_of(group, stats) is Ok,
    ensures
        partition_of(group, stats) matches Ok(partition) && {
            &&& partition.ungrouped.contains(stats[i])
            &&& forall|k: int|
                0 <= k < partition.index_groups.len() ==> !(
                #[trigger] partition.index_groups[k]).stats.contains(stats[i])
        },
{
    let placed = placements(group, stats);
    let keys = placed.map_values(|placed: Placement| key_of(placed));
    let partition = partition_of(group, stats)->Ok_0;
    assert(keys[i] == None::<Seq<char>>);
    lemma_members_contains(keys, stats, None, stats[i]);
    assert forall|k: int| 0 <= k < partition.index_groups.len() implies !(
    #[trigger] partition.index_groups[k]).stats.contains(stats[i]) by {
        let name = group_names(keys)[k];
        lemma_members_contains(keys, stats, Some(name), stats[i]);
        if members(keys, stats, Some(name)).contains(stats[i]) {
            let j = choose|j: int|
                0 <= j < keys.len() && keys[j] == Some(name) && stats[j] == stats[i];
            assert(placed[j] == placement(group, stats[j].index));
            assert(placed[i] == placement(group, stats[i].index));
        }
    }
}

/// An index whose name resolves to a group name is in the group of that
/// name, in no other group, and not among the ungrouped indexes.
pub proof fn lemma_grouped_index_is_in_its_group(
    group: GroupView,
    stats: Seq<IndexStats>,
    i: int,
    name: Seq<char>,
)
    requires
        0 <= i < stats.len(),
        placement(group, stats[i].index) == Placement::Grouped(name),
        partition_of(group, stats) is Ok,
    ensures
        partition_of(group, stats) matches Ok(partition) && {
            &&& exists|k: int|
                0 <= k < partition.index_groups.len() && (
                #[trigger] partition.index_groups[k]).name == name
                    && partition.index_groups[k].stats.contains(stats[i])
            &&& forall|k: int|
                0 <= k < partition.index_groups.len() && (
                #[trigger] partition.index_groups[k]).stats.contains(stats[i])
                    ==> partition.index_groups[k].name == name
            &&& !partition.ungrouped.contains(stats[i])
        },
{
    let partition = partition_of(group, stats)->Ok_0;
    if group.grouping_regex is None {
        assert(stats[i] == stats[i]);
        assert(partition.index_groups[0].name == name && partition.index_groups[0].stats.contains(
            stats[i],
        ));
    } else {
        let placed = placements(group, stats);
        let keys = placed.map_values(|placed: Placement| key_of(placed));
        assert(placed[i] == placement(group, stats[i].index));
        assert(keys[i] == Some(name));
        lemma_group_names_contains(keys, name);
        let k = choose|k: int| 0 <= k < group_names(keys).len() && group_names(keys)[k] == name;
        lemma_members_contains(keys, stats, Some(name), stats[i]);
        assert(partition.index_groups[k].name == name && partition.index_groups[k].stats.contains(
            stats[i],
        ));
        assert forall|j: int|
            0 <= j < partition.index_groups.len() && (
            #[trigger] partition.index_groups[j]).stats.contains(
                stats[i],
            ) implies partition.index_groups[j].name == name by {
            let other = group_names(keys)[j];
            lemma_members_contains(keys, stats, Some(other), stats[i]);
            let at = choose|at: int|
                0 <= at < keys.len() && keys[at] == Some(other) && stats[at] == stats[i];
            assert(placed[at] == placement(group, stats[at].index));
        }
        lemma_members_contains(keys, stats, None, stats[i]);
        if partition.ungrouped.contains(stats[i]) {
            let at = choose|at: int|
                0 <= at < keys.len() && keys[at] == None::<Seq<char>> && stats[at] == stats[i];
            assert(placed[at] == placement(group, stats[at].index));
        }
    }
}

/// The names of a sequence of groups.
pub open spec fn names_of(groups: Seq<IndexGroupView>) -> Seq<Seq<char>> {
    groups.map_values(|group: IndexGroupView| group.name)
}

/// No two groups of the partition of a configured group have one name.
pub proof fn lemma_partition_names_differ(group: GroupView, stats: Seq<IndexStats>)
    requires
        partition_of(group, stats) is Ok,
    ensures
        partition_of(group, stats) matches Ok(partition) && names_of(
            partition.index_groups,
        ).no_duplicates(),
{
    let partition = partition_of(group, stats)->Ok_0;
    if group.grouping_regex is Some {
        let keys = placements(group, stats).map_values(|placed: Placement| key_of(placed));
        lemma_group_names_distinct(keys);
        assert(names_of(partition.index_groups) =~= group_names(keys));
    }
}

/// Indexes that all come with one name make one group of that name, with
/// all of them, and leave nothing ungrouped.
proof fn lemma_one_name(keys: Seq<Option<Seq<char>>>, stats: Seq<IndexStats>, name: Seq<char>)
    requires
        keys.len() == stats.len(),
        keys.len() > 0,
        forall|i: int| 0 <= i < keys.len() ==> keys[i] == Some(name),
    ensures
        group_names(keys) == seq![name],
        members(keys, stats, Some(name)) == stats,
        members(keys, stats, None) == Seq::<IndexStats>::empty(),
    decreases keys.len(),
{
    let keys_before = keys.drop_last();
    let stats_before = stats.drop_last();
    assert(keys.last() == Some(name));
    lemma_members_of_absent_key(keys, stats, None);
    if keys.len() == 1 {
        assert(group_names(keys_before) =~= Seq::<Seq<char>>::empty());
        assert(group_names(keys) =~= seq![name]);
        assert(members(keys_before, stats_before, Some(name)) =~= Seq::<IndexStats>::empty());
        assert(members(keys, stats, Some(name)) =~= stats);
    } else {
        assert forall|i: int| 0 <= i < keys_before.len() implies keys_before[i] == Some(name) by {
            assert(keys[i] == Some(name));
        }
        lemma_one_name(keys_before, stats_before, name);
        assert(group_names(keys_before)[0] == name);
        assert(members(keys, stats, Some(name)) =~= stats);
    }
}

/// Where every index has a place, none is unresolved.
proof fn lemma_none_unresolved(placed: Seq<Placement>)
    requires
        forall|i: int| 0 <= i < placed.len() ==> !(placed[i] is Unresolved),
    ensures
        first_unresolved(placed) is None,
    decreases placed.len(),
{
    if placed.len() > 0 {
        let rest = placed.drop_first();
        assert(!(placed[0] is Unresolved));
        assert forall|i: int| 0 <= i < rest.len() implies !(rest[i] is Unresolved) by {
            assert(rest[i] == placed[i + 1]);
        }
        lemma_none_unresolved(rest);
    }
}

/// Grouping again changes nothing: the indexes of one group of a partition,
/// grouped under the same configured group, make that group and no other,
/// and none of them stays ungrouped.
pub proof fn lemma_regrouping_keeps_a_group(group: GroupView, stats: Seq<IndexStats>, k: int)
    requires
        partition_of(group, stats) matches Ok(partition) && 0 <= k < partition.index_groups.len(),
    ensures
        partition_of(group, stats) matches Ok(partition) && partition_of(
            group,
            partition.index_groups[k].stats,
        ) == Ok::<PartitionView, Seq<char>>(
            PartitionView {
                index_groups: seq![partition.index_groups[k]],
                ungrouped: Seq::empty(),
            },
        ),
{
    let partition = partition_of(group, stats)->Ok_0;
    if group.grouping_regex is Some {
        let placed = placements(group, stats);
        let keys = placed.map_values(|placed: Placement| key_of(placed));
        let name = group_names(keys)[k];
        let inside = members(keys, stats, Some(name));
        assert(partition.index_groups[k] == IndexGroupView { name, stats: inside });
        lemma_group_names_contains(keys, name);
        let first = choose|j: int| 0 <= j < keys.len() && keys[j] == Some(name);
        lemma_members_contains(keys, stats, Some(name), stats[first]);
        let again = placements(group, inside);
        let keys_again = again.map_values(|placed: Placement| key_of(placed));
        assert forall|a: int| 0 <= a < inside.len() implies again[a] == Placement::Grouped(
            name,
        ) by {
            lemma_members_contains(keys, stats, Some(name), inside[a]);
            let j = choose|j: int| 0 <= j < keys.len() && keys[j] == Some(name) && stats[j]
                == inside[a];
            assert(placed[j] == placement(group, stats[j].index));
        }
        lemma_none_unresolved(again);
        assert forall|a: int| 0 <= a < keys_again.len() implies keys_again[a] == Some(name) by {
            assert(again[a] == Placement::Grouped(name));
        }
        lemma_one_name(keys_again, inside, name);
        let regrouped = partition_by_keys(keys_again, inside);
        assert(regrouped.index_groups =~= seq![partition.index_groups[k]]);
    } else {
        assert(partition.index_groups[0] == IndexGroupView { name: group.name, stats });
    }
}

} // verus!

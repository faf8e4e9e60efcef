use esindex_exporter::catalog::FetchError;
use esindex_exporter::configuration::{Configuration, Group};
use esindex_exporter::elasticsearch::{CatIndexResult, CatIndices};
use esindex_exporter::metrics::{MetricKind, MetricStore};
use esindex_exporter::refresh::{
    publish_partition, CycleAction, CycleError, CycleEvent, CycleState, RefreshCycle,
};

fn row(index: &str, docs: u64, deleted: u64, store: u64, pri: u64) -> CatIndexResult {
    CatIndexResult {
        index: index.to_string(),
        docs_count: docs,
        docs_deleted: deleted,
        store_size: store,
        pri_store_size: pri,
    }
}

fn alb_group() -> Group {
    Group::new(
        "${env}-alb".to_string(),
        vec!["*-alb-*".to_string()],
        Some("^(?<env>[^-]+)-alb".to_string()),
    )
    .unwrap()
}

fn static_group(name: &str, pattern: &str) -> Group {
    Group::new(name.to_string(), vec![pattern.to_string()], None).unwrap()
}

fn configuration(groups: Vec<Group>) -> Configuration {
    Configuration {
        refresh_interval_in_seconds: 60,
        base_url: "http://localhost:9200".to_string(),
        groups,
    }
}

fn url_of(action: CycleAction) -> String {
    match action {
        CycleAction::Fetch { url } => url,
        other => panic!("unexpected: {:?}", other),
    }
}

#[test]
fn published_metrics_of_two_environments() {
    let group = alb_group();
    let fetched = CatIndices::new(vec![
        row("integration-alb-2024.01", 10, 1, 1000, 600),
        row("preprod-alb-2024.01", 5, 0, 400, 400),
    ]);
    let partition = fetched.group(&group).unwrap();
    let mut store = MetricStore::new();
    publish_partition(&mut store, group.name(), &partition);
    assert_eq!(store.get(MetricKind::GroupedIndexes, "integration-alb"), Some(1));
    assert_eq!(store.get(MetricKind::DocsCount, "integration-alb"), Some(10));
    assert_eq!(store.get(MetricKind::DocsDeleted, "integration-alb"), Some(1));
    assert_eq!(store.get(MetricKind::StoreBytes, "integration-alb"), Some(1000));
    assert_eq!(store.get(MetricKind::PriStoreBytes, "integration-alb"), Some(600));
    assert_eq!(store.get(MetricKind::SecStoreBytes, "integration-alb"), Some(400));
    assert_eq!(store.get(MetricKind::GroupedIndexes, "preprod-alb"), Some(1));
    assert_eq!(store.get(MetricKind::DocsCount, "preprod-alb"), Some(5));
    assert_eq!(store.get(MetricKind::DocsDeleted, "preprod-alb"), Some(0));
    assert_eq!(store.get(MetricKind::StoreBytes, "preprod-alb"), Some(400));
    assert_eq!(store.get(MetricKind::PriStoreBytes, "preprod-alb"), Some(400));
    assert_eq!(store.get(MetricKind::SecStoreBytes, "preprod-alb"), Some(0));
    assert_eq!(store.get(MetricKind::UngroupedIndexes, "${env}-alb"), Some(0));
    assert_eq!(store.len(), 13);
}

#[test]
fn index_outside_the_regex_counts_as_ungrouped() {
    let group = alb_group();
    let fetched = CatIndices::new(vec![
        row("integration-alb-2024.01", 10, 1, 1000, 600),
        row("preprod-alb-2024.01", 5, 0, 400, 400),
        row("other-index", 77, 7, 7000, 700),
    ]);
    let partition = fetched.group(&group).unwrap();
    let mut store = MetricStore::new();
    publish_partition(&mut store, group.name(), &partition);
    assert_eq!(store.get(MetricKind::UngroupedIndexes, "${env}-alb"), Some(1));
    assert_eq!(store.get(MetricKind::GroupedIndexes, "integration-alb"), Some(1));
    assert_eq!(store.get(MetricKind::DocsCount, "integration-alb"), Some(10));
    assert_eq!(store.get(MetricKind::StoreBytes, "integration-alb"), Some(1000));
    assert_eq!(store.get(MetricKind::GroupedIndexes, "preprod-alb"), Some(1));
    assert_eq!(store.get(MetricKind::DocsCount, "preprod-alb"), Some(5));
    assert_eq!(store.get(MetricKind::StoreBytes, "preprod-alb"), Some(400));
    assert_eq!(store.get(MetricKind::GroupedIndexes, "other-index"), None);
    assert_eq!(store.len(), 13);
}

#[test]
fn refresh_asks_for_each_group_in_turn_and_publishes() {
    let configuration = configuration(vec![alb_group(), static_group("all-logs", "logs-*")]);
    let mut store = MetricStore::new();
    let mut cycle = RefreshCycle::new(&configuration);
    assert_eq!(cycle.state(), CycleState::Idle);

    let first = url_of(cycle.step(&mut store, CycleEvent::Started));
    assert_eq!(first, "http://localhost:9200/_cat/indices/*-alb-*");
    assert_eq!(cycle.state(), CycleState::Awaiting(0));
    assert_eq!(store.len(), 0);

    let rows = vec![row("integration-alb-2024.01", 10, 1, 1000, 600), row("zzz", 1, 1, 1, 1)];
    let second = url_of(cycle.step(&mut store, CycleEvent::Fetched(Ok(rows))));
    assert_eq!(second, "http://localhost:9200/_cat/indices/logs-*");
    assert_eq!(cycle.state(), CycleState::Awaiting(1));
    assert_eq!(store.get(MetricKind::UngroupedIndexes, "${env}-alb"), Some(1));
    assert_eq!(store.get(MetricKind::SecStoreBytes, "integration-alb"), Some(400));
    assert_eq!(store.len(), 7);

    let rows = vec![row("logs-1", 2, 0, 20, 10), row("logs-2", 3, 0, 30, 10)];
    let last = cycle.step(&mut store, CycleEvent::Fetched(Ok(rows)));
    assert!(matches!(last, CycleAction::Finish));
    assert_eq!(cycle.state(), CycleState::Idle);
    assert_eq!(store.get(MetricKind::UngroupedIndexes, "all-logs"), Some(0));
    assert_eq!(store.get(MetricKind::GroupedIndexes, "all-logs"), Some(2));
    assert_eq!(store.get(MetricKind::DocsCount, "all-logs"), Some(5));
    assert_eq!(store.get(MetricKind::SecStoreBytes, "all-logs"), Some(30));
    assert_eq!(store.len(), 14);
}

#[test]
fn refresh_without_groups_is_complete_at_once() {
    let configuration = configuration(Vec::new());
    let mut store = MetricStore::new();
    let mut cycle = RefreshCycle::new(&configuration);
    assert!(matches!(cycle.step(&mut store, CycleEvent::Started), CycleAction::Finish));
    assert_eq!(cycle.state(), CycleState::Idle);
    assert_eq!(store.len(), 0);
}

#[test]
fn failed_fetch_ends_the_refresh_and_keeps_what_was_published() {
    let configuration = configuration(vec![
        static_group("first", "a-*"),
        static_group("second", "b-*"),
        static_group("third", "c-*"),
    ]);
    let mut store = MetricStore::new();
    store.set(MetricKind::DocsCount, "second", 41);
    store.set(MetricKind::DocsCount, "third", 42);
    let mut cycle = RefreshCycle::new(&configuration);
    url_of(cycle.step(&mut store, CycleEvent::Started));
    url_of(cycle.step(&mut store, CycleEvent::Fetched(Ok(vec![row("a-1", 9, 0, 0, 0)]))));
    let action = cycle.step(&mut store, CycleEvent::Fetched(Err(FetchError::Status(503))));
    match action {
        CycleAction::Abort(CycleError::Fetch { group, error }) => {
            assert_eq!(group, "second");
            assert!(matches!(error, FetchError::Status(503)));
        }
        other => panic!("unexpected: {:?}", other),
    }
    assert_eq!(cycle.state(), CycleState::Idle);
    assert_eq!(store.get(MetricKind::DocsCount, "first"), Some(9));
    assert_eq!(store.get(MetricKind::DocsCount, "second"), Some(41));
    assert_eq!(store.get(MetricKind::DocsCount, "third"), Some(42));
    assert_eq!(store.get(MetricKind::GroupedIndexes, "second"), None);
}

#[test]
fn refresh_after_a_failed_one_starts_with_the_first_group_again() {
    let configuration = configuration(vec![static_group("first", "a-*")]);
    let mut store = MetricStore::new();
    let mut cycle = RefreshCycle::new(&configuration);
    url_of(cycle.step(&mut store, CycleEvent::Started));
    let failure = FetchError::Transport("connection refused".to_string());
    let action = cycle.step(&mut store, CycleEvent::Fetched(Err(failure)));
    assert!(matches!(action, CycleAction::Abort(CycleError::Fetch { .. })));
    assert_eq!(store.len(), 0);
    let url = url_of(cycle.step(&mut store, CycleEvent::Started));
    assert_eq!(url, "http://localhost:9200/_cat/indices/a-*");
    let action = cycle.step(&mut store, CycleEvent::Fetched(Ok(vec![row("a-1", 9, 0, 0, 0)])));
    assert!(matches!(action, CycleAction::Finish));
    assert_eq!(store.get(MetricKind::DocsCount, "first"), Some(9));
}

#[test]
fn unresolved_placeholder_ends_the_refresh_with_nothing_published_for_the_group() {
    let broken = Group::new(
        "${environment}-alb".to_string(),
        vec!["*-alb-*".to_string()],
        Some("^(?<env>[^-]+)-alb".to_string()),
    )
    .unwrap();
    let configuration = configuration(vec![static_group("first", "a-*"), broken]);
    let mut store = MetricStore::new();
    let mut cycle = RefreshCycle::new(&configuration);
    url_of(cycle.step(&mut store, CycleEvent::Started));
    url_of(cycle.step(&mut store, CycleEvent::Fetched(Ok(vec![row("a-1", 9, 0, 0, 0)]))));
    let rows = vec![row("zzz", 1, 0, 0, 0), row("integration-alb-1", 1, 0, 0, 0)];
    match cycle.step(&mut store, CycleEvent::Fetched(Ok(rows))) {
        CycleAction::Abort(CycleError::Template { group, unresolved }) => {
            assert_eq!(group, "${environment}-alb");
            assert_eq!(unresolved.placeholder, "environment");
        }
        other => panic!("unexpected: {:?}", other),
    }
    assert_eq!(cycle.state(), CycleState::Idle);
    assert_eq!(store.get(MetricKind::DocsCount, "first"), Some(9));
    assert_eq!(store.get(MetricKind::UngroupedIndexes, "${environment}-alb"), None);
    assert_eq!(store.len(), 7);
}

#[test]
fn base_url_that_is_none_ends_the_refresh() {
    let configuration = Configuration {
        refresh_interval_in_seconds: 60,
        base_url: "localhost".to_string(),
        groups: vec![static_group("first", "a-*")],
    };
    let mut store = MetricStore::new();
    let mut cycle = RefreshCycle::new(&configuration);
    match cycle.step(&mut store, CycleEvent::Started) {
        CycleAction::Abort(CycleError::Fetch { group, error }) => {
            assert_eq!(group, "first");
            assert!(matches!(error, FetchError::InvalidUrl));
        }
        other => panic!("unexpected: {:?}", other),
    }
    assert_eq!(cycle.state(), CycleState::Idle);
}

#[test]
fn answer_that_was_not_asked_for_changes_nothing() {
    let configuration = configuration(vec![static_group("first", "a-*")]);
    let mut store = MetricStore::new();
    let mut cycle = RefreshCycle::new(&configuration);
    let action = cycle.step(&mut store, CycleEvent::Fetched(Ok(vec![row("a-1", 9, 0, 0, 0)])));
    assert!(matches!(action, CycleAction::Finish));
    assert_eq!(cycle.state(), CycleState::Idle);
    assert_eq!(store.len(), 0);
}

#[test]
fn group_that_disappears_keeps_its_last_values() {
    let configuration = configuration(vec![alb_group()]);
    let mut store = MetricStore::new();
    let mut cycle = RefreshCycle::new(&configuration);
    url_of(cycle.step(&mut store, CycleEvent::Started));
    let rows = vec![row("integration-alb-1", 10, 0, 100, 50), row("preprod-alb-1", 5, 0, 50, 50)];
    cycle.step(&mut store, CycleEvent::Fetched(Ok(rows)));
    url_of(cycle.step(&mut store, CycleEvent::Started));
    let rows = vec![row("integration-alb-1", 20, 0, 200, 50)];
    cycle.step(&mut store, CycleEvent::Fetched(Ok(rows)));
    assert_eq!(store.get(MetricKind::DocsCount, "integration-alb"), Some(20));
    assert_eq!(store.get(MetricKind::DocsCount, "preprod-alb"), Some(5));
    assert_eq!(store.get(MetricKind::StoreBytes, "preprod-alb"), Some(50));
}

use esindex_exporter::configuration::{Configuration, ConfigurationError, Group};

#[test]
fn group_keeps_what_it_was_made_with() {
    let group = Group::new(
        "${env}-alb".to_string(),
        vec!["*-alb-*".to_string(), "alb".to_string()],
        Some("^(?<env>[^-]+)-alb".to_string()),
    )
    .unwrap();
    assert_eq!(group.name(), "${env}-alb");
    assert_eq!(group.index_patterns(), &vec!["*-alb-*".to_string(), "alb".to_string()]);
    assert_eq!(group.grouping_regex(), Some(&"^(?<env>[^-]+)-alb".to_string()));
}

#[test]
fn group_without_regex() {
    let group = Group::new("all".to_string(), vec!["*".to_string()], None).unwrap();
    assert_eq!(group.name(), "all");
    assert_eq!(group.grouping_regex(), None);
}

#[test]
fn regex_that_does_not_compile_is_refused() {
    let refused = Group::new(
        "broken".to_string(),
        vec!["*".to_string()],
        Some("^(?<env>[^-]+-alb".to_string()),
    );
    match refused {
        Err(ConfigurationError::InvalidGroupingRegex { group, grouping_regex, reason }) => {
            assert_eq!(group, "broken");
            assert_eq!(grouping_regex, "^(?<env>[^-]+-alb");
            assert!(!reason.is_empty());
        }
        Ok(group) => panic!("unexpected: {:?}", group),
    }
}

#[test]
fn regex_with_two_groups_of_one_name_is_refused() {
    let refused = Group::new(
        "twice".to_string(),
        Vec::new(),
        Some("(?<a>x)(?<a>y)".to_string()),
    );
    assert!(refused.is_err());
}

#[test]
fn default_refresh_interval_is_a_minute() {
    assert_eq!(Configuration::default_refresh_interval_in_seconds(), 60);
}

//! What the exporter is configured with: the cluster, the refresh interval
//! and the groups of indexes.

use crate::pattern::{compile_pattern, pattern_compiles, refusal_text};
use vstd::prelude::*;

verus! {

/// Why a configuration is refused.
#[derive(Debug)]
pub enum ConfigurationError {
    /// The grouping regex of a group does not compile.
    InvalidGroupingRegex { group: String, grouping_regex: String, reason: String },
}

/// What a `Group` stands for.
pub struct GroupView {
    pub name: Seq<char>,
    pub index_patterns: Seq<Seq<char>>,
    pub grouping_regex: Option<Seq<char>>,
}

/// The texts that a sequence of strings stands for.
pub open spec fn texts_of(strings: Seq<String>) -> Seq<Seq<char>> {
    strings.map_values(|s: String| s@)
}

/// A group of indexes to monitor.
///
/// `name` is the `group` label of the group's metrics. With a grouping regex
/// it is a template: each `${name}` in it stands for what the capture group
/// of that name matched in an index name, so that one configured group can
/// yield several labels. `index_patterns` are the patterns that the catalog
/// is asked for. A grouping regex that a `Group` holds always compiles.
#[derive(Debug)]
pub struct Group {
    name: String,
    index_patterns: Vec<String>,
    grouping_regex: Option<String>,
}

impl View for Group {
    type V = GroupView;

    closed spec fn view(&self) -> GroupView {
        GroupView {
            name: self.name@,
            index_patterns: texts_of(self.index_patterns@),
            grouping_regex: match self.grouping_regex {
                Some(pattern) => Some(pattern@),
                None => None,
            },
        }
    }
}

impl Group {
    #[verifier::type_invariant]
    spec fn grouping_regex_compiles(self) -> bool {
        self.grouping_regex matches Some(pattern) ==> pattern_compiles(pattern@)
    }

    /// A group, unless its grouping regex does not compile.
    pub fn new(name: String, index_patterns: Vec<String>, grouping_regex: Option<String>) -> (made:
        Result<Group, ConfigurationError>)
        ensures
            match made {
                Ok(group) => {
                    &&& group@.name == name@
                    &&& group@.index_patterns == texts_of(index_patterns@)
                    &&& match grouping_regex {
                        Some(pattern) => pattern_compiles(pattern@) && group@.grouping_regex
                            == Some(pattern@),
                        None => group@.grouping_regex is None,
                    }
                },
                Err(ConfigurationError::InvalidGroupingRegex { group, grouping_regex: refused, .. }) => {
                    &&& group@ == name@
                    &&& grouping_regex matches Some(pattern)
                    &&& !pattern_compiles(pattern@)
                    &&& refused@ == pattern@
                },
            },
    {
        match grouping_regex {
            Some(pattern) => match compile_pattern(pattern.as_str()) {
                Ok(()) => Ok(Group { name, index_patterns, grouping_regex: Some(pattern) }),
                Err(error) => Err(
                    ConfigurationError::InvalidGroupingRegex {
                        group: name,
                        grouping_regex: pattern,
                        reason: refusal_text(&error),
                    },
                ),
            },
            None => Ok(Group { name, index_patterns, grouping_regex: None }),
        }
    }

    /// The configured name: a label, or a template of labels.
    pub fn name(&self) -> (name: &String)
        ensures
            name@ == self@.name,
    {
        &self.name
    }

    /// The patterns that the catalog is asked for.
    pub fn index_patterns(&self) -> (patterns: &Vec<String>)
        ensures
            texts_of(patterns@) == self@.index_patterns,
    {
        &self.index_patterns
    }

    /// The grouping regex, if the group has one. It compiles.
    pub fn grouping_regex(&self) -> (pattern: Option<&String>)
        ensures
            match pattern {
                Some(pattern) => self@.grouping_regex == Some(pattern@) && pattern_compiles(
                    pattern@,
                ),
                None => self@.grouping_regex is None,
            },
    {
        proof {
            use_type_invariant(self);
        }
        self.grouping_regex.as_ref()
    }
}

/// The configuration of the exporter.
#[derive(Debug)]
pub struct Configuration {
    /// The interval, in seconds, in which the metrics are refreshed.
    pub refresh_interval_in_seconds: u64,
    /// The base URL of the cluster.
    pub base_url: String,
    /// The groups of indexes to monitor.
    pub groups: Vec<Group>,
}

impl Configuration {
    /// The refresh interval of a configuration that names none.
    pub fn default_refresh_interval_in_seconds() -> (seconds: u64)
        ensures
            seconds == 60,
    {
        60
    }
}

} // verus!

use esindex_exporter::template::{captured_text, chars_of, resolve_template, CaptureGroup};

fn group(name: Option<&str>, text: Option<&str>) -> CaptureGroup {
    CaptureGroup { name: name.map(String::from), text: text.map(String::from) }
}

fn env_and_kind() -> Vec<CaptureGroup> {
    vec![
        group(None, Some("integration-alb")),
        group(Some("env"), Some("integration")),
        group(Some("kind"), Some("alb")),
        group(Some("year"), None),
    ]
}

#[test]
fn placeholder_is_replaced_by_the_captured_text() {
    let name = resolve_template("${env}-alb", &env_and_kind()).unwrap();
    assert_eq!(name, "integration-alb");
}

#[test]
fn several_placeholders_and_text_around_them() {
    let name = resolve_template("x.${kind}.${env}.${kind}!", &env_and_kind()).unwrap();
    assert_eq!(name, "x.alb.integration.alb!");
}

#[test]
fn template_without_placeholder_stays_as_it_is() {
    assert_eq!(resolve_template("plain-name", &env_and_kind()).unwrap(), "plain-name");
    assert_eq!(resolve_template("", &env_and_kind()).unwrap(), "");
    assert_eq!(resolve_template("plain-name", &Vec::new()).unwrap(), "plain-name");
}

#[test]
fn dollar_without_braced_name_is_text() {
    let captures = env_and_kind();
    assert_eq!(resolve_template("$env", &captures).unwrap(), "$env");
    assert_eq!(resolve_template("cost$", &captures).unwrap(), "cost$");
    assert_eq!(resolve_template("$$${env}", &captures).unwrap(), "$$integration");
    assert_eq!(resolve_template("{env}", &captures).unwrap(), "{env}");
    assert_eq!(resolve_template("}${env}{", &captures).unwrap(), "}integration{");
}

#[test]
fn unclosed_placeholder_is_text() {
    let captures = env_and_kind();
    assert_eq!(resolve_template("${env", &captures).unwrap(), "${env");
    assert_eq!(resolve_template("${env}-${kind", &captures).unwrap(), "integration-${kind");
    assert_eq!(resolve_template("${", &captures).unwrap(), "${");
}

#[test]
fn unknown_placeholder_fails_with_its_name() {
    let error = resolve_template("${environment}-alb", &env_and_kind()).unwrap_err();
    assert_eq!(error.placeholder, "environment");
}

#[test]
fn first_unknown_placeholder_is_reported() {
    let error = resolve_template("${env}-${b}-${a}", &env_and_kind()).unwrap_err();
    assert_eq!(error.placeholder, "b");
}

#[test]
fn group_that_took_no_part_in_the_match_fails() {
    let error = resolve_template("logs-${year}", &env_and_kind()).unwrap_err();
    assert_eq!(error.placeholder, "year");
}

#[test]
fn empty_placeholder_name_fails() {
    let error = resolve_template("a${}b", &env_and_kind()).unwrap_err();
    assert_eq!(error.placeholder, "");
}

#[test]
fn placeholder_name_runs_to_the_first_closing_brace() {
    let captures = vec![group(Some("a{b"), Some("X")), group(Some("${a"), Some("Y"))];
    assert_eq!(resolve_template("${a{b}}", &captures).unwrap(), "X}");
    let error = resolve_template("${${a}}", &env_and_kind()).unwrap_err();
    assert_eq!(error.placeholder, "${a");
}

#[test]
fn captured_text_is_not_resolved_again() {
    let captures = vec![group(Some("a"), Some("${b}")), group(Some("b"), Some("B"))];
    assert_eq!(resolve_template("${a}${b}", &captures).unwrap(), "${b}B");
}

#[test]
fn names_are_not_ascii_only() {
    let captures = vec![group(Some("umgebung"), Some("prüfung"))];
    assert_eq!(resolve_template("é-${umgebung}-ü", &captures).unwrap(), "é-prüfung-ü");
}

#[test]
fn captured_text_by_name() {
    let captures = env_and_kind();
    assert_eq!(captured_text(&captures, &"env".to_string()).unwrap(), "integration");
    assert_eq!(captured_text(&captures, &"kind".to_string()).unwrap(), "alb");
    assert!(captured_text(&captures, &"year".to_string()).is_none());
    assert!(captured_text(&captures, &"other".to_string()).is_none());
    assert!(captured_text(&Vec::new(), &"env".to_string()).is_none());
}

#[test]
fn chars_of_a_text() {
    assert_eq!(chars_of("a${b}"), vec!['a', '$', '{', 'b', '}']);
    assert_eq!(chars_of("é"), vec!['é']);
    assert!(chars_of("").is_empty());
}

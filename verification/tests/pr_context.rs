use termica::pr_context::{parse_pr_view, CiStatus};

#[test]
fn open_pr_all_checks_pass_is_passing() {
    let json = r#"{"number":124,"state":"OPEN","statusCheckRollup":[
        {"__typename":"CheckRun","status":"COMPLETED","conclusion":"SUCCESS"},
        {"__typename":"CheckRun","status":"COMPLETED","conclusion":"NEUTRAL"}
    ]}"#;
    let pr = parse_pr_view(json).expect("open PR");
    assert_eq!(pr.number, 124);
    assert_eq!(pr.ci, CiStatus::Passing);
}

#[test]
fn any_failure_dominates() {
    let json = r#"{"number":7,"state":"OPEN","statusCheckRollup":[
        {"__typename":"CheckRun","status":"COMPLETED","conclusion":"SUCCESS"},
        {"__typename":"CheckRun","status":"COMPLETED","conclusion":"FAILURE"},
        {"__typename":"CheckRun","status":"IN_PROGRESS","conclusion":null}
    ]}"#;
    assert_eq!(parse_pr_view(json).unwrap().ci, CiStatus::Failing);
}

#[test]
fn in_progress_without_failure_is_pending() {
    let json = r#"{"number":7,"state":"OPEN","statusCheckRollup":[
        {"__typename":"CheckRun","status":"COMPLETED","conclusion":"SUCCESS"},
        {"__typename":"CheckRun","status":"IN_PROGRESS","conclusion":null}
    ]}"#;
    assert_eq!(parse_pr_view(json).unwrap().ci, CiStatus::Pending);
}

#[test]
fn legacy_status_context_state_is_read() {
    let json = r#"{"number":9,"state":"OPEN","statusCheckRollup":[
        {"__typename":"StatusContext","state":"PENDING"},
        {"__typename":"StatusContext","state":"SUCCESS"}
    ]}"#;
    assert_eq!(parse_pr_view(json).unwrap().ci, CiStatus::Pending);
    let failing = r#"{"number":9,"state":"OPEN","statusCheckRollup":[
        {"__typename":"StatusContext","state":"ERROR"}
    ]}"#;
    assert_eq!(parse_pr_view(failing).unwrap().ci, CiStatus::Failing);
}

#[test]
fn no_checks_is_ci_none() {
    let json = r#"{"number":3,"state":"OPEN","statusCheckRollup":[]}"#;
    assert_eq!(parse_pr_view(json).unwrap().ci, CiStatus::NoChecks);
}

#[test]
fn merged_or_closed_pr_yields_none() {
    let merged = r#"{"number":124,"state":"MERGED","statusCheckRollup":[]}"#;
    assert_eq!(parse_pr_view(merged), None);
    let closed = r#"{"number":5,"state":"CLOSED","statusCheckRollup":[]}"#;
    assert_eq!(parse_pr_view(closed), None);
}

#[test]
fn garbage_json_is_none() {
    assert_eq!(parse_pr_view("not json"), None);
    assert_eq!(parse_pr_view(""), None);
}

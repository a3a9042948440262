use makerpnp::planning::report::{build_report_file_path, project_report_sort_issues, IssueKind, IssueSeverity, ProjectReportIssue};
use makerpnp::pnp::object_path::ObjectPath;
use makerpnp::pnp::part::Part;

fn issue(message: &str, severity: IssueSeverity, kind: IssueKind) -> ProjectReportIssue {
    ProjectReportIssue { message: message.to_string(), severity, kind }
}

fn path(text: &str) -> ObjectPath {
    ObjectPath::from_str(text).expect("always ok")
}

#[test]
fn sort_by_severity_with_equal_message_and_kind() {
    // given
    let issue1 = issue("EQUAL", IssueSeverity::Severe, IssueKind::NoPcbsAssigned);
    let issue2 = issue("EQUAL", IssueSeverity::Warning, IssueKind::NoPcbsAssigned);
    let mut issues: Vec<ProjectReportIssue> = vec![issue2.clone(), issue1.clone()];
    let expected_issues: Vec<ProjectReportIssue> = vec![issue1.clone(), issue2.clone()];
    // when
    project_report_sort_issues(&mut issues);
    // then
    assert_eq!(&issues, &expected_issues);
}

#[test]
fn sort_by_message_with_severity_and_kind() {
    // given
    let issue1 = issue("MESSAGE_1", IssueSeverity::Severe, IssueKind::NoPcbsAssigned);
    let issue2 = issue("MESSAGE_2", IssueSeverity::Severe, IssueKind::NoPcbsAssigned);
    let mut issues: Vec<ProjectReportIssue> = vec![issue2.clone(), issue1.clone()];
    let expected_issues: Vec<ProjectReportIssue> = vec![issue1.clone(), issue2.clone()];
    // when
    project_report_sort_issues(&mut issues);
    // then
    assert_eq!(&issues, &expected_issues);
}

#[test]
fn sort_by_kind_with_equal_message_and_severity() {
    // given
    let issue1 = issue("EQUAL", IssueSeverity::Severe, IssueKind::NoPcbsAssigned);
    let issue2 = issue("EQUAL", IssueSeverity::Severe, IssueKind::NoPhasesCreated);
    let issue3 = issue("EQUAL", IssueSeverity::Severe, IssueKind::InvalidUnitAssignment { object_path: path("panel=1") });
    let issue4 = issue("EQUAL", IssueSeverity::Severe, IssueKind::InvalidUnitAssignment { object_path: path("panel=2") });
    let issue5 = issue("EQUAL", IssueSeverity::Severe, IssueKind::UnassignedPlacement { object_path: path("panel=1::unit=1::ref_des=R1") });
    let issue6 = issue("EQUAL", IssueSeverity::Severe, IssueKind::UnassignedPlacement { object_path: path("panel=1::unit=1::ref_des=R2") });
    let issue7 = issue("EQUAL", IssueSeverity::Severe, IssueKind::UnassignedPartFeeder { part: Part { manufacturer: "MFR1".to_string(), mpn: "MPN1".to_string() } });
    let issue8 = issue("EQUAL", IssueSeverity::Severe, IssueKind::UnassignedPartFeeder { part: Part { manufacturer: "MFR1".to_string(), mpn: "MPN2".to_string() } });
    let issue9 = issue("EQUAL", IssueSeverity::Severe, IssueKind::UnassignedPartFeeder { part: Part { manufacturer: "MFR2".to_string(), mpn: "MPN1".to_string() } });

    let mut issues: Vec<ProjectReportIssue> = vec![
        issue9.clone(), issue8.clone(), issue7.clone(),
        issue6.clone(), issue5.clone(), issue4.clone(),
        issue3.clone(), issue2.clone(), issue1.clone(),
    ];
    let expected_issues: Vec<ProjectReportIssue> = vec![
        issue1.clone(), issue2.clone(), issue3.clone(),
        issue4.clone(), issue5.clone(), issue6.clone(),
        issue7.clone(), issue8.clone(), issue9.clone(),
    ];
    // when
    project_report_sort_issues(&mut issues);
    // then
    assert_eq!(&issues, &expected_issues);
}

#[test]
fn sort_by_severity_kind_and_message() {
    // given
    let issue1 = issue("EQUAL", IssueSeverity::Severe, IssueKind::NoPcbsAssigned);
    let issue2 = issue("EQUAL", IssueSeverity::Warning, IssueKind::NoPcbsAssigned);
    let issue3 = issue("DIFFERENT", IssueSeverity::Warning, IssueKind::NoPcbsAssigned);
    let issue4 = issue("EQUAL", IssueSeverity::Severe, IssueKind::NoPhasesCreated);
    let issue5 = issue("EQUAL", IssueSeverity::Warning, IssueKind::NoPhasesCreated);
    let issue6 = issue("DIFFERENT", IssueSeverity::Warning, IssueKind::NoPhasesCreated);

    let mut issues: Vec<ProjectReportIssue> = vec![
        issue1.clone(), issue2.clone(), issue3.clone(),
        issue4.clone(), issue5.clone(), issue6.clone(),
    ];
    let expected_issues: Vec<ProjectReportIssue> = vec![
        issue1.clone(), issue4.clone(), issue3.clone(),
        issue2.clone(), issue6.clone(), issue5.clone(),
    ];
    // when
    project_report_sort_issues(&mut issues);
    // then
    assert_eq!(&issues, &expected_issues);
}

#[test]
fn sorting_two_orders_of_the_same_issues_agrees() {
    let a = issue("B", IssueSeverity::Warning, IssueKind::NoPhasesCreated);
    let b = issue("A", IssueSeverity::Severe, IssueKind::UnassignedPlacement { object_path: path("panel=1::unit=1::ref_des=R1") });
    let c = issue("C", IssueSeverity::Severe, IssueKind::NoPcbsAssigned);
    let mut first: Vec<ProjectReportIssue> = vec![a.clone(), b.clone(), c.clone()];
    let mut second: Vec<ProjectReportIssue> = vec![c.clone(), a.clone(), b.clone()];
    project_report_sort_issues(&mut first);
    project_report_sort_issues(&mut second);
    assert_eq!(&first, &second);
    assert_eq!(&first, &vec![c.clone(), b.clone(), a.clone()]);
}

#[test]
fn sorting_sorted_issues_changes_nothing() {
    let mut issues: Vec<ProjectReportIssue> = vec![
        issue("X", IssueSeverity::Severe, IssueKind::NoPcbsAssigned),
        issue("Y", IssueSeverity::Severe, IssueKind::NoPhasesCreated),
        issue("A", IssueSeverity::Warning, IssueKind::NoPcbsAssigned),
    ];
    project_report_sort_issues(&mut issues);
    let once = issues.clone();
    project_report_sort_issues(&mut issues);
    assert_eq!(&issues, &once);
}

#[test]
fn report_file_path_in_a_directory() {
    assert_eq!(build_report_file_path("job", "out"), "out/job_report.json");
    assert_eq!(build_report_file_path("job", "out/"), "out/job_report.json");
    assert_eq!(build_report_file_path("job", ""), "job_report.json");
}

#[test]
fn absolute_report_file_name_replaces_the_directory() {
    assert_eq!(build_report_file_path("/tmp/job", "out"), "/tmp/job_report.json");
}

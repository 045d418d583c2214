use tidycraft::analysis::{AnalysisResult, Issue, Severity};

fn issue(rule_id: &str, rule_name: &str, severity: Severity, message: &str, path: &str) -> Issue {
    Issue {
        rule_id: rule_id.to_string(),
        rule_name: rule_name.to_string(),
        severity,
        message: message.to_string(),
        asset_path: path.to_string(),
        suggestion: None,
        auto_fixable: false,
    }
}

#[test]
fn test_analysis_result_new() {
    let result = AnalysisResult::new();

    assert_eq!(result.issue_count, 0);
    assert_eq!(result.error_count, 0);
    assert_eq!(result.warning_count, 0);
    assert_eq!(result.info_count, 0);
    assert!(result.issues.is_empty());
}

#[test]
fn test_analysis_result_add_error() {
    let mut result = AnalysisResult::new();

    let issue = Issue {
        rule_id: "test_rule".to_string(),
        rule_name: "Test Rule".to_string(),
        severity: Severity::Error,
        message: "Test error".to_string(),
        asset_path: "/test/file.png".to_string(),
        suggestion: None,
        auto_fixable: false,
    };

    result.add_issue(issue);

    assert_eq!(result.issue_count, 1);
    assert_eq!(result.error_count, 1);
    assert_eq!(result.warning_count, 0);
}

#[test]
fn test_analysis_result_add_warning() {
    let mut result = AnalysisResult::new();

    let issue = Issue {
        rule_id: "test_rule".to_string(),
        rule_name: "Test Rule".to_string(),
        severity: Severity::Warning,
        message: "Test warning".to_string(),
        asset_path: "/test/file.png".to_string(),
        suggestion: Some("Fix this".to_string()),
        auto_fixable: true,
    };

    result.add_issue(issue);

    assert_eq!(result.issue_count, 1);
    assert_eq!(result.warning_count, 1);
    assert_eq!(result.error_count, 0);
}

#[test]
fn test_analysis_result_merge() {
    let mut result1 = AnalysisResult::new();
    let mut result2 = AnalysisResult::new();

    result1.add_issue(issue("rule1", "Rule 1", Severity::Error, "Error 1", "/test/file1.png"));
    result2.add_issue(issue("rule2", "Rule 2", Severity::Warning, "Warning 1", "/test/file2.png"));

    result1.merge(result2);

    assert_eq!(result1.issue_count, 2);
    assert_eq!(result1.error_count, 1);
    assert_eq!(result1.warning_count, 1);
}

#[test]
fn test_severity_equality() {
    assert_eq!(Severity::Error, Severity::Error);
    assert_eq!(Severity::Warning, Severity::Warning);
    assert_eq!(Severity::Info, Severity::Info);
    assert_ne!(Severity::Error, Severity::Warning);
}

#[test]
fn test_by_rule_tracking() {
    let mut result = AnalysisResult::new();

    result.add_issue(issue("rule_a", "Rule A", Severity::Warning, "Warning 1", "/test/file1.png"));
    result.add_issue(issue("rule_a", "Rule A", Severity::Warning, "Warning 2", "/test/file2.png"));
    result.add_issue(issue("rule_b", "Rule B", Severity::Error, "Error 1", "/test/file3.png"));

    assert_eq!(result.rule_count("rule_a"), 2);
    assert_eq!(result.rule_count("rule_b"), 1);
}

#[test]
fn totals_stay_consistent_over_adds_and_merges() {
    let mut a = AnalysisResult::new();
    a.add_issue(issue("x", "X", Severity::Info, "i", "/a"));
    let mut b = AnalysisResult::new();
    b.add_issue(issue("y", "Y", Severity::Error, "e", "/b"));
    b.add_issue(issue("x", "X", Severity::Warning, "w", "/c"));
    a.merge(b);
    assert_eq!(a.issue_count, a.issues.len());
    assert_eq!(a.error_count + a.warning_count + a.info_count, a.issue_count);
    assert_eq!(a.rule_count("x"), 2);
    assert_eq!(a.rule_count("missing"), 0);
}

#[test]
fn merge_is_associative_on_issue_order() {
    let make = |id: &str| {
        let mut r = AnalysisResult::new();
        r.add_issue(issue(id, id, Severity::Warning, id, id));
        r
    };
    let mut left = make("a");
    left.merge(make("b"));
    left.merge(make("c"));
    let mut bc = make("b");
    bc.merge(make("c"));
    let mut right = make("a");
    right.merge(bc);
    let l: Vec<String> = left.issues.iter().map(|i| i.rule_id.clone()).collect();
    let r: Vec<String> = right.issues.iter().map(|i| i.rule_id.clone()).collect();
    assert_eq!(l, r);
    assert_eq!(left.warning_count, right.warning_count);
    assert_eq!(left.issue_count, 3);
}

#[test]
fn a_new_result_has_no_rule_tallies() {
    let mut result = AnalysisResult::new();
    assert!(result.by_rule.is_empty());
    result.add_issue(issue("r", "R", Severity::Info, "m", "/p"));
    assert_eq!(result.by_rule.len(), 1);
    assert_eq!(result.by_rule[0].count, 1);
}

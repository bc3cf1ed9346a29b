use worklog::record::CommitInfo;
use worklog::report::{format_date_range, generate_report_content};

fn b(s: &str) -> Vec<u8> {
    s.as_bytes().to_vec()
}

fn s(v: &Vec<u8>) -> String {
    String::from_utf8(v.clone()).unwrap()
}

fn commit(date: &str, hash: &str, author: &str, message: &str, branch: &str, repo: &str) -> CommitInfo {
    CommitInfo {
        date: b(date),
        hash: b(hash),
        author: b(author),
        message: b(message),
        branch: b(branch),
        repo_name: b(repo),
        insertions: 0,
        deletions: 0,
        timestamp: 0,
    }
}

#[test]
fn condensed_range_same_month() {
    assert_eq!(s(&format_date_range(&b("2024-01-05"), &b("2024-01-09"))), "2024-01-05~09");
}

#[test]
fn condensed_range_same_year() {
    assert_eq!(s(&format_date_range(&b("2024-01-05"), &b("2024-03-09"))), "2024-01-05~03-09");
}

#[test]
fn condensed_range_different_years() {
    assert_eq!(s(&format_date_range(&b("2023-12-31"), &b("2024-01-02"))), "2023-12-31~2024-01-02");
}

#[test]
fn same_group_collects_two_numbered_messages_in_order() {
    let commits = vec![
        commit("2024-01-05", "a1", "alice", "Add feature\ndetails", "main", "alpha"),
        commit("2024-01-05", "a2", "alice", "Fix bug", "main", "alpha"),
    ];
    let out = generate_report_content(&commits, &b("alice"), &b("2024-01-05"), &b("2024-01-09"), false);
    let expected = format!(
        "作者: alice\n时间范围: 2024-01-05 至 2024-01-09\n{}\n\n【2024-01-05】\n  📂 项目: alpha\n    🌿 分支: main\n      1. Add feature\n         details\n      2. Fix bug\n\n\n",
        "-".repeat(40)
    );
    assert_eq!(s(&out), expected);
}

#[test]
fn total_report_has_summary_heading() {
    let commits = vec![commit("2024-01-05", "a1", "alice", "m", "main", "alpha")];
    let out = generate_report_content(&commits, &b(""), &b("2024-01-05"), &b("2024-01-05"), true);
    assert!(s(&out).starts_with("汇总报告 (所有作者)\n时间范围: 2024-01-05 至 2024-01-05\n"));
}

#[test]
fn dates_ascend_and_projects_and_branches_sort() {
    let commits = vec![
        commit("2024-01-06", "h1", "alice", "later day", "main", "beta"),
        commit("2024-01-05", "h2", "alice", "zeta branch", "zeta", "beta"),
        commit("2024-01-05", "h3", "alice", "alpha project", "main", "alpha"),
        commit("2024-01-05", "h4", "alice", "beta main", "main", "beta"),
    ];
    let out = s(&generate_report_content(&commits, &b("alice"), &b("2024-01-05"), &b("2024-01-06"), false));
    let d5 = out.find("【2024-01-05】").unwrap();
    let d6 = out.find("【2024-01-06】").unwrap();
    assert!(d5 < d6);
    let pa = out.find("项目: alpha").unwrap();
    let pb = out.find("项目: beta").unwrap();
    assert!(pa < pb);
    let bm = out[pb..].find("分支: main").unwrap();
    let bz = out[pb..].find("分支: zeta").unwrap();
    assert!(bm < bz);
}

#[test]
fn empty_message_consumes_a_number_but_prints_nothing() {
    let commits = vec![
        commit("2024-01-05", "h1", "alice", "", "main", "alpha"),
        commit("2024-01-05", "h2", "alice", "second", "main", "alpha"),
    ];
    let out = s(&generate_report_content(&commits, &b("alice"), &b("2024-01-05"), &b("2024-01-05"), false));
    assert!(!out.contains("1. "));
    assert!(out.contains("      2. second\n"));
}

#[test]
fn empty_commit_list_renders_heading_only() {
    let commits: Vec<CommitInfo> = Vec::new();
    let out = s(&generate_report_content(&commits, &b("nobody"), &b("2024-01-01"), &b("2024-01-02"), false));
    let expected = format!("作者: nobody\n时间范围: 2024-01-01 至 2024-01-02\n{}\n\n", "-".repeat(40));
    assert_eq!(out, expected);
}

#[test]
fn malformed_dates_fall_back_to_the_full_range() {
    assert_eq!(s(&format_date_range(&b("2024/01/05"), &b("2024/01/09"))), "2024/01/05~2024/01/09");
    assert_eq!(s(&format_date_range(&b(""), &b(""))), "~");
}

use worklog::pipeline::{
    build_log_args, build_name_rev_args, extract_commits, file_name, output_dir_name, repo_label,
    report_files, RepoOutcome,
};
use worklog::record::CommitInfo;
use worklog::text::join_lines;

fn b(s: &str) -> Vec<u8> {
    s.as_bytes().to_vec()
}

fn s(v: &Vec<u8>) -> String {
    String::from_utf8(v.clone()).unwrap()
}

fn commit(author: &str, repo: &str) -> CommitInfo {
    CommitInfo {
        date: b("2024-01-05"),
        hash: b("h"),
        author: b(author),
        message: b("m"),
        branch: b("main"),
        repo_name: b(repo),
        insertions: 0,
        deletions: 0,
        timestamp: 0,
    }
}

const LOG_A: &str = "^^^^^COMMIT^^^^^\n\
2024-01-05|||a1|||alice|||1\n\
one\n\
^^^^^MSG_END^^^^^\n\
^^^^^COMMIT^^^^^\n\
2024-01-06|||a2|||alice|||2\n\
two\n\
^^^^^MSG_END^^^^^\n";

#[test]
fn failed_log_command_skips_repo_without_error() {
    let outcomes = vec![
        RepoOutcome {
            repo_name: b("repo-a"),
            log_ok: true,
            log_text: b(LOG_A),
            resolve_ok: true,
            resolve_text: b("a1 (main)\n"),
        },
        RepoOutcome {
            repo_name: b("repo-b"),
            log_ok: false,
            log_text: b(""),
            resolve_ok: false,
            resolve_text: b(""),
        },
    ];
    let commits = extract_commits(&outcomes);
    assert_eq!(commits.len(), 2);
    assert_eq!(s(&commits[0].hash), "a1");
    assert_eq!(s(&commits[0].branch), "main");
    assert_eq!(s(&commits[1].hash), "a2");
    assert_eq!(s(&commits[1].branch), "Unknown");
    assert_eq!(s(&commits[0].repo_name), "repo-a");
}

#[test]
fn failed_resolver_degrades_to_unknown_branches() {
    let outcomes = vec![RepoOutcome {
        repo_name: b("repo-a"),
        log_ok: true,
        log_text: b(LOG_A),
        resolve_ok: false,
        resolve_text: b(""),
    }];
    let commits = extract_commits(&outcomes);
    assert_eq!(commits.len(), 2);
    assert_eq!(s(&commits[0].branch), "Unknown");
    assert_eq!(s(&commits[1].branch), "Unknown");
}

#[test]
fn log_argument_list_matches_tool_expectations() {
    let args = build_log_args(&b("2024-01-05"), &b("2024-01-09"));
    let strs: Vec<String> = args.iter().map(|a| s(a)).collect();
    assert_eq!(
        strs,
        vec![
            "log".to_string(),
            "--all".to_string(),
            "--since=2024-01-05 00:00:00".to_string(),
            "--until=2024-01-09 23:59:59".to_string(),
            "--no-merges".to_string(),
            "--date=format:%Y-%m-%d".to_string(),
            "--numstat".to_string(),
            "--pretty=format:^^^^^COMMIT^^^^^%n%ad|||%H|||%an|||%at%n%B%n^^^^^MSG_END^^^^^"
                .to_string(),
        ]
    );
}

#[test]
fn name_rev_argument_list_matches_tool_expectations() {
    let args = build_name_rev_args();
    let strs: Vec<String> = args.iter().map(|a| s(a)).collect();
    assert_eq!(
        strs,
        vec![
            "name-rev".to_string(),
            "--stdin".to_string(),
            "--refs=refs/heads/*".to_string(),
            "--refs=refs/remotes/*".to_string(),
        ]
    );
}

#[test]
fn hashes_join_with_newlines_for_the_resolver_stream() {
    let hashes = vec![b("a1"), b("a2"), b("a3")];
    assert_eq!(s(&join_lines(&hashes)), "a1\na2\na3");
}

#[test]
fn repo_label_cases() {
    let none: Vec<CommitInfo> = Vec::new();
    assert_eq!(s(&repo_label(&none)), "Unknown");
    let one = vec![commit("alice", "alpha"), commit("bob", "alpha")];
    assert_eq!(s(&repo_label(&one)), "alpha");
    let two = vec![commit("alice", "alpha"), commit("bob", "beta")];
    assert_eq!(s(&repo_label(&two)), "AllProjects");
}

#[test]
fn output_names_are_deterministic_and_condensed() {
    assert_eq!(s(&output_dir_name(&b("2024-01-05"), &b("2024-01-09"))), "2024-01-05~2024-01-09");
    assert_eq!(
        s(&file_name(&b("alice"), &b("2024-01-05"), &b("2024-01-09"), &b("alpha"))),
        "alice-2024-01-05~09-alpha.txt"
    );
    assert_eq!(
        s(&file_name(&b("TOTAL"), &b("2023-12-31"), &b("2024-01-02"), &b("AllProjects"))),
        "TOTAL-2023-12-31~2024-01-02-AllProjects.txt"
    );
}

#[test]
fn report_files_cover_each_author_and_the_total() {
    let commits = vec![commit("alice", "alpha"), commit("bob", "beta"), commit("alice", "alpha")];
    let files = report_files(&commits, &b("2024-01-05"), &b("2024-01-05"));
    assert_eq!(files.len(), 3);
    assert_eq!(s(&files[0].0), "alice-2024-01-05~05-alpha.txt");
    assert_eq!(s(&files[1].0), "bob-2024-01-05~05-beta.txt");
    assert_eq!(s(&files[2].0), "TOTAL-2024-01-05~05-AllProjects.txt");
    assert!(s(&files[0].1).starts_with("作者: alice\n"));
    assert!(s(&files[2].1).starts_with("汇总报告 (所有作者)\n"));
}

#[test]
fn identical_inputs_yield_byte_identical_reports() {
    let commits = vec![commit("alice", "alpha"), commit("bob", "beta")];
    let first = report_files(&commits, &b("2024-01-05"), &b("2024-01-09"));
    let second = report_files(&commits, &b("2024-01-05"), &b("2024-01-09"));
    assert_eq!(first.len(), second.len());
    for (x, y) in first.iter().zip(second.iter()) {
        assert_eq!(x.0, y.0);
        assert_eq!(x.1, y.1);
    }
}

#[test]
fn empty_commit_list_still_writes_the_total_file() {
    let commits: Vec<CommitInfo> = Vec::new();
    let files = report_files(&commits, &b("2024-01-05"), &b("2024-01-05"));
    assert_eq!(files.len(), 1);
    assert_eq!(s(&files[0].0), "TOTAL-2024-01-05~05-Unknown.txt");
}

use worklog::parser::parse_log;
use worklog::branch::{normalize_branch, parse_name_rev, resolve_branches};

fn b(s: &str) -> Vec<u8> {
    s.as_bytes().to_vec()
}

fn s(v: &Vec<u8>) -> String {
    String::from_utf8(v.clone()).unwrap()
}

const LOG_TWO: &str = "^^^^^COMMIT^^^^^\n\
2024-01-05|||abc123|||alice|||1704412800\n\
Add feature\n\
details\n\
^^^^^MSG_END^^^^^\n\
10\t5\tsrc/main.rs\n\
3\t1\tlib.rs\n\
\n\
^^^^^COMMIT^^^^^\n\
2024-01-06|||def456|||bob|||1704499200\n\
Fix bug\n\
^^^^^MSG_END^^^^^\n\
-\t-\timage.png\n\
2\t0\ta.txt\n";

#[test]
fn well_formed_log_yields_every_record_in_order() {
    let (recs, hashes) = parse_log(&b(LOG_TWO), &b("alpha"));
    assert_eq!(recs.len(), 2);
    assert_eq!(hashes.len(), 2);
    assert_eq!(s(&recs[0].date), "2024-01-05");
    assert_eq!(s(&recs[0].hash), "abc123");
    assert_eq!(s(&recs[0].author), "alice");
    assert_eq!(s(&recs[0].message), "Add feature\ndetails");
    assert_eq!(s(&recs[0].branch), "Unknown");
    assert_eq!(s(&recs[0].repo_name), "alpha");
    assert_eq!(recs[0].timestamp, 1704412800);
    assert_eq!(s(&recs[1].date), "2024-01-06");
    assert_eq!(s(&recs[1].hash), "def456");
    assert_eq!(s(&recs[1].author), "bob");
    assert_eq!(s(&recs[1].message), "Fix bug");
    assert_eq!(s(&hashes[0]), "abc123");
    assert_eq!(s(&hashes[1]), "def456");
}

#[test]
fn stat_lines_sum_and_binary_markers_count_zero() {
    let (recs, _) = parse_log(&b(LOG_TWO), &b("alpha"));
    assert_eq!(recs[0].insertions, 13);
    assert_eq!(recs[0].deletions, 6);
    assert_eq!(recs[1].insertions, 2);
    assert_eq!(recs[1].deletions, 0);
}

#[test]
fn short_header_drops_only_that_record() {
    let text = "^^^^^COMMIT^^^^^\n\
2024-01-05|||onlythree\n\
^^^^^COMMIT^^^^^\n\
2024-01-06|||def456|||bob|||7\n\
ok\n\
^^^^^MSG_END^^^^^\n\
1\t1\tf\n";
    let (recs, _) = parse_log(&b(text), &b("r"));
    assert_eq!(recs.len(), 1);
    assert_eq!(s(&recs[0].hash), "def456");
    assert_eq!(s(&recs[0].message), "ok");
    assert_eq!(recs[0].insertions, 1);
}

#[test]
fn empty_text_yields_no_records() {
    let (recs, hashes) = parse_log(&b(""), &b("r"));
    assert_eq!(recs.len(), 0);
    assert_eq!(hashes.len(), 0);
}

#[test]
fn record_without_stat_lines_is_valid() {
    let text = "^^^^^COMMIT^^^^^\n\
2024-02-01|||aaa|||carol|||5\n\
Empty commit\n\
^^^^^MSG_END^^^^^\n";
    let (recs, _) = parse_log(&b(text), &b("r"));
    assert_eq!(recs.len(), 1);
    assert_eq!(recs[0].insertions, 0);
    assert_eq!(recs[0].deletions, 0);
}

#[test]
fn unparsable_timestamp_defaults_to_zero() {
    let text = "^^^^^COMMIT^^^^^\n\
2024-02-01|||aaa|||carol|||not-a-number\n\
msg\n\
^^^^^MSG_END^^^^^\n";
    let (recs, _) = parse_log(&b(text), &b("r"));
    assert_eq!(recs.len(), 1);
    assert_eq!(recs[0].timestamp, 0);
}

#[test]
fn branch_normalization_examples() {
    assert_eq!(s(&normalize_branch(&b("(remotes/origin/feature-x~3)"))), "feature-x");
    assert_eq!(s(&normalize_branch(&b("(main)"))), "main");
    assert_eq!(s(&normalize_branch(&b("(remotes/release^2)"))), "release");
}

#[test]
fn name_rev_output_maps_hashes_and_unmatched_stay_unknown() {
    let (recs, _) = parse_log(&b(LOG_TWO), &b("alpha"));
    let pairs = parse_name_rev(&b("abc123 remotes/origin/dev~1\nzzz (main)\n"));
    let merged = resolve_branches(&recs, &pairs);
    assert_eq!(s(&merged[0].branch), "dev");
    assert_eq!(s(&merged[1].branch), "Unknown");
}

#[test]
fn later_resolver_line_wins_for_same_hash() {
    let (recs, _) = parse_log(&b(LOG_TWO), &b("alpha"));
    let pairs = parse_name_rev(&b("abc123 first\nabc123 second\n"));
    let merged = resolve_branches(&recs, &pairs);
    assert_eq!(s(&merged[0].branch), "second");
}

#[test]
fn resolver_line_with_one_token_is_ignored() {
    let pairs = parse_name_rev(&b("loner\nabc123 main\n"));
    assert_eq!(pairs.len(), 1);
    assert_eq!(s(&pairs[0].0), "abc123");
    assert_eq!(s(&pairs[0].1), "main");
}

#[test]
fn crlf_line_endings_are_handled() {
    let text = "^^^^^COMMIT^^^^^\r\n\
2024-01-05|||abc|||alice|||9\r\n\
msg line\r\n\
^^^^^MSG_END^^^^^\r\n\
4\t2\tf.rs\r\n";
    let (recs, _) = parse_log(&b(text), &b("r"));
    assert_eq!(recs.len(), 1);
    assert_eq!(s(&recs[0].date), "2024-01-05");
    assert_eq!(s(&recs[0].message), "msg line");
    assert_eq!(recs[0].insertions, 4);
    assert_eq!(recs[0].deletions, 2);
    assert_eq!(recs[0].timestamp, 9);
}

#[test]
fn header_fields_are_trimmed() {
    let text = "^^^^^COMMIT^^^^^\n\
 2024-01-05 ||| abc ||| alice smith ||| 42 \n\
m\n\
^^^^^MSG_END^^^^^\n";
    let (recs, hashes) = parse_log(&b(text), &b("r"));
    assert_eq!(s(&recs[0].date), "2024-01-05");
    assert_eq!(s(&recs[0].hash), "abc");
    assert_eq!(s(&recs[0].author), "alice smith");
    assert_eq!(recs[0].timestamp, 42);
    assert_eq!(s(&hashes[0]), "abc");
}

#[test]
fn message_is_trimmed_of_surrounding_blank_lines() {
    let text = "^^^^^COMMIT^^^^^\n\
2024-01-05|||abc|||alice|||1\n\
\n\
body\n\
\n\
^^^^^MSG_END^^^^^\n";
    let (recs, _) = parse_log(&b(text), &b("r"));
    assert_eq!(s(&recs[0].message), "body");
}

#[test]
fn oversized_stat_token_counts_zero() {
    let text = "^^^^^COMMIT^^^^^\n\
2024-01-05|||abc|||alice|||1\n\
m\n\
^^^^^MSG_END^^^^^\n\
99999999999\t3\tf\n";
    let (recs, _) = parse_log(&b(text), &b("r"));
    assert_eq!(recs[0].insertions, 0);
    assert_eq!(recs[0].deletions, 3);
}

#[test]
fn negative_timestamp_is_parsed() {
    let text = "^^^^^COMMIT^^^^^\n\
2024-01-05|||abc|||alice|||-7\n\
m\n\
^^^^^MSG_END^^^^^\n";
    let (recs, _) = parse_log(&b(text), &b("r"));
    assert_eq!(recs[0].timestamp, -7);
}

#[test]
fn normalization_keeps_plain_remote_prefix_rules() {
    assert_eq!(s(&normalize_branch(&b("remotes/origin/main"))), "main");
    assert_eq!(s(&normalize_branch(&b("remotes/upstream/dev"))), "upstream/dev");
    assert_eq!(s(&normalize_branch(&b("feature~2"))), "feature");
}

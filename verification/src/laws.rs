//! The general properties the library promises, proved from the spec
//! functions the contracts are stated over: the parser yields one record
//! per well-formed block and drops a malformed header without harming the
//! rest, stat sums take non-numeric markers as zero, a failed repository
//! contributes nothing, and a report run is a pure function of its inputs.

use vstd::prelude::*;

use crate::parser::{
    add_sat, commit_marker, find_line, lemma_find_line_bound, lemma_find_line_is, msg_end_marker,
    record_of, scan, stat_del, stat_ins, sum_del, sum_ins,
};
use crate::pipeline::{all_records, repo_records, report_files_spec, RepoOutcomeG};
use crate::record::Commit;
use crate::text::{count_val, is_digits, split_fields, split_ws};

verus! {

/// `find_line` looks only at the suffix: searching the whole from `j` and
/// searching the suffix dropped by `k` agree, `k` indices apart.
pub proof fn lemma_find_line_skip(lines: Seq<Seq<u8>>, k: int, j: int, target: Seq<u8>)
    requires
        0 <= k <= j <= lines.len(),
    ensures
        find_line(lines.skip(k), j - k, target) == find_line(lines, j, target) - k,
    decreases lines.len() - j,
{
    let t = lines.skip(k);
    if j >= lines.len() {
        assert(t.len() == lines.len() - k);
    } else {
        assert(t[j - k] == lines[j]);
        if lines[j] != target {
            lemma_find_line_skip(lines, k, j + 1, target);
        }
    }
}

/// `scan` looks only at the suffix: the cursor at `i` over the whole and
/// at `i - k` over the suffix dropped by `k` yield the same records.
pub proof fn lemma_scan_skip(lines: Seq<Seq<u8>>, k: int, i: int, repo: Seq<u8>)
    requires
        0 <= k <= i <= lines.len(),
    ensures
        scan(lines.skip(k), i - k, repo) == scan(lines, i, repo),
    decreases lines.len() - i,
{
    let t = lines.skip(k);
    if i >= lines.len() {
    } else {
        assert(t[i - k] == lines[i]);
        if lines[i] != commit_marker() {
            lemma_scan_skip(lines, k, i + 1, repo);
        } else if i + 1 >= lines.len() {
        } else {
            assert(t[i + 1 - k] == lines[i + 1]);
            if split_fields(lines[i + 1]).len() < 4 {
                lemma_scan_skip(lines, k, i + 2, repo);
            } else {
                lemma_find_line_bound(lines, i + 2, msg_end_marker());
                lemma_find_line_skip(lines, k, i + 2, msg_end_marker());
                let m = find_line(lines, i + 2, msg_end_marker());
                let after = if m < lines.len() {
                    m + 1
                } else {
                    m
                };
                lemma_find_line_bound(lines, after, commit_marker());
                lemma_find_line_skip(lines, k, after, commit_marker());
                let s = find_line(lines, after, commit_marker());
                assert(t.subrange(i + 2 - k, m - k) =~= lines.subrange(i + 2, m));
                assert(t.subrange(after - k, s - k) =~= lines.subrange(after, s));
                lemma_scan_skip(lines, k, s, repo);
            }
        }
    }
}

/// One record block of the log format: the commit marker, a header of at
/// least four fields, message lines free of the message-end marker, that
/// marker, then stat lines free of the commit marker.
pub open spec fn block_shape(b: Seq<Seq<u8>>) -> bool {
    &&& b.len() >= 3
    &&& b[0] == commit_marker()
    &&& split_fields(b[1]).len() >= 4
    &&& 2 <= msg_end_at(b) < b.len()
    &&& forall|j: int| msg_end_at(b) < j < b.len() ==> b[j] != commit_marker()
}

/// Where the block's message ends: its first message-end marker line.
pub open spec fn msg_end_at(b: Seq<Seq<u8>>) -> int {
    find_line(b, 2, msg_end_marker())
}

/// The one record a well-shaped block yields.
pub open spec fn block_record(b: Seq<Seq<u8>>, repo: Seq<u8>) -> Commit {
    record_of(
        b[1],
        b.subrange(2, msg_end_at(b)),
        b.subrange(msg_end_at(b) + 1, b.len() as int),
        repo,
    )
}

/// A well-shaped block followed by rest that is either empty or starts
/// with a commit marker parses to its one record followed by the parse of
/// the rest: no block corrupts what follows it.
pub proof fn lemma_scan_block(b: Seq<Seq<u8>>, rest: Seq<Seq<u8>>, repo: Seq<u8>)
    requires
        block_shape(b),
        rest.len() == 0 || rest[0] == commit_marker(),
    ensures
        scan(b + rest, 0, repo) == seq![block_record(b, repo)] + scan(rest, 0, repo),
{
    let lines = b + rest;
    let m = msg_end_at(b);
    assert(lines[0] == b[0]);
    assert(lines[1] == b[1]);
    lemma_find_line_bound(b, 2, msg_end_marker());
    assert forall|j: int| 2 <= j < m implies lines[j] != msg_end_marker() by {
        assert(lines[j] == b[j]);
    }
    assert(lines[m] == b[m] && b[m] == msg_end_marker());
    lemma_find_line_is(lines, 2, msg_end_marker(), m);
    assert forall|j: int| m + 1 <= j < b.len() implies lines[j] != commit_marker() by {
        assert(lines[j] == b[j]);
    }
    if rest.len() > 0 {
        assert(lines[b.len() as int] == rest[0]);
    }
    lemma_find_line_is(lines, m + 1, commit_marker(), b.len() as int);
    assert(lines.subrange(2, m) =~= b.subrange(2, m));
    assert(lines.subrange(m + 1, b.len() as int) =~= b.subrange(m + 1, b.len() as int));
    assert(scan(lines, 0, repo) == seq![block_record(b, repo)] + scan(
        lines,
        b.len() as int,
        repo,
    ));
    lemma_scan_skip(lines, b.len() as int, b.len() as int, repo);
    assert(lines.skip(b.len() as int) =~= rest);
}

/// The concatenation of a sequence of blocks.
pub open spec fn concat_blocks(blocks: Seq<Seq<Seq<u8>>>) -> Seq<Seq<u8>>
    decreases blocks.len(),
{
    if blocks.len() == 0 {
        Seq::empty()
    } else {
        blocks[0] + concat_blocks(blocks.drop_first())
    }
}

/// Well-formed log text of K well-shaped record blocks parses to exactly
/// K records, in input order, each block's own.
pub proof fn lemma_scan_well_formed(blocks: Seq<Seq<Seq<u8>>>, repo: Seq<u8>)
    requires
        forall|i: int| 0 <= i < blocks.len() ==> block_shape(#[trigger] blocks[i]),
    ensures
        scan(concat_blocks(blocks), 0, repo).len() == blocks.len(),
        forall|i: int|
            0 <= i < blocks.len() ==> scan(concat_blocks(blocks), 0, repo)[i] == block_record(
                #[trigger] blocks[i],
                repo,
            ),
    decreases blocks.len(),
{
    if blocks.len() == 0 {
    } else {
        let b = blocks[0];
        let rest_blocks = blocks.drop_first();
        let rest = concat_blocks(rest_blocks);
        assert(forall|i: int|
            0 <= i < rest_blocks.len() ==> block_shape(#[trigger] rest_blocks[i]));
        lemma_scan_well_formed(rest_blocks, repo);
        if rest_blocks.len() > 0 {
            assert(block_shape(rest_blocks[0]));
            assert(rest == rest_blocks[0] + concat_blocks(rest_blocks.drop_first()));
            assert(rest[0] == rest_blocks[0][0]);
        }
        lemma_scan_block(b, rest, repo);
        assert(scan(concat_blocks(blocks), 0, repo) == seq![block_record(b, repo)] + scan(
            rest,
            0,
            repo,
        ));
        assert forall|i: int|
            0 <= i < blocks.len() implies scan(concat_blocks(blocks), 0, repo)[i] == block_record(
            #[trigger] blocks[i],
            repo,
        ) by {
            if i > 0 {
                assert(blocks[i] == rest_blocks[i - 1]);
                assert(scan(concat_blocks(blocks), 0, repo)[i] == scan(rest, 0, repo)[i - 1]);
            }
        }
    }
}

/// A record whose header has fewer than four `|||` fields is dropped, and
/// what follows the bad header parses as it would on its own.
pub proof fn lemma_bad_header_skipped(header: Seq<u8>, rest: Seq<Seq<u8>>, repo: Seq<u8>)
    requires
        split_fields(header).len() < 4,
    ensures
        scan(seq![commit_marker(), header] + rest, 0, repo) == scan(rest, 0, repo),
{
    let lines = seq![commit_marker(), header] + rest;
    assert(lines[0] == commit_marker());
    assert(lines[1] == header);
    assert(scan(lines, 0, repo) == scan(lines, 2, repo));
    lemma_scan_skip(lines, 2, 2, repo);
    assert(lines.skip(2) =~= rest);
}

/// Stat sums extend one line at a time, and a line whose count tokens are
/// not all digits (a binary file's marker) adds zero to that total.
pub proof fn lemma_stat_line_sums(ls: Seq<Seq<u8>>, l: Seq<u8>)
    ensures
        sum_ins(ls.push(l)) == add_sat(sum_ins(ls), stat_ins(l)),
        sum_del(ls.push(l)) == add_sat(sum_del(ls), stat_del(l)),
        split_ws(l).len() >= 2 && !is_digits(split_ws(l)[0]) ==> stat_ins(l) == 0,
        split_ws(l).len() >= 2 && !is_digits(split_ws(l)[1]) ==> stat_del(l) == 0,
        split_ws(l).len() < 2 ==> stat_ins(l) == 0 && stat_del(l) == 0,
{
    assert(ls.push(l).drop_last() =~= ls);
    assert(ls.push(l).last() == l);
}

/// A repository whose log command failed contributes nothing: removing
/// its outcome leaves the extracted records unchanged.
pub proof fn lemma_failed_repo_contributes_nothing(os: Seq<RepoOutcomeG>, i: int)
    requires
        0 <= i < os.len(),
        !os[i].log_ok,
    ensures
        all_records(os) == all_records(os.remove(i)),
    decreases os.len(),
{
    if i == os.len() - 1 {
        assert(repo_records(os.last()) =~= Seq::<Commit>::empty());
        assert(os.remove(i) =~= os.drop_last());
        assert(all_records(os) =~= all_records(os.drop_last()));
    } else {
        lemma_failed_repo_contributes_nothing(os.drop_last(), i);
        assert(os.remove(i).drop_last() =~= os.drop_last().remove(i));
        assert(os.remove(i).last() == os.last());
    }
}

/// No byte string is lexicographically below itself.
pub proof fn lemma_lex_irrefl(s: Seq<u8>)
    ensures
        !crate::text::lex_lt(s, s),
    decreases s.len(),
{
    if s.len() > 0 {
        lemma_lex_irrefl(s.drop_first());
    }
}

/// Two commits on the same date, project and branch land in one branch
/// group, their messages numbered in insertion order.
pub proof fn lemma_grouping_two_commits(c1: Commit, c2: Commit)
    requires
        c1.date == c2.date,
        c1.repo_name == c2.repo_name,
        c1.branch == c2.branch,
    ensures
        crate::report::build_tree(seq![c1, c2]) == seq![
            crate::report::DateG {
                date: c1.date,
                projects: seq![
                    crate::report::ProjectG {
                        project: c1.repo_name,
                        branches: seq![
                            crate::report::BranchG {
                                branch: c1.branch,
                                messages: seq![c1.message, c2.message],
                            },
                        ],
                    },
                ],
            },
        ],
{
    let pair = seq![c1, c2];
    let single = seq![c1];
    assert(pair.drop_last() =~= single);
    assert(single.drop_last() =~= Seq::<Commit>::empty());
    let t1 = crate::report::build_tree(single);
    let empty_b: Seq<crate::report::BranchG> = Seq::empty();
    let empty_p: Seq<crate::report::ProjectG> = Seq::empty();
    let b1 = crate::report::BranchG { branch: c1.branch, messages: seq![c1.message] };
    let p1 = crate::report::ProjectG { project: c1.repo_name, branches: seq![b1] };
    let d1 = crate::report::DateG { date: c1.date, projects: seq![p1] };
    assert(crate::report::ins_branch(empty_b, c1.branch, c1.message) =~= seq![b1]);
    assert(crate::report::ins_project(empty_p, c1.repo_name, c1.branch, c1.message) =~= seq![p1]);
    assert(crate::report::build_tree(Seq::<Commit>::empty()) =~= Seq::<
        crate::report::DateG,
    >::empty());
    assert(single.last() == c1);
    assert(t1 == crate::report::ins_date(
        Seq::<crate::report::DateG>::empty(),
        c1.date,
        c1.repo_name,
        c1.branch,
        c1.message,
    ));
    assert(t1 =~= seq![d1]);
    lemma_lex_irrefl(c1.date);
    lemma_lex_irrefl(c1.repo_name);
    lemma_lex_irrefl(c1.branch);
    let b2 = crate::report::BranchG { branch: c1.branch, messages: seq![c1.message, c2.message] };
    assert(seq![b1][0] == b1);
    assert(b1.messages.push(c2.message) =~= seq![c1.message, c2.message]);
    assert(crate::report::ins_branch(seq![b1], c2.branch, c2.message) =~= seq![b2]);
    assert(seq![p1][0] == p1);
    assert(crate::report::ins_project(seq![p1], c2.repo_name, c2.branch, c2.message) =~= seq![
        crate::report::ProjectG { project: c1.repo_name, branches: seq![b2] },
    ]);
    assert(seq![d1][0] == d1);
    assert(crate::report::build_tree(pair) =~= seq![
        crate::report::DateG {
            date: c1.date,
            projects: seq![
                crate::report::ProjectG { project: c1.repo_name, branches: seq![b2] },
            ],
        },
    ]);
}

/// One report run is a pure function of the commit list and the date
/// range: equal inputs yield the same file names and byte-identical
/// contents, so a second run overwrites each file with what it held.
pub proof fn lemma_reports_deterministic(
    cs1: Seq<Commit>,
    cs2: Seq<Commit>,
    start1: Seq<u8>,
    start2: Seq<u8>,
    end1: Seq<u8>,
    end2: Seq<u8>,
)
    requires
        cs1 == cs2,
        start1 == start2,
        end1 == end2,
    ensures
        report_files_spec(cs1, start1, end1) == report_files_spec(cs2, start2, end2),
{
}

} // verus!

//! The log parser: turns the tool's combined log+stat text into an ordered
//! sequence of commit records. The text is a repetition of
//!
//! ```text
//! ^^^^^COMMIT^^^^^
//! <date>|||<hash>|||<author>|||<timestamp>
//! <message lines...>
//! ^^^^^MSG_END^^^^^
//! <insertions> <deletions> <path>   (zero or more)
//! ```
//!
//! scanned with a forward-only cursor; a malformed record is skipped without
//! aborting the rest of the parse. `scan` is the specification of the whole
//! state machine and `parse_log` is proved equal to it.

use vstd::prelude::*;

use crate::record::{commit_views, copy_bytes, Commit, CommitInfo};
use crate::text::{
    count_val, find_byte, is_digits, join_lines, join_nl, lemma_dec_val_nonneg, parse_count,
    parse_ts, split_fields, split_fields_vec, split_lines, split_nl, split_ws, split_ws_vec,
    subvec, trim, trim_spec, ts_val, views, Rel,
};
use crate::text::lex_cmp;

verus! {

/// The line that opens a commit record: `^^^^^COMMIT^^^^^`.
pub open spec fn commit_marker() -> Seq<u8> {
    seq![94u8, 94, 94, 94, 94, 67, 79, 77, 77, 73, 84, 94, 94, 94, 94, 94]
}

/// The line that closes a message body: `^^^^^MSG_END^^^^^`.
pub open spec fn msg_end_marker() -> Seq<u8> {
    seq![94u8, 94, 94, 94, 94, 77, 83, 71, 95, 69, 78, 68, 94, 94, 94, 94, 94]
}

/// The sentinel branch name `Unknown`, held until resolution succeeds.
pub open spec fn unknown_branch() -> Seq<u8> {
    seq![85u8, 110, 107, 110, 111, 119, 110]
}

/// Executable copy of `commit_marker`.
pub fn commit_marker_vec() -> (r: Vec<u8>)
    ensures
        r@ == commit_marker(),
{
    let r: Vec<u8> = vec![94u8, 94, 94, 94, 94, 67, 79, 77, 77, 73, 84, 94, 94, 94, 94, 94];
    proof {
        assert(r@ =~= commit_marker());
    }
    r
}

/// Executable copy of `msg_end_marker`.
pub fn msg_end_marker_vec() -> (r: Vec<u8>)
    ensures
        r@ == msg_end_marker(),
{
    let r: Vec<u8> = vec![94u8, 94, 94, 94, 94, 77, 83, 71, 95, 69, 78, 68, 94, 94, 94, 94, 94];
    proof {
        assert(r@ =~= msg_end_marker());
    }
    r
}

/// Executable copy of `unknown_branch`.
pub fn unknown_branch_vec() -> (r: Vec<u8>)
    ensures
        r@ == unknown_branch(),
{
    let r: Vec<u8> = vec![85u8, 110, 107, 110, 111, 119, 110];
    proof {
        assert(r@ =~= unknown_branch());
    }
    r
}

/// Whether two byte vectors hold the same bytes.
pub fn eq_bytes(a: &Vec<u8>, b: &Vec<u8>) -> (r: bool)
    ensures
        r == (a@ == b@),
{
    match lex_cmp(a, b) {
        Rel::Eq => true,
        _ => false,
    }
}

/// Index of the first line at or after `i` equal to `target`, or
/// `lines.len()` when there is none.
pub open spec fn find_line(lines: Seq<Seq<u8>>, i: int, target: Seq<u8>) -> int
    decreases lines.len() - i when 0 <= i <= lines.len()
{
    if i >= lines.len() {
        lines.len() as int
    } else if lines[i] == target {
        i
    } else {
        find_line(lines, i + 1, target)
    }
}

pub proof fn lemma_find_line_bound(lines: Seq<Seq<u8>>, i: int, target: Seq<u8>)
    requires
        0 <= i <= lines.len(),
    ensures
        i <= find_line(lines, i, target) <= lines.len(),
        forall|j: int| i <= j < find_line(lines, i, target) ==> lines[j] != target,
        find_line(lines, i, target) < lines.len() ==> lines[find_line(lines, i, target)] == target,
    decreases lines.len() - i,
{
    if i < lines.len() && lines[i] != target {
        lemma_find_line_bound(lines, i + 1, target);
    }
}

/// `find_line` is the unique index of the first matching line.
pub proof fn lemma_find_line_is(lines: Seq<Seq<u8>>, i: int, target: Seq<u8>, k: int)
    requires
        0 <= i <= k <= lines.len(),
        forall|j: int| i <= j < k ==> lines[j] != target,
        k < lines.len() ==> lines[k] == target,
    ensures
        find_line(lines, i, target) == k,
    decreases lines.len() - i,
{
    if i < lines.len() && lines[i] != target {
        lemma_find_line_is(lines, i + 1, target, k);
    }
}

/// Addition capped at the largest 64-bit value; the stat sums use it so
/// that no hostile input can make them wrap.
pub open spec fn add_sat(a: int, b: int) -> int {
    if a + b > 0xffff_ffff_ffff_ffff {
        0xffff_ffff_ffff_ffff
    } else {
        a + b
    }
}

/// Executable capped addition.
pub fn sat_add(a: u64, b: u64) -> (r: u64)
    ensures
        r == add_sat(a as int, b as int),
{
    if a > 0xffff_ffff_ffff_ffff - b {
        0xffff_ffff_ffff_ffff
    } else {
        a + b
    }
}

/// Insertions one stat line contributes: the value of its first
/// whitespace-separated token when the line has at least two, else 0.
pub open spec fn stat_ins(l: Seq<u8>) -> int {
    let toks = split_ws(l);
    if toks.len() >= 2 {
        count_val(toks[0])
    } else {
        0
    }
}

/// Deletions one stat line contributes, from its second token.
pub open spec fn stat_del(l: Seq<u8>) -> int {
    let toks = split_ws(l);
    if toks.len() >= 2 {
        count_val(toks[1])
    } else {
        0
    }
}

pub proof fn lemma_count_val_bounds(s: Seq<u8>)
    ensures
        0 <= count_val(s) <= 0x7fff_ffff,
{
    if is_digits(s) && crate::text::dec_val(s) <= 0x7fff_ffff {
        lemma_dec_val_nonneg(s);
    }
}

/// Summed insertions of a run of stat lines, capped.
pub open spec fn sum_ins(ls: Seq<Seq<u8>>) -> int
    decreases ls.len(),
{
    if ls.len() == 0 {
        0
    } else {
        add_sat(sum_ins(ls.drop_last()), stat_ins(ls.last()))
    }
}

/// Summed deletions of a run of stat lines, capped.
pub open spec fn sum_del(ls: Seq<Seq<u8>>) -> int
    decreases ls.len(),
{
    if ls.len() == 0 {
        0
    } else {
        add_sat(sum_del(ls.drop_last()), stat_del(ls.last()))
    }
}

pub proof fn lemma_sum_bounds(ls: Seq<Seq<u8>>)
    ensures
        0 <= sum_ins(ls) <= 0xffff_ffff_ffff_ffff,
        0 <= sum_del(ls) <= 0xffff_ffff_ffff_ffff,
    decreases ls.len(),
{
    if ls.len() > 0 {
        lemma_sum_bounds(ls.drop_last());
        lemma_count_val_bounds(split_ws(ls.last())[0]);
        if split_ws(ls.last()).len() >= 2 {
            lemma_count_val_bounds(split_ws(ls.last())[1]);
        }
    }
}

/// The record one well-headed block yields: trimmed header fields, message
/// lines joined and trimmed, stat lines summed, branch defaulted.
pub open spec fn record_of(
    header: Seq<u8>,
    msg_lines: Seq<Seq<u8>>,
    stat_lines: Seq<Seq<u8>>,
    repo: Seq<u8>,
) -> Commit {
    let f = split_fields(header);
    Commit {
        date: trim_spec(f[0]),
        hash: trim_spec(f[1]),
        author: trim_spec(f[2]),
        message: trim_spec(join_nl(msg_lines)),
        branch: unknown_branch(),
        repo_name: repo,
        insertions: sum_ins(stat_lines),
        deletions: sum_del(stat_lines),
        timestamp: ts_val(trim_spec(f[3])),
    }
}

/// The cursor state machine over the line sequence: skip to a commit
/// marker, take the next line as a `|||` header (fewer than four fields
/// drops the record and resumes one line later), take message lines up to
/// the message-end marker, then stat lines up to the next commit marker.
pub open spec fn scan(lines: Seq<Seq<u8>>, i: int, repo: Seq<u8>) -> Seq<Commit>
    decreases lines.len() - i when 0 <= i <= lines.len() via scan_decreases
{
    if i >= lines.len() {
        Seq::empty()
    } else if lines[i] != commit_marker() {
        scan(lines, i + 1, repo)
    } else if i + 1 >= lines.len() {
        Seq::empty()
    } else if split_fields(lines[i + 1]).len() < 4 {
        scan(lines, i + 2, repo)
    } else {
        let m = find_line(lines, i + 2, msg_end_marker());
        let after = if m < lines.len() {
            m + 1
        } else {
            m
        };
        let s = find_line(lines, after, commit_marker());
        seq![record_of(lines[i + 1], lines.subrange(i + 2, m), lines.subrange(after, s), repo)]
            + scan(lines, s, repo)
    }
}

#[via_fn]
proof fn scan_decreases(lines: Seq<Seq<u8>>, i: int, repo: Seq<u8>) {
    if 0 <= i < lines.len() && lines[i] == commit_marker() && i + 1 < lines.len() && split_fields(
        lines[i + 1],
    ).len() >= 4 {
        lemma_find_line_bound(lines, i + 2, msg_end_marker());
        let m = find_line(lines, i + 2, msg_end_marker());
        let after = if m < lines.len() {
            m + 1
        } else {
            m
        };
        lemma_find_line_bound(lines, after, commit_marker());
    }
}

/// The hash of each record, in order.
pub open spec fn hashes_of(cs: Seq<Commit>) -> Seq<Seq<u8>> {
    cs.map_values(|c: Commit| c.hash)
}

/// Parse the whole log text for one repository: the records `scan` yields
/// on the text's lines, in input order, and the parallel list of their
/// hashes.
pub fn parse_log(text: &Vec<u8>, repo_name: &Vec<u8>) -> (r: (Vec<CommitInfo>, Vec<Vec<u8>>))
    ensures
        commit_views(r.0@) == scan(split_nl(text@), 0, repo_name@),
        views(r.1@) == hashes_of(scan(split_nl(text@), 0, repo_name@)),
{
    let lines = split_lines(text);
    let ghost gl = split_nl(text@);
    let marker = commit_marker_vec();
    let msg_end = msg_end_marker_vec();
    let mut recs: Vec<CommitInfo> = Vec::new();
    let mut hashes: Vec<Vec<u8>> = Vec::new();
    let mut i: usize = 0;
    while i < lines.len()
        invariant
            0 <= i <= lines@.len(),
            views(lines@) == gl,
            marker@ == commit_marker(),
            msg_end@ == msg_end_marker(),
            scan(gl, 0, repo_name@) == commit_views(recs@) + scan(gl, i as int, repo_name@),
            views(hashes@) == hashes_of(commit_views(recs@)),
        decreases lines@.len() - i,
    {
        proof {
            assert(gl[i as int] == lines@[i as int]@);
        }
        if !eq_bytes(&lines[i], &marker) {
            i = i + 1;
            continue ;
        }
        if i + 1 >= lines.len() {
            proof {
                assert(scan(gl, i as int, repo_name@) =~= Seq::<Commit>::empty());
            }
            i = lines.len();
            continue ;
        }
        proof {
            assert(gl[i + 1] == lines@[i + 1]@);
        }
        let fields = split_fields_vec(&lines[i + 1]);
        if fields.len() < 4 {
            proof {
                assert(views(fields@) == split_fields(gl[i + 1]));
                assert(split_fields(gl[i + 1]).len() < 4);
                assert(scan(gl, i as int, repo_name@) == scan(gl, i + 2, repo_name@));
            }
            i = i + 2;
            continue ;
        }
        proof {
            assert(views(fields@).len() >= 4);
            assert(views(fields@)[0] == fields@[0]@ && views(fields@)[1] == fields@[1]@ && views(
                fields@,
            )[2] == fields@[2]@ && views(fields@)[3] == fields@[3]@);
        }
        let date = trim(&fields[0]);
        let hash = trim(&fields[1]);
        let author = trim(&fields[2]);
        let ts_field = trim(&fields[3]);
        let timestamp = parse_ts(&ts_field);

        // message lines up to the message-end marker
        let mut j: usize = i + 2;
        let mut msg_lines: Vec<Vec<u8>> = Vec::new();
        while j < lines.len() && !eq_bytes(&lines[j], &msg_end)
            invariant
                i + 2 <= j <= lines@.len(),
                views(lines@) == gl,
                msg_end@ == msg_end_marker(),
                forall|k: int| i + 2 <= k < j ==> gl[k] != msg_end_marker(),
                views(msg_lines@) == gl.subrange(i + 2, j as int),
            decreases lines@.len() - j,
    {
            let line = copy_bytes(&lines[j]);
            let ghost ml_old = msg_lines@;
            msg_lines.push(line);
            proof {
                assert(gl[j as int] == lines@[j as int]@);
                assert(views(msg_lines@) =~= views(ml_old).push(line@));
                assert(views(msg_lines@) =~= gl.subrange(i + 2, j + 1));
            }
            j = j + 1;
        }
        let ghost m = j as int;
        proof {
            if j < lines@.len() {
                assert(gl[j as int] == lines@[j as int]@);
            }
            lemma_find_line_is(gl, i + 2, msg_end_marker(), m);
        }
        let joined = join_lines(&msg_lines);
        let message = trim(&joined);
        if j < lines.len() {
            j = j + 1;  // step over the message-end marker
        }
        let ghost after = j as int;

        // stat lines up to the next commit marker
        let mut ins: u64 = 0;
        let mut del: u64 = 0;
        while j < lines.len() && !eq_bytes(&lines[j], &marker)
            invariant
                0 <= after <= j <= lines@.len(),
                views(lines@) == gl,
                marker@ == commit_marker(),
                forall|k: int| after <= k < j ==> gl[k] != commit_marker(),
                ins == sum_ins(gl.subrange(after, j as int)),
                del == sum_del(gl.subrange(after, j as int)),
            decreases lines@.len() - j,
    {
            let toks = split_ws_vec(&lines[j]);
            proof {
                assert(gl[j as int] == lines@[j as int]@);
                assert(views(toks@) == split_ws(gl[j as int]));
            }
            if toks.len() >= 2 {
                proof {
                    assert(views(toks@)[0] == toks@[0]@ && views(toks@)[1] == toks@[1]@);
                    lemma_count_val_bounds(split_ws(gl[j as int])[0]);
                    lemma_count_val_bounds(split_ws(gl[j as int])[1]);
                }
                let a = parse_count(&toks[0]);
                let b = parse_count(&toks[1]);
                ins = sat_add(ins, a as u64);
                del = sat_add(del, b as u64);
            }
            proof {
                let sub1 = gl.subrange(after, j + 1);
                assert(sub1.drop_last() =~= gl.subrange(after, j as int));
                assert(sub1.last() == gl[j as int]);
                if views(toks@).len() < 2 {
                    assert(stat_ins(gl[j as int]) == 0 && stat_del(gl[j as int]) == 0);
                    assert(add_sat(sum_ins(sub1.drop_last()), 0) == sum_ins(sub1.drop_last()))
                        by {
                        lemma_sum_bounds(sub1.drop_last());
                    }
                    assert(add_sat(sum_del(sub1.drop_last()), 0) == sum_del(sub1.drop_last()))
                        by {
                        lemma_sum_bounds(sub1.drop_last());
                    }
                }
            }
            j = j + 1;
        }
        let ghost s = j as int;
        proof {
            if j < lines@.len() {
                assert(gl[j as int] == lines@[j as int]@);
            }
            lemma_find_line_is(gl, after, commit_marker(), s);
        }
        let branch = unknown_branch_vec();
        let repo = copy_bytes(repo_name);
        let hash_copy = copy_bytes(&hash);
        let rec = CommitInfo {
            date,
            hash,
            author,
            message,
            branch,
            repo_name: repo,
            insertions: ins,
            deletions: del,
            timestamp,
        };
        let ghost recs_old = recs@;
        let ghost hashes_old = hashes@;
        recs.push(rec);
        hashes.push(hash_copy);
        proof {
            let r = record_of(gl[i + 1], gl.subrange(i + 2, m), gl.subrange(after, s), repo_name@);
            assert(rec@ == r);
            assert(scan(gl, i as int, repo_name@) == seq![r] + scan(gl, s, repo_name@));
            assert(commit_views(recs@) =~= commit_views(recs_old).push(rec@));
            assert(commit_views(recs_old) + (seq![r] + scan(gl, s, repo_name@)) =~= commit_views(
                recs@,
            ) + scan(gl, s, repo_name@));
            assert(views(hashes@) =~= views(hashes_old).push(hash_copy@));
            assert(hashes_of(commit_views(recs@)) =~= hashes_of(commit_views(recs_old)).push(
                rec@.hash,
            ));
        }
        i = j;
    }
    proof {
        assert(scan(gl, i as int, repo_name@) =~= Seq::<Commit>::empty());
        assert(commit_views(recs@) + Seq::<Commit>::empty() =~= commit_views(recs@));
    }
    (recs, hashes)
}

} // verus!

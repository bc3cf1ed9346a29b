//! The repository orchestrator and report-writer logic, short of the
//! process and file system calls themselves: the exact argument lists the
//! tools are invoked with, the per-repository fold of log parsing and
//! branch resolution, the per-author partition and the name and content of
//! every output file. The caller runs the tools and writes the files; every
//! decision in between is made here.

use vstd::prelude::*;

use crate::branch::{merge_branches, pair_views, pairs_of, parse_name_rev, resolve_branches};
use crate::parser::{parse_log, scan, unknown_branch};
use crate::record::{commit_views, copy_bytes, Commit, CommitInfo};
use crate::report::{date_range_spec, format_date_range, report_content_spec};
use crate::text::{append_bytes, split_nl, views};
use crate::parser::eq_bytes;

verus! {

/// What one repository's two tool invocations came back with: for each,
/// whether the tool ran and exited successfully, and its standard output.
/// A launch failure never reaches this type; the caller surfaces it as a
/// hard error instead.
pub struct RepoOutcome {
    pub repo_name: Vec<u8>,
    pub log_ok: bool,
    pub log_text: Vec<u8>,
    pub resolve_ok: bool,
    pub resolve_text: Vec<u8>,
}

pub ghost struct RepoOutcomeG {
    pub repo_name: Seq<u8>,
    pub log_ok: bool,
    pub log_text: Seq<u8>,
    pub resolve_ok: bool,
    pub resolve_text: Seq<u8>,
}

impl View for RepoOutcome {
    type V = RepoOutcomeG;

    open spec fn view(&self) -> RepoOutcomeG {
        RepoOutcomeG {
            repo_name: self.repo_name@,
            log_ok: self.log_ok,
            log_text: self.log_text@,
            resolve_ok: self.resolve_ok,
            resolve_text: self.resolve_text@,
        }
    }
}

pub open spec fn outcome_views(os: Seq<RepoOutcome>) -> Seq<RepoOutcomeG> {
    os.map_values(|o: RepoOutcome| o@)
}

/// The records one repository contributes: none when its log command
/// failed; otherwise the parsed records with branches merged in, from an
/// empty mapping when the resolver failed.
pub open spec fn repo_records(o: RepoOutcomeG) -> Seq<Commit> {
    if !o.log_ok {
        Seq::empty()
    } else {
        let recs = scan(split_nl(o.log_text), 0, o.repo_name);
        let ps = if o.resolve_ok {
            pairs_of(split_nl(o.resolve_text))
        } else {
            Seq::empty()
        };
        merge_branches(recs, ps)
    }
}

/// All repositories' records concatenated, per-repository order and
/// repository order both preserved.
pub open spec fn all_records(os: Seq<RepoOutcomeG>) -> Seq<Commit>
    decreases os.len(),
{
    if os.len() == 0 {
        Seq::empty()
    } else {
        all_records(os.drop_last()) + repo_records(os.last())
    }
}

/// One repository's extraction, exactly as `repo_records` describes.
pub fn repo_commits(o: &RepoOutcome) -> (r: Vec<CommitInfo>)
    ensures
        commit_views(r@) == repo_records(o@),
{
    if !o.log_ok {
        let r: Vec<CommitInfo> = Vec::new();
        proof {
            assert(commit_views(r@) =~= Seq::<Commit>::empty());
        }
        return r;
    }
    let parsed = parse_log(&o.log_text, &o.repo_name);
    let recs = parsed.0;
    let pairs: Vec<(Vec<u8>, Vec<u8>)> = if o.resolve_ok {
        parse_name_rev(&o.resolve_text)
    } else {
        Vec::new()
    };
    proof {
        if !o.resolve_ok {
            assert(pair_views(pairs@) =~= Seq::<(Seq<u8>, Seq<u8>)>::empty());
        }
    }
    resolve_branches(&recs, &pairs)
}

/// The orchestrator's fold: every repository's records, in order, exactly
/// as `all_records` describes. A repository whose log command failed
/// contributes nothing and the rest still count.
pub fn extract_commits(outcomes: &Vec<RepoOutcome>) -> (r: Vec<CommitInfo>)
    ensures
        commit_views(r@) == all_records(outcome_views(outcomes@)),
{
    let ghost gos = outcome_views(outcomes@);
    let mut r: Vec<CommitInfo> = Vec::new();
    let mut i: usize = 0;
    proof {
        assert(commit_views(r@) =~= all_records(gos.take(0)));
    }
    while i < outcomes.len()
        invariant
            0 <= i <= outcomes@.len(),
            gos == outcome_views(outcomes@),
            commit_views(r@) == all_records(gos.take(i as int)),
        decreases outcomes@.len() - i,
    {
        let mut part = repo_commits(&outcomes[i]);
        let ghost r_old = r@;
        let ghost part_g = part@;
        r.append(&mut part);
        proof {
            assert(gos.take(i + 1).drop_last() =~= gos.take(i as int));
            assert(gos.take(i + 1).last() == gos[i as int]);
            assert(gos[i as int] == outcomes@[i as int]@);
            assert(commit_views(r@) =~= commit_views(r_old) + commit_views(part_g));
        }
        i = i + 1;
    }
    proof {
        assert(gos.take(gos.len() as int) =~= gos);
    }
    r
}

/// The argument list of the log dump: all refs, the date window bounded by
/// start and end of day, merge commits excluded, the fixed date format,
/// per-file numeric stats, and the marker-framed pretty format the parser
/// expects.
pub open spec fn log_args_spec(start: Seq<u8>, end: Seq<u8>) -> Seq<Seq<u8>> {
    seq![
        seq![108u8, 111, 103],
        seq![45u8, 45, 97, 108, 108],
        seq![45u8, 45, 115, 105, 110, 99, 101, 61] + start + seq![
            32u8,
            48,
            48,
            58,
            48,
            48,
            58,
            48,
            48,
        ],
        seq![45u8, 45, 117, 110, 116, 105, 108, 61] + end + seq![
            32u8,
            50,
            51,
            58,
            53,
            57,
            58,
            53,
            57,
        ],
        seq![45u8, 45, 110, 111, 45, 109, 101, 114, 103, 101, 115],
        seq![
            45u8,
            45,
            100,
            97,
            116,
            101,
            61,
            102,
            111,
            114,
            109,
            97,
            116,
            58,
            37,
            89,
            45,
            37,
            109,
            45,
            37,
            100,
        ],
        seq![45u8, 45, 110, 117, 109, 115, 116, 97, 116],
        seq![
            45u8,
            45,
            112,
            114,
            101,
            116,
            116,
            121,
            61,
            102,
            111,
            114,
            109,
            97,
            116,
            58,
            94,
            94,
            94,
            94,
            94,
            67,
            79,
            77,
            77,
            73,
            84,
            94,
            94,
            94,
            94,
            94,
            37,
            110,
            37,
            97,
            100,
            124,
            124,
            124,
            37,
            72,
            124,
            124,
            124,
            37,
            97,
            110,
            124,
            124,
            124,
            37,
            97,
            116,
            37,
            110,
            37,
            66,
            37,
            110,
            94,
            94,
            94,
            94,
            94,
            77,
            83,
            71,
            95,
            69,
            78,
            68,
            94,
            94,
            94,
            94,
            94,
        ],
    ]
}

/// Build the log-dump argument list, exactly as `log_args_spec` describes.
pub fn build_log_args(start: &Vec<u8>, end: &Vec<u8>) -> (r: Vec<Vec<u8>>)
    ensures
        views(r@) == log_args_spec(start@, end@),
{
    let mut r: Vec<Vec<u8>> = Vec::new();
    let a0: Vec<u8> = vec![108u8, 111, 103];
    let a1: Vec<u8> = vec![45u8, 45, 97, 108, 108];
    let mut a2: Vec<u8> = vec![45u8, 45, 115, 105, 110, 99, 101, 61];
    append_bytes(&mut a2, start);
    let tail2: Vec<u8> = vec![32u8, 48, 48, 58, 48, 48, 58, 48, 48];
    append_bytes(&mut a2, &tail2);
    let mut a3: Vec<u8> = vec![45u8, 45, 117, 110, 116, 105, 108, 61];
    append_bytes(&mut a3, end);
    let tail3: Vec<u8> = vec![32u8, 50, 51, 58, 53, 57, 58, 53, 57];
    append_bytes(&mut a3, &tail3);
    let a4: Vec<u8> = vec![45u8, 45, 110, 111, 45, 109, 101, 114, 103, 101, 115];
    let a5: Vec<u8> = vec![
        45u8,
        45,
        100,
        97,
        116,
        101,
        61,
        102,
        111,
        114,
        109,
        97,
        116,
        58,
        37,
        89,
        45,
        37,
        109,
        45,
        37,
        100,
    ];
    let a6: Vec<u8> = vec![45u8, 45, 110, 117, 109, 115, 116, 97, 116];
    let a7: Vec<u8> = vec![
        45u8,
        45,
        112,
        114,
        101,
        116,
        116,
        121,
        61,
        102,
        111,
        114,
        109,
        97,
        116,
        58,
        94,
        94,
        94,
        94,
        94,
        67,
        79,
        77,
        77,
        73,
        84,
        94,
        94,
        94,
        94,
        94,
        37,
        110,
        37,
        97,
        100,
        124,
        124,
        124,
        37,
        72,
        124,
        124,
        124,
        37,
        97,
        110,
        124,
        124,
        124,
        37,
        97,
        116,
        37,
        110,
        37,
        66,
        37,
        110,
        94,
        94,
        94,
        94,
        94,
        77,
        83,
        71,
        95,
        69,
        78,
        68,
        94,
        94,
        94,
        94,
        94,
    ];
    r.push(a0);
    r.push(a1);
    r.push(a2);
    r.push(a3);
    r.push(a4);
    r.push(a5);
    r.push(a6);
    r.push(a7);
    proof {
        assert(views(r@) =~= log_args_spec(start@, end@));
    }
    r
}

/// The argument list of the branch resolution: hashes from the input
/// stream, restricted to the local- and remote-branch ref namespaces.
pub open spec fn name_rev_args_spec() -> Seq<Seq<u8>> {
    seq![
        seq![110u8, 97, 109, 101, 45, 114, 101, 118],
        seq![45u8, 45, 115, 116, 100, 105, 110],
        seq![45u8, 45, 114, 101, 102, 115, 61, 114, 101, 102, 115, 47, 104, 101, 97, 100, 115, 47, 42],
        seq![
            45u8,
            45,
            114,
            101,
            102,
            115,
            61,
            114,
            101,
            102,
            115,
            47,
            114,
            101,
            109,
            111,
            116,
            101,
            115,
            47,
            42,
        ],
    ]
}

/// Build the branch-resolution argument list, exactly as
/// `name_rev_args_spec` describes.
pub fn build_name_rev_args() -> (r: Vec<Vec<u8>>)
    ensures
        views(r@) == name_rev_args_spec(),
{
    let mut r: Vec<Vec<u8>> = Vec::new();
    let a0: Vec<u8> = vec![110u8, 97, 109, 101, 45, 114, 101, 118];
    let a1: Vec<u8> = vec![45u8, 45, 115, 116, 100, 105, 110];
    let a2: Vec<u8> = vec![
        45u8,
        45,
        114,
        101,
        102,
        115,
        61,
        114,
        101,
        102,
        115,
        47,
        104,
        101,
        97,
        100,
        115,
        47,
        42,
    ];
    let a3: Vec<u8> = vec![
        45u8,
        45,
        114,
        101,
        102,
        115,
        61,
        114,
        101,
        102,
        115,
        47,
        114,
        101,
        109,
        111,
        116,
        101,
        115,
        47,
        42,
    ];
    r.push(a0);
    r.push(a1);
    r.push(a2);
    r.push(a3);
    proof {
        assert(views(r@) =~= name_rev_args_spec());
    }
    r
}

/// The literal label used when the commits span several projects.
pub open spec fn all_projects_label() -> Seq<u8> {
    seq![65u8, 108, 108, 80, 114, 111, 106, 101, 99, 116, 115]
}

/// The stem of the total report's file name.
pub open spec fn total_tag() -> Seq<u8> {
    seq![84u8, 79, 84, 65, 76]
}

/// The `.txt` file extension.
pub open spec fn txt_ext() -> Seq<u8> {
    seq![46u8, 116, 120, 116]
}

/// The project part of a file name: the one repository name when every
/// commit shares it, the multi-project label when they differ, and the
/// sentinel when there are no commits at all.
pub open spec fn repo_label_spec(cs: Seq<Commit>) -> Seq<u8> {
    if cs.len() == 0 {
        unknown_branch()
    } else if forall|i: int| 0 <= i < cs.len() ==> #[trigger] cs[i].repo_name == cs[0].repo_name {
        cs[0].repo_name
    } else {
        all_projects_label()
    }
}

/// Compute the project label, exactly as `repo_label_spec` describes.
pub fn repo_label(commits: &Vec<CommitInfo>) -> (r: Vec<u8>)
    ensures
        r@ == repo_label_spec(commit_views(commits@)),
{
    let ghost gcs = commit_views(commits@);
    if commits.len() == 0 {
        return crate::parser::unknown_branch_vec();
    }
    let mut i: usize = 1;
    while i < commits.len()
        invariant
            1 <= i <= commits@.len(),
            commits@.len() > 0,
            gcs == commit_views(commits@),
            forall|j: int| 0 <= j < i ==> #[trigger] gcs[j].repo_name == gcs[0].repo_name,
        decreases commits@.len() - i,
    {
        proof {
            assert(gcs[i as int] == commits@[i as int]@);
            assert(gcs[0] == commits@[0]@);
        }
        if !eq_bytes(&commits[i].repo_name, &commits[0].repo_name) {
            let all: Vec<u8> = vec![65u8, 108, 108, 80, 114, 111, 106, 101, 99, 116, 115];
            proof {
                assert(all@ =~= all_projects_label());
                assert(!(gcs[i as int].repo_name == gcs[0].repo_name));
            }
            return all;
        }
        i = i + 1;
    }
    proof {
        assert(gcs[0] == commits@[0]@);
    }
    copy_bytes(&commits[0].repo_name)
}

/// One output file's name: `<stem>-<condensed range>-<label>.txt`.
pub open spec fn file_name_spec(
    stem: Seq<u8>,
    start: Seq<u8>,
    end: Seq<u8>,
    label: Seq<u8>,
) -> Seq<u8> {
    stem + seq![45u8] + date_range_spec(start, end) + seq![45u8] + label + txt_ext()
}

/// Build one output file's name, exactly as `file_name_spec` describes.
pub fn file_name(stem: &Vec<u8>, start: &Vec<u8>, end: &Vec<u8>, label: &Vec<u8>) -> (r: Vec<u8>)
    ensures
        r@ == file_name_spec(stem@, start@, end@, label@),
{
    let mut r: Vec<u8> = Vec::new();
    append_bytes(&mut r, stem);
    r.push(45);
    let range = format_date_range(start, end);
    append_bytes(&mut r, &range);
    r.push(45);
    append_bytes(&mut r, label);
    let ext: Vec<u8> = vec![46u8, 116, 120, 116];
    append_bytes(&mut r, &ext);
    proof {
        assert(ext@ =~= txt_ext());
        assert(r@ =~= file_name_spec(stem@, start@, end@, label@));
    }
    r
}

/// The output directory's name: the full `<start>~<end>` span.
pub open spec fn dir_name_spec(start: Seq<u8>, end: Seq<u8>) -> Seq<u8> {
    start + seq![126u8] + end
}

/// Build the output directory's name, exactly as `dir_name_spec`
/// describes.
pub fn output_dir_name(start: &Vec<u8>, end: &Vec<u8>) -> (r: Vec<u8>)
    ensures
        r@ == dir_name_spec(start@, end@),
{
    let mut r: Vec<u8> = Vec::new();
    append_bytes(&mut r, start);
    r.push(126);
    append_bytes(&mut r, end);
    proof {
        assert(r@ =~= dir_name_spec(start@, end@));
    }
    r
}

/// The distinct authors of a commit list, in order of first appearance.
pub open spec fn authors_of(cs: Seq<Commit>) -> Seq<Seq<u8>>
    decreases cs.len(),
{
    if cs.len() == 0 {
        Seq::empty()
    } else {
        let a = authors_of(cs.drop_last());
        if a.contains(cs.last().author) {
            a
        } else {
            a.push(cs.last().author)
        }
    }
}

/// The commits of one author, their order kept.
pub open spec fn commits_of(cs: Seq<Commit>, a: Seq<u8>) -> Seq<Commit>
    decreases cs.len(),
{
    if cs.len() == 0 {
        Seq::empty()
    } else {
        commits_of(cs.drop_last(), a) + (if cs.last().author == a {
            seq![cs.last()]
        } else {
            Seq::empty()
        })
    }
}

/// Whether `x` is among the byte strings of `vs`.
fn contains_bytes(vs: &Vec<Vec<u8>>, x: &Vec<u8>) -> (r: bool)
    ensures
        r == views(vs@).contains(x@),
{
    let mut i: usize = 0;
    while i < vs.len()
        invariant
            0 <= i <= vs@.len(),
            forall|j: int| 0 <= j < i ==> views(vs@)[j] != x@,
        decreases vs@.len() - i,
    {
        proof {
            assert(views(vs@)[i as int] == vs@[i as int]@);
        }
        if eq_bytes(&vs[i], x) {
            proof {
                assert(views(vs@).contains(x@));
            }
            return true;
        }
        i = i + 1;
    }
    proof {
        if views(vs@).contains(x@) {
            let j = choose|j: int| 0 <= j < views(vs@).len() && views(vs@)[j] == x@;
            assert(views(vs@)[j] != x@);
        }
    }
    false
}

/// List the distinct authors, exactly as `authors_of` describes.
pub fn list_authors(commits: &Vec<CommitInfo>) -> (r: Vec<Vec<u8>>)
    ensures
        views(r@) == authors_of(commit_views(commits@)),
{
    let ghost gcs = commit_views(commits@);
    let mut r: Vec<Vec<u8>> = Vec::new();
    let mut i: usize = 0;
    proof {
        assert(views(r@) =~= authors_of(gcs.take(0)));
    }
    while i < commits.len()
        invariant
            0 <= i <= commits@.len(),
            gcs == commit_views(commits@),
            views(r@) == authors_of(gcs.take(i as int)),
        decreases commits@.len() - i,
    {
        proof {
            assert(gcs.take(i + 1).drop_last() =~= gcs.take(i as int));
            assert(gcs.take(i + 1).last() == gcs[i as int]);
            assert(gcs[i as int] == commits@[i as int]@);
        }
        let a = copy_bytes(&commits[i].author);
        if !contains_bytes(&r, &a) {
            let ghost r_old = r@;
            r.push(a);
            proof {
                assert(views(r@) =~= views(r_old).push(commits@[i as int]@.author));
            }
        }
        i = i + 1;
    }
    proof {
        assert(gcs.take(gcs.len() as int) =~= gcs);
    }
    r
}

/// Collect one author's commits, exactly as `commits_of` describes.
pub fn commits_for_author(commits: &Vec<CommitInfo>, author: &Vec<u8>) -> (r: Vec<CommitInfo>)
    ensures
        commit_views(r@) == commits_of(commit_views(commits@), author@),
{
    let ghost gcs = commit_views(commits@);
    let mut r: Vec<CommitInfo> = Vec::new();
    let mut i: usize = 0;
    proof {
        assert(commit_views(r@) =~= commits_of(gcs.take(0), author@));
    }
    while i < commits.len()
        invariant
            0 <= i <= commits@.len(),
            gcs == commit_views(commits@),
            commit_views(r@) == commits_of(gcs.take(i as int), author@),
        decreases commits@.len() - i,
    {
        proof {
            assert(gcs.take(i + 1).drop_last() =~= gcs.take(i as int));
            assert(gcs.take(i + 1).last() == gcs[i as int]);
            assert(gcs[i as int] == commits@[i as int]@);
        }
        let ghost r_old = r@;
        if eq_bytes(&commits[i].author, author) {
            let c = commits[i].duplicate();
            r.push(c);
            proof {
                assert(commit_views(r@) =~= commit_views(r_old).push(commits@[i as int]@));
                assert(commit_views(r_old) + seq![gcs[i as int]] =~= commit_views(r@));
            }
        } else {
            proof {
                assert(commit_views(r@) + Seq::<Commit>::empty() =~= commit_views(r@));
            }
        }
        i = i + 1;
    }
    proof {
        assert(gcs.take(gcs.len() as int) =~= gcs);
    }
    r
}

/// The per-author files, one per author in order of first appearance:
/// name and full text of each.
pub open spec fn author_files(
    authors: Seq<Seq<u8>>,
    cs: Seq<Commit>,
    start: Seq<u8>,
    end: Seq<u8>,
) -> Seq<(Seq<u8>, Seq<u8>)>
    decreases authors.len(),
{
    if authors.len() == 0 {
        Seq::empty()
    } else {
        let a = authors[0];
        let own = commits_of(cs, a);
        seq![
            (
                file_name_spec(a, start, end, repo_label_spec(own)),
                report_content_spec(own, a, start, end, false),
            ),
        ] + author_files(authors.drop_first(), cs, start, end)
    }
}

/// Every file one report run writes: the per-author files, then the total
/// file over the whole unfiltered list.
pub open spec fn report_files_spec(cs: Seq<Commit>, start: Seq<u8>, end: Seq<u8>) -> Seq<
    (Seq<u8>, Seq<u8>),
> {
    author_files(authors_of(cs), cs, start, end) + seq![
        (
            file_name_spec(total_tag(), start, end, repo_label_spec(cs)),
            report_content_spec(cs, Seq::empty(), start, end, true),
        ),
    ]
}

/// Compute every output file's name and content, exactly as
/// `report_files_spec` describes. The caller writes each pair into the
/// `dir_name_spec` directory, overwriting what is there.
pub fn report_files(commits: &Vec<CommitInfo>, start: &Vec<u8>, end: &Vec<u8>) -> (r: Vec<
    (Vec<u8>, Vec<u8>),
>)
    ensures
        pair_views(r@) == report_files_spec(commit_views(commits@), start@, end@),
{
    let ghost gcs = commit_views(commits@);
    let authors = list_authors(commits);
    let ghost ga = views(authors@);
    let mut r: Vec<(Vec<u8>, Vec<u8>)> = Vec::new();
    let mut i: usize = 0;
    proof {
        assert(ga.skip(0) =~= ga);
    }
    while i < authors.len()
        invariant
            0 <= i <= authors@.len(),
            gcs == commit_views(commits@),
            ga == views(authors@),
            author_files(ga, gcs, start@, end@) == pair_views(r@) + author_files(
                ga.skip(i as int),
                gcs,
                start@,
                end@,
            ),
        decreases authors@.len() - i,
    {
        proof {
            assert(ga.skip(i as int)[0] == ga[i as int]);
            assert(ga[i as int] == authors@[i as int]@);
            assert(ga.skip(i as int).drop_first() =~= ga.skip(i + 1));
        }
        let a = &authors[i];
        let own = commits_for_author(commits, a);
        let label = repo_label(&own);
        let name = file_name(a, start, end, &label);
        let content = crate::report::generate_report_content(&own, a, start, end, false);
        let ghost r_old = r@;
        r.push((name, content));
        proof {
            assert(pair_views(r@) =~= pair_views(r_old).push((name@, content@)));
            assert(pair_views(r_old) + author_files(ga.skip(i as int), gcs, start@, end@)
                =~= pair_views(r@) + author_files(ga.skip(i + 1), gcs, start@, end@));
        }
        i = i + 1;
    }
    proof {
        assert(author_files(ga.skip(ga.len() as int), gcs, start@, end@) =~= Seq::<
            (Seq<u8>, Seq<u8>),
        >::empty());
        assert(pair_views(r@) + Seq::<(Seq<u8>, Seq<u8>)>::empty() =~= pair_views(r@));
    }
    let total_label = repo_label(commits);
    let stem: Vec<u8> = vec![84u8, 79, 84, 65, 76];
    proof {
        assert(stem@ =~= total_tag());
    }
    let total_name = file_name(&stem, start, end, &total_label);
    let empty_author: Vec<u8> = Vec::new();
    let total_content = crate::report::generate_report_content(
        commits,
        &empty_author,
        start,
        end,
        true,
    );
    let ghost r_old = r@;
    r.push((total_name, total_content));
    proof {
        assert(empty_author@ =~= Seq::<u8>::empty());
        assert(pair_views(r@) =~= pair_views(r_old).push((total_name@, total_content@)));
        assert(pair_views(r@) =~= report_files_spec(gcs, start@, end@));
    }
    r
}

} // verus!

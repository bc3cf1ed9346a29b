//! The report aggregator and writer logic: group a commit list into the
//! date -> project -> branch -> messages hierarchy, render it as text, and
//! name the output directory and files. All of it is pure byte
//! computation; writing the files is the caller's affair.

use vstd::prelude::*;

use crate::record::{commit_views, copy_bytes, Commit, CommitInfo};
use crate::text::{
    append_bytes, dec_str, find_byte, join_nl, lemma_find_byte_bound, lex_lt, push_dec, split_nl,
    subvec, views, Rel,
};
use crate::text::lex_cmp;
use crate::parser::eq_bytes;

verus! {

/// The segments of `s` split on byte `b`; a trailing separator yields a
/// final empty segment, and the empty input is one empty segment.
pub open spec fn split_byte(s: Seq<u8>, b: u8) -> Seq<Seq<u8>>
    decreases s.len(),
    via split_byte_decreases
{
    let i = find_byte(s, b);
    if i == s.len() {
        seq![s]
    } else {
        seq![s.take(i)] + split_byte(s.skip(i + 1), b)
    }
}

#[via_fn]
proof fn split_byte_decreases(s: Seq<u8>, b: u8) {
    lemma_find_byte_bound(s, b);
}

/// Split `v` on byte `b`, exactly as `split_byte` describes.
pub fn split_byte_vec(v: &Vec<u8>, b: u8) -> (r: Vec<Vec<u8>>)
    ensures
        views(r@) == split_byte(v@, b),
{
    let mut r: Vec<Vec<u8>> = Vec::new();
    let mut p: usize = 0;
    proof {
        assert(v@.skip(0) =~= v@);
    }
    loop
        invariant
            0 <= p <= v@.len(),
            split_byte(v@, b) == views(r@) + split_byte(v@.skip(p as int), b),
        decreases v@.len() - p,
    {
        let ghost rest = v@.skip(p as int);
        let i = crate::text::find_byte_from(v, p, b);
        let seg = subvec(v, p, i);
        let ghost r_old = r@;
        r.push(seg);
        proof {
            assert(views(r@) =~= views(r_old).push(seg@));
            assert(rest.take(find_byte(rest, b)) =~= v@.subrange(p as int, i as int));
            assert(rest =~= v@.subrange(p as int, v@.len() as int));
        }
        if i == v.len() {
            proof {
                assert(find_byte(rest, b) == rest.len());
                assert(split_byte(rest, b) =~= seq![rest]);
                assert(rest == seg@);
                assert(views(r@) =~= views(r_old) + split_byte(rest, b));
            }
            return r;
        }
        p = i + 1;
        proof {
            lemma_find_byte_bound(rest, b);
            assert(split_byte(rest, b) == seq![rest.take(find_byte(rest, b))] + split_byte(
                rest.skip(find_byte(rest, b) + 1),
                b,
            ));
            assert(rest.skip(find_byte(rest, b) + 1) =~= v@.skip(p as int));
            assert(views(r@) + split_byte(v@.skip(p as int), b) =~= views(r_old) + split_byte(
                rest,
                b,
            ));
        }
    }
}

/// The condensed rendering of the date span: `start~end` with the shared
/// year, and with a shared month too, elided from the end date.
pub open spec fn date_range_spec(start: Seq<u8>, end: Seq<u8>) -> Seq<u8> {
    let sp = split_byte(start, 45);
    let ep = split_byte(end, 45);
    if sp.len() == 3 && ep.len() == 3 && sp[0] == ep[0] {
        if sp[1] == ep[1] {
            start + seq![126u8] + ep[2]
        } else {
            start + seq![126u8] + ep[1] + seq![45u8] + ep[2]
        }
    } else {
        start + seq![126u8] + end
    }
}

/// Render the date span compactly, exactly as `date_range_spec` describes.
pub fn format_date_range(start: &Vec<u8>, end: &Vec<u8>) -> (r: Vec<u8>)
    ensures
        r@ == date_range_spec(start@, end@),
{
    let sp = split_byte_vec(start, 45);
    let ep = split_byte_vec(end, 45);
    let mut r: Vec<u8> = Vec::new();
    append_bytes(&mut r, start);
    r.push(126);
    proof {
        assert(views(sp@).len() == sp@.len());
        assert(views(ep@).len() == ep@.len());
    }
    if sp.len() == 3 && ep.len() == 3 && eq_bytes(&sp[0], &ep[0]) {
        proof {
            assert(views(sp@)[0] == sp@[0]@ && views(ep@)[0] == ep@[0]@);
            assert(views(sp@)[1] == sp@[1]@ && views(ep@)[1] == ep@[1]@);
            assert(views(ep@)[2] == ep@[2]@);
        }
        if eq_bytes(&sp[1], &ep[1]) {
            append_bytes(&mut r, &ep[2]);
            proof {
                assert(r@ =~= date_range_spec(start@, end@));
            }
        } else {
            append_bytes(&mut r, &ep[1]);
            r.push(45);
            append_bytes(&mut r, &ep[2]);
            proof {
                assert(r@ =~= date_range_spec(start@, end@));
            }
        }
    } else {
        append_bytes(&mut r, end);
        proof {
            assert(r@ =~= date_range_spec(start@, end@));
        }
    }
    r
}

/// One branch and its commit messages, in insertion order.
pub struct BranchGroup {
    pub branch: Vec<u8>,
    pub messages: Vec<Vec<u8>>,
}

/// One project and its branch groups, sorted by branch name.
pub struct ProjectGroup {
    pub project: Vec<u8>,
    pub branches: Vec<BranchGroup>,
}

/// One date and its project groups, sorted by project name.
pub struct DateGroup {
    pub date: Vec<u8>,
    pub projects: Vec<ProjectGroup>,
}

pub ghost struct BranchG {
    pub branch: Seq<u8>,
    pub messages: Seq<Seq<u8>>,
}

pub ghost struct ProjectG {
    pub project: Seq<u8>,
    pub branches: Seq<BranchG>,
}

pub ghost struct DateG {
    pub date: Seq<u8>,
    pub projects: Seq<ProjectG>,
}

impl View for BranchGroup {
    type V = BranchG;

    open spec fn view(&self) -> BranchG {
        BranchG { branch: self.branch@, messages: views(self.messages@) }
    }
}

impl View for ProjectGroup {
    type V = ProjectG;

    open spec fn view(&self) -> ProjectG {
        ProjectG { project: self.project@, branches: branch_views(self.branches@) }
    }
}

impl View for DateGroup {
    type V = DateG;

    open spec fn view(&self) -> DateG {
        DateG { date: self.date@, projects: project_views(self.projects@) }
    }
}

pub open spec fn branch_views(bs: Seq<BranchGroup>) -> Seq<BranchG> {
    bs.map_values(|b: BranchGroup| b@)
}

pub open spec fn project_views(ps: Seq<ProjectGroup>) -> Seq<ProjectG> {
    ps.map_values(|p: ProjectGroup| p@)
}

pub open spec fn date_views(ds: Seq<DateGroup>) -> Seq<DateG> {
    ds.map_values(|d: DateGroup| d@)
}

/// Insert a message under its branch, keeping the groups sorted by branch
/// name and the messages in insertion order.
pub open spec fn ins_branch(bs: Seq<BranchG>, branch: Seq<u8>, msg: Seq<u8>) -> Seq<BranchG>
    decreases bs.len(),
{
    if bs.len() == 0 {
        seq![BranchG { branch, messages: seq![msg] }]
    } else if lex_lt(branch, bs[0].branch) {
        seq![BranchG { branch, messages: seq![msg] }] + bs
    } else if branch == bs[0].branch {
        seq![BranchG { branch: bs[0].branch, messages: bs[0].messages.push(msg) }]
            + bs.drop_first()
    } else {
        seq![bs[0]] + ins_branch(bs.drop_first(), branch, msg)
    }
}

/// Insert a message under its project and branch, keeping the groups
/// sorted by project name.
pub open spec fn ins_project(
    ps: Seq<ProjectG>,
    project: Seq<u8>,
    branch: Seq<u8>,
    msg: Seq<u8>,
) -> Seq<ProjectG>
    decreases ps.len(),
{
    if ps.len() == 0 {
        seq![ProjectG { project, branches: ins_branch(Seq::empty(), branch, msg) }]
    } else if lex_lt(project, ps[0].project) {
        seq![ProjectG { project, branches: ins_branch(Seq::empty(), branch, msg) }] + ps
    } else if project == ps[0].project {
        seq![ProjectG { project: ps[0].project, branches: ins_branch(ps[0].branches, branch, msg) }]
            + ps.drop_first()
    } else {
        seq![ps[0]] + ins_project(ps.drop_first(), project, branch, msg)
    }
}

/// Insert a message under its date, project and branch, keeping the
/// groups sorted by date.
pub open spec fn ins_date(
    ds: Seq<DateG>,
    date: Seq<u8>,
    project: Seq<u8>,
    branch: Seq<u8>,
    msg: Seq<u8>,
) -> Seq<DateG>
    decreases ds.len(),
{
    if ds.len() == 0 {
        seq![DateG { date, projects: ins_project(Seq::empty(), project, branch, msg) }]
    } else if lex_lt(date, ds[0].date) {
        seq![DateG { date, projects: ins_project(Seq::empty(), project, branch, msg) }] + ds
    } else if date == ds[0].date {
        seq![DateG { date: ds[0].date, projects: ins_project(ds[0].projects, project, branch, msg) }]
            + ds.drop_first()
    } else {
        seq![ds[0]] + ins_date(ds.drop_first(), date, project, branch, msg)
    }
}

/// The whole tree a commit sequence builds, each commit's message inserted
/// in order under its date, project and branch.
pub open spec fn build_tree(cs: Seq<Commit>) -> Seq<DateG>
    decreases cs.len(),
{
    if cs.len() == 0 {
        Seq::empty()
    } else {
        ins_date(
            build_tree(cs.drop_last()),
            cs.last().date,
            cs.last().repo_name,
            cs.last().branch,
            cs.last().message,
        )
    }
}

/// A branch group holding one message.
fn new_branch_group(branch: Vec<u8>, msg: Vec<u8>) -> (r: BranchGroup)
    ensures
        r@ == (BranchG { branch: branch@, messages: seq![msg@] }),
{
    let mut ms: Vec<Vec<u8>> = Vec::new();
    let ghost gm = msg@;
    ms.push(msg);
    proof {
        assert(views(ms@) =~= seq![gm]);
    }
    BranchGroup { branch, messages: ms }
}

/// Insert a message into branch groups, exactly as `ins_branch` describes.
fn ins_branch_vec(bs: Vec<BranchGroup>, branch: Vec<u8>, msg: Vec<u8>) -> (r: Vec<BranchGroup>)
    ensures
        branch_views(r@) == ins_branch(branch_views(bs@), branch@, msg@),
    decreases bs@.len(),
{
    let ghost gbs = branch_views(bs@);
    let ghost gb = branch@;
    let ghost gm = msg@;
    let mut bs = bs;
    if bs.len() == 0 {
        let g = new_branch_group(branch, msg);
        let mut r: Vec<BranchGroup> = Vec::new();
        r.push(g);
        proof {
            assert(branch_views(r@) =~= ins_branch(gbs, gb, gm));
        }
        return r;
    }
    proof {
        assert(gbs[0] == bs@[0]@);
    }
    match lex_cmp(&branch, &bs[0].branch) {
        Rel::Lt => {
            let g = new_branch_group(branch, msg);
            bs.insert(0, g);
            proof {
                assert(branch_views(bs@) =~= ins_branch(gbs, gb, gm));
            }
            bs
        },
        Rel::Eq => {
            let mut g0 = bs.remove(0);
            let ghost g0m = views(g0.messages@);
            g0.messages.push(msg);
            proof {
                assert(views(g0.messages@) =~= g0m.push(gm));
            }
            bs.insert(0, g0);
            proof {
                assert(branch_views(bs@) =~= ins_branch(gbs, gb, gm));
            }
            bs
        },
        Rel::Gt => {
            let head = bs.remove(0);
            proof {
                assert(branch_views(bs@) =~= gbs.drop_first());
            }
            let mut rest = ins_branch_vec(bs, branch, msg);
            rest.insert(0, head);
            proof {
                assert(branch_views(rest@) =~= ins_branch(gbs, gb, gm));
            }
            rest
        },
    }
}

/// Insert a message into project groups, exactly as `ins_project`
/// describes.
fn ins_project_vec(ps: Vec<ProjectGroup>, project: Vec<u8>, branch: Vec<u8>, msg: Vec<u8>) -> (r:
    Vec<ProjectGroup>)
    ensures
        project_views(r@) == ins_project(project_views(ps@), project@, branch@, msg@),
    decreases ps@.len(),
{
    let ghost gps = project_views(ps@);
    let ghost gp = project@;
    let ghost gb = branch@;
    let ghost gm = msg@;
    let mut ps = ps;
    if ps.len() == 0 {
        let empty_branches: Vec<BranchGroup> = Vec::new();
        proof {
            assert(branch_views(empty_branches@) =~= Seq::<BranchG>::empty());
        }
        let bs = ins_branch_vec(empty_branches, branch, msg);
        let g = ProjectGroup { project, branches: bs };
        let mut r: Vec<ProjectGroup> = Vec::new();
        r.push(g);
        proof {
            assert(project_views(r@) =~= ins_project(gps, gp, gb, gm));
        }
        return r;
    }
    proof {
        assert(gps[0] == ps@[0]@);
    }
    match lex_cmp(&project, &ps[0].project) {
        Rel::Lt => {
            let empty_branches: Vec<BranchGroup> = Vec::new();
            proof {
                assert(branch_views(empty_branches@) =~= Seq::<BranchG>::empty());
            }
            let bs = ins_branch_vec(empty_branches, branch, msg);
            let g = ProjectGroup { project, branches: bs };
            ps.insert(0, g);
            proof {
                assert(project_views(ps@) =~= ins_project(gps, gp, gb, gm));
            }
            ps
        },
        Rel::Eq => {
            let g0 = ps.remove(0);
            let bs = ins_branch_vec(g0.branches, branch, msg);
            let g = ProjectGroup { project: g0.project, branches: bs };
            ps.insert(0, g);
            proof {
                assert(project_views(ps@) =~= ins_project(gps, gp, gb, gm));
            }
            ps
        },
        Rel::Gt => {
            let head = ps.remove(0);
            proof {
                assert(project_views(ps@) =~= gps.drop_first());
            }
            let mut rest = ins_project_vec(ps, project, branch, msg);
            rest.insert(0, head);
            proof {
                assert(project_views(rest@) =~= ins_project(gps, gp, gb, gm));
            }
            rest
        },
    }
}

/// Insert a message into date groups, exactly as `ins_date` describes.
fn ins_date_vec(
    ds: Vec<DateGroup>,
    date: Vec<u8>,
    project: Vec<u8>,
    branch: Vec<u8>,
    msg: Vec<u8>,
) -> (r: Vec<DateGroup>)
    ensures
        date_views(r@) == ins_date(date_views(ds@), date@, project@, branch@, msg@),
    decreases ds@.len(),
{
    let ghost gds = date_views(ds@);
    let ghost gd = date@;
    let ghost gp = project@;
    let ghost gb = branch@;
    let ghost gm = msg@;
    let mut ds = ds;
    if ds.len() == 0 {
        let empty_projects: Vec<ProjectGroup> = Vec::new();
        proof {
            assert(project_views(empty_projects@) =~= Seq::<ProjectG>::empty());
        }
        let psv = ins_project_vec(empty_projects, project, branch, msg);
        let g = DateGroup { date, projects: psv };
        let mut r: Vec<DateGroup> = Vec::new();
        r.push(g);
        proof {
            assert(date_views(r@) =~= ins_date(gds, gd, gp, gb, gm));
        }
        return r;
    }
    proof {
        assert(gds[0] == ds@[0]@);
    }
    match lex_cmp(&date, &ds[0].date) {
        Rel::Lt => {
            let empty_projects: Vec<ProjectGroup> = Vec::new();
            proof {
                assert(project_views(empty_projects@) =~= Seq::<ProjectG>::empty());
            }
            let psv = ins_project_vec(empty_projects, project, branch, msg);
            let g = DateGroup { date, projects: psv };
            ds.insert(0, g);
            proof {
                assert(date_views(ds@) =~= ins_date(gds, gd, gp, gb, gm));
            }
            ds
        },
        Rel::Eq => {
            let g0 = ds.remove(0);
            let psv = ins_project_vec(g0.projects, project, branch, msg);
            let g = DateGroup { date: g0.date, projects: psv };
            ds.insert(0, g);
            proof {
                assert(date_views(ds@) =~= ins_date(gds, gd, gp, gb, gm));
            }
            ds
        },
        Rel::Gt => {
            let head = ds.remove(0);
            proof {
                assert(date_views(ds@) =~= gds.drop_first());
            }
            let mut rest = ins_date_vec(ds, date, project, branch, msg);
            rest.insert(0, head);
            proof {
                assert(date_views(rest@) =~= ins_date(gds, gd, gp, gb, gm));
            }
            rest
        },
    }
}

/// Build the aggregation tree of a commit list, exactly as `build_tree`
/// describes.
pub fn build_tree_vec(commits: &Vec<CommitInfo>) -> (r: Vec<DateGroup>)
    ensures
        date_views(r@) == build_tree(commit_views(commits@)),
{
    let ghost gcs = commit_views(commits@);
    let mut tree: Vec<DateGroup> = Vec::new();
    let mut i: usize = 0;
    proof {
        assert(date_views(tree@) =~= Seq::<DateG>::empty());
        assert(gcs.take(0) =~= Seq::<Commit>::empty());
    }
    while i < commits.len()
        invariant
            0 <= i <= commits@.len(),
            gcs == commit_views(commits@),
            date_views(tree@) == build_tree(gcs.take(i as int)),
        decreases commits@.len() - i,
    {
        let c = &commits[i];
        let date = copy_bytes(&c.date);
        let project = copy_bytes(&c.repo_name);
        let branch = copy_bytes(&c.branch);
        let msg = copy_bytes(&c.message);
        tree = ins_date_vec(tree, date, project, branch, msg);
        proof {
            let pre = gcs.take(i as int);
            let post = gcs.take(i + 1);
            assert(post.drop_last() =~= pre);
            assert(post.last() == gcs[i as int]);
            assert(gcs[i as int] == commits@[i as int]@);
        }
        i = i + 1;
    }
    proof {
        assert(gcs.take(gcs.len() as int) =~= gcs);
    }
    tree
}

/// UTF-8 bytes of the total-report heading line (a "summary, all authors"
/// label and a line feed).
pub open spec fn total_header() -> Seq<u8> {
    seq![
        230u8,
        177,
        135,
        230,
        128,
        187,
        230,
        138,
        165,
        229,
        145,
        138,
        32,
        40,
        230,
        137,
        128,
        230,
        156,
        137,
        228,
        189,
        156,
        232,
        128,
        133,
        41,
        10,
    ]
}

/// UTF-8 bytes of the author label (`author: `).
pub open spec fn author_label() -> Seq<u8> {
    seq![228u8, 189, 156, 232, 128, 133, 58, 32]
}

/// UTF-8 bytes of the time-range label.
pub open spec fn range_label() -> Seq<u8> {
    seq![230u8, 151, 182, 233, 151, 180, 232, 140, 131, 229, 155, 180, 58, 32]
}

/// UTF-8 bytes of the word between the two range dates (` to `).
pub open spec fn range_mid() -> Seq<u8> {
    seq![32u8, 232, 135, 179, 32]
}

/// The forty-dash separator line and the blank line after it.
pub open spec fn separator_lines() -> Seq<u8> {
    Seq::new(40, |i: int| 45u8) + seq![10u8, 10]
}

/// UTF-8 bytes of the opening date bracket.
pub open spec fn date_open() -> Seq<u8> {
    seq![227u8, 128, 144]
}

/// UTF-8 bytes of the closing date bracket and its line feed.
pub open spec fn date_close() -> Seq<u8> {
    seq![227u8, 128, 145, 10]
}

/// UTF-8 bytes of the indented project label.
pub open spec fn project_label() -> Seq<u8> {
    seq![32u8, 32, 240, 159, 147, 130, 32, 233, 161, 185, 231, 155, 174, 58, 32]
}

/// UTF-8 bytes of the indented branch label.
pub open spec fn branch_label() -> Seq<u8> {
    seq![32u8, 32, 32, 32, 240, 159, 140, 191, 32, 229, 136, 134, 230, 148, 175, 58, 32]
}

/// Six spaces before a numbered message line.
pub open spec fn msg_indent() -> Seq<u8> {
    Seq::new(6, |i: int| 32u8)
}

/// Nine spaces before a continuation line.
pub open spec fn cont_indent() -> Seq<u8> {
    Seq::new(9, |i: int| 32u8)
}

/// Append `n` copies of byte `b`.
fn push_repeat(out: &mut Vec<u8>, b: u8, n: usize)
    ensures
        final(out)@ == old(out)@ + Seq::new(n as nat, |i: int| b),
{
    let mut k: usize = 0;
    while k < n
        invariant
            0 <= k <= n,
            out@ == old(out)@ + Seq::new(k as nat, |i: int| b),
        decreases n - k,
    {
        out.push(b);
        k = k + 1;
        proof {
            assert(old(out)@ + Seq::new((k - 1) as nat, |i: int| b) + seq![b] =~= old(out)@
                + Seq::new(k as nat, |i: int| b));
        }
    }
}

/// Continuation lines of one message, each indented and closed by a line
/// feed.
pub open spec fn render_conts(ls: Seq<Seq<u8>>) -> Seq<u8>
    decreases ls.len(),
{
    if ls.len() == 0 {
        Seq::empty()
    } else {
        cont_indent() + ls[0] + seq![10u8] + render_conts(ls.drop_first())
    }
}

/// One numbered message: indented number, first line inline, continuation
/// lines indented further; an empty message renders as nothing.
pub open spec fn render_msg(n: int, msg: Seq<u8>) -> Seq<u8> {
    let ls = split_nl(msg);
    if ls.len() == 0 {
        Seq::empty()
    } else {
        msg_indent() + dec_str(n as nat) + seq![46u8, 32] + ls[0] + seq![10u8] + render_conts(
            ls.drop_first(),
        )
    }
}

/// The messages of one branch, numbered from `n` on in insertion order.
pub open spec fn render_msgs(ms: Seq<Seq<u8>>, n: int) -> Seq<u8>
    decreases ms.len(),
{
    if ms.len() == 0 {
        Seq::empty()
    } else {
        render_msg(n, ms[0]) + render_msgs(ms.drop_first(), n + 1)
    }
}

/// One branch group: its label line, its numbered messages, a blank line.
pub open spec fn render_branch(b: BranchG) -> Seq<u8> {
    branch_label() + b.branch + seq![10u8] + render_msgs(b.messages, 1) + seq![10u8]
}

pub open spec fn render_branches(bs: Seq<BranchG>) -> Seq<u8>
    decreases bs.len(),
{
    if bs.len() == 0 {
        Seq::empty()
    } else {
        render_branch(bs[0]) + render_branches(bs.drop_first())
    }
}

/// One project group: its label line, its branch groups, a blank line.
pub open spec fn render_project(p: ProjectG) -> Seq<u8> {
    project_label() + p.project + seq![10u8] + render_branches(p.branches) + seq![10u8]
}

pub open spec fn render_projects(ps: Seq<ProjectG>) -> Seq<u8>
    decreases ps.len(),
{
    if ps.len() == 0 {
        Seq::empty()
    } else {
        render_project(ps[0]) + render_projects(ps.drop_first())
    }
}

/// One date group: its bracketed header line, then its project groups.
pub open spec fn render_date(d: DateG) -> Seq<u8> {
    date_open() + d.date + date_close() + render_projects(d.projects)
}

pub open spec fn render_dates(ds: Seq<DateG>) -> Seq<u8>
    decreases ds.len(),
{
    if ds.len() == 0 {
        Seq::empty()
    } else {
        render_date(ds[0]) + render_dates(ds.drop_first())
    }
}

/// The heading of one report: the author line (or the total label), the
/// time-range line, the separator.
pub open spec fn report_header_spec(
    author: Seq<u8>,
    start: Seq<u8>,
    end: Seq<u8>,
    is_total: bool,
) -> Seq<u8> {
    (if is_total {
        total_header()
    } else {
        author_label() + author + seq![10u8]
    }) + range_label() + start + range_mid() + end + seq![10u8] + separator_lines()
}

/// The whole report text a commit list yields: the heading, then the
/// rendered aggregation tree.
pub open spec fn report_content_spec(
    cs: Seq<Commit>,
    author: Seq<u8>,
    start: Seq<u8>,
    end: Seq<u8>,
    is_total: bool,
) -> Seq<u8> {
    report_header_spec(author, start, end, is_total) + render_dates(build_tree(cs))
}

fn emit_conts(out: &mut Vec<u8>, ls: &Vec<Vec<u8>>, from: usize)
    requires
        from <= ls@.len(),
    ensures
        final(out)@ == old(out)@ + render_conts(views(ls@).skip(from as int)),
{
    let ghost base = out@;
    let ghost lv = views(ls@);
    let mut k: usize = from;
    while k < ls.len()
        invariant
            from <= k <= ls@.len(),
            lv == views(ls@),
            out@ + render_conts(lv.skip(k as int)) == base + render_conts(lv.skip(from as int)),
        decreases ls@.len() - k,
    {
        let ghost pre = out@;
        push_repeat(out, 32, 9);
        append_bytes(out, &ls[k]);
        out.push(10);
        proof {
            assert(lv.skip(k as int)[0] == lv[k as int] && lv[k as int] == ls@[k as int]@);
            assert(lv.skip(k as int).drop_first() =~= lv.skip(k + 1));
            assert(Seq::new(9, |i: int| 32u8) =~= cont_indent());
            assert(out@ =~= pre + (cont_indent() + ls@[k as int]@ + seq![10u8]));
            assert(out@ + render_conts(lv.skip(k + 1)) =~= pre + render_conts(lv.skip(k as int)));
        }
        k = k + 1;
    }
    proof {
        assert(render_conts(lv.skip(ls@.len() as int)) =~= Seq::<u8>::empty());
        assert(out@ + Seq::<u8>::empty() =~= out@);
        assert(out@ =~= base + render_conts(lv.skip(from as int)));
    }
}

fn emit_msgs(out: &mut Vec<u8>, ms: &Vec<Vec<u8>>)
    ensures
        final(out)@ == old(out)@ + render_msgs(views(ms@), 1),
{
    let ghost base = out@;
    let ghost mv = views(ms@);
    let mut k: usize = 0;
    proof {
        assert(mv.skip(0) =~= mv);
    }
    while k < ms.len()
        invariant
            0 <= k <= ms@.len(),
            mv == views(ms@),
            out@ + render_msgs(mv.skip(k as int), k + 1) == base + render_msgs(mv, 1),
        decreases ms@.len() - k,
    {
        let ghost pre = out@;
        let ls = crate::text::split_lines(&ms[k]);
        proof {
            assert(mv.skip(k as int)[0] == mv[k as int] && mv[k as int] == ms@[k as int]@);
            assert(views(ls@) == split_nl(ms@[k as int]@));
            assert(mv.skip(k as int).drop_first() =~= mv.skip(k + 1));
        }
        if ls.len() > 0 {
            push_repeat(out, 32, 6);
            push_dec((k as u64) + 1, out);
            out.push(46);
            out.push(32);
            append_bytes(out, &ls[0]);
            out.push(10);
            emit_conts(out, &ls, 1);
            proof {
                assert(views(ls@)[0] == ls@[0]@);
                assert(views(ls@).skip(1) =~= views(ls@).drop_first());
                assert(Seq::new(6, |i: int| 32u8) =~= msg_indent());
                assert(out@ =~= pre + (msg_indent() + dec_str((k + 1) as nat) + seq![46u8, 32]
                    + ls@[0]@ + seq![10u8] + render_conts(views(ls@).drop_first())));
                assert(out@ =~= pre + render_msg(k + 1, mv[k as int]));
            }
        } else {
            proof {
                assert(render_msg(k + 1, mv[k as int]) =~= Seq::<u8>::empty());
                assert(out@ =~= pre + render_msg(k + 1, mv[k as int]));
            }
        }
        proof {
            assert(out@ + render_msgs(mv.skip(k + 1), k + 2) =~= pre + render_msgs(
                mv.skip(k as int),
                k + 1,
            ));
        }
        k = k + 1;
    }
    proof {
        assert(render_msgs(mv.skip(ms@.len() as int), ms@.len() as int + 1) =~= Seq::<u8>::empty());
        assert(out@ + Seq::<u8>::empty() =~= out@);
        assert(out@ =~= base + render_msgs(mv, 1));
    }
}

fn emit_branches(out: &mut Vec<u8>, bs: &Vec<BranchGroup>)
    ensures
        final(out)@ == old(out)@ + render_branches(branch_views(bs@)),
{
    let ghost base = out@;
    let ghost bv = branch_views(bs@);
    let mut k: usize = 0;
    proof {
        assert(bv.skip(0) =~= bv);
    }
    while k < bs.len()
        invariant
            0 <= k <= bs@.len(),
            bv == branch_views(bs@),
            out@ + render_branches(bv.skip(k as int)) == base + render_branches(bv),
        decreases bs@.len() - k,
    {
        let ghost pre = out@;
        let g = &bs[k];
        let label: Vec<u8> = vec![
            32u8,
            32,
            32,
            32,
            240,
            159,
            140,
            191,
            32,
            229,
            136,
            134,
            230,
            148,
            175,
            58,
            32,
        ];
        proof {
            assert(label@ =~= branch_label());
        }
        append_bytes(out, &label);
        append_bytes(out, &g.branch);
        out.push(10);
        emit_msgs(out, &g.messages);
        out.push(10);
        proof {
            assert(bv.skip(k as int)[0] == bv[k as int] && bv[k as int] == bs@[k as int]@);
            assert(bv.skip(k as int).drop_first() =~= bv.skip(k + 1));
            assert(out@ =~= pre + render_branch(bv[k as int]));
            assert(out@ + render_branches(bv.skip(k + 1)) =~= pre + render_branches(
                bv.skip(k as int),
            ));
        }
        k = k + 1;
    }
    proof {
        assert(render_branches(bv.skip(bs@.len() as int)) =~= Seq::<u8>::empty());
        assert(out@ + Seq::<u8>::empty() =~= out@);
        assert(out@ =~= base + render_branches(bv));
    }
}

fn emit_projects(out: &mut Vec<u8>, ps: &Vec<ProjectGroup>)
    ensures
        final(out)@ == old(out)@ + render_projects(project_views(ps@)),
{
    let ghost base = out@;
    let ghost pv = project_views(ps@);
    let mut k: usize = 0;
    proof {
        assert(pv.skip(0) =~= pv);
    }
    while k < ps.len()
        invariant
            0 <= k <= ps@.len(),
            pv == project_views(ps@),
            out@ + render_projects(pv.skip(k as int)) == base + render_projects(pv),
        decreases ps@.len() - k,
    {
        let ghost pre = out@;
        let g = &ps[k];
        let label: Vec<u8> = vec![32u8, 32, 240, 159, 147, 130, 32, 233, 161, 185, 231, 155, 174, 58, 32];
        proof {
            assert(label@ =~= project_label());
        }
        append_bytes(out, &label);
        append_bytes(out, &g.project);
        out.push(10);
        emit_branches(out, &g.branches);
        out.push(10);
        proof {
            assert(pv.skip(k as int)[0] == pv[k as int] && pv[k as int] == ps@[k as int]@);
            assert(pv.skip(k as int).drop_first() =~= pv.skip(k + 1));
            assert(out@ =~= pre + render_project(pv[k as int]));
            assert(out@ + render_projects(pv.skip(k + 1)) =~= pre + render_projects(
                pv.skip(k as int),
            ));
        }
        k = k + 1;
    }
    proof {
        assert(render_projects(pv.skip(ps@.len() as int)) =~= Seq::<u8>::empty());
        assert(out@ + Seq::<u8>::empty() =~= out@);
        assert(out@ =~= base + render_projects(pv));
    }
}

fn emit_dates(out: &mut Vec<u8>, ds: &Vec<DateGroup>)
    ensures
        final(out)@ == old(out)@ + render_dates(date_views(ds@)),
{
    let ghost base = out@;
    let ghost dv = date_views(ds@);
    let mut k: usize = 0;
    proof {
        assert(dv.skip(0) =~= dv);
    }
    while k < ds.len()
        invariant
            0 <= k <= ds@.len(),
            dv == date_views(ds@),
            out@ + render_dates(dv.skip(k as int)) == base + render_dates(dv),
        decreases ds@.len() - k,
    {
        let ghost pre = out@;
        let g = &ds[k];
        let open: Vec<u8> = vec![227u8, 128, 144];
        let close: Vec<u8> = vec![227u8, 128, 145, 10];
        proof {
            assert(open@ =~= date_open());
            assert(close@ =~= date_close());
        }
        append_bytes(out, &open);
        append_bytes(out, &g.date);
        append_bytes(out, &close);
        emit_projects(out, &g.projects);
        proof {
            assert(dv.skip(k as int)[0] == dv[k as int] && dv[k as int] == ds@[k as int]@);
            assert(dv.skip(k as int).drop_first() =~= dv.skip(k + 1));
            assert(out@ =~= pre + render_date(dv[k as int]));
            assert(out@ + render_dates(dv.skip(k + 1)) =~= pre + render_dates(dv.skip(k as int)));
        }
        k = k + 1;
    }
    proof {
        assert(render_dates(dv.skip(ds@.len() as int)) =~= Seq::<u8>::empty());
        assert(out@ + Seq::<u8>::empty() =~= out@);
        assert(out@ =~= base + render_dates(dv));
    }
}

/// Render one report: the heading for `author` (or the total label when
/// `is_total`), the time-range line, the separator, then the aggregation
/// tree of `commits`, exactly as `report_content_spec` describes.
pub fn generate_report_content(
    commits: &Vec<CommitInfo>,
    author: &Vec<u8>,
    start: &Vec<u8>,
    end: &Vec<u8>,
    is_total: bool,
) -> (r: Vec<u8>)
    ensures
        r@ == report_content_spec(commit_views(commits@), author@, start@, end@, is_total),
{
    let mut out: Vec<u8> = Vec::new();
    if is_total {
        let label: Vec<u8> = vec![
            230u8,
            177,
            135,
            230,
            128,
            187,
            230,
            138,
            165,
            229,
            145,
            138,
            32,
            40,
            230,
            137,
            128,
            230,
            156,
            137,
            228,
            189,
            156,
            232,
            128,
            133,
            41,
            10,
        ];
        proof {
            assert(label@ =~= total_header());
        }
        append_bytes(&mut out, &label);
    } else {
        let label: Vec<u8> = vec![228u8, 189, 156, 232, 128, 133, 58, 32];
        proof {
            assert(label@ =~= author_label());
        }
        append_bytes(&mut out, &label);
        append_bytes(&mut out, author);
        out.push(10);
    }
    let rlabel: Vec<u8> = vec![230u8, 151, 182, 233, 151, 180, 232, 140, 131, 229, 155, 180, 58, 32];
    let rmid: Vec<u8> = vec![32u8, 232, 135, 179, 32];
    proof {
        assert(rlabel@ =~= range_label());
        assert(rmid@ =~= range_mid());
    }
    append_bytes(&mut out, &rlabel);
    append_bytes(&mut out, start);
    append_bytes(&mut out, &rmid);
    append_bytes(&mut out, end);
    out.push(10);
    push_repeat(&mut out, 45, 40);
    out.push(10);
    out.push(10);
    proof {
        assert(Seq::new(40, |i: int| 45u8) + seq![10u8] + seq![10u8] =~= separator_lines());
        assert(out@ =~= report_header_spec(author@, start@, end@, is_total));
    }
    let tree = build_tree_vec(commits);
    emit_dates(&mut out, &tree);
    proof {
        assert(out@ =~= report_content_spec(
            commit_views(commits@),
            author@,
            start@,
            end@,
            is_total,
        ));
    }
    out
}

} // verus!

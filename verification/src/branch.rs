//! The branch resolver: parse the name-resolution tool's output into a
//! hash-to-branch mapping and merge it into parsed records.
//!
//! Each output line is whitespace-separated tokens: the hash, then a ref
//! description possibly wrapped in parentheses and suffixed with an
//! ancestry offset. Normalization strips the parentheses, then one
//! `remotes/origin/` (else `remotes/`) prefix, then everything from the
//! first `~` or `^` on.

use vstd::prelude::*;

use crate::record::{commit_views, copy_bytes, Commit, CommitInfo};
use crate::text::{split_nl, split_ws, subvec, views};
use crate::parser::eq_bytes;

verus! {

/// Whether `b` is an ASCII parenthesis.
pub open spec fn is_paren(b: u8) -> bool {
    b == 40 || b == 41
}

/// `s` without its leading parentheses.
pub open spec fn strip_lead_parens(s: Seq<u8>) -> Seq<u8>
    decreases s.len(),
{
    if s.len() > 0 && is_paren(s[0]) {
        strip_lead_parens(s.drop_first())
    } else {
        s
    }
}

/// `s` without its trailing parentheses.
pub open spec fn strip_trail_parens(s: Seq<u8>) -> Seq<u8>
    decreases s.len(),
{
    if s.len() > 0 && is_paren(s.last()) {
        strip_trail_parens(s.drop_last())
    } else {
        s
    }
}

/// `s` without surrounding parentheses.
pub open spec fn strip_parens(s: Seq<u8>) -> Seq<u8> {
    strip_trail_parens(strip_lead_parens(s))
}

pub proof fn lemma_strip_lead_parens_is(s: Seq<u8>, k: int)
    requires
        0 <= k <= s.len(),
        forall|i: int| 0 <= i < k ==> is_paren(s[i]),
        k < s.len() ==> !is_paren(s[k]),
    ensures
        strip_lead_parens(s) =~= s.skip(k),
    decreases s.len(),
{
    if s.len() > 0 && is_paren(s[0]) {
        assert(k >= 1);
        let t = s.drop_first();
        assert(forall|i: int| 0 <= i < k - 1 ==> s[i + 1] == t[i] && is_paren(t[i]));
        lemma_strip_lead_parens_is(t, k - 1);
        assert(t.skip(k - 1) =~= s.skip(k));
    } else {
        assert(k == 0);
        assert(s.skip(0) =~= s);
    }
}

pub proof fn lemma_strip_trail_parens_is(s: Seq<u8>, k: int)
    requires
        0 <= k <= s.len(),
        forall|i: int| k <= i < s.len() ==> is_paren(s[i]),
        k > 0 ==> !is_paren(s[k - 1]),
    ensures
        strip_trail_parens(s) =~= s.take(k),
    decreases s.len(),
{
    if s.len() > 0 && is_paren(s.last()) {
        assert(k < s.len());
        let t = s.drop_last();
        assert(forall|i: int| k <= i < t.len() ==> t[i] == s[i] && is_paren(t[i]));
        if k > 0 {
            assert(t[k - 1] == s[k - 1]);
        }
        lemma_strip_trail_parens_is(t, k);
        assert(t.take(k) =~= s.take(k));
    } else {
        assert(k == s.len());
        assert(s.take(k) =~= s);
    }
}

/// The bytes of `remotes/origin/`.
pub open spec fn remotes_origin_prefix() -> Seq<u8> {
    seq![114u8, 101, 109, 111, 116, 101, 115, 47, 111, 114, 105, 103, 105, 110, 47]
}

/// The bytes of `remotes/`.
pub open spec fn remotes_prefix() -> Seq<u8> {
    seq![114u8, 101, 109, 111, 116, 101, 115, 47]
}

/// One `remotes/origin/` prefix removed when present, else one `remotes/`
/// prefix, else `s` unchanged.
pub open spec fn strip_remote_prefix(s: Seq<u8>) -> Seq<u8> {
    if s.len() >= 15 && s.take(15) == remotes_origin_prefix() {
        s.skip(15)
    } else if s.len() >= 8 && s.take(8) == remotes_prefix() {
        s.skip(8)
    } else {
        s
    }
}

/// Index of the first ancestry-offset byte (`~` or `^`), or `s.len()`.
pub open spec fn find_cut(s: Seq<u8>) -> int
    decreases s.len(),
{
    if s.len() == 0 {
        0
    } else if s[0] == 126 || s[0] == 94 {
        0
    } else {
        1 + find_cut(s.drop_first())
    }
}

pub proof fn lemma_find_cut_is(s: Seq<u8>, k: int)
    requires
        0 <= k <= s.len(),
        forall|i: int| 0 <= i < k ==> s[i] != 126 && s[i] != 94,
        k < s.len() ==> s[k] == 126 || s[k] == 94,
    ensures
        find_cut(s) == k,
    decreases s.len(),
{
    if s.len() > 0 && s[0] != 126 && s[0] != 94 {
        assert(k >= 1);
        let t = s.drop_first();
        assert(forall|i: int| 0 <= i < k - 1 ==> s[i + 1] == t[i] && t[i] != 126 && t[i] != 94);
        lemma_find_cut_is(t, k - 1);
    }
}

pub proof fn lemma_find_cut_bound(s: Seq<u8>)
    ensures
        0 <= find_cut(s) <= s.len(),
    decreases s.len(),
{
    if s.len() > 0 && s[0] != 126 && s[0] != 94 {
        lemma_find_cut_bound(s.drop_first());
    }
}

/// The normalized branch name a raw ref description stands for.
pub open spec fn normalize_spec(raw: Seq<u8>) -> Seq<u8> {
    let q = strip_remote_prefix(strip_parens(raw));
    q.take(find_cut(q))
}

/// Normalize a raw ref description, exactly as `normalize_spec` describes.
pub fn normalize_branch(raw: &Vec<u8>) -> (r: Vec<u8>)
    ensures
        r@ == normalize_spec(raw@),
{
    // surrounding parentheses
    let mut lo: usize = 0;
    while lo < raw.len() && (raw[lo] == 40 || raw[lo] == 41)
        invariant
            0 <= lo <= raw@.len(),
            forall|i: int| 0 <= i < lo ==> is_paren(raw@[i]),
        decreases raw@.len() - lo,
    {
        lo = lo + 1;
    }
    proof {
        lemma_strip_lead_parens_is(raw@, lo as int);
    }
    let mut hi: usize = raw.len();
    while hi > lo && (raw[hi - 1] == 40 || raw[hi - 1] == 41)
        invariant
            lo <= hi <= raw@.len(),
            forall|i: int| hi <= i < raw@.len() ==> is_paren(raw@[i]),
        decreases hi,
    {
        hi = hi - 1;
    }
    let ghost led = raw@.skip(lo as int);
    proof {
        assert(forall|i: int| hi - lo <= i < led.len() ==> led[i] == raw@[i + lo] && is_paren(
            led[i],
        ));
        if hi > lo {
            assert(led[hi - lo - 1] == raw@[hi - 1]);
        }
        lemma_strip_trail_parens_is(led, hi - lo);
        assert(strip_parens(raw@) =~= raw@.subrange(lo as int, hi as int));
    }
    let p = subvec(raw, lo, hi);

    // one remote-namespace prefix
    let origin: Vec<u8> = vec![
        114u8,
        101,
        109,
        111,
        116,
        101,
        115,
        47,
        111,
        114,
        105,
        103,
        105,
        110,
        47,
    ];
    let remotes: Vec<u8> = vec![114u8, 101, 109, 111, 116, 101, 115, 47];
    proof {
        assert(origin@ =~= remotes_origin_prefix());
        assert(remotes@ =~= remotes_prefix());
    }
    let q: Vec<u8> = if p.len() >= 15 && {
        let head = subvec(&p, 0, 15);
        eq_bytes(&head, &origin)
    } {
        proof {
            assert(p@.subrange(0, 15) == p@.take(15));
        }
        subvec(&p, 15, p.len())
    } else if p.len() >= 8 && {
        let head = subvec(&p, 0, 8);
        eq_bytes(&head, &remotes)
    } {
        proof {
            assert(p@.subrange(0, 8) == p@.take(8));
            if p@.len() >= 15 {
                assert(p@.subrange(0, 15) == p@.take(15));
            }
        }
        subvec(&p, 8, p.len())
    } else {
        proof {
            if p@.len() >= 15 {
                assert(p@.subrange(0, 15) == p@.take(15));
            }
            if p@.len() >= 8 {
                assert(p@.subrange(0, 8) == p@.take(8));
            }
        }
        p
    };
    proof {
        assert(q@ =~= strip_remote_prefix(strip_parens(raw@)));
    }

    // everything from the first ancestry-offset byte on is discarded
    let mut c: usize = 0;
    while c < q.len() && q[c] != 126 && q[c] != 94
        invariant
            0 <= c <= q@.len(),
            forall|i: int| 0 <= i < c ==> q@[i] != 126 && q@[i] != 94,
        decreases q@.len() - c,
    {
        c = c + 1;
    }
    proof {
        lemma_find_cut_is(q@, c as int);
        assert(q@.subrange(0, c as int) == q@.take(c as int));
    }
    subvec(&q, 0, c)
}

/// The view of a sequence of hash/branch pairs.
pub open spec fn pair_views(ps: Seq<(Vec<u8>, Vec<u8>)>) -> Seq<(Seq<u8>, Seq<u8>)> {
    ps.map_values(|p: (Vec<u8>, Vec<u8>)| (p.0@, p.1@))
}

/// The hash/branch pairs the resolver's output lines stand for: one pair
/// per line with at least two tokens, the second token normalized.
pub open spec fn pairs_of(lines: Seq<Seq<u8>>) -> Seq<(Seq<u8>, Seq<u8>)>
    decreases lines.len(),
{
    if lines.len() == 0 {
        Seq::empty()
    } else {
        let toks = split_ws(lines[0]);
        let head: Seq<(Seq<u8>, Seq<u8>)> = if toks.len() >= 2 {
            seq![(toks[0], normalize_spec(toks[1]))]
        } else {
            Seq::empty()
        };
        head + pairs_of(lines.drop_first())
    }
}

/// Parse the resolver's whole output, exactly as `pairs_of` describes on
/// its lines.
pub fn parse_name_rev(text: &Vec<u8>) -> (r: Vec<(Vec<u8>, Vec<u8>)>)
    ensures
        pair_views(r@) == pairs_of(split_nl(text@)),
{
    let lines = crate::text::split_lines(text);
    let ghost gl = split_nl(text@);
    let mut r: Vec<(Vec<u8>, Vec<u8>)> = Vec::new();
    let mut i: usize = 0;
    proof {
        assert(gl.skip(0) =~= gl);
    }
    while i < lines.len()
        invariant
            0 <= i <= lines@.len(),
            views(lines@) == gl,
            pairs_of(gl) == pair_views(r@) + pairs_of(gl.skip(i as int)),
        decreases lines@.len() - i,
    {
        let ghost rest = gl.skip(i as int);
        proof {
            assert(rest[0] == gl[i as int]);
            assert(gl[i as int] == lines@[i as int]@);
            assert(rest.drop_first() =~= gl.skip(i + 1));
        }
        let toks = split_ws_line(&lines[i]);
        if toks.len() >= 2 {
            let hash = copy_bytes(&toks[0]);
            let branch = normalize_branch(&toks[1]);
            let ghost r_old = r@;
            r.push((hash, branch));
            proof {
                let toks_spec = split_ws(gl[i as int]);
                assert(views(toks@)[0] == toks@[0]@ && views(toks@)[1] == toks@[1]@);
                assert(pair_views(r@) =~= pair_views(r_old).push(
                    (toks_spec[0], normalize_spec(toks_spec[1])),
                ));
                assert(pair_views(r_old) + (seq![(toks_spec[0], normalize_spec(toks_spec[1]))]
                    + pairs_of(gl.skip(i + 1))) =~= pair_views(r@) + pairs_of(gl.skip(i + 1)));
            }
        }
        i = i + 1;
    }
    proof {
        assert(pairs_of(gl.skip(i as int)) =~= Seq::<(Seq<u8>, Seq<u8>)>::empty());
        assert(pair_views(r@) + Seq::<(Seq<u8>, Seq<u8>)>::empty() =~= pair_views(r@));
    }
    r
}

/// `split_ws_vec` on a borrowed line.
fn split_ws_line(line: &Vec<u8>) -> (r: Vec<Vec<u8>>)
    ensures
        views(r@) == split_ws(line@),
{
    crate::text::split_ws_vec(line)
}

/// The branch mapped to `h`; when several pairs share a hash, the latest
/// one wins, as repeated map insertion would have it.
pub open spec fn lookup(ps: Seq<(Seq<u8>, Seq<u8>)>, h: Seq<u8>) -> Option<Seq<u8>>
    decreases ps.len(),
{
    if ps.len() == 0 {
        Option::None
    } else if ps.last().0 == h {
        Option::Some(ps.last().1)
    } else {
        lookup(ps.drop_last(), h)
    }
}

/// Look `h` up among the pairs, exactly as `lookup` describes.
pub fn lookup_branch(ps: &Vec<(Vec<u8>, Vec<u8>)>, h: &Vec<u8>) -> (r: Option<Vec<u8>>)
    ensures
        match r {
            Option::Some(b) => lookup(pair_views(ps@), h@) == Option::Some(b@),
            Option::None => lookup(pair_views(ps@), h@) is None,
        },
{
    let ghost gp = pair_views(ps@);
    let mut i: usize = ps.len();
    proof {
        assert(gp.take(i as int) =~= gp);
    }
    while i > 0
        invariant
            0 <= i <= ps@.len(),
            gp == pair_views(ps@),
            lookup(gp, h@) == lookup(gp.take(i as int), h@),
        decreases i,
    {
        proof {
            assert(gp.take(i as int).last() == gp[i - 1]);
            assert(gp[i - 1] == (ps@[i - 1].0@, ps@[i - 1].1@));
            assert(gp.take(i as int).drop_last() =~= gp.take(i - 1));
        }
        if eq_bytes(&ps[i - 1].0, h) {
            let b = copy_bytes(&ps[i - 1].1);
            return Option::Some(b);
        }
        i = i - 1;
    }
    proof {
        assert(gp.take(0) =~= Seq::<(Seq<u8>, Seq<u8>)>::empty());
    }
    Option::None
}

/// Every record with a resolved hash takes its resolved branch; the rest
/// keep what they had.
pub open spec fn merge_branches(cs: Seq<Commit>, ps: Seq<(Seq<u8>, Seq<u8>)>) -> Seq<Commit> {
    cs.map_values(
        |c: Commit|
            match lookup(ps, c.hash) {
                Option::Some(b) => Commit { branch: b, ..c },
                Option::None => c,
            },
    )
}

/// Apply resolved branch names by hash lookup, exactly as `merge_branches`
/// describes; unmatched records keep their current branch.
pub fn resolve_branches(commits: &Vec<CommitInfo>, ps: &Vec<(Vec<u8>, Vec<u8>)>) -> (r: Vec<
    CommitInfo,
>)
    ensures
        commit_views(r@) == merge_branches(commit_views(commits@), pair_views(ps@)),
{
    let ghost goal = merge_branches(commit_views(commits@), pair_views(ps@));
    let mut r: Vec<CommitInfo> = Vec::new();
    let mut i: usize = 0;
    while i < commits.len()
        invariant
            0 <= i <= commits@.len(),
            goal == merge_branches(commit_views(commits@), pair_views(ps@)),
            commit_views(r@).len() == i,
            forall|j: int| 0 <= j < i ==> commit_views(r@)[j] == goal[j],
        decreases commits@.len() - i,
    {
        let mut c = commits[i].duplicate();
        match lookup_branch(ps, &c.hash) {
            Option::Some(b) => {
                c.branch = b;
            },
            Option::None => {},
        }
        r.push(c);
        proof {
            assert(goal[i as int] == match lookup(pair_views(ps@), commit_views(commits@)[
                i as int
            ].hash) {
                Option::Some(b) => Commit { branch: b, ..commit_views(commits@)[i as int] },
                Option::None => commit_views(commits@)[i as int],
            });
            assert(commit_views(commits@)[i as int] == commits@[i as int]@);
            assert(commit_views(r@)[i as int] == goal[i as int]);
        }
        i = i + 1;
    }
    proof {
        assert(commit_views(r@) =~= goal);
    }
    r
}

} // verus!

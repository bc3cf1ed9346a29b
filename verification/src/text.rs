//! Byte-level text utilities: trimming, line splitting, delimiter splitting,
//! whitespace tokenizing, decimal parsing and rendering, and lexicographic
//! comparison. Every executable function is proved equal to a spec function
//! over `Seq<u8>`.

use vstd::prelude::*;

verus! {

/// ASCII whitespace, as far as the trimming in this crate needs it:
/// space, tab, carriage return, line feed.
pub open spec fn is_ws(b: u8) -> bool {
    b == 32 || b == 9 || b == 13 || b == 10
}

/// Executable test matching `is_ws`.
pub fn is_ws_byte(b: u8) -> (r: bool)
    ensures
        r == is_ws(b),
{
    b == 32 || b == 9 || b == 13 || b == 10
}

/// Number of whitespace bytes at the front of `s`.
pub open spec fn ws_prefix_len(s: Seq<u8>) -> int
    decreases s.len(),
{
    if s.len() == 0 {
        0
    } else if is_ws(s[0]) {
        1 + ws_prefix_len(s.drop_first())
    } else {
        0
    }
}

/// `ws_prefix_len` is the unique cut: everything before `k` is whitespace
/// and `k` is the end or a non-whitespace byte.
pub proof fn lemma_ws_prefix_len_is(s: Seq<u8>, k: int)
    requires
        0 <= k <= s.len(),
        forall|i: int| 0 <= i < k ==> is_ws(s[i]),
        k < s.len() ==> !is_ws(s[k]),
    ensures
        ws_prefix_len(s) == k,
    decreases s.len(),
{
    if s.len() == 0 {
    } else if is_ws(s[0]) {
        assert(k >= 1);
        let t = s.drop_first();
        assert(forall|i: int| 0 <= i < k - 1 ==> s[i + 1] == t[i] && is_ws(t[i]));
        lemma_ws_prefix_len_is(t, k - 1);
    } else {
        assert(k == 0);
    }
}

/// Number of whitespace bytes at the back of `s`.
pub open spec fn ws_suffix_len(s: Seq<u8>) -> int
    decreases s.len(),
{
    if s.len() == 0 {
        0
    } else if is_ws(s.last()) {
        1 + ws_suffix_len(s.drop_last())
    } else {
        0
    }
}

/// `ws_suffix_len` is the unique cut from the back: everything from `k` on
/// is whitespace and `k` is the start or preceded by a non-whitespace byte.
pub proof fn lemma_ws_suffix_len_is(s: Seq<u8>, k: int)
    requires
        0 <= k <= s.len(),
        forall|i: int| k <= i < s.len() ==> is_ws(s[i]),
        k > 0 ==> !is_ws(s[k - 1]),
    ensures
        ws_suffix_len(s) == s.len() - k,
    decreases s.len(),
{
    if s.len() == 0 {
    } else if is_ws(s.last()) {
        assert(k < s.len());
        let t = s.drop_last();
        assert(forall|i: int| k <= i < t.len() ==> t[i] == s[i] && is_ws(t[i]));
        if k > 0 {
            assert(t[k - 1] == s[k - 1]);
        }
        lemma_ws_suffix_len_is(t, k);
    } else {
        assert(k == s.len());
    }
}

/// `s` with leading and trailing whitespace removed.
pub open spec fn trim_spec(s: Seq<u8>) -> Seq<u8> {
    let lo = ws_prefix_len(s);
    if lo == s.len() {
        Seq::empty()
    } else {
        s.subrange(lo, s.len() - ws_suffix_len(s))
    }
}

/// Index of the first occurrence of `b` in `s`, or `s.len()` when absent.
pub open spec fn find_byte(s: Seq<u8>, b: u8) -> int
    decreases s.len(),
{
    if s.len() == 0 {
        0
    } else if s[0] == b {
        0
    } else {
        1 + find_byte(s.drop_first(), b)
    }
}

pub proof fn lemma_find_byte_bound(s: Seq<u8>, b: u8)
    ensures
        0 <= find_byte(s, b) <= s.len(),
        forall|i: int| 0 <= i < find_byte(s, b) ==> s[i] != b,
        find_byte(s, b) < s.len() ==> s[find_byte(s, b)] == b,
    decreases s.len(),
{
    if s.len() > 0 && s[0] != b {
        let t = s.drop_first();
        lemma_find_byte_bound(t, b);
        assert forall|i: int| 1 <= i < find_byte(s, b) implies s[i] != b by {
            assert(s[i] == t[i - 1]);
        }
    }
}

/// `find_byte` is the unique index with nothing equal to `b` before it.
pub proof fn lemma_find_byte_is(s: Seq<u8>, b: u8, k: int)
    requires
        0 <= k <= s.len(),
        forall|i: int| 0 <= i < k ==> s[i] != b,
        k < s.len() ==> s[k] == b,
    ensures
        find_byte(s, b) == k,
    decreases s.len(),
{
    if s.len() > 0 && s[0] != b {
        let t = s.drop_first();
        assert(forall|i: int| 0 <= i < k - 1 ==> s[i + 1] == t[i] && t[i] != b);
        assert(k >= 1);
        lemma_find_byte_is(t, b, k - 1);
    }
}

/// A line with one trailing carriage return removed.
pub open spec fn strip_cr(l: Seq<u8>) -> Seq<u8> {
    if l.len() > 0 && l.last() == 13 {
        l.drop_last()
    } else {
        l
    }
}

/// Split on line feeds the way the tool output is read: every line
/// loses one trailing carriage return, and text ending in a line feed yields
/// no final empty line.
pub open spec fn split_nl(s: Seq<u8>) -> Seq<Seq<u8>>
    decreases s.len(),
    via split_nl_decreases
{
    if s.len() == 0 {
        Seq::empty()
    } else {
        let i = find_byte(s, 10);
        if i == s.len() {
            seq![strip_cr(s)]
        } else {
            seq![strip_cr(s.take(i))] + split_nl(s.skip(i + 1))
        }
    }
}

#[via_fn]
proof fn split_nl_decreases(s: Seq<u8>) {
    lemma_find_byte_bound(s, 10);
}

/// Index of the first occurrence of the three-pipe field separator `|||`,
/// or `s.len()` when absent.
pub open spec fn find_sep(s: Seq<u8>) -> int
    decreases s.len(),
{
    if s.len() < 3 {
        s.len() as int
    } else if s[0] == 124 && s[1] == 124 && s[2] == 124 {
        0
    } else {
        1 + find_sep(s.drop_first())
    }
}

pub proof fn lemma_find_sep_bound(s: Seq<u8>)
    ensures
        0 <= find_sep(s) <= s.len(),
        find_sep(s) < s.len() ==> find_sep(s) + 3 <= s.len() && s[find_sep(s)] == 124
            && s[find_sep(s) + 1] == 124 && s[find_sep(s) + 2] == 124,
    decreases s.len(),
{
    if s.len() >= 3 && !(s[0] == 124 && s[1] == 124 && s[2] == 124) {
        lemma_find_sep_bound(s.drop_first());
    }
}

/// `find_sep` is the unique index of the leftmost separator.
pub proof fn lemma_find_sep_is(s: Seq<u8>, k: int)
    requires
        0 <= k <= s.len(),
        forall|j: int|
            0 <= j < k && j + 3 <= s.len() ==> !(#[trigger] s[j] == 124 && s[j + 1] == 124
                && s[j + 2] == 124),
        k < s.len() ==> k + 3 <= s.len() && s[k] == 124 && s[k + 1] == 124 && s[k + 2] == 124,
    ensures
        find_sep(s) == k,
    decreases s.len(),
{
    if s.len() < 3 {
        assert(k == s.len());
    } else if s[0] == 124 && s[1] == 124 && s[2] == 124 {
        assert(k == 0);
    } else {
        assert(k >= 1);
        let t = s.drop_first();
        assert forall|j: int|
            0 <= j < k - 1 && j + 3 <= t.len() implies !(#[trigger] t[j] == 124 && t[j + 1] == 124
            && t[j + 2] == 124) by {
            assert(t[j] == s[j + 1] && t[j + 1] == s[j + 2] && t[j + 2] == s[j + 3]);
        }
        lemma_find_sep_is(t, k - 1);
    }
}

/// The `|||`-delimited fields of `s`, leftmost separator first; a trailing
/// separator yields a final empty field.
pub open spec fn split_fields(s: Seq<u8>) -> Seq<Seq<u8>>
    decreases s.len(),
    via split_fields_decreases
{
    let i = find_sep(s);
    if i == s.len() {
        seq![s]
    } else {
        seq![s.take(i)] + split_fields(s.skip(i + 3))
    }
}

#[via_fn]
proof fn split_fields_decreases(s: Seq<u8>) {
    lemma_find_sep_bound(s);
}

pub proof fn lemma_ws_prefix_len_bound(s: Seq<u8>)
    ensures
        0 <= ws_prefix_len(s) <= s.len(),
        ws_prefix_len(s) < s.len() ==> !is_ws(s[ws_prefix_len(s)]),
    decreases s.len(),
{
    if s.len() > 0 && is_ws(s[0]) {
        lemma_ws_prefix_len_bound(s.drop_first());
    }
}

/// Number of non-whitespace bytes at the front of `s`.
pub open spec fn token_len(s: Seq<u8>) -> int
    decreases s.len(),
{
    if s.len() == 0 {
        0
    } else if !is_ws(s[0]) {
        1 + token_len(s.drop_first())
    } else {
        0
    }
}

pub proof fn lemma_token_len_bound(s: Seq<u8>)
    ensures
        0 <= token_len(s) <= s.len(),
        token_len(s) < s.len() ==> is_ws(s[token_len(s)]),
        s.len() > 0 && !is_ws(s[0]) ==> token_len(s) >= 1,
    decreases s.len(),
{
    if s.len() > 0 && !is_ws(s[0]) {
        lemma_token_len_bound(s.drop_first());
    }
}

pub proof fn lemma_token_len_is(s: Seq<u8>, k: int)
    requires
        0 <= k <= s.len(),
        forall|i: int| 0 <= i < k ==> !is_ws(s[i]),
        k < s.len() ==> is_ws(s[k]),
    ensures
        token_len(s) == k,
    decreases s.len(),
{
    if s.len() > 0 && !is_ws(s[0]) {
        assert(k >= 1);
        let t = s.drop_first();
        assert(forall|i: int| 0 <= i < k - 1 ==> s[i + 1] == t[i] && !is_ws(t[i]));
        lemma_token_len_is(t, k - 1);
    } else {
        assert(k == 0);
    }
}

/// The maximal whitespace-free tokens of `s`, in order; never holds an
/// empty token.
pub open spec fn split_ws(s: Seq<u8>) -> Seq<Seq<u8>>
    decreases s.len(),
    via split_ws_decreases
{
    let p = ws_prefix_len(s);
    if p == s.len() {
        Seq::empty()
    } else {
        let t = s.skip(p);
        let e = token_len(t);
        seq![t.take(e)] + split_ws(t.skip(e))
    }
}

#[via_fn]
proof fn split_ws_decreases(s: Seq<u8>) {
    lemma_ws_prefix_len_bound(s);
    let p = ws_prefix_len(s);
    if p < s.len() {
        lemma_token_len_bound(s.skip(p));
    }
}

/// Whether `s` is one or more decimal digits.
pub open spec fn is_digits(s: Seq<u8>) -> bool {
    s.len() > 0 && forall|i: int| 0 <= i < s.len() ==> 48 <= #[trigger] s[i] <= 57
}

/// The value of a sequence of decimal digits (0 for the empty sequence).
pub open spec fn dec_val(s: Seq<u8>) -> int
    decreases s.len(),
{
    if s.len() == 0 {
        0
    } else {
        dec_val(s.drop_last()) * 10 + (s.last() - 48)
    }
}

pub proof fn lemma_dec_val_nonneg(s: Seq<u8>)
    requires
        forall|i: int| 0 <= i < s.len() ==> 48 <= #[trigger] s[i] <= 57,
    ensures
        dec_val(s) >= 0,
    decreases s.len(),
{
    if s.len() > 0 {
        lemma_dec_val_nonneg(s.drop_last());
    }
}

/// Appending digits never lowers the value.
pub proof fn lemma_dec_val_prefix(s: Seq<u8>, i: int)
    requires
        forall|j: int| 0 <= j < s.len() ==> 48 <= #[trigger] s[j] <= 57,
        0 <= i <= s.len(),
    ensures
        dec_val(s.take(i)) <= dec_val(s),
    decreases s.len() - i,
{
    if i < s.len() {
        lemma_dec_val_prefix(s, i + 1);
        lemma_dec_val_nonneg(s.take(i));
        assert(s.take(i + 1).drop_last() =~= s.take(i));
        assert(dec_val(s.take(i + 1)) == dec_val(s.take(i)) * 10 + (s[i] - 48));
    } else {
        assert(s.take(i) =~= s);
    }
}

/// The insertion or deletion count a stat field stands for: its decimal
/// value when it is all digits and fits a 31-bit count, otherwise 0 (the
/// non-numeric marker of a binary file counts as 0).
pub open spec fn count_val(s: Seq<u8>) -> int {
    if is_digits(s) && dec_val(s) <= 0x7fff_ffff {
        dec_val(s)
    } else {
        0
    }
}

/// The timestamp a header field stands for: an optionally `-`-signed run of
/// digits whose magnitude fits, otherwise 0.
pub open spec fn ts_val(s: Seq<u8>) -> int {
    if is_digits(s) && dec_val(s) <= 0x7fff_ffff_ffff_ffff {
        dec_val(s)
    } else if s.len() > 1 && s[0] == 45 && is_digits(s.skip(1)) && dec_val(s.skip(1))
        <= 0x7fff_ffff_ffff_ffff {
        -dec_val(s.skip(1))
    } else {
        0
    }
}

/// Strict lexicographic byte order.
pub open spec fn lex_lt(a: Seq<u8>, b: Seq<u8>) -> bool
    decreases a.len(),
{
    if b.len() == 0 {
        false
    } else if a.len() == 0 {
        true
    } else if a[0] < b[0] {
        true
    } else if a[0] > b[0] {
        false
    } else {
        lex_lt(a.drop_first(), b.drop_first())
    }
}

/// Dropping a shared prefix does not change the order.
pub proof fn lemma_lex_common_prefix(a: Seq<u8>, b: Seq<u8>, i: int)
    requires
        0 <= i <= a.len(),
        i <= b.len(),
        forall|j: int| 0 <= j < i ==> a[j] == b[j],
    ensures
        lex_lt(a, b) == lex_lt(a.skip(i), b.skip(i)),
    decreases i,
{
    if i > 0 {
        assert(a[0] == b[0]);
        let a1 = a.drop_first();
        let b1 = b.drop_first();
        assert(forall|j: int| 0 <= j < i - 1 ==> a1[j] == a[j + 1] && b1[j] == b[j + 1]);
        lemma_lex_common_prefix(a1, b1, i - 1);
        assert(a1.skip(i - 1) =~= a.skip(i));
        assert(b1.skip(i - 1) =~= b.skip(i));
    } else {
        assert(a.skip(0) =~= a);
        assert(b.skip(0) =~= b);
    }
}

/// The lines joined with single line feeds, no trailing one.
pub open spec fn join_nl(ls: Seq<Seq<u8>>) -> Seq<u8>
    decreases ls.len(),
{
    if ls.len() == 0 {
        Seq::empty()
    } else if ls.len() == 1 {
        ls[0]
    } else {
        ls[0] + seq![10u8] + join_nl(ls.drop_first())
    }
}

pub proof fn lemma_join_nl_push(ls: Seq<Seq<u8>>, x: Seq<u8>)
    ensures
        join_nl(ls.push(x)) == if ls.len() == 0 {
            x
        } else {
            join_nl(ls) + seq![10u8] + x
        },
    decreases ls.len(),
{
    let p = ls.push(x);
    if ls.len() == 0 {
        assert(p.len() == 1);
        assert(join_nl(p) == p[0]);
        assert(p[0] == x);
    } else {
        assert(p.len() >= 2);
        assert(p[0] == ls[0]);
        assert(p.drop_first() =~= ls.drop_first().push(x));
        lemma_join_nl_push(ls.drop_first(), x);
        if ls.len() == 1 {
            assert(join_nl(p) == p[0] + seq![10u8] + join_nl(p.drop_first()));
            assert(join_nl(p.drop_first()) == x);
            assert(join_nl(ls) == ls[0]);
        } else {
            assert(join_nl(p) == ls[0] + seq![10u8] + (join_nl(ls.drop_first()) + seq![10u8] + x));
            assert(ls[0] + seq![10u8] + (join_nl(ls.drop_first()) + seq![10u8] + x) =~= (ls[0]
                + seq![10u8] + join_nl(ls.drop_first())) + seq![10u8] + x);
        }
    }
}

/// Decimal digits of `n`, most significant first.
pub open spec fn dec_str(n: nat) -> Seq<u8>
    decreases n,
{
    if n < 10 {
        seq![(48 + n) as u8]
    } else {
        dec_str(n / 10).push((48 + n % 10) as u8)
    }
}

/// The views of a sequence of byte vectors.
pub open spec fn views(vs: Seq<Vec<u8>>) -> Seq<Seq<u8>> {
    vs.map_values(|v: Vec<u8>| v@)
}

/// Copy of `v[from..to]`.
pub fn subvec(v: &Vec<u8>, from: usize, to: usize) -> (r: Vec<u8>)
    requires
        from <= to <= v@.len(),
    ensures
        r@ == v@.subrange(from as int, to as int),
{
    let mut r: Vec<u8> = Vec::new();
    let mut i: usize = from;
    while i < to
        invariant
            from <= i <= to <= v@.len(),
            r@ == v@.subrange(from as int, i as int),
        decreases to - i,
    {
        r.push(v[i]);
        i = i + 1;
        proof {
            assert(r@ =~= v@.subrange(from as int, i as int));
        }
    }
    r
}

/// `v` with leading and trailing whitespace removed.
pub fn trim(v: &Vec<u8>) -> (r: Vec<u8>)
    ensures
        r@ == trim_spec(v@),
{
    let mut lo: usize = 0;
    while lo < v.len() && is_ws_byte(v[lo])
        invariant
            0 <= lo <= v@.len(),
            forall|i: int| 0 <= i < lo ==> is_ws(v@[i]),
        decreases v@.len() - lo,
    {
        lo = lo + 1;
    }
    proof {
        lemma_ws_prefix_len_is(v@, lo as int);
    }
    if lo == v.len() {
        let r: Vec<u8> = Vec::new();
        proof {
            assert(r@ =~= trim_spec(v@));
        }
        return r;
    }
    let mut hi: usize = v.len();
    while hi > lo && is_ws_byte(v[hi - 1])
        invariant
            lo <= hi <= v@.len(),
            forall|i: int| hi <= i < v@.len() ==> is_ws(v@[i]),
        decreases hi,
    {
        hi = hi - 1;
    }
    proof {
        // the byte at lo is not whitespace, so the backward scan stopped at
        // or after lo + 1 with a non-whitespace byte before it
        assert(hi > lo || !is_ws(v@[lo as int]));
        lemma_ws_suffix_len_is(v@, hi as int);
    }
    subvec(v, lo, hi)
}

/// First index `>= from` where `v` holds `b`, or `v.len()` when absent;
/// stated through `find_byte` on the suffix.
pub fn find_byte_from(v: &Vec<u8>, from: usize, b: u8) -> (r: usize)
    requires
        from <= v@.len(),
    ensures
        r == from + find_byte(v@.skip(from as int), b),
        from <= r <= v@.len(),
{
    let mut i: usize = from;
    while i < v.len() && v[i] != b
        invariant
            from <= i <= v@.len(),
            forall|j: int| from <= j < i ==> v@[j] != b,
        decreases v@.len() - i,
    {
        i = i + 1;
    }
    proof {
        let s = v@.skip(from as int);
        assert(forall|j: int| 0 <= j < i - from ==> s[j] == v@[j + from] && s[j] != b);
        lemma_find_byte_is(s, b, i - from);
    }
    i
}

/// Pop one trailing carriage return from a line.
pub fn strip_cr_vec(l: &mut Vec<u8>)
    ensures
        final(l)@ == strip_cr(old(l)@),
{
    if l.len() > 0 && l[l.len() - 1] == 13 {
        l.pop();
    }
}

/// Split `v` into lines, exactly as `split_nl` describes.
pub fn split_lines(v: &Vec<u8>) -> (r: Vec<Vec<u8>>)
    ensures
        views(r@) == split_nl(v@),
{
    let mut r: Vec<Vec<u8>> = Vec::new();
    let mut p: usize = 0;
    proof {
        assert(v@.skip(0) =~= v@);
    }
    while p < v.len()
        invariant
            0 <= p <= v@.len(),
            split_nl(v@) == views(r@) + split_nl(v@.skip(p as int)),
        decreases v@.len() - p,
    {
        let ghost rest = v@.skip(p as int);
        let i = find_byte_from(v, p, 10);
        let mut line = subvec(v, p, i);
        strip_cr_vec(&mut line);
        let ghost r_old = r@;
        r.push(line);
        proof {
            assert(views(r@) =~= views(r_old).push(line@));
            assert(rest.take(find_byte(rest, 10)) =~= v@.subrange(p as int, i as int));
            assert(rest =~= v@.subrange(p as int, v@.len() as int));
        }
        if i == v.len() {
            p = v.len();
            proof {
                assert(find_byte(rest, 10) == rest.len());
                assert(split_nl(rest) =~= seq![strip_cr(rest)]);
                assert(strip_cr(rest) == line@);
                assert(split_nl(v@.skip(p as int)) =~= Seq::<Seq<u8>>::empty());
                assert(views(r@) + split_nl(v@.skip(p as int)) =~= views(r_old) + split_nl(rest));
            }
        } else {
            p = i + 1;
            proof {
                assert(find_byte(rest, 10) == i - p + 1 + find_byte(rest, 10) - (i - p + 1));
                assert(0 <= find_byte(rest, 10) < rest.len());
                assert(split_nl(rest) == seq![strip_cr(rest.take(find_byte(rest, 10)))] + split_nl(
                    rest.skip(find_byte(rest, 10) + 1),
                ));
                assert(rest.skip(find_byte(rest, 10) + 1) =~= v@.skip(p as int));
                assert(views(r@) + split_nl(v@.skip(p as int)) =~= views(r_old) + split_nl(rest));
            }
        }
    }
    proof {
        assert(split_nl(v@.skip(p as int)) =~= Seq::<Seq<u8>>::empty());
        assert(views(r@) + Seq::<Seq<u8>>::empty() =~= views(r@));
    }
    r
}

/// First index `>= from` where the `|||` separator starts, or `v.len()`.
pub fn find_sep_from(v: &Vec<u8>, from: usize) -> (r: usize)
    requires
        from <= v@.len(),
    ensures
        r == from + find_sep(v@.skip(from as int)),
        from <= r <= v@.len(),
{
    let mut j: usize = from;
    loop
        invariant
            from <= j <= v@.len(),
            forall|i: int|
                from <= i < j && i + 3 <= v@.len() ==> !(#[trigger] v@[i] == 124
                    && v@[i + 1] == 124 && v@[i + 2] == 124),
        decreases v@.len() - j,
    {
        if v.len() - j < 3 {
            proof {
                let s = v@.skip(from as int);
                assert forall|i: int|
                    0 <= i < s.len() && i + 3 <= s.len() implies !(#[trigger] s[i] == 124
                    && s[i + 1] == 124 && s[i + 2] == 124) by {
                    assert(s[i] == v@[i + from] && s[i + 1] == v@[i + from + 1] && s[i + 2] == v@[i
                        + from + 2]);
                }
                lemma_find_sep_is(s, s.len() as int);
            }
            return v.len();
        }
        if v[j] == 124 && v[j + 1] == 124 && v[j + 2] == 124 {
            proof {
                let s = v@.skip(from as int);
                assert forall|i: int|
                    0 <= i < j - from && i + 3 <= s.len() implies !(#[trigger] s[i] == 124
                    && s[i + 1] == 124 && s[i + 2] == 124) by {
                    assert(s[i] == v@[i + from] && s[i + 1] == v@[i + from + 1] && s[i + 2] == v@[i
                        + from + 2]);
                }
                assert(s[j - from] == v@[j as int] && s[j - from + 1] == v@[j + 1] && s[j - from
                    + 2] == v@[j + 2]);
                lemma_find_sep_is(s, j - from);
            }
            return j;
        }
        j = j + 1;
    }
}

/// Split `v` into its `|||`-delimited fields, exactly as `split_fields`
/// describes.
pub fn split_fields_vec(v: &Vec<u8>) -> (r: Vec<Vec<u8>>)
    ensures
        views(r@) == split_fields(v@),
{
    let mut r: Vec<Vec<u8>> = Vec::new();
    let mut p: usize = 0;
    proof {
        assert(v@.skip(0) =~= v@);
    }
    loop
        invariant
            0 <= p <= v@.len(),
            split_fields(v@) == views(r@) + split_fields(v@.skip(p as int)),
        decreases v@.len() - p,
    {
        let ghost rest = v@.skip(p as int);
        let i = find_sep_from(v, p);
        let field = subvec(v, p, i);
        let ghost r_old = r@;
        r.push(field);
        proof {
            assert(views(r@) =~= views(r_old).push(field@));
            assert(rest.take(find_sep(rest)) =~= v@.subrange(p as int, i as int));
            assert(rest =~= v@.subrange(p as int, v@.len() as int));
        }
        if i == v.len() {
            proof {
                assert(find_sep(rest) == rest.len());
                assert(split_fields(rest) =~= seq![rest]);
                assert(rest == field@);
                assert(views(r@) =~= views(r_old) + split_fields(rest));
            }
            return r;
        }
        proof {
            lemma_find_sep_bound(rest);
            assert(find_sep(rest) < rest.len());
        }
        p = i + 3;
        proof {
            assert(p <= v@.len());
            assert(split_fields(rest) == seq![rest.take(find_sep(rest))] + split_fields(
                rest.skip(find_sep(rest) + 3),
            ));
            assert(rest.skip(find_sep(rest) + 3) =~= v@.skip(p as int));
            assert(views(r@) + split_fields(v@.skip(p as int)) =~= views(r_old) + split_fields(
                rest,
            ));
        }
    }
}

/// Append a copy of `src` to `dst`.
pub fn append_bytes(dst: &mut Vec<u8>, src: &Vec<u8>)
    ensures
        final(dst)@ == old(dst)@ + src@,
{
    let mut i: usize = 0;
    while i < src.len()
        invariant
            0 <= i <= src@.len(),
            dst@ == old(dst)@ + src@.take(i as int),
        decreases src@.len() - i,
    {
        dst.push(src[i]);
        i = i + 1;
        proof {
            assert(old(dst)@ + src@.take(i - 1) + seq![src@[i - 1]] =~= old(dst)@ + src@.take(
                i as int,
            ));
        }
    }
    proof {
        assert(src@.take(src@.len() as int) =~= src@);
    }
}

/// Split `v` into whitespace-separated tokens, exactly as `split_ws`
/// describes.
pub fn split_ws_vec(v: &Vec<u8>) -> (r: Vec<Vec<u8>>)
    ensures
        views(r@) == split_ws(v@),
{
    let mut r: Vec<Vec<u8>> = Vec::new();
    let mut p: usize = 0;
    proof {
        assert(v@.skip(0) =~= v@);
    }
    loop
        invariant
            0 <= p <= v@.len(),
            split_ws(v@) == views(r@) + split_ws(v@.skip(p as int)),
        decreases v@.len() - p,
    {
        let ghost rest = v@.skip(p as int);
        let start = p;
        let mut q: usize = p;
        while q < v.len() && is_ws_byte(v[q])
            invariant
                p <= q <= v@.len(),
                forall|i: int| p <= i < q ==> is_ws(v@[i]),
            decreases v@.len() - q,
        {
            q = q + 1;
        }
        proof {
            assert(forall|i: int| 0 <= i < q - p ==> rest[i] == v@[i + p] && is_ws(rest[i]));
            lemma_ws_prefix_len_is(rest, q - p);
        }
        if q == v.len() {
            proof {
                assert(ws_prefix_len(rest) == rest.len());
                assert(split_ws(rest) =~= Seq::<Seq<u8>>::empty());
                assert(views(r@) + split_ws(rest) =~= views(r@));
            }
            return r;
        }
        let mut e: usize = q;
        while e < v.len() && !is_ws_byte(v[e])
            invariant
                q <= e <= v@.len(),
                forall|i: int| q <= i < e ==> !is_ws(v@[i]),
            decreases v@.len() - e,
        {
            e = e + 1;
        }
        let tok = subvec(v, q, e);
        let ghost r_old = r@;
        r.push(tok);
        proof {
            let t = rest.skip(ws_prefix_len(rest));
            assert(t =~= v@.skip(q as int));
            assert(forall|i: int| 0 <= i < e - q ==> t[i] == v@[i + q] && !is_ws(t[i]));
            if e < v@.len() {
                assert(t[e - q] == v@[e as int]);
            }
            lemma_token_len_is(t, e - q);
            assert(t.take(e - q) =~= v@.subrange(q as int, e as int));
            assert(t.take(token_len(t)) == tok@);
            assert(t.skip(e - q) =~= v@.skip(e as int));
            assert(split_ws(rest) == seq![tok@] + split_ws(v@.skip(e as int)));
            assert(views(r@) =~= views(r_old).push(tok@));
            assert(views(r@) + split_ws(v@.skip(e as int)) =~= views(r_old) + split_ws(rest));
        }
        p = e;
    }
}

/// Parse a stat field: `count_val` made executable.
pub fn parse_count(v: &Vec<u8>) -> (r: u32)
    ensures
        r == count_val(v@),
{
    if v.len() == 0 {
        return 0;
    }
    let mut i: usize = 0;
    let mut acc: u32 = 0;
    while i < v.len()
        invariant
            0 <= i <= v@.len(),
            v@.len() > 0,
            forall|j: int| 0 <= j < i ==> 48 <= #[trigger] v@[j] <= 57,
            acc == dec_val(v@.take(i as int)),
            acc <= 0x7fff_ffff,
        decreases v@.len() - i,
    {
        let b = v[i];
        if b < 48 || b > 57 {
            assert(!is_digits(v@));
            return 0;
        }
        let nv: u64 = acc as u64 * 10 + (b - 48) as u64;
        proof {
            assert(v@.take(i + 1).drop_last() =~= v@.take(i as int));
            assert(dec_val(v@.take(i + 1)) == nv);
        }
        if nv > 0x7fff_ffff {
            proof {
                if is_digits(v@) {
                    lemma_dec_val_prefix(v@, i + 1);
                }
            }
            return 0;
        }
        acc = nv as u32;
        i = i + 1;
    }
    proof {
        assert(v@.take(v@.len() as int) =~= v@);
        assert(is_digits(v@));
    }
    acc
}

/// Parse a run of digits starting at `from` as a non-negative value that
/// fits an `i64`; `None` when it is not such a run.
fn parse_mag(v: &Vec<u8>, from: usize) -> (r: Option<i64>)
    requires
        from <= v@.len(),
    ensures
        match r {
            Some(m) => is_digits(v@.skip(from as int)) && m == dec_val(v@.skip(from as int)) && m
                >= 0,
            None => !(is_digits(v@.skip(from as int)) && dec_val(v@.skip(from as int))
                <= 0x7fff_ffff_ffff_ffff),
        },
{
    let ghost s = v@.skip(from as int);
    if from == v.len() {
        return None;
    }
    let mut i: usize = from;
    let mut acc: i64 = 0;
    while i < v.len()
        invariant
            from <= i <= v@.len(),
            s == v@.skip(from as int),
            forall|j: int| from <= j < i ==> 48 <= #[trigger] v@[j] <= 57,
            acc == dec_val(s.take(i - from)),
            0 <= acc <= 0x7fff_ffff_ffff_ffff,
        decreases v@.len() - i,
    {
        let b = v[i];
        if b < 48 || b > 57 {
            proof {
                assert(s[i - from] == v@[i as int]);
                assert(!is_digits(s));
            }
            return None;
        }
        proof {
            assert(forall|j: int| 0 <= j < i + 1 - from ==> s[j] == v@[j + from]);
        }
        if acc > 0xccc_cccc_cccc_cccc || (acc == 0xccc_cccc_cccc_cccc && b > 55) {
            proof {
                assert(s.take(i + 1 - from).drop_last() =~= s.take(i - from));
                assert(dec_val(s.take(i + 1 - from)) == acc * 10 + (v@[i as int] - 48));
                assert(dec_val(s.take(i + 1 - from)) > 0x7fff_ffff_ffff_ffff);
                if is_digits(s) {
                    lemma_dec_val_prefix(s, i + 1 - from);
                }
            }
            return None;
        }
        let nv: i64 = acc * 10 + (b - 48) as i64;
        proof {
            assert(s.take(i + 1 - from).drop_last() =~= s.take(i - from));
            assert(dec_val(s.take(i + 1 - from)) == nv);
        }
        acc = nv;
        i = i + 1;
    }
    proof {
        assert(s.take(s.len() as int) =~= s);
        assert(forall|j: int| 0 <= j < s.len() ==> s[j] == v@[j + from]);
        assert(is_digits(s));
    }
    Some(acc)
}

/// Parse a header timestamp field: `ts_val` made executable.
pub fn parse_ts(v: &Vec<u8>) -> (r: i64)
    ensures
        r == ts_val(v@),
{
    if v.len() == 0 {
        return 0;
    }
    if v[0] == 45 {
        proof {
            assert(v@[0] == 45 && !(48 <= v@[0] <= 57));
            assert(!is_digits(v@));
        }
        if v.len() == 1 {
            return 0;
        }
        match parse_mag(v, 1) {
            Some(m) => -m,
            None => 0,
        }
    } else {
        proof {
            assert(v@.skip(0) =~= v@);
        }
        match parse_mag(v, 0) {
            Some(m) => m,
            None => 0,
        }
    }
}

/// Three-way outcome of a byte comparison.
pub enum Rel {
    Lt,
    Eq,
    Gt,
}

/// Compare two byte strings in lexicographic order.
pub fn lex_cmp(a: &Vec<u8>, b: &Vec<u8>) -> (r: Rel)
    ensures
        (r is Lt) == lex_lt(a@, b@),
        (r is Eq) == (a@ == b@),
        (r is Gt) == lex_lt(b@, a@),
{
    let mut i: usize = 0;
    while i < a.len() && i < b.len()
        invariant
            0 <= i <= a@.len(),
            i <= b@.len(),
            forall|j: int| 0 <= j < i ==> a@[j] == b@[j],
        decreases a@.len() - i,
    {
        proof {
            lemma_lex_common_prefix(a@, b@, i as int);
            lemma_lex_common_prefix(b@, a@, i as int);
        }
        if a[i] < b[i] {
            proof {
                assert(a@.skip(i as int)[0] == a@[i as int]);
                assert(b@.skip(i as int)[0] == b@[i as int]);
                assert(lex_lt(a@.skip(i as int), b@.skip(i as int)));
                assert(a@[i as int] != b@[i as int]);
            }
            return Rel::Lt;
        }
        if a[i] > b[i] {
            proof {
                assert(a@.skip(i as int)[0] == a@[i as int]);
                assert(b@.skip(i as int)[0] == b@[i as int]);
                assert(lex_lt(b@.skip(i as int), a@.skip(i as int)));
                assert(a@[i as int] != b@[i as int]);
            }
            return Rel::Gt;
        }
        i = i + 1;
    }
    proof {
        lemma_lex_common_prefix(a@, b@, i as int);
        lemma_lex_common_prefix(b@, a@, i as int);
    }
    if a.len() == b.len() {
        proof {
            assert(a@ =~= b@);
        }
        Rel::Eq
    } else if a.len() < b.len() {
        proof {
            assert(a@.skip(i as int).len() == 0);
            assert(b@.skip(i as int).len() > 0);
            assert(a@.len() != b@.len());
        }
        Rel::Lt
    } else {
        proof {
            assert(b@.skip(i as int).len() == 0);
            assert(a@.skip(i as int).len() > 0);
            assert(a@.len() != b@.len());
        }
        Rel::Gt
    }
}

/// Join lines with single line feeds, exactly as `join_nl` describes.
pub fn join_lines(ls: &Vec<Vec<u8>>) -> (r: Vec<u8>)
    ensures
        r@ == join_nl(views(ls@)),
{
    let mut r: Vec<u8> = Vec::new();
    let mut i: usize = 0;
    while i < ls.len()
        invariant
            0 <= i <= ls@.len(),
            r@ == join_nl(views(ls@).take(i as int)),
        decreases ls@.len() - i,
    {
        if i > 0 {
            r.push(10);
        }
        append_bytes(&mut r, &ls[i]);
        i = i + 1;
        proof {
            let vs = views(ls@);
            assert(vs.take(i as int) =~= vs.take(i - 1).push(vs[i - 1]));
            lemma_join_nl_push(vs.take(i - 1), vs[i - 1]);
            assert(vs[i - 1] == ls@[i - 1]@);
            if i - 1 == 0 {
                assert(r@ =~= vs[i - 1]);
            } else {
                assert(r@ =~= join_nl(vs.take(i - 1)) + seq![10u8] + vs[i - 1]);
            }
        }
    }
    proof {
        assert(views(ls@).take(ls@.len() as int) =~= views(ls@));
    }
    r
}

/// Append the decimal digits of `n`, exactly as `dec_str` describes.
pub fn push_dec(n: u64, out: &mut Vec<u8>)
    ensures
        final(out)@ == old(out)@ + dec_str(n as nat),
    decreases n,
{
    if n < 10 {
        out.push(48 + n as u8);
        proof {
            assert(old(out)@.push((48 + n) as u8) =~= old(out)@ + dec_str(n as nat));
        }
    } else {
        push_dec(n / 10, out);
        out.push(48 + (n % 10) as u8);
        proof {
            assert((old(out)@ + dec_str((n / 10) as nat)).push((48 + n % 10) as u8) =~= old(out)@
                + dec_str(n as nat));
        }
    }
}

} // verus!

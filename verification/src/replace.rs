use vstd::prelude::*;
use vstd::string::*;

verus! {

/// Left-to-right, non-overlapping replacement of every occurrence of
/// `pat` in `s` by `rep`: what replacing a nonempty substring throughout
/// a text means.
pub open spec fn replace_seq(s: Seq<char>, pat: Seq<char>, rep: Seq<char>) -> Seq<char>
    decreases s.len(),
{
    if pat.len() == 0 || s.len() < pat.len() {
        s
    } else if s.take(pat.len() as int) == pat {
        rep + replace_seq(s.skip(pat.len() as int), pat, rep)
    } else {
        seq![s[0]] + replace_seq(s.skip(1), pat, rep)
    }
}

/// How many left-to-right, non-overlapping occurrences of `pat` the text
/// `s` holds.
pub open spec fn count_occ(s: Seq<char>, pat: Seq<char>) -> nat
    decreases s.len(),
{
    if pat.len() == 0 || s.len() < pat.len() {
        0
    } else if s.take(pat.len() as int) == pat {
        1 + count_occ(s.skip(pat.len() as int), pat)
    } else {
        count_occ(s.skip(1), pat)
    }
}

/// `pat` occurs somewhere in `s` as a plain substring.
pub open spec fn has_occ(s: Seq<char>, pat: Seq<char>) -> bool {
    exists|i: int|
        0 <= i <= s.len() - pat.len() && #[trigger] s.subrange(i, i + pat.len() as int) == pat
}

/// No character of `other` occurs anywhere in `s`.
pub open spec fn chars_disjoint(s: Seq<char>, other: Seq<char>) -> bool {
    forall|k: int| 0 <= k < other.len() ==> !s.contains(#[trigger] other[k])
}

fn match_at(text: &str, i: usize, pat: &str) -> (r: bool)
    requires
        i + pat@.len() <= text@.len(),
        text@.len() <= usize::MAX,
    ensures
        r == (text@.subrange(i as int, i + pat@.len()) == pat@),
{
    let m = pat.unicode_len();
    let ghost sub = text@.subrange(i as int, i + pat@.len());
    let mut k: usize = 0;
    while k < m
        invariant
            k <= m,
            m == pat@.len(),
            i + m <= text@.len() <= usize::MAX,
            sub == text@.subrange(i as int, i + pat@.len()),
            forall|q: int| 0 <= q < k ==> sub[q] == pat@[q],
        decreases m - k,
    {
        let a = text.get_char(i + k);
        let b = pat.get_char(k);
        proof {
            assert(sub[k as int] == text@[i + k]);
        }
        if a != b {
            return false;
        }
        k = k + 1;
    }
    proof {
        assert(sub =~= pat@);
    }
    true
}

/// Replaces every occurrence of the nonempty `pat` in `text` by `rep`,
/// left to right and without overlap.
pub fn replace(text: &str, pat: &str, rep: &str) -> (r: String)
    requires
        pat@.len() > 0,
    ensures
        r@ == replace_seq(text@, pat@, rep@),
{
    let n = text.unicode_len();
    let m = pat.unicode_len();
    let mut out = String::new();
    let mut i: usize = 0;
    proof {
        assert(text@.skip(0) =~= text@);
    }
    while m <= n - i
        invariant
            i <= n,
            n == text@.len(),
            m == pat@.len(),
            m > 0,
            replace_seq(text@, pat@, rep@) == out@ + replace_seq(
                text@.skip(i as int),
                pat@,
                rep@,
            ),
        decreases n - i,
    {
        let ghost u = text@.skip(i as int);
        proof {
            assert(u.take(m as int) =~= text@.subrange(i as int, i + m));
        }
        let ghost out0 = out@;
        if match_at(text, i, pat) {
            out.append(rep);
            proof {
                assert(u.take(m as int) == pat@);
                assert(u.skip(m as int) =~= text@.skip(i + m));
                assert(out0 + (rep@ + replace_seq(text@.skip(i + m), pat@, rep@)) =~= out@
                    + replace_seq(text@.skip(i + m), pat@, rep@));
            }
            i = i + m;
        } else {
            let c = text.substring_char(i, i + 1);
            out.append(c);
            proof {
                assert(u.take(m as int) != pat@);
                assert(u.skip(1) =~= text@.skip(i + 1));
                assert(c@ =~= seq![u[0]]);
                assert(out0 + (seq![u[0]] + replace_seq(text@.skip(i + 1), pat@, rep@)) =~= out@
                    + replace_seq(text@.skip(i + 1), pat@, rep@));
            }
            i = i + 1;
        }
    }
    let ghost out0 = out@;
    let tail = text.substring_char(i, n);
    out.append(tail);
    proof {
        assert(tail@ =~= text@.skip(i as int));
        assert(replace_seq(text@.skip(i as int), pat@, rep@) == text@.skip(i as int));
        assert(out@ =~= out0 + text@.skip(i as int));
    }
    out
}

proof fn lemma_skip_contains(s: Seq<char>, k: int, c: char)
    requires
        0 <= k <= s.len(),
        !s.contains(c),
    ensures
        !s.skip(k).contains(c),
{
    if s.skip(k).contains(c) {
        let w = choose|w: int| 0 <= w < s.skip(k).len() && s.skip(k)[w] == c;
        assert(s[w + k] == c);
    }
}

proof fn lemma_count_zero_when_char_missing(s: Seq<char>, q: Seq<char>, j: int)
    requires
        0 <= j < q.len(),
        !s.contains(q[j]),
    ensures
        count_occ(s, q) == 0,
    decreases s.len(),
{
    if s.len() < q.len() {
    } else if s.take(q.len() as int) == q {
        assert(s.take(q.len() as int)[j] == s[j]);
        assert(s.contains(q[j])) by {
            assert(s[j] == q[j]);
        }
    } else {
        lemma_skip_contains(s, 1, q[j]);
        lemma_count_zero_when_char_missing(s.skip(1), q, j);
    }
}

proof fn lemma_replace_noop_when_char_missing(s: Seq<char>, p: Seq<char>, r: Seq<char>, j: int)
    requires
        0 <= j < p.len(),
        !s.contains(p[j]),
    ensures
        replace_seq(s, p, r) == s,
    decreases s.len(),
{
    if s.len() < p.len() {
    } else if s.take(p.len() as int) == p {
        assert(s.take(p.len() as int)[j] == s[j]);
        assert(s.contains(p[j])) by {
            assert(s[j] == p[j]);
        }
    } else {
        lemma_skip_contains(s, 1, p[j]);
        lemma_replace_noop_when_char_missing(s.skip(1), p, r, j);
        assert(seq![s[0]] + s.skip(1) =~= s);
    }
}

proof fn lemma_replace_prefix(s: Seq<char>, p: Seq<char>, r: Seq<char>, k: int)
    requires
        p.len() > 0,
        r.len() > 0,
        chars_disjoint(s, r),
        0 < k <= p.len(),
        k <= replace_seq(s, p, r).len(),
        forall|m: int| 0 <= m < k ==> !r.contains(#[trigger] replace_seq(s, p, r)[m]),
    ensures
        k <= s.len(),
        replace_seq(s, p, r).take(k) == s.take(k),
    decreases s.len(),
{
    let res = replace_seq(s, p, r);
    if s.len() < p.len() {
        assert(res.take(k) =~= s.take(k));
    } else if s.take(p.len() as int) == p {
        assert(res[0] == r[0]);
        assert(r.contains(res[0])) by {
            assert(r[0] == res[0]);
        }
    } else {
        let rest = replace_seq(s.skip(1), p, r);
        assert(res == seq![s[0]] + rest);
        if k == 1 {
            assert(res.take(1) =~= s.take(1));
        } else {
            assert forall|kk: int| 0 <= kk < r.len() implies !s.skip(1).contains(
                #[trigger] r[kk],
            ) by {
                lemma_skip_contains(s, 1, r[kk]);
            }
            assert forall|m: int| 0 <= m < k - 1 implies !r.contains(#[trigger] rest[m]) by {
                assert(rest[m] == res[m + 1]);
            }
            lemma_replace_prefix(s.skip(1), p, r, k - 1);
            assert forall|q: int| 0 <= q < k implies res.take(k)[q] == s.take(k)[q] by {
                if q == 0 {
                    assert(res[0] == s[0]);
                } else {
                    assert(res[q] == rest[q - 1]);
                    assert(rest.take(k - 1)[q - 1] == s.skip(1).take(k - 1)[q - 1]);
                    assert(rest[q - 1] == s.skip(1)[q - 1]);
                    assert(s.skip(1)[q - 1] == s[q]);
                }
            }
            assert(res.take(k) =~= s.take(k));
        }
    }
}

/// Replacing every occurrence of a nonempty pattern leaves none behind,
/// as long as the replacement's characters are fresh: none of them occurs
/// anywhere in the text (so, in particular, none occurs in the pattern,
/// and no new occurrence can straddle a replacement's edge).
pub proof fn lemma_replace_removes_pattern(s: Seq<char>, p: Seq<char>, r: Seq<char>)
    requires
        p.len() > 0,
        r.len() > 0,
        chars_disjoint(s, r),
    ensures
        !has_occ(replace_seq(s, p, r), p),
    decreases s.len(),
{
    let res = replace_seq(s, p, r);
    let plen = p.len() as int;
    let rlen = r.len() as int;
    if has_occ(res, p) {
        let i = choose|i: int|
            0 <= i <= res.len() - plen && #[trigger] res.subrange(i, i + plen) == p;
        if s.len() < p.len() {
            assert(false);
        } else if s.take(plen) == p {
            let rest = replace_seq(s.skip(plen), p, r);
            assert forall|kk: int| 0 <= kk < r.len() implies !s.skip(plen).contains(
                #[trigger] r[kk],
            ) by {
                lemma_skip_contains(s, plen, r[kk]);
            }
            lemma_replace_removes_pattern(s.skip(plen), p, r);
            assert(res == r + rest);
            if i < rlen {
                assert(res.subrange(i, i + plen)[0] == res[i]);
                assert(p[0] == r[i]);
                assert(s.take(plen)[0] == s[0]);
                assert(s.contains(r[i])) by {
                    assert(s[0] == r[i]);
                }
            } else {
                assert(rest.subrange(i - rlen, i - rlen + plen) =~= res.subrange(i, i + plen));
            }
        } else {
            let rest = replace_seq(s.skip(1), p, r);
            assert forall|kk: int| 0 <= kk < r.len() implies !s.skip(1).contains(
                #[trigger] r[kk],
            ) by {
                lemma_skip_contains(s, 1, r[kk]);
            }
            lemma_replace_removes_pattern(s.skip(1), p, r);
            assert(res == seq![s[0]] + rest);
            if i >= 1 {
                assert(rest.subrange(i - 1, i - 1 + plen) =~= res.subrange(i, i + plen));
            } else {
                assert(res.subrange(0, plen) == p);
                if exists|mm: int| 0 <= mm < plen && r.contains(#[trigger] res[mm]) {
                    let mm = choose|mm: int| 0 <= mm < plen && r.contains(#[trigger] res[mm]);
                    assert(res.subrange(0, plen)[mm] == res[mm]);
                    assert(p[mm] == res[mm]);
                    let w = choose|w: int| 0 <= w < r.len() && r[w] == res[mm];
                    assert(!s.contains(r[w]));
                    lemma_replace_noop_when_char_missing(s, p, r, mm);
                    assert(s.take(plen) =~= s.subrange(0, plen));
                    assert(s.take(plen) == p);
                } else {
                    assert forall|m: int| 0 <= m < plen implies !r.contains(
                        #[trigger] res[m],
                    ) by {
                        assert(!(0 <= m < plen && r.contains(res[m])));
                    }
                    lemma_replace_prefix(s, p, r, plen);
                    assert(res.take(plen) =~= res.subrange(0, plen));
                    assert(s.take(plen) == p);
                }
            }
        }
    }
}

/// Replacing every occurrence of a nonempty pattern plants exactly one
/// copy of the replacement per occurrence, when the replacement's
/// characters are fresh to the text.
pub proof fn lemma_replace_count(s: Seq<char>, p: Seq<char>, r: Seq<char>)
    requires
        p.len() > 0,
        r.len() > 0,
        chars_disjoint(s, r),
    ensures
        count_occ(replace_seq(s, p, r), r) == count_occ(s, p),
    decreases s.len(),
{
    let res = replace_seq(s, p, r);
    let plen = p.len() as int;
    let rlen = r.len() as int;
    if s.len() < p.len() {
        lemma_count_zero_when_char_missing(s, r, 0);
    } else if s.take(plen) == p {
        let rest = replace_seq(s.skip(plen), p, r);
        assert forall|kk: int| 0 <= kk < r.len() implies !s.skip(plen).contains(
            #[trigger] r[kk],
        ) by {
            lemma_skip_contains(s, plen, r[kk]);
        }
        lemma_replace_count(s.skip(plen), p, r);
        assert(res == r + rest);
        assert(res.take(rlen) =~= r);
        assert(res.skip(rlen) =~= rest);
    } else {
        let rest = replace_seq(s.skip(1), p, r);
        assert forall|kk: int| 0 <= kk < r.len() implies !s.skip(1).contains(
            #[trigger] r[kk],
        ) by {
            lemma_skip_contains(s, 1, r[kk]);
        }
        lemma_replace_count(s.skip(1), p, r);
        assert(res == seq![s[0]] + rest);
        if res.len() < rlen {
        } else {
            assert(res.take(rlen)[0] == s[0]);
            if res.take(rlen) == r {
                assert(s.contains(r[0])) by {
                    assert(s[0] == r[0]);
                }
            }
            assert(res.skip(1) =~= rest);
        }
    }
}

} // verus!

//! Substring search, literal replacement, and lexicographic comparison over
//! character sequences.
use vstd::prelude::*;

verus! {

use crate::chars::push_chars;

broadcast use vstd::utf8::char_is_scalar, vstd::utf8::char_u32_cast;

/// The pattern `p` occurs in `s` at position `i`.
pub open spec fn match_at(s: Seq<char>, i: int, p: Seq<char>) -> bool {
    0 <= i && i + p.len() <= s.len() && s.subrange(i, i + p.len() as int) == p
}

/// Occurrences shift with `skip`: `p` occurs in `s.skip(n)` at `k` exactly
/// when it occurs in `s` at `n + k`.
pub proof fn lemma_match_at_skip(s: Seq<char>, n: int, k: int, p: Seq<char>)
    requires
        0 <= n <= s.len(),
        0 <= k,
    ensures
        match_at(s.skip(n), k, p) == match_at(s, n + k, p),
{
    if k + p.len() <= s.len() - n {
        assert(s.skip(n).subrange(k, k + p.len() as int) =~= s.subrange(
            n + k,
            n + k + p.len() as int,
        ));
    }
}

/// The position of the leftmost occurrence of `p` in `s`, or `-1` when
/// there is none.
pub open spec fn find_idx(s: Seq<char>, p: Seq<char>) -> int
    decreases s.len(),
{
    if match_at(s, 0, p) {
        0
    } else if s.len() == 0 {
        -1
    } else {
        let r = find_idx(s.skip(1), p);
        if r < 0 {
            -1
        } else {
            r + 1
        }
    }
}

/// `find_idx` returns the leftmost occurrence, and `-1` only when the
/// pattern occurs nowhere.
pub proof fn lemma_find_idx(s: Seq<char>, p: Seq<char>)
    ensures
        find_idx(s, p) >= 0 ==> match_at(s, find_idx(s, p), p) && (forall|k: int|
            0 <= k < find_idx(s, p) ==> !match_at(s, k, p)),
        find_idx(s, p) < 0 ==> forall|k: int| !match_at(s, k, p),
        find_idx(s, p) >= 0 ==> find_idx(s, p) + p.len() <= s.len(),
    decreases s.len(),
{
    if match_at(s, 0, p) {
    } else if s.len() == 0 {
        assert forall|k: int| !match_at(s, k, p) by {
            if 0 <= k && k + p.len() <= s.len() {
                assert(k == 0);
            }
        }
    } else {
        lemma_find_idx(s.skip(1), p);
        let r = find_idx(s.skip(1), p);
        if r < 0 {
            assert forall|k: int| !match_at(s, k, p) by {
                if 1 <= k {
                    lemma_match_at_skip(s, 1, k - 1, p);
                }
            }
        } else {
            lemma_match_at_skip(s, 1, r, p);
            assert(match_at(s, r + 1, p));
            assert forall|k: int| 0 <= k < r + 1 implies !match_at(s, k, p) by {
                if 1 <= k {
                    lemma_match_at_skip(s, 1, k - 1, p);
                }
            }
        }
    }
}

/// Whether `p@` occurs at position `i` of `s@`.
pub fn starts_with_at(s: &Vec<char>, i: usize, p: &Vec<char>) -> (r: bool)
    requires
        i <= s.len(),
    ensures
        r == match_at(s@, i as int, p@),
{
    if p.len() > s.len() - i {
        return false;
    }
    let mut j: usize = 0;
    while j < p.len()
        invariant
            j <= p.len(),
            i + p.len() <= s.len(),
            forall|k: int| 0 <= k < j ==> s@[i + k] == p@[k],
        decreases p.len() - j,
    {
        if s[i + j] != p[j] {
            proof {
                assert(s@.subrange(i as int, i + p@.len() as int)[j as int] == s@[i + j]);
            }
            return false;
        }
        j = j + 1;
    }
    proof {
        assert(s@.subrange(i as int, i + p@.len() as int) =~= p@);
    }
    true
}

/// The position of the leftmost occurrence of `p@` in `s@` at or after
/// `from`, if any.
pub fn find_from(s: &Vec<char>, from: usize, p: &Vec<char>) -> (r: Option<usize>)
    requires
        from <= s.len(),
        p.len() >= 1,
    ensures
        match r {
            Some(j) => from <= j && match_at(s@, j as int, p@) && (forall|k: int|
                from <= k < j ==> !match_at(s@, k, p@)),
            None => forall|k: int| from <= k ==> !match_at(s@, k, p@),
        },
{
    let mut j: usize = from;
    while j < s.len()
        invariant
            from <= j <= s.len(),
            forall|k: int| from <= k < j ==> !match_at(s@, k, p@),
        decreases s.len() - j,
    {
        if starts_with_at(s, j, p) {
            return Some(j);
        }
        j = j + 1;
    }
    proof {
        assert forall|k: int| from <= k implies !match_at(s@, k, p@) by {
            if k >= s@.len() {
                assert(k + p@.len() > s@.len());
            }
        }
    }
    None
}

/// A leftmost occurrence at or after `from` fixes the value of
/// [`find_idx`] on the corresponding suffix.
pub proof fn lemma_find_from_agrees(s: Seq<char>, from: int, p: Seq<char>, j: int)
    requires
        0 <= from <= j,
        match_at(s, j, p),
        forall|k: int| from <= k < j ==> !match_at(s, k, p),
    ensures
        find_idx(s.skip(from), p) == j - from,
{
    lemma_find_idx(s.skip(from), p);
    let f = find_idx(s.skip(from), p);
    lemma_match_at_skip(s, from, j - from, p);
    assert(match_at(s.skip(from), j - from, p));
    assert(f >= 0);
    if f < j - from {
        lemma_match_at_skip(s, from, f, p);
        assert(match_at(s, from + f, p));
        assert(false);
    }
}

/// No occurrence at or after `from` means [`find_idx`] fails on the
/// corresponding suffix.
pub proof fn lemma_find_from_none(s: Seq<char>, from: int, p: Seq<char>)
    requires
        0 <= from <= s.len(),
        forall|k: int| from <= k ==> !match_at(s, k, p),
    ensures
        find_idx(s.skip(from), p) < 0,
{
    lemma_find_idx(s.skip(from), p);
    let f = find_idx(s.skip(from), p);
    if f >= 0 {
        lemma_match_at_skip(s, from, f, p);
        assert(match_at(s, from + f, p));
        assert(false);
    }
}

/// `s` with every occurrence of `p` replaced by `q`, scanning left to
/// right over non-overlapping occurrences.
pub open spec fn replaced(s: Seq<char>, p: Seq<char>, q: Seq<char>) -> Seq<char>
    decreases s.len(),
{
    if p.len() == 0 || s.len() == 0 {
        s
    } else if match_at(s, 0, p) {
        q + replaced(s.skip(p.len() as int), p, q)
    } else {
        seq![s[0]] + replaced(s.skip(1), p, q)
    }
}

pub fn replace_all(s: &Vec<char>, p: &Vec<char>, q: &Vec<char>) -> (r: Vec<char>)
    requires
        p.len() >= 1,
    ensures
        r@ == replaced(s@, p@, q@),
{
    let mut out: Vec<char> = Vec::new();
    let mut i: usize = 0;
    proof {
        assert(s@.skip(0) =~= s@);
        assert(Seq::<char>::empty() + replaced(s@, p@, q@) =~= replaced(s@, p@, q@));
    }
    while i < s.len()
        invariant
            i <= s.len(),
            p@.len() >= 1,
            replaced(s@, p@, q@) == out@ + replaced(s@.skip(i as int), p@, q@),
        decreases s.len() - i,
    {
        let ghost rest = s@.skip(i as int);
        let ghost out0 = out@;
        if starts_with_at(s, i, p) {
            push_chars(&mut out, q);
            proof {
                lemma_match_at_skip(s@, i as int, 0, p@);
                assert(match_at(rest, 0, p@));
                assert(rest.skip(p@.len() as int) =~= s@.skip(i + p@.len()));
                assert(replaced(rest, p@, q@) == q@ + replaced(s@.skip(i + p@.len()), p@, q@));
                assert(out0 + (q@ + replaced(s@.skip(i + p@.len()), p@, q@)) =~= (out0 + q@)
                    + replaced(s@.skip(i + p@.len()), p@, q@));
            }
            i = i + p.len();
        } else {
            out.push(s[i]);
            proof {
                lemma_match_at_skip(s@, i as int, 0, p@);
                assert(!match_at(rest, 0, p@));
                assert(rest.skip(1) =~= s@.skip(i + 1));
                assert(rest[0] == s@[i as int]);
                assert(replaced(rest, p@, q@) == seq![s@[i as int]] + replaced(
                    s@.skip(i + 1),
                    p@,
                    q@,
                ));
                assert(out0 + (seq![s@[i as int]] + replaced(s@.skip(i + 1), p@, q@)) =~= out0.push(
                    s@[i as int],
                ) + replaced(s@.skip(i + 1), p@, q@));
            }
            i = i + 1;
        }
    }
    proof {
        assert(s@.skip(s@.len() as int) =~= Seq::<char>::empty());
        assert(out@ =~= replaced(s@, p@, q@));
    }
    out
}

/// How many times `pat` occurs in `s`, counting every position.
pub open spec fn count_occ(s: Seq<char>, pat: Seq<char>) -> nat
    decreases s.len(),
{
    if s.len() == 0 {
        0
    } else {
        (if match_at(s, 0, pat) {
            1nat
        } else {
            0nat
        }) + count_occ(s.skip(1), pat)
    }
}

/// A pattern that occurs nowhere is counted zero times.
pub proof fn lemma_count_occ_none(s: Seq<char>, pat: Seq<char>)
    requires
        forall|i: int| !match_at(s, i, pat),
    ensures
        count_occ(s, pat) == 0,
    decreases s.len(),
{
    if s.len() > 0 {
        assert forall|i: int| !match_at(s.skip(1), i, pat) by {
            if 0 <= i {
                lemma_match_at_skip(s, 1, i, pat);
            }
        }
        lemma_count_occ_none(s.skip(1), pat);
    }
}

/// Occurrence counts add up over a concatenation that no occurrence
/// straddles.
pub proof fn lemma_count_occ_split(a: Seq<char>, b: Seq<char>, pat: Seq<char>)
    requires
        pat.len() >= 1,
        forall|i: int| i < a.len() && a.len() < i + pat.len() ==> !match_at(a + b, i, pat),
    ensures
        count_occ(a + b, pat) == count_occ(a, pat) + count_occ(b, pat),
    decreases a.len(),
{
    let s = a + b;
    if a.len() == 0 {
        assert(s =~= b);
    } else {
        if pat.len() <= a.len() {
            assert(s.subrange(0, pat.len() as int) =~= a.subrange(0, pat.len() as int));
            assert(match_at(s, 0, pat) == match_at(a, 0, pat));
        } else {
            assert(!match_at(s, 0, pat));
            assert(!match_at(a, 0, pat));
        }
        assert(s.skip(1) =~= a.skip(1) + b);
        assert forall|i: int|
            i < a.skip(1).len() && a.skip(1).len() < i + pat.len() implies !match_at(
            a.skip(1) + b,
            i,
            pat,
        ) by {
            if 0 <= i {
                lemma_match_at_skip(s, 1, i, pat);
                assert(!match_at(s, i + 1, pat));
            }
        }
        lemma_count_occ_split(a.skip(1), b, pat);
    }
}

/// A pattern that occurs at exactly one position is counted once.
pub proof fn lemma_count_occ_once(s: Seq<char>, pat: Seq<char>, j: int)
    requires
        pat.len() >= 1,
        0 <= j,
        match_at(s, j, pat),
        forall|i: int| i != j ==> !match_at(s, i, pat),
    ensures
        count_occ(s, pat) == 1,
    decreases s.len(),
{
    if j == 0 {
        assert forall|i: int| !match_at(s.skip(1), i, pat) by {
            if 0 <= i {
                lemma_match_at_skip(s, 1, i, pat);
            }
        }
        lemma_count_occ_none(s.skip(1), pat);
    } else {
        lemma_match_at_skip(s, 1, j - 1, pat);
        assert(match_at(s.skip(1), j - 1, pat));
        assert forall|i: int| i != j - 1 implies !match_at(s.skip(1), i, pat) by {
            if 0 <= i {
                lemma_match_at_skip(s, 1, i, pat);
            }
        }
        lemma_count_occ_once(s.skip(1), pat, j - 1);
    }
}

/// Is `a` lexicographically at most `b`, comparing characters by code
/// point (the order `String` comparison gives on UTF-8 text)?
pub open spec fn lex_le(a: Seq<char>, b: Seq<char>) -> bool
    decreases a.len(),
{
    if a.len() == 0 {
        true
    } else if b.len() == 0 {
        false
    } else if a[0] != b[0] {
        (a[0] as u32) < (b[0] as u32)
    } else {
        lex_le(a.skip(1), b.skip(1))
    }
}

pub proof fn lemma_lex_le_total(a: Seq<char>, b: Seq<char>)
    ensures
        lex_le(a, b) || lex_le(b, a),
    decreases a.len(),
{
    if a.len() == 0 || b.len() == 0 {
    } else if a[0] != b[0] {
        vstd::utf8::char_u32_cast(a[0], a[0] as u32);
        vstd::utf8::char_u32_cast(b[0], b[0] as u32);
        assert(a[0] as u32 != b[0] as u32);
    } else {
        lemma_lex_le_total(a.skip(1), b.skip(1));
    }
}

pub proof fn lemma_lex_le_trans(a: Seq<char>, b: Seq<char>, c: Seq<char>)
    requires
        lex_le(a, b),
        lex_le(b, c),
    ensures
        lex_le(a, c),
    decreases a.len(),
{
    if a.len() == 0 {
    } else if b.len() == 0 || c.len() == 0 {
    } else {
        if a[0] == b[0] && b[0] == c[0] {
            lemma_lex_le_trans(a.skip(1), b.skip(1), c.skip(1));
        }
    }
}

pub fn lex_le_chars(a: &Vec<char>, b: &Vec<char>) -> (r: bool)
    ensures
        r == lex_le(a@, b@),
{
    let mut i: usize = 0;
    proof {
        assert(a@.skip(0) =~= a@);
        assert(b@.skip(0) =~= b@);
    }
    loop
        invariant
            i <= a.len(),
            i <= b.len(),
            forall|k: int| 0 <= k < i ==> a@[k] == b@[k],
            lex_le(a@, b@) == lex_le(a@.skip(i as int), b@.skip(i as int)),
        decreases a.len() - i,
    {
        if i == a.len() {
            return true;
        }
        if i == b.len() {
            return false;
        }
        let ca = a[i];
        let cb = b[i];
        if ca != cb {
            return (ca as u32) < (cb as u32);
        }
        proof {
            assert(a@.skip(i as int).skip(1) =~= a@.skip(i + 1));
            assert(b@.skip(i as int).skip(1) =~= b@.skip(i + 1));
        }
        i = i + 1;
    }
}

} // verus!

//! Splitting text at separator characters, joining the pieces back, and
//! trimming characters from both ends.
use vstd::prelude::*;

verus! {

use crate::chars::is_space_char;
use crate::chars::char_is_space;
use crate::chars::push_chars;
use crate::chars::push_lit;

/// The views of a sequence of character vectors.
pub open spec fn views_of(vs: Seq<Vec<char>>) -> Seq<Seq<char>> {
    vs.map_values(|v: Vec<char>| v@)
}

/// A class of separator characters: whitespace, or one fixed character.
#[derive(Clone, Copy)]
pub enum Sep {
    Space,
    Match(char),
}

pub open spec fn space_pred() -> spec_fn(char) -> bool {
    |c: char| is_space_char(c)
}

pub open spec fn char_pred(c: char) -> spec_fn(char) -> bool {
    |x: char| x == c
}

pub open spec fn pred_of(kind: Sep) -> spec_fn(char) -> bool {
    match kind {
        Sep::Space => space_pred(),
        Sep::Match(c) => char_pred(c),
    }
}

pub fn sep_matches(c: char, kind: Sep) -> (r: bool)
    ensures
        r == pred_of(kind)(c),
{
    match kind {
        Sep::Space => char_is_space(c),
        Sep::Match(x) => c == x,
    }
}

/// Helper for [`tokens_of`]: the tokens of `s` when the characters of
/// `cur` have already been read as the beginning of the current token.
pub open spec fn tokens_acc(s: Seq<char>, cur: Seq<char>, p: spec_fn(char) -> bool) -> Seq<
    Seq<char>,
>
    decreases s.len(),
{
    if s.len() == 0 {
        if cur.len() == 0 {
            Seq::empty()
        } else {
            seq![cur]
        }
    } else if p(s[0]) {
        if cur.len() == 0 {
            tokens_acc(s.skip(1), Seq::empty(), p)
        } else {
            seq![cur] + tokens_acc(s.skip(1), Seq::empty(), p)
        }
    } else {
        tokens_acc(s.skip(1), cur.push(s[0]), p)
    }
}

/// The maximal non-empty runs of non-separator characters of `s`, in
/// order.
pub open spec fn tokens_of(s: Seq<char>, p: spec_fn(char) -> bool) -> Seq<Seq<char>> {
    tokens_acc(s, Seq::empty(), p)
}

/// The whitespace-delimited words of `s`, in order.
pub open spec fn words_of(s: Seq<char>) -> Seq<Seq<char>> {
    tokens_of(s, space_pred())
}

pub fn split_tokens(s: &Vec<char>, kind: Sep) -> (r: Vec<Vec<char>>)
    ensures
        views_of(r@) == tokens_of(s@, pred_of(kind)),
{
    let ghost p = pred_of(kind);
    let mut out: Vec<Vec<char>> = Vec::new();
    let mut cur: Vec<char> = Vec::new();
    let mut i: usize = 0;
    proof {
        assert(s@.skip(0) =~= s@);
        assert(views_of(out@) =~= Seq::<Seq<char>>::empty());
    }
    while i < s.len()
        invariant
            i <= s.len(),
            tokens_of(s@, p) == views_of(out@) + tokens_acc(s@.skip(i as int), cur@, p),
            p == pred_of(kind),
        decreases s.len() - i,
    {
        let ghost rest = s@.skip(i as int);
        let ghost out0 = views_of(out@);
        let ghost cur0 = cur@;
        proof {
            assert(rest[0] == s@[i as int]);
            assert(rest.skip(1) =~= s@.skip(i + 1));
        }
        let c = s[i];
        if sep_matches(c, kind) {
            if cur.len() > 0 {
                out.push(cur);
                cur = Vec::new();
                proof {
                    assert(views_of(out@) =~= out0.push(cur0));
                    assert(tokens_acc(rest, cur0, p) == seq![cur0] + tokens_acc(
                        rest.skip(1),
                        Seq::empty(),
                        p,
                    ));
                    assert(out0 + (seq![cur0] + tokens_acc(rest.skip(1), Seq::empty(), p))
                        =~= out0.push(cur0) + tokens_acc(rest.skip(1), Seq::empty(), p));
                }
            } else {
                proof {
                    assert(cur0 =~= Seq::<char>::empty());
                    assert(tokens_acc(rest, cur0, p) == tokens_acc(rest.skip(1), cur0, p));
                }
            }
        } else {
            cur.push(c);
            proof {
                assert(tokens_acc(rest, cur0, p) == tokens_acc(
                    rest.skip(1),
                    cur0.push(s@[i as int]),
                    p,
                ));
            }
        }
        i = i + 1;
    }
    proof {
        assert(s@.skip(s@.len() as int) =~= Seq::<char>::empty());
    }
    if cur.len() > 0 {
        let ghost out0 = views_of(out@);
        let ghost cur0 = cur@;
        out.push(cur);
        proof {
            assert(views_of(out@) =~= out0.push(cur0));
            assert(out0 + seq![cur0] =~= out0.push(cur0));
        }
    }
    proof {
        assert(views_of(out@) =~= tokens_of(s@, p));
    }
    out
}

pub fn split_words(s: &Vec<char>) -> (r: Vec<Vec<char>>)
    ensures
        views_of(r@) == words_of(s@),
{
    split_tokens(s, Sep::Space)
}

/// The elements of `ws` concatenated with `sep` between consecutive
/// elements.
pub open spec fn joined(ws: Seq<Seq<char>>, sep: Seq<char>) -> Seq<char>
    decreases ws.len(),
{
    if ws.len() == 0 {
        Seq::empty()
    } else if ws.len() == 1 {
        ws[0]
    } else {
        ws[0] + sep + joined(ws.skip(1), sep)
    }
}

/// Joining one more element appends a separator and that element, except
/// to an empty list.
pub proof fn lemma_joined_push(ws: Seq<Seq<char>>, sep: Seq<char>, w: Seq<char>)
    ensures
        joined(ws.push(w), sep) == if ws.len() == 0 {
            w
        } else {
            joined(ws, sep) + sep + w
        },
    decreases ws.len(),
{
    if ws.len() == 0 {
        assert(ws.push(w)[0] == w);
    } else if ws.len() == 1 {
        assert(ws.push(w).skip(1) =~= seq![w]);
        assert(ws.push(w)[0] == ws[0]);
        assert(seq![w][0] == w);
        assert(joined(seq![w], sep) == w);
        assert(ws.push(w).len() == 2);
        assert(joined(ws.push(w), sep) == ws.push(w)[0] + sep + joined(ws.push(w).skip(1), sep));
        assert(joined(ws.push(w), sep) == ws[0] + sep + w);
    } else {
        lemma_joined_push(ws.skip(1), sep, w);
        assert(ws.push(w).skip(1) =~= ws.skip(1).push(w));
        assert(joined(ws.push(w), sep) == ws[0] + sep + (joined(ws.skip(1), sep) + sep + w));
        assert(ws[0] + sep + (joined(ws.skip(1), sep) + sep + w) =~= (ws[0] + sep + joined(
            ws.skip(1),
            sep,
        )) + sep + w);
    }
}

pub fn join_chars(ws: &Vec<Vec<char>>, sep: &str) -> (r: Vec<char>)
    ensures
        r@ == joined(views_of(ws@), sep@),
{
    let mut out: Vec<char> = Vec::new();
    let mut i: usize = 0;
    proof {
        assert(views_of(ws@).take(0) =~= Seq::<Seq<char>>::empty());
    }
    while i < ws.len()
        invariant
            i <= ws.len(),
            out@ == joined(views_of(ws@).take(i as int), sep@),
        decreases ws.len() - i,
    {
        let ghost prefix = views_of(ws@).take(i as int);
        if i > 0 {
            push_lit(&mut out, sep);
        }
        push_chars(&mut out, &ws[i]);
        proof {
            lemma_joined_push(prefix, sep@, views_of(ws@)[i as int]);
            assert(views_of(ws@).take(i + 1) =~= prefix.push(views_of(ws@)[i as int]));
            if i == 0 {
                assert(out@ =~= joined(views_of(ws@).take(i + 1), sep@));
            } else {
                assert(out@ =~= (joined(prefix, sep@) + sep@) + views_of(ws@)[i as int]);
                assert((joined(prefix, sep@) + sep@) + views_of(ws@)[i as int] =~= joined(
                    prefix,
                    sep@,
                ) + sep@ + views_of(ws@)[i as int]);
            }
        }
        i = i + 1;
    }
    proof {
        assert(views_of(ws@).take(ws@.len() as int) =~= views_of(ws@));
    }
    out
}

/// `s` without its longest prefix of characters satisfying `p`.
pub open spec fn trim_front(s: Seq<char>, p: spec_fn(char) -> bool) -> Seq<char>
    decreases s.len(),
{
    if s.len() > 0 && p(s[0]) {
        trim_front(s.skip(1), p)
    } else {
        s
    }
}

/// `s` without its longest suffix of characters satisfying `p`.
pub open spec fn trim_back(s: Seq<char>, p: spec_fn(char) -> bool) -> Seq<char>
    decreases s.len(),
{
    if s.len() > 0 && p(s.last()) {
        trim_back(s.take(s.len() - 1), p)
    } else {
        s
    }
}

pub open spec fn trimmed(s: Seq<char>, p: spec_fn(char) -> bool) -> Seq<char> {
    trim_back(trim_front(s, p), p)
}

/// Whitespace trimmed from both ends, as `str::trim` does for ASCII text.
pub open spec fn trim_ws(s: Seq<char>) -> Seq<char> {
    trimmed(s, space_pred())
}

/// All occurrences of `c` trimmed from both ends, as `str::trim_matches`.
pub open spec fn trim_ch(s: Seq<char>, c: char) -> Seq<char> {
    trimmed(s, char_pred(c))
}

proof fn lemma_trim_front_skip(s: Seq<char>, p: spec_fn(char) -> bool, a: int)
    requires
        0 <= a <= s.len(),
        forall|k: int| 0 <= k < a ==> p(s[k]),
        a == s.len() || !p(s[a]),
    ensures
        trim_front(s, p) == s.skip(a),
    decreases a,
{
    if a == 0 {
        assert(s.skip(0) =~= s);
    } else {
        lemma_trim_front_skip(s.skip(1), p, a - 1);
        assert(s.skip(1).skip(a - 1) =~= s.skip(a));
    }
}

proof fn lemma_trim_back_take(s: Seq<char>, p: spec_fn(char) -> bool, b: int)
    requires
        0 <= b <= s.len(),
        forall|k: int| b <= k < s.len() ==> p(s[k]),
        b == 0 || !p(s[b - 1]),
    ensures
        trim_back(s, p) == s.take(b),
    decreases s.len(),
{
    if b == s.len() {
        assert(s.take(b) =~= s);
    } else {
        lemma_trim_back_take(s.take(s.len() - 1), p, b);
        assert(s.take(s.len() - 1).take(b) =~= s.take(b));
    }
}

fn scan_front(v: &Vec<char>, kind: Sep) -> (a: usize)
    ensures
        a <= v.len(),
        forall|k: int| 0 <= k < a ==> pred_of(kind)(v@[k]),
        a == v.len() || !pred_of(kind)(v@[a as int]),
{
    let mut a: usize = 0;
    while a < v.len()
        invariant
            a <= v.len(),
            forall|k: int| 0 <= k < a ==> pred_of(kind)(v@[k]),
        decreases v.len() - a,
    {
        if !sep_matches(v[a], kind) {
            return a;
        }
        a = a + 1;
    }
    a
}

fn scan_back(v: &Vec<char>, from: usize, kind: Sep) -> (b: usize)
    requires
        from <= v.len(),
    ensures
        from <= b <= v.len(),
        forall|k: int| b <= k < v.len() ==> pred_of(kind)(v@[k]),
        b == from || !pred_of(kind)(v@[b - 1]),
{
    let mut b: usize = v.len();
    while b > from
        invariant
            from <= b <= v.len(),
            forall|k: int| b <= k < v.len() ==> pred_of(kind)(v@[k]),
        decreases b,
    {
        if !sep_matches(v[b - 1], kind) {
            return b;
        }
        b = b - 1;
    }
    b
}

fn trim_matching(v: &Vec<char>, kind: Sep) -> (r: Vec<char>)
    ensures
        r@ == trimmed(v@, pred_of(kind)),
{
    let ghost p = pred_of(kind);
    let a = scan_front(v, kind);
    let b = scan_back(v, a, kind);
    let mut out: Vec<char> = Vec::new();
    let mut i: usize = a;
    proof {
        assert(out@ =~= v@.subrange(a as int, a as int));
    }
    while i < b
        invariant
            a <= i <= b <= v.len(),
            out@ == v@.subrange(a as int, i as int),
        decreases b - i,
    {
        out.push(v[i]);
        proof {
            assert(out@ =~= v@.subrange(a as int, i + 1));
        }
        i = i + 1;
    }
    proof {
        lemma_trim_front_skip(v@, p, a as int);
        let s1 = v@.skip(a as int);
        assert(forall|k: int| (b - a) <= k < s1.len() ==> p(s1[k]));
        if b > a {
            assert(!p(s1[b - a - 1]));
        }
        lemma_trim_back_take(s1, p, b - a);
        assert(s1.take(b - a) =~= v@.subrange(a as int, b as int));
    }
    out
}

/// Whitespace trimmed from the front only.
pub fn trim_front_ws_vec(v: &Vec<char>) -> (r: Vec<char>)
    ensures
        r@ == trim_front(v@, space_pred()),
{
    let a = scan_front(v, Sep::Space);
    let out = crate::chars::copy_range(v, a, v.len());
    proof {
        lemma_trim_front_skip(v@, space_pred(), a as int);
    }
    out
}

pub fn trim_ws_vec(v: &Vec<char>) -> (r: Vec<char>)
    ensures
        r@ == trim_ws(v@),
{
    trim_matching(v, Sep::Space)
}

pub fn trim_ch_vec(v: &Vec<char>, c: char) -> (r: Vec<char>)
    ensures
        r@ == trim_ch(v@, c),
{
    trim_matching(v, Sep::Match(c))
}

} // verus!

//! URL-safe identifiers derived from post titles: lower-case the letters,
//! turn every other character into a dash, collapse runs of dashes, trim.
use vstd::prelude::*;

verus! {

use crate::chars::char_is_alnum;
use crate::chars::char_to_lower;
use crate::chars::chars_to_string;
use crate::chars::is_alnum_char;
use crate::chars::is_digit_char;
use crate::chars::is_lower_char;
use crate::chars::lower_char;
use crate::chars::str_to_chars;
use crate::words::char_pred;
use crate::words::join_chars;
use crate::words::joined;
use crate::words::split_tokens;
use crate::words::tokens_acc;
use crate::words::tokens_of;
use crate::words::views_of;
use crate::words::Sep;

/// One character of the slug alphabet before collapsing: letters and
/// digits are lower-cased, everything else becomes a dash.
pub open spec fn slug_char(c: char) -> char {
    if is_alnum_char(c) {
        lower_char(c)
    } else {
        '-'
    }
}

pub open spec fn slug_map(s: Seq<char>) -> Seq<char> {
    s.map_values(|c: char| slug_char(c))
}

/// The slug of a title: the non-empty runs between dashes of the mapped
/// title, joined by single dashes.
pub open spec fn slug_of(t: Seq<char>) -> Seq<char> {
    joined(tokens_of(slug_map(t), char_pred('-')), "-"@)
}

/// Derives the URL-safe identifier of a title.
pub fn generate_slug(title: &str) -> (r: String)
    ensures
        r@ == slug_of(title@),
{
    let t = str_to_chars(title);
    let mut mapped: Vec<char> = Vec::new();
    let mut i: usize = 0;
    while i < t.len()
        invariant
            i <= t.len(),
            mapped@ == slug_map(t@).take(i as int),
        decreases t.len() - i,
    {
        let c = t[i];
        if char_is_alnum(c) {
            mapped.push(char_to_lower(c));
        } else {
            mapped.push('-');
        }
        proof {
            assert(mapped@ =~= slug_map(t@).take(i + 1));
        }
        i = i + 1;
    }
    proof {
        assert(slug_map(t@).take(t@.len() as int) =~= slug_map(t@));
    }
    let tokens = split_tokens(&mapped, Sep::Match('-'));
    let out = join_chars(&tokens, "-");
    chars_to_string(&out)
}

/// A character a finished slug may contain besides the dash.
pub open spec fn is_slug_char(c: char) -> bool {
    is_digit_char(c) || is_lower_char(c)
}

proof fn lemma_slug_char_cases(c: char)
    ensures
        slug_char(c) == '-' || is_slug_char(slug_char(c)),
        is_slug_char(c) ==> slug_char(c) == c,
{
    vstd::utf8::char_u32_cast(c, c as u32);
    if is_alnum_char(c) {
        if 65 <= c as u32 <= 90 {
            assert(is_lower_char(lower_char(c)));
        } else {
            assert(lower_char(c) == c);
        }
    }
}

/// Every character of every token satisfies `q`, when every character of
/// the input and of the partial token does.
proof fn lemma_tokens_chars(s: Seq<char>, cur: Seq<char>, p: spec_fn(char) -> bool, q: spec_fn(
    char,
) -> bool)
    requires
        forall|k: int| 0 <= k < s.len() ==> q(s[k]),
        forall|k: int| 0 <= k < cur.len() ==> q(cur[k]),
    ensures
        forall|i: int, k: int|
            0 <= i < tokens_acc(s, cur, p).len() && 0 <= k < tokens_acc(s, cur, p)[i].len() ==> q(
                tokens_acc(s, cur, p)[i][k],
            ),
    decreases s.len(),
{
    let ts = tokens_acc(s, cur, p);
    if s.len() == 0 {
        if cur.len() > 0 {
            assert(ts == seq![cur]);
            assert forall|i: int, k: int|
                0 <= i < ts.len() && 0 <= k < ts[i].len() implies q(ts[i][k]) by {
                assert(ts[i] == cur);
                assert(q(cur[k]));
            }
        }
    } else {
        assert(forall|k: int| 0 <= k < s.skip(1).len() ==> q(s.skip(1)[k]));
        if p(s[0]) {
            lemma_tokens_chars(s.skip(1), Seq::empty(), p, q);
            let rest = tokens_acc(s.skip(1), Seq::empty(), p);
            if cur.len() > 0 {
                assert forall|i: int, k: int|
                    0 <= i < ts.len() && 0 <= k < ts[i].len() implies q(ts[i][k]) by {
                    if i == 0 {
                        assert(ts[i] == cur);
                        assert(q(cur[k]));
                    } else {
                        assert(ts[i] == rest[i - 1]);
                        assert(q(rest[i - 1][k]));
                    }
                }
            } else {
                assert forall|i: int, k: int|
                    0 <= i < ts.len() && 0 <= k < ts[i].len() implies q(ts[i][k]) by {
                    assert(ts[i] == rest[i]);
                    assert(q(rest[i][k]));
                }
            }
        } else {
            assert(forall|k: int| 0 <= k < cur.push(s[0]).len() ==> q(cur.push(s[0])[k]));
            lemma_tokens_chars(s.skip(1), cur.push(s[0]), p, q);
            let rest = tokens_acc(s.skip(1), cur.push(s[0]), p);
            assert forall|i: int, k: int|
                0 <= i < ts.len() && 0 <= k < ts[i].len() implies q(ts[i][k]) by {
                assert(ts[i] == rest[i]);
                assert(q(rest[i][k]));
            }
        }
    }
}

/// No token contains a separator character, when the partial token does
/// not.
pub proof fn lemma_tokens_no_sep(s: Seq<char>, cur: Seq<char>, p: spec_fn(char) -> bool)
    requires
        forall|k: int| 0 <= k < cur.len() ==> !p(cur[k]),
    ensures
        forall|i: int, k: int|
            0 <= i < tokens_acc(s, cur, p).len() && 0 <= k < tokens_acc(s, cur, p)[i].len() ==> !p(
                tokens_acc(s, cur, p)[i][k],
            ),
    decreases s.len(),
{
    let ts = tokens_acc(s, cur, p);
    if s.len() == 0 {
        if cur.len() > 0 {
            assert(ts == seq![cur]);
            assert forall|i: int, k: int|
                0 <= i < ts.len() && 0 <= k < ts[i].len() implies !p(ts[i][k]) by {
                assert(ts[i] == cur);
                assert(!p(cur[k]));
            }
        }
    } else if p(s[0]) {
        lemma_tokens_no_sep(s.skip(1), Seq::empty(), p);
        let rest = tokens_acc(s.skip(1), Seq::empty(), p);
        if cur.len() > 0 {
            assert forall|i: int, k: int|
                0 <= i < ts.len() && 0 <= k < ts[i].len() implies !p(ts[i][k]) by {
                if i == 0 {
                    assert(ts[i] == cur);
                    assert(!p(cur[k]));
                } else {
                    assert(ts[i] == rest[i - 1]);
                    assert(!p(rest[i - 1][k]));
                }
            }
        } else {
            assert forall|i: int, k: int|
                0 <= i < ts.len() && 0 <= k < ts[i].len() implies !p(ts[i][k]) by {
                assert(ts[i] == rest[i]);
                assert(!p(rest[i][k]));
            }
        }
    } else {
        assert(forall|k: int| 0 <= k < cur.push(s[0]).len() ==> !p(cur.push(s[0])[k]));
        lemma_tokens_no_sep(s.skip(1), cur.push(s[0]), p);
        let rest = tokens_acc(s.skip(1), cur.push(s[0]), p);
        assert forall|i: int, k: int|
            0 <= i < ts.len() && 0 <= k < ts[i].len() implies !p(ts[i][k]) by {
            assert(ts[i] == rest[i]);
            assert(!p(rest[i][k]));
        }
    }
}

/// No token is empty, when the partial token is not empty or is absent.
pub proof fn lemma_tokens_nonempty(s: Seq<char>, cur: Seq<char>, p: spec_fn(char) -> bool)
    ensures
        forall|i: int| 0 <= i < tokens_acc(s, cur, p).len() ==> tokens_acc(s, cur, p)[i].len() >= 1,
    decreases s.len(),
{
    let ts = tokens_acc(s, cur, p);
    if s.len() == 0 {
        if cur.len() > 0 {
            assert(ts == seq![cur]);
            assert(ts[0] == cur);
        }
    } else if p(s[0]) {
        lemma_tokens_nonempty(s.skip(1), Seq::empty(), p);
        let rest = tokens_acc(s.skip(1), Seq::empty(), p);
        if cur.len() > 0 {
            assert forall|i: int| 0 <= i < ts.len() implies ts[i].len() >= 1 by {
                if i == 0 {
                    assert(ts[i] == cur);
                } else {
                    assert(ts[i] == rest[i - 1]);
                    assert(rest[i - 1].len() >= 1);
                }
            }
        } else {
            assert forall|i: int| 0 <= i < ts.len() implies ts[i].len() >= 1 by {
                assert(ts[i] == rest[i]);
                assert(rest[i].len() >= 1);
            }
        }
    } else {
        lemma_tokens_nonempty(s.skip(1), cur.push(s[0]), p);
        let rest = tokens_acc(s.skip(1), cur.push(s[0]), p);
        assert forall|i: int| 0 <= i < ts.len() implies ts[i].len() >= 1 by {
            assert(ts[i] == rest[i]);
            assert(rest[i].len() >= 1);
        }
    }
}

/// Every character of a join satisfies `q`, when every token character
/// and every separator character does.
proof fn lemma_joined_chars(ts: Seq<Seq<char>>, sep: Seq<char>, q: spec_fn(char) -> bool)
    requires
        forall|i: int, k: int| 0 <= i < ts.len() && 0 <= k < ts[i].len() ==> q(ts[i][k]),
        forall|k: int| 0 <= k < sep.len() ==> q(sep[k]),
    ensures
        forall|k: int| 0 <= k < joined(ts, sep).len() ==> q(joined(ts, sep)[k]),
    decreases ts.len(),
{
    if ts.len() == 0 {
    } else if ts.len() == 1 {
        assert(joined(ts, sep) == ts[0]);
    } else {
        assert(forall|i: int, k: int|
            0 <= i < ts.skip(1).len() && 0 <= k < ts.skip(1)[i].len() ==> q(ts.skip(1)[i][k]));
        lemma_joined_chars(ts.skip(1), sep, q);
        let j = joined(ts, sep);
        let rest = joined(ts.skip(1), sep);
        assert forall|k: int| 0 <= k < j.len() implies q(j[k]) by {
            if k < ts[0].len() {
                assert(j[k] == ts[0][k]);
            } else if k < ts[0].len() + sep.len() {
                assert(j[k] == sep[k - ts[0].len()]);
            } else {
                assert(j[k] == rest[k - ts[0].len() - sep.len()]);
            }
        }
    }
}

/// Reading a run of non-separator characters extends the partial token.
proof fn lemma_tokens_acc_run(w: Seq<char>, rest: Seq<char>, cur: Seq<char>, p: spec_fn(
    char,
) -> bool)
    requires
        forall|k: int| 0 <= k < w.len() ==> !p(w[k]),
    ensures
        tokens_acc(w + rest, cur, p) == tokens_acc(rest, cur + w, p),
    decreases w.len(),
{
    if w.len() == 0 {
        assert(w + rest =~= rest);
        assert(cur + w =~= cur);
    } else {
        assert((w + rest)[0] == w[0]);
        assert((w + rest).skip(1) =~= w.skip(1) + rest);
        assert(cur.push(w[0]) + w.skip(1) =~= cur + w);
        assert(forall|k: int| 0 <= k < w.skip(1).len() ==> !p(w.skip(1)[k]));
        lemma_tokens_acc_run(w.skip(1), rest, cur.push(w[0]), p);
    }
}

/// Separator characters with nothing accumulated are skipped.
proof fn lemma_tokens_acc_seps(sep: Seq<char>, rest: Seq<char>, p: spec_fn(char) -> bool)
    requires
        forall|k: int| 0 <= k < sep.len() ==> p(sep[k]),
    ensures
        tokens_acc(sep + rest, Seq::empty(), p) == tokens_acc(rest, Seq::empty(), p),
    decreases sep.len(),
{
    if sep.len() == 0 {
        assert(sep + rest =~= rest);
    } else {
        assert((sep + rest)[0] == sep[0]);
        assert((sep + rest).skip(1) =~= sep.skip(1) + rest);
        assert(forall|k: int| 0 <= k < sep.skip(1).len() ==> p(sep.skip(1)[k]));
        lemma_tokens_acc_seps(sep.skip(1), rest, p);
    }
}

/// A separator flushes a non-empty partial token.
proof fn lemma_tokens_acc_flush(sep: Seq<char>, rest: Seq<char>, cur: Seq<char>, p: spec_fn(
    char,
) -> bool)
    requires
        forall|k: int| 0 <= k < sep.len() ==> p(sep[k]),
        sep.len() >= 1,
        cur.len() >= 1,
    ensures
        tokens_acc(sep + rest, cur, p) == seq![cur] + tokens_acc(rest, Seq::empty(), p),
{
    assert((sep + rest)[0] == sep[0]);
    assert((sep + rest).skip(1) =~= sep.skip(1) + rest);
    assert(forall|k: int| 0 <= k < sep.skip(1).len() ==> p(sep.skip(1)[k]));
    lemma_tokens_acc_seps(sep.skip(1), rest, p);
}

/// Splitting a join of non-empty, separator-free tokens recovers exactly
/// those tokens.
pub proof fn lemma_tokens_of_joined(ts: Seq<Seq<char>>, sep: Seq<char>, p: spec_fn(char) -> bool)
    requires
        forall|i: int, k: int| 0 <= i < ts.len() && 0 <= k < ts[i].len() ==> !p(ts[i][k]),
        forall|i: int| 0 <= i < ts.len() ==> ts[i].len() >= 1,
        forall|k: int| 0 <= k < sep.len() ==> p(sep[k]),
        sep.len() >= 1,
    ensures
        tokens_of(joined(ts, sep), p) == ts,
    decreases ts.len(),
{
    if ts.len() == 0 {
        assert(tokens_of(joined(ts, sep), p) =~= ts);
    } else if ts.len() == 1 {
        assert(joined(ts, sep) == ts[0]);
        assert(ts[0] + Seq::<char>::empty() =~= ts[0]);
        lemma_tokens_acc_run(ts[0], Seq::empty(), Seq::empty(), p);
        assert(Seq::<char>::empty() + ts[0] =~= ts[0]);
        assert(tokens_acc(Seq::empty(), ts[0], p) == seq![ts[0]]);
        assert(seq![ts[0]] =~= ts);
    } else {
        let rest = joined(ts.skip(1), sep);
        assert(joined(ts, sep) == ts[0] + sep + rest);
        assert(ts[0] + sep + rest =~= ts[0] + (sep + rest));
        lemma_tokens_acc_run(ts[0], sep + rest, Seq::empty(), p);
        assert(Seq::<char>::empty() + ts[0] =~= ts[0]);
        lemma_tokens_acc_flush(sep, rest, ts[0], p);
        assert(forall|i: int, k: int|
            0 <= i < ts.skip(1).len() && 0 <= k < ts.skip(1)[i].len() ==> !p(ts.skip(1)[i][k]));
        assert(forall|i: int| 0 <= i < ts.skip(1).len() ==> ts.skip(1)[i].len() >= 1);
        lemma_tokens_of_joined(ts.skip(1), sep, p);
        assert(seq![ts[0]] + ts.skip(1) =~= ts);
    }
}

/// Every character of a slug is a lower-case letter, a digit, or a dash.
pub proof fn lemma_slug_chars(t: Seq<char>)
    ensures
        forall|k: int|
            0 <= k < slug_of(t).len() ==> is_slug_char(#[trigger] slug_of(t)[k]) || slug_of(t)[k]
                == '-',
{
    let p = char_pred('-');
    let m = slug_map(t);
    let ts = tokens_of(m, p);
    reveal_strlit("-");
    let q = |c: char| is_slug_char(c) || c == '-';
    assert forall|k: int| 0 <= k < m.len() implies q(m[k]) by {
        lemma_slug_char_cases(t[k]);
    }
    lemma_tokens_chars(m, Seq::empty(), p, q);
    lemma_joined_chars(ts, "-"@, q);
    assert forall|k: int|
        0 <= k < slug_of(t).len() implies is_slug_char(#[trigger] slug_of(t)[k]) || slug_of(t)[k]
            == '-' by {
        assert(q(slug_of(t)[k]));
    }
}

/// Slug generation is idempotent: the slug of a slug is itself.
pub proof fn lemma_slug_idempotent(t: Seq<char>)
    ensures
        slug_of(slug_of(t)) == slug_of(t),
{
    let p = char_pred('-');
    let m = slug_map(t);
    let ts = tokens_of(m, p);
    let s = joined(ts, "-"@);
    reveal_strlit("-");
    assert("-"@.len() == 1 && "-"@[0] == '-');
    assert(forall|k: int| 0 <= k < "-"@.len() ==> p("-"@[k]));

    // Every token character is a fixed point of `slug_char` and no dash.
    let q = |c: char| is_slug_char(c) || c == '-';
    assert forall|k: int| 0 <= k < m.len() implies q(m[k]) by {
        lemma_slug_char_cases(t[k]);
    }
    lemma_tokens_chars(m, Seq::empty(), p, q);
    lemma_tokens_no_sep(m, Seq::empty(), p);
    lemma_tokens_nonempty(m, Seq::empty(), p);
    assert forall|i: int, k: int|
        0 <= i < ts.len() && 0 <= k < ts[i].len() implies is_slug_char(ts[i][k]) by {
        assert(q(ts[i][k]));
        assert(!p(ts[i][k]));
    }

    // So the joined slug maps to itself character by character.
    lemma_joined_chars(ts, "-"@, q);
    assert forall|k: int| 0 <= k < s.len() implies slug_char(s[k]) == s[k] by {
        assert(q(s[k]));
        lemma_slug_char_cases(s[k]);
        if s[k] == '-' {
            assert(!is_alnum_char('-')) by {
                vstd::utf8::char_u32_cast('-', '-' as u32);
            }
        }
    }
    assert(slug_map(s) =~= s);

    // And splitting the join recovers the same tokens.
    lemma_tokens_of_joined(ts, "-"@, p);
    assert(slug_of(s) == joined(tokens_of(slug_map(s), p), "-"@));
    assert(tokens_of(slug_map(s), p) == tokens_of(s, p));
    assert(slug_of(s) == s);
}

} // verus!

//! Crate-level laws relating several functions: the word structure of
//! excerpts, and the round trip between loading and the dual-key lookup.
use vstd::prelude::*;

verus! {

use crate::blog::find_spec;
use crate::blog::first_with_path;
use crate::blog::first_with_slug;
use crate::chars::is_space_char;
use crate::excerpt::excerpt_of;
use crate::excerpt::post_words;
use crate::post::BlogPost;
use crate::slug::lemma_tokens_no_sep;
use crate::slug::lemma_tokens_nonempty;
use crate::slug::lemma_tokens_of_joined;
use crate::words::joined;
use crate::words::space_pred;
use crate::words::words_of;

/// Extending the last element of a join extends the join itself.
proof fn lemma_joined_append_to_last(ws: Seq<Seq<char>>, sep: Seq<char>, x: Seq<char>)
    requires
        ws.len() >= 1,
    ensures
        joined(ws.update(ws.len() - 1, ws.last() + x), sep) == joined(ws, sep) + x,
    decreases ws.len(),
{
    let b = ws.update(ws.len() - 1, ws.last() + x);
    if ws.len() == 1 {
        assert(b[0] == ws[0] + x);
        assert(joined(b, sep) == ws[0] + x);
    } else {
        assert(b[0] == ws[0]);
        assert(b.skip(1) =~= ws.skip(1).update(ws.skip(1).len() - 1, ws.skip(1).last() + x));
        lemma_joined_append_to_last(ws.skip(1), sep, x);
        assert(joined(b, sep) == ws[0] + sep + (joined(ws.skip(1), sep) + x));
        assert(ws[0] + sep + (joined(ws.skip(1), sep) + x) =~= (ws[0] + sep + joined(
            ws.skip(1),
            sep,
        )) + x);
    }
}

/// The excerpt law: a body of at most thirty words yields exactly those
/// words with no ellipsis; a longer body yields exactly thirty words, the
/// last carrying the ellipsis marker.
pub proof fn lemma_excerpt_words(html: Seq<char>)
    ensures
        post_words(html).len() <= 30 ==> excerpt_of(html) == joined(post_words(html), " "@)
            && words_of(excerpt_of(html)) == post_words(html),
        post_words(html).len() > 30 ==> words_of(excerpt_of(html)) == post_words(html).take(
            30,
        ).update(29, post_words(html)[29] + "..."@) && words_of(excerpt_of(html)).len() == 30,
{
    let p = space_pred();
    let s = crate::excerpt::strip_code(crate::excerpt::strip_tags(html));
    let ws = post_words(html);
    reveal_strlit(" ");
    reveal_strlit("...");
    assert(" "@.len() == 1 && " "@[0] == ' ');
    assert(forall|k: int| 0 <= k < " "@.len() ==> p(" "@[k]));
    lemma_tokens_nonempty(s, Seq::empty(), p);
    lemma_tokens_no_sep(s, Seq::empty(), p);
    if ws.len() <= 30 {
        lemma_tokens_of_joined(ws, " "@, p);
    } else {
        let a = ws.take(30);
        let b = a.update(29, a[29] + "..."@);
        assert(forall|i: int| 0 <= i < a.len() ==> a[i] == ws[i]);
        assert(b.last() == a[29] + "..."@);
        assert forall|i: int| 0 <= i < b.len() implies b[i].len() >= 1 by {
            if i < 29 {
                assert(b[i] == ws[i]);
            }
        }
        assert forall|i: int, k: int|
            0 <= i < b.len() && 0 <= k < b[i].len() implies !p(b[i][k]) by {
            if i < 29 {
                assert(b[i] == ws[i]);
                assert(!p(ws[i][k]));
            } else {
                assert(b[i] == a[29] + "..."@);
                if k < a[29].len() {
                    assert(b[i][k] == ws[29][k]);
                    assert(!p(ws[29][k]));
                } else {
                    assert(b[i][k] == "..."@[k - a[29].len()]);
                    assert(b[i][k] == '.');
                    assert(!is_space_char('.'));
                }
            }
        }
        lemma_joined_append_to_last(a, " "@, "..."@);
        assert(a.last() == a[29]);
        assert(excerpt_of(html) == joined(a, " "@) + "..."@);
        assert(joined(b, " "@) == excerpt_of(html));
        lemma_tokens_of_joined(b, " "@, p);
        assert(words_of(excerpt_of(html)) == b);
    }
}

proof fn lemma_first_with_slug_spec(ps: Seq<BlogPost>, key: Seq<char>)
    ensures
        first_with_slug(ps, key) >= 0 ==> 0 <= first_with_slug(ps, key) < ps.len()
            && ps[first_with_slug(ps, key)]@.slug == key && (forall|k: int|
            0 <= k < first_with_slug(ps, key) ==> ps[k]@.slug != key),
        first_with_slug(ps, key) < 0 ==> forall|k: int| 0 <= k < ps.len() ==> ps[k]@.slug != key,
    decreases ps.len(),
{
    if ps.len() > 0 && ps[0]@.slug != key {
        lemma_first_with_slug_spec(ps.skip(1), key);
        let r = first_with_slug(ps.skip(1), key);
        if r >= 0 {
            assert(ps.skip(1)[r] == ps[r + 1]);
            assert forall|k: int| 0 <= k < r + 1 implies ps[k]@.slug != key by {
                if k >= 1 {
                    assert(ps.skip(1)[k - 1] == ps[k]);
                }
            }
        } else {
            assert forall|k: int| 0 <= k < ps.len() implies ps[k]@.slug != key by {
                if k >= 1 {
                    assert(ps.skip(1)[k - 1] == ps[k]);
                }
            }
        }
    }
}

proof fn lemma_first_with_path_spec(ps: Seq<BlogPost>, key: Seq<char>)
    ensures
        first_with_path(ps, key) >= 0 ==> 0 <= first_with_path(ps, key) < ps.len()
            && ps[first_with_path(ps, key)]@.path == key && (forall|k: int|
            0 <= k < first_with_path(ps, key) ==> ps[k]@.path != key),
        first_with_path(ps, key) < 0 ==> forall|k: int| 0 <= k < ps.len() ==> ps[k]@.path != key,
    decreases ps.len(),
{
    if ps.len() > 0 && ps[0]@.path != key {
        lemma_first_with_path_spec(ps.skip(1), key);
        let r = first_with_path(ps.skip(1), key);
        if r >= 0 {
            assert(ps.skip(1)[r] == ps[r + 1]);
            assert forall|k: int| 0 <= k < r + 1 implies ps[k]@.path != key by {
                if k >= 1 {
                    assert(ps.skip(1)[k - 1] == ps[k]);
                }
            }
        } else {
            assert forall|k: int| 0 <= k < ps.len() implies ps[k]@.path != key by {
                if k >= 1 {
                    assert(ps.skip(1)[k - 1] == ps[k]);
                }
            }
        }
    }
}

/// The lookup round trip: in a collection whose identifiers are pairwise
/// distinct, whose path tokens are pairwise distinct, and where no post's
/// identifier is another post's path token, looking a post up by its
/// identifier and by its path token both find that post.
pub proof fn lemma_find_round_trip(ps: Seq<BlogPost>, i: int)
    requires
        0 <= i < ps.len(),
        forall|k: int, l: int| 0 <= k < l < ps.len() ==> ps[k]@.slug != ps[l]@.slug,
        forall|k: int, l: int| 0 <= k < l < ps.len() ==> ps[k]@.path != ps[l]@.path,
        forall|k: int, l: int|
            0 <= k < ps.len() && 0 <= l < ps.len() && ps[k]@.slug == ps[l]@.path ==> k == l,
    ensures
        find_spec(ps, ps[i]@.slug) == Some(i),
        find_spec(ps, ps[i]@.path) == Some(i),
{
    lemma_first_with_slug_spec(ps, ps[i]@.slug);
    let s = first_with_slug(ps, ps[i]@.slug);
    assert(s >= 0);
    assert(ps[s]@.slug == ps[i]@.slug);
    if s < i {
        assert(false);
    } else if s > i {
        assert(ps[i]@.slug != ps[i]@.slug);
    }
    assert(s == i);

    lemma_first_with_slug_spec(ps, ps[i]@.path);
    let s2 = first_with_slug(ps, ps[i]@.path);
    if s2 >= 0 {
        assert(ps[s2]@.slug == ps[i]@.path);
        assert(s2 == i);
        assert(find_spec(ps, ps[i]@.path) == Some(i));
    } else {
        lemma_first_with_path_spec(ps, ps[i]@.path);
        let q = first_with_path(ps, ps[i]@.path);
        assert(q >= 0);
        assert(ps[q]@.path == ps[i]@.path);
        if q < i {
            assert(false);
        } else if q > i {
            assert(ps[i]@.path != ps[i]@.path);
        }
        assert(q == i);
    }
}

} // verus!

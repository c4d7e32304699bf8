//! Plain-text excerpts of rendered post bodies: block-level tags are
//! stripped, code blocks are removed whole, and the text is cut to at
//! most thirty words with a trailing ellipsis when shortened.
use vstd::prelude::*;

verus! {

use crate::chars::chars_to_string;
use crate::chars::push_lit;
use crate::chars::str_to_chars;
use crate::text::find_from;
use crate::text::find_idx;
use crate::text::lemma_find_idx;
use crate::text::lemma_match_at_skip;
use crate::text::match_at;
use crate::text::replace_all;
use crate::text::replaced;
use crate::text::starts_with_at;
use crate::words::join_chars;
use crate::words::joined;
use crate::words::split_words;
use crate::words::views_of;
use crate::words::words_of;

/// The block-level markup dropped from excerpts: closing tags of block
/// elements become a space, the rest vanish.
pub open spec fn strip_tags(s: Seq<char>) -> Seq<char> {
    let s = replaced(s, "<h2>"@, ""@);
    let s = replaced(s, "</h2>"@, " "@);
    let s = replaced(s, "<h3>"@, ""@);
    let s = replaced(s, "</h3>"@, " "@);
    let s = replaced(s, "<h4>"@, ""@);
    let s = replaced(s, "</h4>"@, " "@);
    let s = replaced(s, "<p>"@, ""@);
    let s = replaced(s, "</p>"@, " "@);
    let s = replaced(s, "<li>"@, ""@);
    let s = replaced(s, "</li>"@, " "@);
    let s = replaced(s, "<ul>"@, ""@);
    let s = replaced(s, "</ul>"@, " "@);
    let s = replaced(s, "<ol>"@, ""@);
    let s = replaced(s, "</ol>"@, " "@);
    let s = replaced(s, "<br>"@, " "@);
    let s = replaced(s, "<br />"@, " "@);
    let s = replaced(s, "<em>"@, ""@);
    let s = replaced(s, "</em>"@, ""@);
    let s = replaced(s, "<strong>"@, ""@);
    let s = replaced(s, "</strong>"@, ""@);
    let s = replaced(s, "<blockquote>"@, ""@);
    let s = replaced(s, "</blockquote>"@, " "@);
    s
}

pub fn strip_tags_exec(v: &Vec<char>) -> (r: Vec<char>)
    ensures
        r@ == strip_tags(v@),
{
    proof {
        reveal_strlit("<h2>");
        reveal_strlit("</h2>");
        reveal_strlit("<h3>");
        reveal_strlit("</h3>");
        reveal_strlit("<h4>");
        reveal_strlit("</h4>");
        reveal_strlit("<p>");
        reveal_strlit("</p>");
        reveal_strlit("<li>");
        reveal_strlit("</li>");
        reveal_strlit("<ul>");
        reveal_strlit("</ul>");
        reveal_strlit("<ol>");
        reveal_strlit("</ol>");
        reveal_strlit("<br>");
        reveal_strlit("<br />");
        reveal_strlit("<em>");
        reveal_strlit("</em>");
        reveal_strlit("<strong>");
        reveal_strlit("</strong>");
        reveal_strlit("<blockquote>");
        reveal_strlit("</blockquote>");
    }
    let blank = str_to_chars("");
    let space = str_to_chars(" ");
    let p = str_to_chars("<h2>");
    let t = replace_all(v, &p, &blank);
    let p = str_to_chars("</h2>");
    let t = replace_all(&t, &p, &space);
    let p = str_to_chars("<h3>");
    let t = replace_all(&t, &p, &blank);
    let p = str_to_chars("</h3>");
    let t = replace_all(&t, &p, &space);
    let p = str_to_chars("<h4>");
    let t = replace_all(&t, &p, &blank);
    let p = str_to_chars("</h4>");
    let t = replace_all(&t, &p, &space);
    let p = str_to_chars("<p>");
    let t = replace_all(&t, &p, &blank);
    let p = str_to_chars("</p>");
    let t = replace_all(&t, &p, &space);
    let p = str_to_chars("<li>");
    let t = replace_all(&t, &p, &blank);
    let p = str_to_chars("</li>");
    let t = replace_all(&t, &p, &space);
    let p = str_to_chars("<ul>");
    let t = replace_all(&t, &p, &blank);
    let p = str_to_chars("</ul>");
    let t = replace_all(&t, &p, &space);
    let p = str_to_chars("<ol>");
    let t = replace_all(&t, &p, &blank);
    let p = str_to_chars("</ol>");
    let t = replace_all(&t, &p, &space);
    let p = str_to_chars("<br>");
    let t = replace_all(&t, &p, &space);
    let p = str_to_chars("<br />");
    let t = replace_all(&t, &p, &space);
    let p = str_to_chars("<em>");
    let t = replace_all(&t, &p, &blank);
    let p = str_to_chars("</em>");
    let t = replace_all(&t, &p, &blank);
    let p = str_to_chars("<strong>");
    let t = replace_all(&t, &p, &blank);
    let p = str_to_chars("</strong>");
    let t = replace_all(&t, &p, &blank);
    let p = str_to_chars("<blockquote>");
    let t = replace_all(&t, &p, &blank);
    let p = str_to_chars("</blockquote>");
    let t = replace_all(&t, &p, &space);
    t
}

pub open spec fn code_open() -> Seq<char> {
    "<pre><code"@
}

pub open spec fn code_close() -> Seq<char> {
    "</code></pre>"@
}

/// `s` with every code block removed: from each `<pre><code` to the next
/// `</code></pre>` a single space remains; an unclosed opener leaves the
/// rest untouched.
pub open spec fn strip_code(s: Seq<char>) -> Seq<char>
    decreases s.len(),
    via strip_code_dec
{
    if s.len() == 0 {
        s
    } else if match_at(s, 0, code_open()) {
        let f = find_idx(s.skip(code_open().len() as int), code_close());
        if f >= 0 {
            seq![' '] + strip_code(s.skip(code_open().len() + f + code_close().len()))
        } else {
            s
        }
    } else {
        seq![s[0]] + strip_code(s.skip(1))
    }
}

#[via_fn]
proof fn strip_code_dec(s: Seq<char>) {
    reveal_strlit("<pre><code");
    reveal_strlit("</code></pre>");
    if s.len() > 0 && match_at(s, 0, code_open()) {
        lemma_find_idx(s.skip(code_open().len() as int), code_close());
    }
}

pub fn strip_code_exec(v: &Vec<char>) -> (r: Vec<char>)
    ensures
        r@ == strip_code(v@),
{
    proof {
        reveal_strlit("<pre><code");
        reveal_strlit("</code></pre>");
    }
    let open = str_to_chars("<pre><code");
    let close = str_to_chars("</code></pre>");
    let mut out: Vec<char> = Vec::new();
    let mut i: usize = 0;
    proof {
        assert(v@.skip(0) =~= v@);
        assert(Seq::<char>::empty() + strip_code(v@) =~= strip_code(v@));
    }
    while i < v.len()
        invariant
            i <= v.len(),
            open@ == code_open(),
            close@ == code_close(),
            open@.len() == 10,
            close@.len() == 13,
            strip_code(v@) == out@ + strip_code(v@.skip(i as int)),
        decreases v.len() - i,
    {
        let ghost rest = v@.skip(i as int);
        let ghost out0 = out@;
        proof {
            assert(rest[0] == v@[i as int]);
            assert(rest.skip(1) =~= v@.skip(i + 1));
            lemma_match_at_skip(v@, i as int, 0, open@);
        }
        if starts_with_at(v, i, &open) {
            let ghost s1 = rest.skip(open@.len() as int);
            proof {
                assert(s1 =~= v@.skip(i + open@.len()));
                lemma_find_idx(s1, close@);
            }
            match find_from(v, i + open.len(), &close) {
                Some(j) => {
                    let ghost f = find_idx(s1, close@);
                    proof {
                        lemma_match_at_skip(v@, i + open@.len(), j - i - open@.len(), close@);
                        assert(match_at(s1, j - i - open@.len(), close@));
                        assert(f >= 0);
                        if f < j - i - open@.len() {
                            lemma_match_at_skip(v@, i + open@.len(), f, close@);
                            assert(match_at(v@, i + open@.len() + f, close@));
                            assert(false);
                        }
                        assert(f == j - i - open@.len());
                        assert(strip_code(rest) == seq![' '] + strip_code(
                            rest.skip(open@.len() + f + close@.len()),
                        ));
                        assert(rest.skip(open@.len() + f + close@.len()) =~= v@.skip(
                            j + close@.len(),
                        ));
                    }
                    out.push(' ');
                    proof {
                        assert(out0 + (seq![' '] + strip_code(v@.skip(j + close@.len())))
                            =~= out0.push(' ') + strip_code(v@.skip(j + close@.len())));
                    }
                    i = j + close.len();
                },
                None => {
                    proof {
                        let f = find_idx(s1, close@);
                        if f >= 0 {
                            lemma_match_at_skip(v@, i + open@.len(), f, close@);
                            assert(match_at(v@, i + open@.len() + f, close@));
                            assert(false);
                        }
                        assert(strip_code(rest) == rest);
                    }
                    let mut k: usize = i;
                    while k < v.len()
                        invariant
                            i <= k <= v.len(),
                            out@ == out0 + v@.subrange(i as int, k as int),
                        decreases v.len() - k,
                    {
                        out.push(v[k]);
                        proof {
                            assert(out@ =~= out0 + v@.subrange(i as int, k + 1));
                        }
                        k = k + 1;
                    }
                    proof {
                        assert(v@.subrange(i as int, v@.len() as int) =~= rest);
                        assert(v@.skip(v@.len() as int) =~= Seq::<char>::empty());
                        assert(out@ + strip_code(Seq::<char>::empty()) =~= out@);
                    }
                    i = v.len();
                },
            }
        } else {
            out.push(v[i]);
            proof {
                assert(!match_at(rest, 0, open@));
                assert(strip_code(rest) == seq![rest[0]] + strip_code(rest.skip(1)));
                assert(out0 + (seq![rest[0]] + strip_code(v@.skip(i + 1))) =~= out0.push(
                    v@[i as int],
                ) + strip_code(v@.skip(i + 1)));
            }
            i = i + 1;
        }
    }
    proof {
        assert(v@.skip(v@.len() as int) =~= Seq::<char>::empty());
        assert(out@ =~= strip_code(v@));
    }
    out
}

/// The words of the plain text a post body reduces to.
pub open spec fn post_words(html: Seq<char>) -> Seq<Seq<char>> {
    words_of(strip_code(strip_tags(html)))
}

/// The excerpt of a post body: its plain-text words, at most thirty of
/// them, with an ellipsis marker when the text was cut.
pub open spec fn excerpt_of(html: Seq<char>) -> Seq<char> {
    let ws = post_words(html);
    if ws.len() <= 30 {
        joined(ws, " "@)
    } else {
        joined(ws.take(30), " "@) + "..."@
    }
}

/// Derives the plain-text excerpt of a rendered post body.
pub fn generate_excerpt(content: &str) -> (r: String)
    ensures
        r@ == excerpt_of(content@),
{
    let v = str_to_chars(content);
    let t = strip_tags_exec(&v);
    let t = strip_code_exec(&t);
    let mut ws = split_words(&t);
    if ws.len() <= 30 {
        let out = join_chars(&ws, " ");
        chars_to_string(&out)
    } else {
        let ghost ws0 = views_of(ws@);
        ws.truncate(30);
        proof {
            assert(views_of(ws@) =~= ws0.take(30));
        }
        let mut out = join_chars(&ws, " ");
        push_lit(&mut out, "...");
        chars_to_string(&out)
    }
}

} // verus!

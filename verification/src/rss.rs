//! The RSS 2.0 feed: a projection of the newest posts into a syndication
//! document, with XML-escaped text content.
use vstd::prelude::*;

verus! {

use crate::chars::chars_to_string;
use crate::chars::push_chars;
use crate::chars::push_lit;
use crate::chars::str_to_chars;
use crate::config::Config;
use crate::post::iso_date_view;
use crate::post::post_views;
use crate::post::BlogPost;
use crate::post::PostModel;
use crate::text::replace_all;
use crate::text::replaced;

/// Text content escaped for XML: the five predefined entities, ampersand
/// first so the others are not re-escaped.
pub open spec fn xml_escaped(s: Seq<char>) -> Seq<char> {
    let s = replaced(s, "&"@, "&amp;"@);
    let s = replaced(s, "<"@, "&lt;"@);
    let s = replaced(s, ">"@, "&gt;"@);
    let s = replaced(s, "\""@, "&quot;"@);
    let s = replaced(s, "'"@, "&apos;"@);
    s
}

pub fn xml_escape(v: &Vec<char>) -> (r: Vec<char>)
    ensures
        r@ == xml_escaped(v@),
{
    proof {
        reveal_strlit("&");
        reveal_strlit("<");
        reveal_strlit(">");
        reveal_strlit("\"");
        reveal_strlit("'");
    }
    let p = str_to_chars("&");
    let q = str_to_chars("&amp;");
    let t = replace_all(v, &p, &q);
    let p = str_to_chars("<");
    let q = str_to_chars("&lt;");
    let t = replace_all(&t, &p, &q);
    let p = str_to_chars(">");
    let q = str_to_chars("&gt;");
    let t = replace_all(&t, &p, &q);
    let p = str_to_chars("\"");
    let q = str_to_chars("&quot;");
    let t = replace_all(&t, &p, &q);
    let p = str_to_chars("'");
    let q = str_to_chars("&apos;");
    let t = replace_all(&t, &p, &q);
    t
}

/// The canonical URL of a post.
pub open spec fn permalink(c: Config, slug: Seq<char>) -> Seq<char> {
    "https://"@ + c.site.domain@ + "/blog/"@ + slug
}

/// The author attribution carried by the feed.
pub open spec fn author_line(c: Config) -> Seq<char> {
    c.site.author@ + " (juan@jrada.dev)"@
}

/// The copyright notice carried by the feed.
pub open spec fn copyright_line(c: Config) -> Seq<char> {
    "© 2025 "@ + c.site.author@ + ". All rights reserved."@
}

/// One `category` element per tag, in order.
pub open spec fn categories_xml(tags: Seq<Seq<char>>) -> Seq<char>
    decreases tags.len(),
{
    if tags.len() == 0 {
        Seq::empty()
    } else {
        "<category>"@ + xml_escaped(tags[0]) + "</category>"@ + categories_xml(tags.skip(1))
    }
}

/// One feed item: title, permalink, description, author, categories,
/// permanent guid equal to the permalink, and the timestamp form of the
/// date.
pub open spec fn item_body(c: Config, p: PostModel) -> Seq<char> {
    "<title>"@ + xml_escaped(p.title) + "</title><link>"@ + permalink(c, p.slug)
        + "</link><description>"@ + xml_escaped(p.description) + "</description><author>"@
        + xml_escaped(author_line(c)) + "</author>"@ + categories_xml(p.tags) + "<guid>"@
        + permalink(c, p.slug) + "</guid><pubDate>"@ + iso_date_view(p) + "</pubDate>"@
}

pub open spec fn item_xml(c: Config, p: PostModel) -> Seq<char> {
    "<item>"@ + item_body(c, p) + "</item>"@
}

/// The items of a sequence of posts, in order.
pub open spec fn items_xml(c: Config, ps: Seq<PostModel>) -> Seq<char>
    decreases ps.len(),
{
    if ps.len() == 0 {
        Seq::empty()
    } else {
        item_xml(c, ps[0]) + items_xml(c, ps.skip(1))
    }
}

/// The channel metadata, sourced from the site configuration.
pub open spec fn rss_head(c: Config) -> Seq<char> {
    "<?xml version=\"1.0\" encoding=\"UTF-8\"?><rss version=\"2.0\"><channel><title>"@
        + xml_escaped(c.site.title@) + "</title><link>https://"@ + c.site.domain@
        + "</link><description>"@ + xml_escaped(c.site.description@)
        + "</description><language>"@ + c.site.language@ + "</language><managingEditor>"@
        + xml_escaped(author_line(c)) + "</managingEditor><webMaster>"@ + xml_escaped(
        author_line(c),
    ) + "</webMaster><copyright>"@ + xml_escaped(copyright_line(c))
        + "</copyright><generator>Rust Blog Engine v1.0</generator><docs>https://www.rssboard.org/rss-specification</docs><ttl>1440</ttl>"@
}

pub open spec fn rss_tail() -> Seq<char> {
    "</channel></rss>"@
}

/// The newest posts a feed carries: the first twenty in collection order.
pub open spec fn newest(ps: Seq<PostModel>) -> Seq<PostModel> {
    if ps.len() <= 20 {
        ps
    } else {
        ps.take(20)
    }
}

/// The whole feed document.
pub open spec fn rss_feed(c: Config, ps: Seq<PostModel>) -> Seq<char> {
    rss_head(c) + items_xml(c, newest(ps)) + rss_tail()
}

/// The feed never carries more than the newest twenty posts, and an empty
/// collection yields the bare channel shell with zero items.
pub proof fn lemma_feed_bounded(c: Config, ps: Seq<PostModel>)
    ensures
        ps.len() > 20 ==> rss_feed(c, ps) == rss_feed(c, ps.take(20)),
        ps.len() == 0 ==> rss_feed(c, ps) == rss_head(c) + rss_tail(),
{
    if ps.len() > 20 {
        assert(ps.take(20).take(20) =~= ps.take(20));
    }
    if ps.len() == 0 {
        assert(rss_head(c) + Seq::<char>::empty() =~= rss_head(c));
    }
}

fn push_escaped(out: &mut Vec<char>, s: &str)
    ensures
        final(out)@ == old(out)@ + xml_escaped(s@),
{
    let v = str_to_chars(s);
    let e = xml_escape(&v);
    push_chars(out, &e);
}

/// Appends one item element to the document being built.
#[verifier::loop_isolation(false)]
#[verifier::rlimit(100)]
fn push_item(out: &mut Vec<char>, config: &Config, post: &BlogPost)
    ensures
        final(out)@ == old(out)@ + item_xml(*config, post@),
{
    push_lit(out, "<item>");
    push_lit(out, "<title>");
    push_escaped(out, post.title.as_str());
    push_lit(out, "</title><link>");
    push_lit(out, "https://");
    push_lit(out, config.site.domain.as_str());
    push_lit(out, "/blog/");
    push_lit(out, post.slug.as_str());
    push_lit(out, "</link><description>");
    push_escaped(out, post.description.as_str());
    push_lit(out, "</description><author>");
    let author_i = RssService::author_chars(config);
    let author_i_esc = xml_escape(&author_i);
    push_chars(out, &author_i_esc);
    push_lit(out, "</author>");
    let ghost before_cats = out@;
    let mut t: usize = 0;
    proof {
        assert(crate::post::str_views(post.tags@).take(0) =~= Seq::<Seq<char>>::empty());
        assert(out@ + Seq::<char>::empty() =~= out@);
    }
    while t < post.tags.len()
        invariant
            t <= post.tags@.len(),
            out@ == before_cats + categories_xml(crate::post::str_views(post.tags@).take(t as int)),
        decreases post.tags@.len() - t,
    {
        push_lit(out, "<category>");
        push_escaped(out, post.tags[t].as_str());
        push_lit(out, "</category>");
        proof {
            let tags = crate::post::str_views(post.tags@);
            assert(tags[t as int] == post.tags@[t as int]@);
            lemma_categories_take_step(tags, t as int);
            assert(out@ =~= before_cats + categories_xml(tags.take(t + 1)));
        }
        t = t + 1;
    }
    proof {
        let tags = crate::post::str_views(post.tags@);
        assert(tags.take(tags.len() as int) =~= tags);
    }
    push_lit(out, "<guid>");
    push_lit(out, "https://");
    push_lit(out, config.site.domain.as_str());
    push_lit(out, "/blog/");
    push_lit(out, post.slug.as_str());
    push_lit(out, "</guid><pubDate>");
    let iso = post.iso_date();
    push_lit(out, iso.as_str());
    push_lit(out, "</pubDate>");
    push_lit(out, "</item>");
    proof {
        assert(out@ =~= old(out)@ + item_xml(*config, post@));
    }
}

pub struct RssService;

impl RssService {
    /// Projects the collection into an RSS 2.0 document: channel metadata
    /// from the configuration, then one item per post for at most the
    /// first twenty posts in collection order.
    #[verifier::loop_isolation(false)]
    pub fn generate_feed(config: &Config, posts: &Vec<BlogPost>) -> (r: String)
        ensures
            r@ == rss_feed(*config, post_views(posts@)),
    {
        let mut out: Vec<char> = Vec::new();
        push_lit(
            &mut out,
            "<?xml version=\"1.0\" encoding=\"UTF-8\"?><rss version=\"2.0\"><channel><title>",
        );
        push_escaped(&mut out, config.site.title.as_str());
        push_lit(&mut out, "</title><link>https://");
        push_lit(&mut out, config.site.domain.as_str());
        push_lit(&mut out, "</link><description>");
        push_escaped(&mut out, config.site.description.as_str());
        push_lit(&mut out, "</description><language>");
        push_lit(&mut out, config.site.language.as_str());
        push_lit(&mut out, "</language><managingEditor>");
        let author = Self::author_chars(config);
        let author_esc = xml_escape(&author);
        push_chars(&mut out, &author_esc);
        push_lit(&mut out, "</managingEditor><webMaster>");
        push_chars(&mut out, &author_esc);
        push_lit(&mut out, "</webMaster><copyright>");
        let mut cp: Vec<char> = Vec::new();
        push_lit(&mut cp, "© 2025 ");
        push_lit(&mut cp, config.site.author.as_str());
        push_lit(&mut cp, ". All rights reserved.");
        proof {
            assert(cp@ =~= copyright_line(*config));
        }
        let cp_esc = xml_escape(&cp);
        push_chars(&mut out, &cp_esc);
        push_lit(
            &mut out,
            "</copyright><generator>Rust Blog Engine v1.0</generator><docs>https://www.rssboard.org/rss-specification</docs><ttl>1440</ttl>",
        );
        proof {
            assert(out@ =~= rss_head(*config));
        }
        let ghost ps = post_views(posts@);
        let count = if posts.len() <= 20 {
            posts.len()
        } else {
            20
        };
        proof {
            assert(newest(ps) =~= ps.take(count as int));
            assert(ps.take(0) =~= Seq::<PostModel>::empty());
            assert(out@ + Seq::<char>::empty() =~= out@);
        }
        let ghost head = out@;
        let mut i: usize = 0;
        while i < count
            invariant
                i <= count <= posts@.len(),
                ps == post_views(posts@),
                out@ == head + items_xml(*config, ps.take(i as int)),
            decreases count - i,
        {
            let ghost out0 = out@;
            push_item(&mut out, config, &posts[i]);
            proof {
                lemma_items_take_step(*config, ps, i as int);
                assert(out0 + item_xml(*config, posts@[i as int]@) =~= head + (items_xml(
                    *config,
                    ps.take(i as int),
                ) + item_xml(*config, ps[i as int])));
            }
            i = i + 1;
        }
        push_lit(&mut out, "</channel></rss>");
        proof {
            assert(out@ =~= rss_feed(*config, ps));
        }
        chars_to_string(&out)
    }

    fn author_chars(config: &Config) -> (r: Vec<char>)
        ensures
            r@ == author_line(*config),
    {
        let mut v: Vec<char> = Vec::new();
        push_lit(&mut v, config.site.author.as_str());
        push_lit(&mut v, " (juan@jrada.dev)");
        v
    }
}

/// Appending one more post's item extends the items text on the right.
proof fn lemma_items_take_step(c: Config, ps: Seq<PostModel>, i: int)
    requires
        0 <= i < ps.len(),
    ensures
        items_xml(c, ps.take(i + 1)) == items_xml(c, ps.take(i)) + item_xml(c, ps[i]),
    decreases i,
{
    if i == 0 {
        assert(ps.take(1)[0] == ps[0]);
        assert(ps.take(1).skip(1) =~= Seq::<PostModel>::empty());
        assert(ps.take(0).len() == 0);
        assert(items_xml(c, ps.take(0)) == Seq::<char>::empty());
        assert(items_xml(c, Seq::<PostModel>::empty()) == Seq::<char>::empty());
        assert(items_xml(c, ps.take(1)) =~= item_xml(c, ps[0]));
        assert(items_xml(c, ps.take(0)) + item_xml(c, ps[0]) =~= item_xml(c, ps[0]));
    } else {
        lemma_items_take_step(c, ps.skip(1), i - 1);
        assert(ps.take(i + 1)[0] == ps[0]);
        assert(ps.take(i + 1).skip(1) =~= ps.skip(1).take(i));
        assert(ps.take(i)[0] == ps[0]);
        assert(ps.take(i).skip(1) =~= ps.skip(1).take(i - 1));
        assert(ps.skip(1)[i - 1] == ps[i]);
        assert(items_xml(c, ps.take(i + 1)) == item_xml(c, ps[0]) + (items_xml(
            c,
            ps.skip(1).take(i - 1),
        ) + item_xml(c, ps[i])));
        assert(item_xml(c, ps[0]) + (items_xml(c, ps.skip(1).take(i - 1)) + item_xml(c, ps[i]))
            =~= (item_xml(c, ps[0]) + items_xml(c, ps.skip(1).take(i - 1))) + item_xml(c, ps[i]));
    }
}

/// Appending one more tag's category extends the categories text on the
/// right.
proof fn lemma_categories_take_step(tags: Seq<Seq<char>>, t: int)
    requires
        0 <= t < tags.len(),
    ensures
        categories_xml(tags.take(t + 1)) == categories_xml(tags.take(t)) + ("<category>"@
            + xml_escaped(tags[t]) + "</category>"@),
    decreases t,
{
    let cat0 = "<category>"@ + xml_escaped(tags[0]) + "</category>"@;
    if t == 0 {
        assert(tags.take(1)[0] == tags[0]);
        assert(tags.take(1).skip(1) =~= Seq::<Seq<char>>::empty());
        assert(tags.take(0).len() == 0);
        assert(categories_xml(tags.take(0)) == Seq::<char>::empty());
        assert(categories_xml(Seq::<Seq<char>>::empty()) == Seq::<char>::empty());
        assert(categories_xml(tags.take(1)) =~= cat0);
        assert(categories_xml(tags.take(0)) + ("<category>"@ + xml_escaped(tags[0])
            + "</category>"@) =~= cat0);
    } else {
        lemma_categories_take_step(tags.skip(1), t - 1);
        assert(tags.take(t + 1)[0] == tags[0]);
        assert(tags.take(t + 1).skip(1) =~= tags.skip(1).take(t));
        assert(tags.take(t)[0] == tags[0]);
        assert(tags.take(t).skip(1) =~= tags.skip(1).take(t - 1));
        assert(tags.skip(1)[t - 1] == tags[t]);
        assert(categories_xml(tags.take(t + 1)) == ("<category>"@ + xml_escaped(tags[0])
            + "</category>"@) + (categories_xml(tags.skip(1).take(t - 1)) + ("<category>"@
            + xml_escaped(tags[t]) + "</category>"@)));
        assert(("<category>"@ + xml_escaped(tags[0]) + "</category>"@) + (categories_xml(
            tags.skip(1).take(t - 1),
        ) + ("<category>"@ + xml_escaped(tags[t]) + "</category>"@)) =~= (("<category>"@
            + xml_escaped(tags[0]) + "</category>"@) + categories_xml(tags.skip(1).take(t - 1))) + (
        "<category>"@ + xml_escaped(tags[t]) + "</category>"@));
    }
}

use crate::chars::dec_digits;
use crate::chars::padded2;
use crate::chars::padded4;
use crate::date::iso_date_str;
use crate::date::DateStamp;
use crate::text::count_occ;
use crate::text::lemma_count_occ_none;
use crate::text::lemma_count_occ_once;
use crate::text::lemma_count_occ_split;
use crate::text::match_at;

/// The item tag whose occurrences the feed law counts.
pub open spec fn item_tag() -> Seq<char> {
    "<item>"@
}

/// No position of `s` begins an item tag.
pub open spec fn item_safe(s: Seq<char>) -> bool {
    forall|i: int| 0 <= i && i + 1 < s.len() ==> !(#[trigger] s[i] == '<' && s[i + 1] == 'i')
}

/// Safe to stand between item tags: no item tag starts inside, and no
/// trailing `<` that could start one at a join.
pub open spec fn tame(s: Seq<char>) -> bool {
    item_safe(s) && (s.len() == 0 || s.last() != '<')
}

/// Holds no `<` at all, as escaped text does.
pub open spec fn no_lt(s: Seq<char>) -> bool {
    forall|k: int| 0 <= k < s.len() ==> s[k] != '<'
}

proof fn lemma_no_lt_tame(s: Seq<char>)
    requires
        no_lt(s),
    ensures
        tame(s),
{
    assert forall|i: int| 0 <= i && i + 1 < s.len() implies !(#[trigger] s[i] == '<' && s[i + 1]
        == 'i') by {
        assert(s[i] != '<');
    }
}

proof fn lemma_no_lt_concat(a: Seq<char>, b: Seq<char>)
    requires
        no_lt(a),
        no_lt(b),
    ensures
        no_lt(a + b),
{
    assert forall|k: int| 0 <= k < (a + b).len() implies (a + b)[k] != '<' by {
        if k < a.len() {
            assert((a + b)[k] == a[k]);
        } else {
            assert((a + b)[k] == b[k - a.len()]);
        }
    }
}

proof fn lemma_tame_concat(a: Seq<char>, b: Seq<char>)
    requires
        tame(a),
        tame(b),
    ensures
        tame(a + b),
{
    let s = a + b;
    assert forall|i: int| 0 <= i && i + 1 < s.len() implies !(#[trigger] s[i] == '<' && s[i + 1]
        == 'i') by {
        if i + 1 < a.len() {
            assert(s[i] == a[i]);
            assert(s[i + 1] == a[i + 1]);
        } else if i >= a.len() {
            assert(s[i] == b[i - a.len()]);
            assert(s[i + 1] == b[i + 1 - a.len()]);
        } else {
            assert(i == a.len() - 1);
            assert(s[i] == a[i]);
            assert(a[i] == a.last());
        }
    }
    if b.len() > 0 {
        assert(s.last() == b.last());
    } else {
        assert(s =~= a);
    }
}

proof fn lemma_replaced_intro_no_lt(s: Seq<char>, q: Seq<char>)
    requires
        no_lt(q),
    ensures
        no_lt(replaced(s, "<"@, q)),
    decreases s.len(),
{
    reveal_strlit("<");
    if s.len() == 0 {
    } else if match_at(s, 0, "<"@) {
        lemma_replaced_intro_no_lt(s.skip(1), q);
        lemma_no_lt_concat(q, replaced(s.skip(1), "<"@, q));
    } else {
        assert(s[0] != '<') by {
            if s[0] == '<' {
                assert(s.subrange(0, 1) =~= "<"@);
            }
        }
        lemma_replaced_intro_no_lt(s.skip(1), q);
        assert(no_lt(seq![s[0]]));
        lemma_no_lt_concat(seq![s[0]], replaced(s.skip(1), "<"@, q));
    }
}

proof fn lemma_replaced_keep_no_lt(s: Seq<char>, p: Seq<char>, q: Seq<char>)
    requires
        no_lt(s),
        no_lt(q),
    ensures
        no_lt(replaced(s, p, q)),
    decreases s.len(),
{
    if p.len() == 0 || s.len() == 0 {
    } else if match_at(s, 0, p) {
        assert(no_lt(s.skip(p.len() as int))) by {
            assert(forall|k: int|
                0 <= k < s.skip(p.len() as int).len() ==> s.skip(p.len() as int)[k] == s[k
                    + p.len()]);
        }
        lemma_replaced_keep_no_lt(s.skip(p.len() as int), p, q);
        lemma_no_lt_concat(q, replaced(s.skip(p.len() as int), p, q));
    } else {
        assert(no_lt(s.skip(1))) by {
            assert(forall|k: int| 0 <= k < s.skip(1).len() ==> s.skip(1)[k] == s[k + 1]);
        }
        lemma_replaced_keep_no_lt(s.skip(1), p, q);
        assert(no_lt(seq![s[0]]));
        lemma_no_lt_concat(seq![s[0]], replaced(s.skip(1), p, q));
    }
}

/// Escaped text never contains `<`.
proof fn lemma_escaped_no_lt(s: Seq<char>)
    ensures
        no_lt(xml_escaped(s)),
{
    reveal_strlit("&lt;");
    reveal_strlit("&gt;");
    reveal_strlit("&quot;");
    reveal_strlit("&apos;");
    let s1 = replaced(s, "&"@, "&amp;"@);
    assert(no_lt("&lt;"@));
    lemma_replaced_intro_no_lt(s1, "&lt;"@);
    let s2 = replaced(s1, "<"@, "&lt;"@);
    assert(no_lt("&gt;"@));
    lemma_replaced_keep_no_lt(s2, ">"@, "&gt;"@);
    let s3 = replaced(s2, ">"@, "&gt;"@);
    assert(no_lt("&quot;"@));
    lemma_replaced_keep_no_lt(s3, "\""@, "&quot;"@);
    let s4 = replaced(s3, "\""@, "&quot;"@);
    assert(no_lt("&apos;"@));
    lemma_replaced_keep_no_lt(s4, "'"@, "&apos;"@);
}

proof fn lemma_dec_digits_no_lt(n: nat)
    ensures
        no_lt(dec_digits(n)),
    decreases n,
{
    if n < 10 {
        assert(dec_digits(n) == seq![crate::chars::digit_char(n)]);
    } else {
        lemma_dec_digits_no_lt(n / 10);
        let d = dec_digits(n / 10);
        assert forall|k: int|
            0 <= k < d.push(crate::chars::digit_char(n % 10)).len() implies #[trigger] d.push(
            crate::chars::digit_char(n % 10),
        )[k] != '<' by {
            if k < d.len() {
                assert(d.push(crate::chars::digit_char(n % 10))[k] == d[k]);
            }
        }
    }
}

proof fn lemma_padded_no_lt(n: nat)
    ensures
        no_lt(padded2(n)),
        no_lt(padded4(n)),
{
    lemma_dec_digits_no_lt(n);
    assert(no_lt(seq!['0']));
    assert(no_lt(seq!['0', '0']));
    assert(no_lt(seq!['0', '0', '0']));
    lemma_no_lt_concat(seq!['0'], dec_digits(n));
    lemma_no_lt_concat(seq!['0', '0'], dec_digits(n));
    lemma_no_lt_concat(seq!['0', '0', '0'], dec_digits(n));
}

proof fn lemma_iso_no_lt(d: DateStamp)
    ensures
        no_lt(iso_date_str(d)),
{
    reveal_strlit("-");
    reveal_strlit("T00:00:00+00:00");
    lemma_padded_no_lt(d.year as nat);
    lemma_padded_no_lt(d.month as nat);
    lemma_padded_no_lt(d.day as nat);
    assert(no_lt("-"@));
    assert(no_lt("T00:00:00+00:00"@));
    lemma_no_lt_concat(padded4(d.year as nat), "-"@);
    lemma_no_lt_concat(padded4(d.year as nat) + "-"@, padded2(d.month as nat));
    lemma_no_lt_concat(padded4(d.year as nat) + "-"@ + padded2(d.month as nat), "-"@);
    lemma_no_lt_concat(
        padded4(d.year as nat) + "-"@ + padded2(d.month as nat) + "-"@,
        padded2(d.day as nat),
    );
    lemma_no_lt_concat(
        padded4(d.year as nat) + "-"@ + padded2(d.month as nat) + "-"@ + padded2(d.day as nat),
        "T00:00:00+00:00"@,
    );
}

proof fn lemma_permalink_no_lt(c: Config, slug: Seq<char>)
    requires
        no_lt(c.site.domain@),
        no_lt(slug),
    ensures
        no_lt(permalink(c, slug)),
{
    reveal_strlit("https://");
    reveal_strlit("/blog/");
    assert(no_lt("https://"@));
    assert(no_lt("/blog/"@));
    lemma_no_lt_concat("https://"@, c.site.domain@);
    lemma_no_lt_concat("https://"@ + c.site.domain@, "/blog/"@);
    lemma_no_lt_concat("https://"@ + c.site.domain@ + "/blog/"@, slug);
}

proof fn lemma_categories_tame(tags: Seq<Seq<char>>)
    ensures
        tame(categories_xml(tags)),
    decreases tags.len(),
{
    reveal_strlit("<category>");
    reveal_strlit("</category>");
    if tags.len() == 0 {
    } else {
        lemma_categories_tame(tags.skip(1));
        assert(tame("<category>"@));
        assert(tame("</category>"@));
        lemma_escaped_no_lt(tags[0]);
        lemma_no_lt_tame(xml_escaped(tags[0]));
        lemma_tame_concat("<category>"@, xml_escaped(tags[0]));
        lemma_tame_concat("<category>"@ + xml_escaped(tags[0]), "</category>"@);
        lemma_tame_concat(
            "<category>"@ + xml_escaped(tags[0]) + "</category>"@,
            categories_xml(tags.skip(1)),
        );
    }
}

/// A post whose raw fields cannot fake markup: its identifier, and its
/// raw date when no date parsed, carry no `<`.
pub open spec fn post_clean(p: PostModel) -> bool {
    no_lt(p.slug) && (p.date_parsed is None ==> no_lt(p.date))
}

proof fn lemma_item_body_tame(c: Config, p: PostModel)
    requires
        no_lt(c.site.domain@),
        post_clean(p),
    ensures
        tame(item_body(c, p)),
{
    reveal_strlit("<title>");
    reveal_strlit("</title><link>");
    reveal_strlit("</link><description>");
    reveal_strlit("</description><author>");
    reveal_strlit("</author>");
    reveal_strlit("<guid>");
    reveal_strlit("</guid><pubDate>");
    reveal_strlit("</pubDate>");
    lemma_escaped_no_lt(p.title);
    lemma_no_lt_tame(xml_escaped(p.title));
    lemma_escaped_no_lt(p.description);
    lemma_no_lt_tame(xml_escaped(p.description));
    lemma_escaped_no_lt(author_line(c));
    lemma_no_lt_tame(xml_escaped(author_line(c)));
    lemma_permalink_no_lt(c, p.slug);
    lemma_no_lt_tame(permalink(c, p.slug));
    lemma_categories_tame(p.tags);
    assert(tame(iso_date_view(p))) by {
        match p.date_parsed {
            Some(d) => {
                lemma_iso_no_lt(d);
                lemma_no_lt_tame(iso_date_str(d));
            },
            None => {
                lemma_no_lt_tame(p.date);
            },
        }
    }
    assert(tame("<title>"@));
    assert(tame("</title><link>"@));
    assert(tame("</link><description>"@));
    assert(tame("</description><author>"@));
    assert(tame("</author>"@));
    assert(tame("<guid>"@));
    assert(tame("</guid><pubDate>"@));
    assert(tame("</pubDate>"@));
    let t1 = "<title>"@ + xml_escaped(p.title);
    lemma_tame_concat("<title>"@, xml_escaped(p.title));
    let t2 = t1 + "</title><link>"@;
    lemma_tame_concat(t1, "</title><link>"@);
    let t3 = t2 + permalink(c, p.slug);
    lemma_tame_concat(t2, permalink(c, p.slug));
    let t4 = t3 + "</link><description>"@;
    lemma_tame_concat(t3, "</link><description>"@);
    let t5 = t4 + xml_escaped(p.description);
    lemma_tame_concat(t4, xml_escaped(p.description));
    let t6 = t5 + "</description><author>"@;
    lemma_tame_concat(t5, "</description><author>"@);
    let t7 = t6 + xml_escaped(author_line(c));
    lemma_tame_concat(t6, xml_escaped(author_line(c)));
    let t8 = t7 + "</author>"@;
    lemma_tame_concat(t7, "</author>"@);
    let t9 = t8 + categories_xml(p.tags);
    lemma_tame_concat(t8, categories_xml(p.tags));
    let t10 = t9 + "<guid>"@;
    lemma_tame_concat(t9, "<guid>"@);
    let t11 = t10 + permalink(c, p.slug);
    lemma_tame_concat(t10, permalink(c, p.slug));
    let t12 = t11 + "</guid><pubDate>"@;
    lemma_tame_concat(t11, "</guid><pubDate>"@);
    let t13 = t12 + iso_date_view(p);
    lemma_tame_concat(t12, iso_date_view(p));
    lemma_tame_concat(t13, "</pubDate>"@);
    assert(item_body(c, p) == t13 + "</pubDate>"@);
}

/// One item element: it starts with the item tag, no other item tag
/// starts anywhere inside, and it ends with `>`.
pub open spec fn lone_item(s: Seq<char>) -> bool {
    &&& s.len() >= 6
    &&& match_at(s, 0, item_tag())
    &&& item_safe(s.skip(1))
    &&& s.last() != '<'
}

proof fn lemma_item_lone(c: Config, p: PostModel)
    requires
        no_lt(c.site.domain@),
        post_clean(p),
    ensures
        lone_item(item_xml(c, p)),
        count_occ(item_xml(c, p), item_tag()) == 1,
{
    reveal_strlit("<item>");
    reveal_strlit("</item>");
    lemma_item_body_tame(c, p);
    let body = item_body(c, p);
    let s = item_xml(c, p);
    assert(s == "<item>"@ + body + "</item>"@);
    assert(s.len() >= 6 + 7);
    assert(s.subrange(0, 6) =~= "<item>"@);
    assert(match_at(s, 0, item_tag()));
    assert(tame("</item>"@));
    let mid = "<item>"@.skip(1);
    assert(no_lt(mid)) by {
        assert(forall|k: int| 0 <= k < mid.len() ==> mid[k] == "<item>"@[k + 1]);
    }
    lemma_no_lt_tame(mid);
    lemma_tame_concat(body, "</item>"@);
    lemma_tame_concat(mid, body + "</item>"@);
    assert(s.skip(1) =~= mid + (body + "</item>"@));
    assert(item_safe(s.skip(1)));
    assert(s.last() == "</item>"@.last());
    assert(s.last() == '>');
    assert forall|i: int| i != 0 implies !match_at(s, i, item_tag()) by {
        if match_at(s, i, item_tag()) {
            assert(i >= 1);
            assert(s.subrange(i, i + 6)[0] == s[i]);
            assert(s.subrange(i, i + 6)[1] == s[i + 1]);
            assert(s[i] == '<' && s[i + 1] == 'i');
            assert(s.skip(1)[i - 1] == s[i]);
            assert(s.skip(1)[i] == s[i + 1]);
            assert((i - 1) + 1 < s.skip(1).len());
            assert(false);
        }
    }
    lemma_count_occ_once(s, item_tag(), 0);
}

/// A tame left side lets counts split at the join: no item tag straddles
/// it.
proof fn lemma_tame_no_straddle(a: Seq<char>, b: Seq<char>)
    requires
        tame(a),
    ensures
        forall|i: int| i < a.len() && a.len() < i + item_tag().len() ==> !match_at(a + b, i, item_tag()),
{
    reveal_strlit("<item>");
    let s = a + b;
    assert forall|i: int|
        i < a.len() && a.len() < i + item_tag().len() implies !match_at(s, i, item_tag()) by {
        if match_at(s, i, item_tag()) {
            assert(s.subrange(i, i + 6)[0] == s[i]);
            assert(s.subrange(i, i + 6)[1] == s[i + 1]);
            assert(s[i] == '<' && s[i + 1] == 'i');
            assert(s[i] == a[i]);
            if i + 1 < a.len() {
                assert(s[i + 1] == a[i + 1]);
                assert(false);
            } else {
                assert(i == a.len() - 1);
                assert(a[i] == a.last());
                assert(false);
            }
        }
    }
}

/// A lone item also lets counts split at its right edge.
proof fn lemma_lone_no_straddle(a: Seq<char>, b: Seq<char>)
    requires
        lone_item(a),
    ensures
        forall|i: int| i < a.len() && a.len() < i + item_tag().len() ==> !match_at(a + b, i, item_tag()),
{
    reveal_strlit("<item>");
    let s = a + b;
    assert forall|i: int|
        i < a.len() && a.len() < i + item_tag().len() implies !match_at(s, i, item_tag()) by {
        if match_at(s, i, item_tag()) {
            assert(s.subrange(i, i + 6)[0] == s[i]);
            assert(s.subrange(i, i + 6)[1] == s[i + 1]);
            assert(s[i] == '<' && s[i + 1] == 'i');
            assert(i > a.len() - 6);
            assert(i >= 1);
            assert(s[i] == a[i]);
            if i + 1 < a.len() {
                assert(s[i + 1] == a[i + 1]);
                assert(a.skip(1)[i - 1] == a[i]);
                assert(a.skip(1)[i] == a[i + 1]);
                assert((i - 1) + 1 < a.skip(1).len());
                assert(false);
            } else {
                assert(i == a.len() - 1);
                assert(a[i] == a.last());
                assert(false);
            }
        }
    }
}

/// Text in which no item tag starts holds no occurrence of it.
proof fn lemma_safe_no_match(s: Seq<char>)
    requires
        item_safe(s),
    ensures
        forall|i: int| !match_at(s, i, item_tag()),
{
    reveal_strlit("<item>");
    assert forall|i: int| !match_at(s, i, item_tag()) by {
        if match_at(s, i, item_tag()) {
            assert(s.subrange(i, i + 6)[0] == s[i]);
            assert(s.subrange(i, i + 6)[1] == s[i + 1]);
            assert(s[i] == '<' && s[i + 1] == 'i');
            assert(i + 1 < s.len());
            assert(false);
        }
    }
}

proof fn lemma_head_tame(c: Config)
    requires
        no_lt(c.site.domain@),
        no_lt(c.site.language@),
    ensures
        tame(rss_head(c)),
{
    reveal_strlit("<?xml version=\"1.0\" encoding=\"UTF-8\"?><rss version=\"2.0\"><channel><title>");
    reveal_strlit("</title><link>https://");
    reveal_strlit("</link><description>");
    reveal_strlit("</description><language>");
    reveal_strlit("</language><managingEditor>");
    reveal_strlit("</managingEditor><webMaster>");
    reveal_strlit("</webMaster><copyright>");
    reveal_strlit("</copyright><generator>Rust Blog Engine v1.0</generator><docs>https://www.rssboard.org/rss-specification</docs><ttl>1440</ttl>");
    lemma_escaped_no_lt(c.site.title@);
    lemma_no_lt_tame(xml_escaped(c.site.title@));
    lemma_escaped_no_lt(c.site.description@);
    lemma_no_lt_tame(xml_escaped(c.site.description@));
    lemma_escaped_no_lt(author_line(c));
    lemma_no_lt_tame(xml_escaped(author_line(c)));
    lemma_escaped_no_lt(copyright_line(c));
    lemma_no_lt_tame(xml_escaped(copyright_line(c)));
    lemma_no_lt_tame(c.site.domain@);
    lemma_no_lt_tame(c.site.language@);
    let l1 = "<?xml version=\"1.0\" encoding=\"UTF-8\"?><rss version=\"2.0\"><channel><title>"@;
    assert(tame(l1));
    assert(tame("</title><link>https://"@));
    assert(tame("</link><description>"@));
    assert(tame("</description><language>"@));
    assert(tame("</language><managingEditor>"@));
    assert(tame("</managingEditor><webMaster>"@));
    assert(tame("</webMaster><copyright>"@));
    assert(tame("</copyright><generator>Rust Blog Engine v1.0</generator><docs>https://www.rssboard.org/rss-specification</docs><ttl>1440</ttl>"@));
    let t1 = l1 + xml_escaped(c.site.title@);
    lemma_tame_concat(l1, xml_escaped(c.site.title@));
    let t2 = t1 + "</title><link>https://"@;
    lemma_tame_concat(t1, "</title><link>https://"@);
    let t3 = t2 + c.site.domain@;
    lemma_tame_concat(t2, c.site.domain@);
    let t4 = t3 + "</link><description>"@;
    lemma_tame_concat(t3, "</link><description>"@);
    let t5 = t4 + xml_escaped(c.site.description@);
    lemma_tame_concat(t4, xml_escaped(c.site.description@));
    let t6 = t5 + "</description><language>"@;
    lemma_tame_concat(t5, "</description><language>"@);
    let t7 = t6 + c.site.language@;
    lemma_tame_concat(t6, c.site.language@);
    let t8 = t7 + "</language><managingEditor>"@;
    lemma_tame_concat(t7, "</language><managingEditor>"@);
    let t9 = t8 + xml_escaped(author_line(c));
    lemma_tame_concat(t8, xml_escaped(author_line(c)));
    let t10 = t9 + "</managingEditor><webMaster>"@;
    lemma_tame_concat(t9, "</managingEditor><webMaster>"@);
    let t11 = t10 + xml_escaped(author_line(c));
    lemma_tame_concat(t10, xml_escaped(author_line(c)));
    let t12 = t11 + "</webMaster><copyright>"@;
    lemma_tame_concat(t11, "</webMaster><copyright>"@);
    let t13 = t12 + xml_escaped(copyright_line(c));
    lemma_tame_concat(t12, xml_escaped(copyright_line(c)));
    lemma_tame_concat(t13, "</copyright><generator>Rust Blog Engine v1.0</generator><docs>https://www.rssboard.org/rss-specification</docs><ttl>1440</ttl>"@);
    assert(rss_head(c) == t13 + "</copyright><generator>Rust Blog Engine v1.0</generator><docs>https://www.rssboard.org/rss-specification</docs><ttl>1440</ttl>"@);
}

proof fn lemma_items_count(c: Config, ps: Seq<PostModel>, rest: Seq<char>)
    requires
        no_lt(c.site.domain@),
        forall|k: int| 0 <= k < ps.len() ==> post_clean(#[trigger] ps[k]),
        tame(rest),
    ensures
        count_occ(items_xml(c, ps) + rest, item_tag()) == ps.len() + count_occ(rest, item_tag()),
    decreases ps.len(),
{
    reveal_strlit("<item>");
    if ps.len() == 0 {
        assert(items_xml(c, ps) + rest =~= rest);
    } else {
        let item = item_xml(c, ps[0]);
        lemma_item_lone(c, ps[0]);
        let tail2 = items_xml(c, ps.skip(1)) + rest;
        assert(items_xml(c, ps) + rest =~= item + tail2);
        lemma_lone_no_straddle(item, tail2);
        lemma_count_occ_split(item, tail2, item_tag());
        assert(forall|k: int| 0 <= k < ps.skip(1).len() ==> post_clean(#[trigger] ps.skip(1)[k]));
        lemma_items_count(c, ps.skip(1), rest);
    }
}

/// The feed law: the document holds exactly one `<item>` tag per carried
/// post, so never more than twenty, and none at all for an empty
/// collection.
pub proof fn lemma_feed_item_count(c: Config, ps: Seq<PostModel>)
    requires
        no_lt(c.site.domain@),
        no_lt(c.site.language@),
        forall|k: int| 0 <= k < ps.len() ==> post_clean(#[trigger] ps[k]),
    ensures
        count_occ(rss_feed(c, ps), item_tag()) == if ps.len() <= 20 {
            ps.len() as int
        } else {
            20int
        },
{
    reveal_strlit("<item>");
    reveal_strlit("</channel></rss>");
    let h = rss_head(c);
    let items = items_xml(c, newest(ps));
    let t = rss_tail();
    lemma_head_tame(c);
    assert(tame(t));
    assert(rss_feed(c, ps) =~= h + (items + t));
    lemma_tame_no_straddle(h, items + t);
    lemma_count_occ_split(h, items + t, item_tag());
    lemma_safe_no_match(h);
    lemma_count_occ_none(h, item_tag());
    assert(forall|k: int| 0 <= k < newest(ps).len() ==> post_clean(#[trigger] newest(ps)[k]));
    lemma_items_count(c, newest(ps), t);
    lemma_safe_no_match(t);
    lemma_count_occ_none(t, item_tag());
}

} // verus!

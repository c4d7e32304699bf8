//! Placeholder templating: single-pass literal substitution of
//! `<!-- NAME -->` markers, a site-wide second pass, and the HTML
//! fragments built for post lists and tags.
use vstd::prelude::*;

verus! {

use crate::chars::chars_to_string;
use crate::chars::dec_digits;
use crate::chars::push_chars;
use crate::chars::push_lit;
use crate::chars::push_u64;
use crate::chars::str_to_chars;
use crate::config::Config;
use crate::post::formatted_date_view;
use crate::post::iso_date_view;
use crate::post::post_views;
use crate::post::str_views;
use crate::post::BlogPost;
use crate::post::PostModel;
use crate::text::lemma_match_at_skip;
use crate::text::match_at;
use crate::text::starts_with_at;
use crate::words::joined;
use crate::words::join_chars;

/// The placeholder marker for a name.
pub open spec fn marker_of(name: Seq<char>) -> Seq<char> {
    "<!-- "@ + name + " -->"@
}

/// The first context key whose marker begins the template, searching from
/// position `k`; `-1` when none matches.
pub open spec fn first_key_from(
    tpl: Seq<char>,
    ctx: Seq<(Seq<char>, Seq<char>)>,
    k: int,
) -> int
    decreases ctx.len() - k,
{
    if k < 0 || k >= ctx.len() {
        -1
    } else if match_at(tpl, 0, marker_of(ctx[k].0)) {
        k
    } else {
        first_key_from(tpl, ctx, k + 1)
    }
}

proof fn lemma_first_key_from(tpl: Seq<char>, ctx: Seq<(Seq<char>, Seq<char>)>, k: int)
    requires
        0 <= k <= ctx.len(),
    ensures
        first_key_from(tpl, ctx, k) >= 0 ==> k <= first_key_from(tpl, ctx, k) < ctx.len()
            && match_at(tpl, 0, marker_of(ctx[first_key_from(tpl, ctx, k)].0)) && (forall|j: int|
            k <= j < first_key_from(tpl, ctx, k) ==> !match_at(tpl, 0, marker_of(ctx[j].0))),
        first_key_from(tpl, ctx, k) < 0 ==> forall|j: int|
            k <= j < ctx.len() ==> !match_at(tpl, 0, marker_of(ctx[j].0)),
    decreases ctx.len() - k,
{
    if k < ctx.len() && !match_at(tpl, 0, marker_of(ctx[k].0)) {
        lemma_first_key_from(tpl, ctx, k + 1);
    }
}

/// Single-pass, non-recursive substitution: at each position the first
/// matching key's value replaces its marker; values are never rescanned,
/// and unmatched markers stay verbatim.
pub open spec fn render(tpl: Seq<char>, ctx: Seq<(Seq<char>, Seq<char>)>) -> Seq<char>
    decreases tpl.len(),
    via render_dec
{
    if tpl.len() == 0 {
        tpl
    } else {
        let k = first_key_from(tpl, ctx, 0);
        if k >= 0 {
            ctx[k].1 + render(tpl.skip(marker_of(ctx[k].0).len() as int), ctx)
        } else {
            seq![tpl[0]] + render(tpl.skip(1), ctx)
        }
    }
}

#[via_fn]
proof fn render_dec(tpl: Seq<char>, ctx: Seq<(Seq<char>, Seq<char>)>) {
    reveal_strlit("<!-- ");
    reveal_strlit(" -->");
    if tpl.len() > 0 {
        lemma_first_key_from(tpl, ctx, 0);
    }
}

/// A template without any occurrence of a context marker renders to
/// itself: an unmatched marker is left verbatim.
pub proof fn lemma_render_verbatim(tpl: Seq<char>, ctx: Seq<(Seq<char>, Seq<char>)>)
    requires
        forall|k: int, i: int|
            0 <= k < ctx.len() ==> !match_at(tpl, i, marker_of(ctx[k].0)),
    ensures
        render(tpl, ctx) == tpl,
    decreases tpl.len(),
{
    if tpl.len() > 0 {
        lemma_first_key_from(tpl, ctx, 0);
        assert(first_key_from(tpl, ctx, 0) < 0) by {
            if first_key_from(tpl, ctx, 0) >= 0 {
                let k = first_key_from(tpl, ctx, 0);
                assert(!match_at(tpl, 0, marker_of(ctx[k].0)));
            }
        }
        assert forall|k: int, i: int|
            0 <= k < ctx.len() implies !match_at(tpl.skip(1), i, marker_of(ctx[k].0)) by {
            if 0 <= i {
                lemma_match_at_skip(tpl, 1, i, marker_of(ctx[k].0));
                assert(!match_at(tpl, 1 + i, marker_of(ctx[k].0)));
            }
        }
        lemma_render_verbatim(tpl.skip(1), ctx);
        assert(seq![tpl[0]] + tpl.skip(1) =~= tpl);
    }
}

/// Builds the `<!-- name -->` marker.
fn build_marker(name: &str) -> (r: Vec<char>)
    ensures
        r@ == marker_of(name@),
{
    let mut v: Vec<char> = Vec::new();
    push_lit(&mut v, "<!-- ");
    push_lit(&mut v, name);
    push_lit(&mut v, " -->");
    proof {
        assert(v@ =~= marker_of(name@));
    }
    v
}

/// One substitution pass over the template. `markers[k]` must be the
/// marker of `ctx[k].0` and `vals[k]` the text of `ctx[k].1`.
#[verifier::loop_isolation(false)]
fn render_pass(
    tpl: &Vec<char>,
    markers: &Vec<Vec<char>>,
    vals: &Vec<Vec<char>>,
    Ghost(ctx): Ghost<Seq<(Seq<char>, Seq<char>)>>,
) -> (r: Vec<char>)
    requires
        markers@.len() == ctx.len(),
        vals@.len() == ctx.len(),
        forall|k: int| 0 <= k < ctx.len() ==> markers@[k]@ == marker_of(ctx[k].0),
        forall|k: int| 0 <= k < ctx.len() ==> vals@[k]@ == ctx[k].1,
    ensures
        r@ == render(tpl@, ctx),
{
    let mut out: Vec<char> = Vec::new();
    let mut i: usize = 0;
    proof {
        reveal_strlit("<!-- ");
        reveal_strlit(" -->");
        assert(tpl@.skip(0) =~= tpl@);
        assert(Seq::<char>::empty() + render(tpl@, ctx) =~= render(tpl@, ctx));
    }
    while i < tpl.len()
        invariant
            i <= tpl.len(),
            render(tpl@, ctx) == out@ + render(tpl@.skip(i as int), ctx),
        decreases tpl.len() - i,
    {
        let ghost rest = tpl@.skip(i as int);
        let ghost out0 = out@;
        proof {
            assert(rest[0] == tpl@[i as int]);
            assert(rest.skip(1) =~= tpl@.skip(i + 1));
        }
        let mut k: usize = 0;
        let mut found: Option<usize> = None;
        while k < markers.len()
            invariant
                k <= markers@.len(),
                i <= tpl.len(),
                found is None,
                forall|j: int| 0 <= j < k ==> !match_at(rest, 0, marker_of(ctx[j].0)),
            decreases markers.len() - k,
        {
            if starts_with_at(tpl, i, &markers[k]) {
                proof {
                    lemma_match_at_skip(tpl@, i as int, 0, markers@[k as int]@);
                }
                found = Some(k);
                break ;
            }
            proof {
                lemma_match_at_skip(tpl@, i as int, 0, markers@[k as int]@);
            }
            k = k + 1;
        }
        match found {
            Some(k) => {
                proof {
                    lemma_first_key_from(rest, ctx, 0);
                    assert(match_at(rest, 0, marker_of(ctx[k as int].0)));
                    assert(first_key_from(rest, ctx, 0) == k) by {
                        let f = first_key_from(rest, ctx, 0);
                        assert(f >= 0);
                        if f < k {
                            assert(!match_at(rest, 0, marker_of(ctx[f as int].0)));
                        }
                    }
                    assert(render(rest, ctx) == ctx[k as int].1 + render(
                        rest.skip(marker_of(ctx[k as int].0).len() as int),
                        ctx,
                    ));
                }
                push_chars(&mut out, &vals[k]);
                let mlen = markers[k].len();
                proof {
                    assert(i + mlen <= tpl@.len());
                    assert(rest.skip(mlen as int) =~= tpl@.skip(i + mlen));
                    assert(out0 + (ctx[k as int].1 + render(tpl@.skip(i + mlen), ctx)) =~= (out0
                        + ctx[k as int].1) + render(tpl@.skip(i + mlen), ctx));
                }
                i = i + mlen;
            },
            None => {
                proof {
                    lemma_first_key_from(rest, ctx, 0);
                    assert(first_key_from(rest, ctx, 0) < 0) by {
                        let f = first_key_from(rest, ctx, 0);
                        if f >= 0 {
                            assert(!match_at(rest, 0, marker_of(ctx[f].0)));
                        }
                    }
                    assert(render(rest, ctx) == seq![rest[0]] + render(rest.skip(1), ctx));
                }
                out.push(tpl[i]);
                proof {
                    assert(out0 + (seq![tpl@[i as int]] + render(tpl@.skip(i + 1), ctx))
                        =~= out0.push(tpl@[i as int]) + render(tpl@.skip(i + 1), ctx));
                }
                i = i + 1;
            },
        }
    }
    proof {
        assert(tpl@.skip(tpl@.len() as int) =~= Seq::<char>::empty());
        assert(out@ =~= render(tpl@, ctx));
    }
    out
}

/// A per-render substitution context: placeholder names and their texts,
/// in insertion order; the first matching name wins.
pub struct TemplateContext {
    pub entries: Vec<(String, String)>,
}

/// The name/text pairs of a context.
pub open spec fn ctx_views(es: Seq<(String, String)>) -> Seq<(Seq<char>, Seq<char>)> {
    es.map_values(|e: (String, String)| (e.0@, e.1@))
}

impl TemplateContext {
    pub fn new() -> (c: TemplateContext)
        ensures
            ctx_views(c.entries@) =~= Seq::<(Seq<char>, Seq<char>)>::empty(),
    {
        TemplateContext { entries: Vec::new() }
    }

    pub fn insert(&mut self, name: String, text: String)
        ensures
            ctx_views(final(self).entries@) =~= ctx_views(old(self).entries@).push(
                (name@, text@),
            ),
    {
        let ghost n = name@;
        let ghost t = text@;
        self.entries.push((name, text));
        proof {
            assert(ctx_views(self.entries@) =~= ctx_views(old(self).entries@).push((n, t)));
        }
    }
}

/// The analytics block substituted for the `ANALYTICS` marker when an
/// analytics identifier is configured.
pub open spec fn analytics_script(id: Seq<char>) -> Seq<char> {
    "<script async src=\"https://www.googletagmanager.com/gtag/js?id="@ + id
        + "\"></script>\n<script>\n  window.dataLayer = window.dataLayer || [];\n  function gtag(){dataLayer.push(arguments);}\n  gtag('js', new Date());\n  gtag('config', '"@
        + id + "');\n</script>"@
}

/// What the `ANALYTICS` marker becomes: the script block, or nothing.
pub open spec fn analytics_text(c: Config) -> Seq<char> {
    match c.analytics.google_analytics_id {
        Some(id) => analytics_script(id@),
        None => Seq::empty(),
    }
}

/// The fixed site-wide substitution context.
pub open spec fn site_ctx(c: Config) -> Seq<(Seq<char>, Seq<char>)> {
    seq![
        ("SITE_TITLE"@, c.site.title@),
        ("SITE_DESCRIPTION"@, c.site.description@),
        ("SITE_AUTHOR"@, c.site.author@),
        ("SITE_DOMAIN"@, c.site.domain@),
        ("ANALYTICS"@, analytics_text(c)),
    ]
}

/// What rendering a template in a context yields: the caller's context
/// pass, then the site-wide pass.
pub open spec fn rendered_template(
    c: Config,
    tpl: Seq<char>,
    ctx: Seq<(Seq<char>, Seq<char>)>,
) -> Seq<char> {
    render(render(tpl, ctx), site_ctx(c))
}

/// One HTML `span` per tag, concatenated.
pub open spec fn tag_spans(tags: Seq<Seq<char>>) -> Seq<char>
    decreases tags.len(),
{
    if tags.len() == 0 {
        Seq::empty()
    } else {
        "<span class=\"post-tag\">"@ + tags[0] + "</span>"@ + tag_spans(tags.skip(1))
    }
}

/// The tag block of a post card: the spans in a wrapping `div`, or
/// nothing when the post has no tags.
pub open spec fn tags_block(tags: Seq<Seq<char>>) -> Seq<char> {
    if tags.len() == 0 {
        Seq::empty()
    } else {
        "<div class=\"post-tags\">"@ + tag_spans(tags) + "</div>"@
    }
}

/// The card markup of one post in the blog index.
pub open spec fn blog_card(p: PostModel) -> Seq<char> {
    "<article class=\"blog-post-card\">\n                    <h2><a href=\"/blog/"@ + p.slug
        + "\">"@ + p.title
        + "</a></h2>\n                    <div class=\"blog-post-meta\">\n                        <div class=\"meta-left\">\n                            <span class=\"post-reading-time\">"@
        + dec_digits(p.reading_time as nat)
        + " min read</span>\n                            <time datetime=\""@ + iso_date_view(p)
        + "\">"@ + formatted_date_view(p)
        + "</time>\n                        </div>\n                        <div class=\"meta-right\">\n                            <a href=\"/blog/"@
        + p.slug
        + "\" class=\"read-more\">Read more &rarr;</a>\n                        </div>\n                    </div>\n                    "@
        + tags_block(p.tags) + "\n                </article>"@
}

/// The blog index fragment: the cards of all posts, in collection order.
pub open spec fn blog_list(ps: Seq<PostModel>) -> Seq<char>
    decreases ps.len(),
{
    if ps.len() == 0 {
        Seq::empty()
    } else {
        blog_card(ps[0]) + blog_list(ps.skip(1))
    }
}

/// The template renderer: substitution plus the site-wide configuration
/// it injects.
#[derive(Debug, Clone)]
pub struct TemplateEngine {
    pub config: Config,
}

impl TemplateEngine {
    pub fn new(config: Config) -> (e: TemplateEngine)
        ensures
            e.config == config,
    {
        TemplateEngine { config }
    }

    /// Substitutes the context into the template text, then the site-wide
    /// placeholders and the analytics block. Markers matching no key stay
    /// verbatim; substitution is literal and not escaping-aware.
    pub fn render_template(&self, template: &str, context: &TemplateContext) -> (r: String)
        ensures
            r@ == rendered_template(self.config, template@, ctx_views(context.entries@)),
    {
        let tpl = str_to_chars(template);
        let ghost ctx = ctx_views(context.entries@);
        let mut markers: Vec<Vec<char>> = Vec::new();
        let mut vals: Vec<Vec<char>> = Vec::new();
        let mut i: usize = 0;
        while i < context.entries.len()
            invariant
                i <= context.entries@.len(),
                markers@.len() == i,
                vals@.len() == i,
                forall|k: int|
                    0 <= k < i ==> markers@[k]@ == marker_of(
                        ctx_views(context.entries@)[k].0,
                    ),
                forall|k: int| 0 <= k < i ==> vals@[k]@ == ctx_views(context.entries@)[k].1,
            decreases context.entries@.len() - i,
        {
            let m = build_marker(context.entries[i].0.as_str());
            markers.push(m);
            vals.push(str_to_chars(context.entries[i].1.as_str()));
            i = i + 1;
        }
        let pass1 = render_pass(&tpl, &markers, &vals, Ghost(ctx));
        let mut site_markers: Vec<Vec<char>> = Vec::new();
        let mut site_vals: Vec<Vec<char>> = Vec::new();
        site_markers.push(build_marker("SITE_TITLE"));
        site_vals.push(str_to_chars(self.config.site.title.as_str()));
        site_markers.push(build_marker("SITE_DESCRIPTION"));
        site_vals.push(str_to_chars(self.config.site.description.as_str()));
        site_markers.push(build_marker("SITE_AUTHOR"));
        site_vals.push(str_to_chars(self.config.site.author.as_str()));
        site_markers.push(build_marker("SITE_DOMAIN"));
        site_vals.push(str_to_chars(self.config.site.domain.as_str()));
        site_markers.push(build_marker("ANALYTICS"));
        let analytics: Vec<char> = match &self.config.analytics.google_analytics_id {
            Some(id) => {
                let mut v: Vec<char> = Vec::new();
                push_lit(&mut v, "<script async src=\"https://www.googletagmanager.com/gtag/js?id=");
                let idc = str_to_chars(id.as_str());
                push_chars(&mut v, &idc);
                push_lit(
                    &mut v,
                    "\"></script>\n<script>\n  window.dataLayer = window.dataLayer || [];\n  function gtag(){dataLayer.push(arguments);}\n  gtag('js', new Date());\n  gtag('config', '",
                );
                push_chars(&mut v, &idc);
                push_lit(&mut v, "');\n</script>");
                proof {
                    assert(v@ =~= analytics_text(self.config));
                }
                v
            },
            None => {
                let v: Vec<char> = Vec::new();
                proof {
                    assert(v@ =~= analytics_text(self.config));
                }
                v
            },
        };
        site_vals.push(analytics);
        proof {
            let sc = site_ctx(self.config);
            assert(site_markers@.len() == 5);
            assert(site_vals@.len() == 5);
            assert forall|k: int| 0 <= k < sc.len() implies site_markers@[k]@ == marker_of(
                sc[k].0,
            ) && site_vals@[k]@ == sc[k].1 by {
                if k == 0 {
                } else if k == 1 {
                } else if k == 2 {
                } else if k == 3 {
                } else {
                    assert(k == 4);
                }
            }
        }
        let out = render_pass(&pass1, &site_markers, &site_vals, Ghost(site_ctx(self.config)));
        chars_to_string(&out)
    }

    /// The HTML fragment listing every post as a card, in order.
    pub fn render_blog_list(&self, posts: &Vec<BlogPost>) -> (r: String)
        ensures
            r@ == blog_list(post_views(posts@)),
    {
        let ghost ps = post_views(posts@);
        let mut out: Vec<char> = Vec::new();
        let mut i: usize = 0;
        proof {
            assert(ps.skip(0) =~= ps);
            assert(Seq::<char>::empty() + blog_list(ps) =~= blog_list(ps));
        }
        while i < posts.len()
            invariant
                i <= posts@.len(),
                ps == post_views(posts@),
                blog_list(ps) == out@ + blog_list(ps.skip(i as int)),
            decreases posts@.len() - i,
        {
            let ghost out0 = out@;
            proof {
                assert(ps.skip(i as int)[0] == posts@[i as int]@);
                assert(ps.skip(i as int).skip(1) =~= ps.skip(i + 1));
            }
            let post = &posts[i];
            push_lit(
                &mut out,
                "<article class=\"blog-post-card\">\n                    <h2><a href=\"/blog/",
            );
            let slug = str_to_chars(post.slug.as_str());
            push_chars(&mut out, &slug);
            push_lit(&mut out, "\">");
            let title = str_to_chars(post.title.as_str());
            push_chars(&mut out, &title);
            push_lit(
                &mut out,
                "</a></h2>\n                    <div class=\"blog-post-meta\">\n                        <div class=\"meta-left\">\n                            <span class=\"post-reading-time\">",
            );
            push_u64(&mut out, post.reading_time as u64);
            push_lit(
                &mut out,
                " min read</span>\n                            <time datetime=\"",
            );
            let iso = post.iso_date();
            let isoc = str_to_chars(iso.as_str());
            push_chars(&mut out, &isoc);
            push_lit(&mut out, "\">");
            let fmt = post.formatted_date();
            let fmtc = str_to_chars(fmt.as_str());
            push_chars(&mut out, &fmtc);
            push_lit(
                &mut out,
                "</time>\n                        </div>\n                        <div class=\"meta-right\">\n                            <a href=\"/blog/",
            );
            push_chars(&mut out, &slug);
            push_lit(
                &mut out,
                "\" class=\"read-more\">Read more &rarr;</a>\n                        </div>\n                    </div>\n                    ",
            );
            let tags = self.render_post_tags_block(&post.tags);
            push_chars(&mut out, &tags);
            push_lit(&mut out, "\n                </article>");
            proof {
                assert(out@ =~= out0 + blog_card(posts@[i as int]@));
            }
            i = i + 1;
        }
        proof {
            assert(ps.skip(ps.len() as int) =~= Seq::<PostModel>::empty());
            assert(out@ =~= blog_list(ps));
        }
        chars_to_string(&out)
    }

    /// The tag block of a post card, as characters.
    fn render_post_tags_block(&self, tags: &Vec<String>) -> (r: Vec<char>)
        ensures
            r@ == tags_block(str_views(tags@)),
    {
        let mut out: Vec<char> = Vec::new();
        if tags.len() == 0 {
            proof {
                assert(out@ =~= tags_block(str_views(tags@)));
            }
            return out;
        }
        push_lit(&mut out, "<div class=\"post-tags\">");
        let spans = self.render_tag_spans(tags);
        push_chars(&mut out, &spans);
        push_lit(&mut out, "</div>");
        proof {
            assert(out@ =~= tags_block(str_views(tags@)));
        }
        out
    }

    fn render_tag_spans(&self, tags: &Vec<String>) -> (r: Vec<char>)
        ensures
            r@ == tag_spans(str_views(tags@)),
    {
        let ghost ts = str_views(tags@);
        let mut out: Vec<char> = Vec::new();
        let mut i: usize = 0;
        proof {
            assert(ts.skip(0) =~= ts);
            assert(Seq::<char>::empty() + tag_spans(ts) =~= tag_spans(ts));
        }
        while i < tags.len()
            invariant
                i <= tags@.len(),
                ts == str_views(tags@),
                tag_spans(ts) == out@ + tag_spans(ts.skip(i as int)),
            decreases tags@.len() - i,
        {
            let ghost out0 = out@;
            proof {
                assert(ts.skip(i as int)[0] == tags@[i as int]@);
                assert(ts.skip(i as int).skip(1) =~= ts.skip(i + 1));
            }
            push_lit(&mut out, "<span class=\"post-tag\">");
            let t = str_to_chars(tags[i].as_str());
            push_chars(&mut out, &t);
            push_lit(&mut out, "</span>");
            proof {
                assert(out@ =~= out0 + ("<span class=\"post-tag\">"@ + tags@[i as int]@
                    + "</span>"@));
                assert(out0 + ("<span class=\"post-tag\">"@ + tags@[i as int]@ + "</span>"@)
                    + tag_spans(ts.skip(i + 1)) =~= out0 + ("<span class=\"post-tag\">"@
                    + tags@[i as int]@ + "</span>"@ + tag_spans(ts.skip(i + 1))));
            }
            i = i + 1;
        }
        proof {
            assert(ts.skip(ts.len() as int) =~= Seq::<Seq<char>>::empty());
            assert(out@ =~= tag_spans(ts));
        }
        out
    }

    /// One `span` per tag, concatenated; empty for no tags.
    pub fn render_post_tags(&self, tags: &Vec<String>) -> (r: String)
        ensures
            r@ == tag_spans(str_views(tags@)),
    {
        let v = self.render_tag_spans(tags);
        chars_to_string(&v)
    }

    /// The tags joined by a comma and a space.
    pub fn render_post_tags_plain(&self, tags: &Vec<String>) -> (r: String)
        ensures
            r@ == joined(str_views(tags@), ", "@),
    {
        let mut tvs: Vec<Vec<char>> = Vec::new();
        let mut i: usize = 0;
        while i < tags.len()
            invariant
                i <= tags@.len(),
                tvs@.len() == i,
                forall|k: int| 0 <= k < i ==> tvs@[k]@ == tags@[k]@,
            decreases tags@.len() - i,
        {
            tvs.push(str_to_chars(tags[i].as_str()));
            i = i + 1;
        }
        let out = join_chars(&tvs, ", ");
        proof {
            assert forall|k: int|
                0 <= k < tags@.len() implies crate::words::views_of(tvs@)[k] == str_views(
                tags@,
            )[k] by {
                assert(crate::words::views_of(tvs@)[k] == tvs@[k]@);
                assert(str_views(tags@)[k] == tags@[k]@);
            }
            assert(crate::words::views_of(tvs@) =~= str_views(tags@));
        }
        chars_to_string(&out)
    }
}

} // verus!

//! The XML sitemap: three fixed routes, then one entry per post with a
//! recency-tiered priority.
use vstd::prelude::*;

verus! {

use crate::chars::chars_to_string;
use crate::chars::push_chars;
use crate::chars::push_lit;
use crate::chars::str_to_chars;
use crate::config::Config;
use crate::post::iso_date_view;
use crate::post::post_views;
use crate::post::BlogPost;
use crate::post::PostModel;
use crate::text::find_from;
use crate::text::find_idx;
use crate::text::lemma_find_from_agrees;
use crate::text::lemma_find_from_none;

/// One entry of the URL index.
pub struct UrlEntry {
    pub loc: String,
    pub lastmod: Option<String>,
    pub changefreq: String,
    pub priority: String,
}

/// The mathematical shadow of a [`UrlEntry`].
pub ghost struct UrlModel {
    pub loc: Seq<char>,
    pub lastmod: Option<Seq<char>>,
    pub changefreq: Seq<char>,
    pub priority: Seq<char>,
}

impl View for UrlEntry {
    type V = UrlModel;

    open spec fn view(&self) -> UrlModel {
        UrlModel {
            loc: self.loc@,
            lastmod: match self.lastmod {
                Some(s) => Some(s@),
                None => None,
            },
            changefreq: self.changefreq@,
            priority: self.priority@,
        }
    }
}

pub open spec fn entry_views(es: Seq<UrlEntry>) -> Seq<UrlModel> {
    es.map_values(|e: UrlEntry| e@)
}

/// The text before the first `T`, or the whole text when there is none:
/// the calendar-date part of a timestamp.
pub open spec fn date_part(s: Seq<char>) -> Seq<char> {
    let f = find_idx(s, "T"@);
    if f >= 0 {
        s.take(f)
    } else {
        s
    }
}

/// The priority tier of the post at a given rank: the newest five posts
/// highest, the next five in the middle, the rest lowest.
pub open spec fn priority_of_rank(i: int) -> Seq<char> {
    if i < 5 {
        "0.8"@
    } else if i < 10 {
        "0.7"@
    } else {
        "0.6"@
    }
}

/// The sitemap entry of the post at rank `i`.
pub open spec fn post_entry(c: Config, p: PostModel, i: int) -> UrlModel {
    UrlModel {
        loc: "https://"@ + c.site.domain@ + "/blog/"@ + p.slug,
        lastmod: Some(date_part(iso_date_view(p))),
        changefreq: "monthly"@,
        priority: priority_of_rank(i),
    }
}

/// Every entry of the index, in order: the site root, the blog index,
/// the feed, then one entry per post in collection order.
pub open spec fn sitemap_models(c: Config, ps: Seq<PostModel>) -> Seq<UrlModel> {
    seq![
        UrlModel {
            loc: "https://"@ + c.site.domain@,
            lastmod: None,
            changefreq: "weekly"@,
            priority: "1.0"@,
        },
        UrlModel {
            loc: "https://"@ + c.site.domain@ + "/blog"@,
            lastmod: None,
            changefreq: "weekly"@,
            priority: "0.9"@,
        },
        UrlModel {
            loc: "https://"@ + c.site.domain@ + "/feed.xml"@,
            lastmod: None,
            changefreq: "daily"@,
            priority: "0.5"@,
        },
    ] + Seq::new(ps.len(), |i: int| post_entry(c, ps[i], i))
}

/// The index always holds exactly the three fixed entries plus one per
/// post, and the first five post entries carry the highest post tier.
pub proof fn lemma_sitemap_shape(c: Config, ps: Seq<PostModel>)
    ensures
        sitemap_models(c, ps).len() == 3 + ps.len(),
        forall|i: int|
            0 <= i < ps.len() ==> #[trigger] sitemap_models(c, ps)[3 + i] == post_entry(
                c,
                ps[i],
                i,
            ),
        forall|i: int|
            0 <= i < ps.len() && i < 5 ==> (#[trigger] sitemap_models(c, ps)[3 + i]).priority
                == "0.8"@,
{
}

/// The XML of one entry.
pub open spec fn url_xml(u: UrlModel) -> Seq<char> {
    "  <url>\n    <loc>"@ + u.loc + "</loc>\n"@ + (match u.lastmod {
        Some(lm) => "    <lastmod>"@ + lm + "</lastmod>\n"@,
        None => Seq::<char>::empty(),
    }) + "    <changefreq>"@ + u.changefreq + "</changefreq>\n    <priority>"@ + u.priority
        + "</priority>\n  </url>\n"@
}

pub open spec fn urls_xml(us: Seq<UrlModel>) -> Seq<char>
    decreases us.len(),
{
    if us.len() == 0 {
        Seq::empty()
    } else {
        url_xml(us[0]) + urls_xml(us.skip(1))
    }
}

/// The fixed document header with its namespace declarations.
pub open spec fn sitemap_head() -> Seq<char> {
    "<?xml version=\"1.0\" encoding=\"UTF-8\"?>\n<urlset xmlns=\"http://www.sitemaps.org/schemas/sitemap/0.9\"\n        xmlns:news=\"http://www.google.com/schemas/sitemap-news/0.9\"\n        xmlns:xhtml=\"http://www.w3.org/1999/xhtml\"\n        xmlns:mobile=\"http://www.google.com/schemas/sitemap-mobile/1.0\"\n        xmlns:image=\"http://www.google.com/schemas/sitemap-image/1.1\"\n        xmlns:video=\"http://www.google.com/schemas/sitemap-video/1.1\">\n"@
}

/// The whole sitemap document.
pub open spec fn sitemap_xml(c: Config, ps: Seq<PostModel>) -> Seq<char> {
    sitemap_head() + urls_xml(sitemap_models(c, ps)) + "</urlset>"@
}

/// Appending one more entry extends the document on the right.
proof fn lemma_urls_take_step(us: Seq<UrlModel>, i: int)
    requires
        0 <= i < us.len(),
    ensures
        urls_xml(us.take(i + 1)) == urls_xml(us.take(i)) + url_xml(us[i]),
    decreases i,
{
    if i == 0 {
        assert(us.take(1)[0] == us[0]);
        assert(us.take(1).skip(1) =~= Seq::<UrlModel>::empty());
        assert(us.take(0).len() == 0);
        assert(urls_xml(us.take(0)) == Seq::<char>::empty());
        assert(urls_xml(Seq::<UrlModel>::empty()) == Seq::<char>::empty());
        assert(urls_xml(us.take(1)) =~= url_xml(us[0]));
        assert(urls_xml(us.take(0)) + url_xml(us[0]) =~= url_xml(us[0]));
    } else {
        lemma_urls_take_step(us.skip(1), i - 1);
        assert(us.take(i + 1)[0] == us[0]);
        assert(us.take(i + 1).skip(1) =~= us.skip(1).take(i));
        assert(us.take(i)[0] == us[0]);
        assert(us.take(i).skip(1) =~= us.skip(1).take(i - 1));
        assert(us.skip(1)[i - 1] == us[i]);
        assert(urls_xml(us.take(i + 1)) == url_xml(us[0]) + (urls_xml(us.skip(1).take(i - 1))
            + url_xml(us[i])));
        assert(url_xml(us[0]) + (urls_xml(us.skip(1).take(i - 1)) + url_xml(us[i])) =~= (url_xml(
            us[0],
        ) + urls_xml(us.skip(1).take(i - 1))) + url_xml(us[i]));
    }
}

/// Builds the canonical URL of a route under the configured domain.
fn build_loc(config: &Config, suffix: &str) -> (r: String)
    ensures
        r@ == "https://"@ + config.site.domain@ + suffix@,
{
    let mut v: Vec<char> = Vec::new();
    push_lit(&mut v, "https://");
    push_lit(&mut v, config.site.domain.as_str());
    push_lit(&mut v, suffix);
    chars_to_string(&v)
}

/// The calendar-date part of a timestamp string.
fn date_part_exec(s: &str) -> (r: String)
    ensures
        r@ == date_part(s@),
{
    let v = str_to_chars(s);
    let tpat = str_to_chars("T");
    proof {
        reveal_strlit("T");
        assert(v@.skip(0) =~= v@);
    }
    match find_from(&v, 0, &tpat) {
        Some(j) => {
            proof {
                lemma_find_from_agrees(v@, 0, "T"@, j as int);
            }
            let cut = crate::chars::copy_range(&v, 0, j);
            proof {
                assert(cut@ =~= v@.take(j as int));
            }
            chars_to_string(&cut)
        },
        None => {
            proof {
                lemma_find_from_none(v@, 0, "T"@);
            }
            chars_to_string(&v)
        },
    }
}

pub struct SitemapService;

impl SitemapService {
    /// The entries of the URL index: three fixed routes, then one entry
    /// per post with its recency-tiered priority.
    pub fn sitemap_entries(config: &Config, posts: &Vec<BlogPost>) -> (r: Vec<UrlEntry>)
        ensures
            entry_views(r@) == sitemap_models(*config, post_views(posts@)),
            r@.len() == 3 + posts@.len(),
    {
        let ghost ps = post_views(posts@);
        let ghost models = sitemap_models(*config, ps);
        let mut out: Vec<UrlEntry> = Vec::new();
        out.push(
            UrlEntry {
                loc: build_loc(config, ""),
                lastmod: None,
                changefreq: "weekly".to_owned(),
                priority: "1.0".to_owned(),
            },
        );
        out.push(
            UrlEntry {
                loc: build_loc(config, "/blog"),
                lastmod: None,
                changefreq: "weekly".to_owned(),
                priority: "0.9".to_owned(),
            },
        );
        out.push(
            UrlEntry {
                loc: build_loc(config, "/feed.xml"),
                lastmod: None,
                changefreq: "daily".to_owned(),
                priority: "0.5".to_owned(),
            },
        );
        proof {
            reveal_strlit("");
            assert("https://"@ + config.site.domain@ + ""@ =~= "https://"@ + config.site.domain@);
            assert forall|k: int| 0 <= k < 3 implies entry_views(out@)[k] == models[k] by {
                assert(entry_views(out@)[k] == out@[k]@);
            }
        }
        let mut i: usize = 0;
        while i < posts.len()
            invariant
                i <= posts@.len(),
                ps == post_views(posts@),
                models == sitemap_models(*config, ps),
                out@.len() == 3 + i,
                forall|k: int| 0 <= k < 3 + i ==> entry_views(out@)[k] == models[k],
            decreases posts@.len() - i,
        {
            let ghost out0 = out@;
            let post = &posts[i];
            let iso = post.iso_date();
            let lastmod = date_part_exec(iso.as_str());
            let priority: &str = if i < 5 {
                "0.8"
            } else if i < 10 {
                "0.7"
            } else {
                "0.6"
            };
            let mut loc: Vec<char> = Vec::new();
            push_lit(&mut loc, "https://");
            push_lit(&mut loc, config.site.domain.as_str());
            push_lit(&mut loc, "/blog/");
            push_lit(&mut loc, post.slug.as_str());
            out.push(
                UrlEntry {
                    loc: chars_to_string(&loc),
                    lastmod: Some(lastmod),
                    changefreq: "monthly".to_owned(),
                    priority: priority.to_owned(),
                },
            );
            proof {
                assert(out@[3 + i as int]@ == post_entry(*config, ps[i as int], i as int));
                assert(models[3 + i as int] == post_entry(*config, ps[i as int], i as int));
                assert forall|k: int| 0 <= k < 3 + i + 1 implies entry_views(out@)[k]
                    == models[k] by {
                    assert(entry_views(out@)[k] == out@[k]@);
                    if k < 3 + i {
                        assert(out@[k] == out0[k]);
                        assert(entry_views(out0)[k] == out0[k]@);
                    }
                }
            }
            i = i + 1;
        }
        proof {
            assert(models.len() == 3 + ps.len());
            assert(entry_views(out@) =~= models);
        }
        out
    }

    /// Projects the collection into the sitemap document.
    #[verifier::loop_isolation(false)]
    pub fn generate_sitemap(config: &Config, posts: &Vec<BlogPost>) -> (r: String)
        ensures
            r@ == sitemap_xml(*config, post_views(posts@)),
    {
        let entries = Self::sitemap_entries(config, posts);
        let ghost models = sitemap_models(*config, post_views(posts@));
        let mut out: Vec<char> = Vec::new();
        push_lit(
            &mut out,
            "<?xml version=\"1.0\" encoding=\"UTF-8\"?>\n<urlset xmlns=\"http://www.sitemaps.org/schemas/sitemap/0.9\"\n        xmlns:news=\"http://www.google.com/schemas/sitemap-news/0.9\"\n        xmlns:xhtml=\"http://www.w3.org/1999/xhtml\"\n        xmlns:mobile=\"http://www.google.com/schemas/sitemap-mobile/1.0\"\n        xmlns:image=\"http://www.google.com/schemas/sitemap-image/1.1\"\n        xmlns:video=\"http://www.google.com/schemas/sitemap-video/1.1\">\n",
        );
        let ghost head = out@;
        let mut i: usize = 0;
        proof {
            assert(models.take(0) =~= Seq::<UrlModel>::empty());
            assert(out@ + Seq::<char>::empty() =~= out@);
        }
        while i < entries.len()
            invariant
                i <= entries@.len(),
                entry_views(entries@) == models,
                out@ == head + urls_xml(models.take(i as int)),
            decreases entries@.len() - i,
        {
            let ghost out0 = out@;
            let e = &entries[i];
            proof {
                assert(entry_views(entries@)[i as int] == entries@[i as int]@);
            }
            push_lit(&mut out, "  <url>\n    <loc>");
            push_lit(&mut out, e.loc.as_str());
            push_lit(&mut out, "</loc>\n");
            match &e.lastmod {
                Some(lm) => {
                    push_lit(&mut out, "    <lastmod>");
                    push_lit(&mut out, lm.as_str());
                    push_lit(&mut out, "</lastmod>\n");
                },
                None => {},
            }
            push_lit(&mut out, "    <changefreq>");
            push_lit(&mut out, e.changefreq.as_str());
            push_lit(&mut out, "</changefreq>\n    <priority>");
            push_lit(&mut out, e.priority.as_str());
            push_lit(&mut out, "</priority>\n  </url>\n");
            proof {
                assert(out@ =~= out0 + url_xml(models[i as int]));
                lemma_urls_take_step(models, i as int);
                assert(out0 + url_xml(models[i as int]) =~= head + (urls_xml(models.take(i as int))
                    + url_xml(models[i as int])));
            }
            i = i + 1;
        }
        push_lit(&mut out, "</urlset>");
        proof {
            assert(models.take(models.len() as int) =~= models);
            assert(out@ =~= sitemap_xml(*config, post_views(posts@)));
        }
        chars_to_string(&out)
    }
}

} // verus!

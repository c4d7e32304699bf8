use blog_engine::config::{
    AnalyticsConfig, CacheConfig, Config, ServerConfig, SiteConfig, SocialConfig,
};
use blog_engine::blog::{BlogService, SourceDoc};
use blog_engine::template::{TemplateContext, TemplateEngine};

fn engine(analytics: Option<&str>) -> TemplateEngine {
    TemplateEngine::new(Config {
        site: SiteConfig {
            title: "A Site".to_string(),
            domain: "example.org".to_string(),
            description: "A site about things".to_string(),
            author: "An Author".to_string(),
            language: "en".to_string(),
        },
        server: ServerConfig {
            host: "127.0.0.1".to_string(),
            port: 8080,
        },
        cache: CacheConfig {
            static_files_max_age: 31536000,
            html_max_age: 3600,
        },
        social: SocialConfig {
            linkedin: None,
            github: None,
            email: None,
        },
        analytics: AnalyticsConfig {
            google_analytics_id: analytics.map(|s| s.to_string()),
        },
    })
}

#[test]
fn substitutes_context_and_site_placeholders() {
    let e = engine(None);
    let mut ctx = TemplateContext::new();
    ctx.insert("BLOG_TITLE".to_string(), "My Post".to_string());
    let out = e.render_template(
        "<h1><!-- BLOG_TITLE --></h1><footer><!-- SITE_AUTHOR --></footer>",
        &ctx,
    );
    assert_eq!(out, "<h1>My Post</h1><footer>An Author</footer>");
}

#[test]
fn unmatched_marker_stays_verbatim() {
    let e = engine(None);
    let ctx = TemplateContext::new();
    let out = e.render_template("before <!-- NO_SUCH_KEY --> after", &ctx);
    assert_eq!(out, "before <!-- NO_SUCH_KEY --> after");
}

#[test]
fn substitution_is_single_pass() {
    let e = engine(None);
    let mut ctx = TemplateContext::new();
    ctx.insert("A".to_string(), "<!-- B -->".to_string());
    ctx.insert("B".to_string(), "never".to_string());
    // The value substituted for A is not rescanned for B's marker.
    let out = e.render_template("<!-- A -->", &ctx);
    assert_eq!(out, "<!-- B -->");
}

#[test]
fn first_matching_key_wins() {
    let e = engine(None);
    let mut ctx = TemplateContext::new();
    ctx.insert("K".to_string(), "one".to_string());
    ctx.insert("K".to_string(), "two".to_string());
    assert_eq!(e.render_template("<!-- K -->", &ctx), "one");
}

#[test]
fn analytics_marker_becomes_empty_without_an_id() {
    let e = engine(None);
    let ctx = TemplateContext::new();
    assert_eq!(e.render_template("x<!-- ANALYTICS -->y", &ctx), "xy");
}

#[test]
fn analytics_marker_becomes_a_script_with_an_id() {
    let e = engine(Some("G-TEST123"));
    let ctx = TemplateContext::new();
    let out = e.render_template("<!-- ANALYTICS -->", &ctx);
    assert!(out.starts_with(
        "<script async src=\"https://www.googletagmanager.com/gtag/js?id=G-TEST123\"></script>"
    ));
    assert!(out.contains("gtag('config', 'G-TEST123');"));
    assert!(out.ends_with("</script>"));
}

#[test]
fn tag_markup_wraps_each_tag_in_a_span() {
    let e = engine(None);
    let tags = vec!["rust".to_string(), "web".to_string()];
    assert_eq!(
        e.render_post_tags(&tags),
        "<span class=\"post-tag\">rust</span><span class=\"post-tag\">web</span>"
    );
    assert_eq!(e.render_post_tags(&Vec::new()), "");
}

#[test]
fn plain_tags_join_with_commas() {
    let e = engine(None);
    let tags = vec!["a".to_string(), "b".to_string(), "c".to_string()];
    assert_eq!(e.render_post_tags_plain(&tags), "a, b, c");
    assert_eq!(e.render_post_tags_plain(&Vec::new()), "");
}

#[test]
fn blog_list_renders_one_card_per_post() {
    let e = engine(None);
    let docs = vec![
        SourceDoc {
            name: "one".to_string(),
            text: "---\ntitle: One\ndate: 2024-01-01\ndescription: d\n---\nbody\n".to_string(),
        },
        SourceDoc {
            name: "two".to_string(),
            text: "---\ntitle: Two\ndate: 2024-02-01\ndescription: d\ntags: [x]\n---\nbody\n"
                .to_string(),
        },
    ];
    let (posts, _) = BlogService::load_posts(&docs);
    let html = e.render_blog_list(&posts);
    assert_eq!(html.matches("<article class=\"blog-post-card\">").count(), 2);
    assert!(html.contains("href=\"/blog/one\""));
    assert!(html.contains("href=\"/blog/two\""));
    assert!(html.contains("<time datetime=\"2024-02-01T00:00:00+00:00\">February 01, 2024</time>"));
    assert!(html.contains("1 min read"));
    assert!(html.contains("<span class=\"post-tag\">x</span>"));
    // Newest first: the February post comes before the January one.
    assert!(html.find("/blog/two").unwrap() < html.find("/blog/one").unwrap());
}

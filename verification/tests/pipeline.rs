use blog_engine::blog::{BlogService, SourceDoc};
use blog_engine::config::{
    AnalyticsConfig, CacheConfig, Config, ServerConfig, SiteConfig, SocialConfig,
};
use blog_engine::error::AppError;
use blog_engine::post::BlogPost;
use blog_engine::excerpt::generate_excerpt;
use blog_engine::post::calculate_reading_time;
use blog_engine::rss::RssService;
use blog_engine::sitemap::SitemapService;
use blog_engine::slug::generate_slug;

fn test_config() -> Config {
    Config {
        site: SiteConfig {
            title: "A Site".to_string(),
            domain: "example.org".to_string(),
            description: "A site about things".to_string(),
            author: "An Author".to_string(),
            language: "en".to_string(),
        },
        server: ServerConfig {
            host: "127.0.0.1".to_string(),
            port: 8080,
        },
        cache: CacheConfig {
            static_files_max_age: 31536000,
            html_max_age: 3600,
        },
        social: SocialConfig {
            linkedin: None,
            github: None,
            email: None,
        },
        analytics: AnalyticsConfig {
            google_analytics_id: None,
        },
    }
}

fn doc(name: &str, text: &str) -> SourceDoc {
    SourceDoc {
        name: name.to_string(),
        text: text.to_string(),
    }
}

const GOOD: &str = "---\ntitle: First Post\ndate: 2024-01-05\ndescription: About things\ntags: [rust, web]\n---\n# Hello\n\nSome *body* text.\n";

#[test]
fn parse_well_formed_document() {
    let post = BlogService::parse_blog_post(GOOD, "first-post")
        .unwrap()
        .unwrap();
    assert_eq!(post.title, "First Post");
    assert_eq!(post.date, "2024-01-05");
    assert_eq!(post.description, "About things");
    assert_eq!(post.path, "first-post");
    assert_eq!(post.slug, "first-post");
    assert_eq!(post.tags, vec!["rust".to_string(), "web".to_string()]);
    let d = post.date_parsed.expect("date should parse");
    assert_eq!((d.year, d.month, d.day), (2024, 1, 5));
}

#[test]
fn markdown_is_rendered_to_html() {
    let post = BlogService::parse_blog_post(GOOD, "first-post")
        .unwrap()
        .unwrap();
    // The converted body differs from the raw markdown and carries tags.
    assert!(post.content.contains("<h1>Hello</h1>"));
    assert!(post.content.contains("<em>body</em>"));
    assert!(!post.content.contains("# Hello"));
}

#[test]
fn document_without_delimiters_is_no_post() {
    let r = BlogService::parse_blog_post("just some text", "stray").unwrap();
    assert!(r.is_none());
    let r = BlogService::parse_blog_post("---\ntitle: x\n", "half").unwrap();
    assert!(r.is_none());
}

#[test]
fn missing_required_field_is_an_error() {
    let text = "---\ntitle: Has Title\ndate: 2024-01-05\n---\nbody\n";
    match BlogService::parse_blog_post(text, "nodesc") {
        Err(AppError::BlogParsing(m)) => {
            assert_eq!(m, "Missing description field in frontmatter")
        }
        other => panic!("expected a parsing error, got {:?}", other),
    }
}

#[test]
fn empty_field_value_is_an_error() {
    let text = "---\ntitle: \"\"\ndate: 2024-01-05\ndescription: x\n---\nbody\n";
    match BlogService::parse_blog_post(text, "notitle") {
        Err(AppError::BlogParsing(m)) => assert_eq!(m, "Missing title field in frontmatter"),
        other => panic!("expected a parsing error, got {:?}", other),
    }
}

#[test]
fn quoted_values_and_tags_are_trimmed() {
    let text =
        "---\ntitle: \"Quoted Title\"\ndate: 2024-02-03\ndescription:  spaced  \ntags: [ \"a\", 'b' , , c ]\n---\nbody\n";
    let post = BlogService::parse_blog_post(text, "q").unwrap().unwrap();
    assert_eq!(post.title, "Quoted Title");
    assert_eq!(post.description, "spaced");
    assert_eq!(
        post.tags,
        vec!["a".to_string(), "b".to_string(), "c".to_string()]
    );
}

#[test]
fn absent_tags_yield_empty_list() {
    let text = "---\ntitle: T\ndate: 2024-02-03\ndescription: D\n---\nbody\n";
    let post = BlogService::parse_blog_post(text, "t").unwrap().unwrap();
    assert!(post.tags.is_empty());
}

#[test]
fn body_keeps_later_delimiters() {
    let text = "---\ntitle: T\ndate: 2024-02-03\ndescription: D\n---\nbefore\n---\nafter\n";
    let post = BlogService::parse_blog_post(text, "t").unwrap().unwrap();
    // The rejoined body spans both segments.
    assert!(post.content.contains("before"));
    assert!(post.content.contains("after"));
}

#[test]
fn load_posts_skips_malformed_files_only() {
    let docs = vec![
        doc("good-one", GOOD),
        doc("broken", "no frontmatter here"),
        doc(
            "missing-date",
            "---\ntitle: X\ndescription: Y\n---\nbody\n",
        ),
        doc(
            "good-two",
            "---\ntitle: Second\ndate: 2024-03-01\ndescription: More\n---\ntext\n",
        ),
    ];
    let (posts, skipped) = BlogService::load_posts(&docs);
    assert_eq!(posts.len(), 2);
    assert_eq!(
        skipped,
        vec!["broken".to_string(), "missing-date".to_string()]
    );
}

#[test]
fn collection_orders_newest_first_and_dated_before_undated() {
    let docs = vec![
        doc(
            "old",
            "---\ntitle: Old\ndate: 2020-01-01\ndescription: d\n---\nb\n",
        ),
        doc(
            "undated",
            "---\ntitle: Undated\ndate: zzz-not-a-date\ndescription: d\n---\nb\n",
        ),
        doc(
            "new",
            "---\ntitle: New\ndate: 2024-06-30\ndescription: d\n---\nb\n",
        ),
    ];
    let (posts, _) = BlogService::load_posts(&docs);
    let titles: Vec<&str> = posts.iter().map(|p| p.title.as_str()).collect();
    // Parsed dates newest first; the undated post sorts after all dated
    // ones even though its raw string compares high lexicographically.
    assert_eq!(titles, vec!["New", "Old", "Undated"]);
}

#[test]
fn undated_posts_fall_back_to_raw_strings_descending() {
    let docs = vec![
        doc("a", "---\ntitle: A\ndate: alpha\ndescription: d\n---\nb\n"),
        doc("b", "---\ntitle: B\ndate: omega\ndescription: d\n---\nb\n"),
    ];
    let (posts, _) = BlogService::load_posts(&docs);
    let titles: Vec<&str> = posts.iter().map(|p| p.title.as_str()).collect();
    assert_eq!(titles, vec!["B", "A"]);
}

#[test]
fn find_post_round_trip() {
    let docs = vec![
        doc("first-file", GOOD),
        doc(
            "second-file",
            "---\ntitle: Second\ndate: 2024-03-01\ndescription: More\n---\ntext\n",
        ),
    ];
    let (posts, _) = BlogService::load_posts(&docs);
    for post in &posts {
        let by_slug = BlogService::get_post_by_slug(&posts, &post.slug).expect("found by slug");
        let by_path = BlogService::get_post_by_slug(&posts, &post.path).expect("found by path");
        assert_eq!(by_slug, by_path);
        assert_eq!(by_slug, post);
    }
    assert!(BlogService::get_post_by_slug(&posts, "nothing-here").is_none());
}

#[test]
fn slug_normalizes_case_and_punctuation() {
    assert_eq!(generate_slug("Hello, World!"), "hello-world");
    assert_eq!(generate_slug("hello world"), "hello-world");
    assert_eq!(generate_slug("  --weird--  input-- "), "weird-input");
    assert_eq!(generate_slug(""), "");
}

#[test]
fn slug_is_idempotent_on_samples() {
    for t in [
        "Hello, World!",
        "Rust & Web: A Story",
        "already-a-slug",
        "MiXeD CaSe 123",
        "",
    ] {
        let once = generate_slug(t);
        assert_eq!(generate_slug(&once), once);
    }
}

#[test]
fn reading_time_rounds_up_with_a_floor_of_one() {
    assert_eq!(calculate_reading_time(""), 1);
    let w199 = vec!["word"; 199].join(" ");
    assert_eq!(calculate_reading_time(&w199), 1);
    let w200 = vec!["word"; 200].join(" ");
    assert_eq!(calculate_reading_time(&w200), 1);
    let w201 = vec!["word"; 201].join(" ");
    assert_eq!(calculate_reading_time(&w201), 2);
    let w400 = vec!["word"; 400].join(" ");
    assert_eq!(calculate_reading_time(&w400), 2);
}

#[test]
fn excerpt_keeps_short_bodies_whole() {
    let html = "<p>just a few words here</p>";
    assert_eq!(generate_excerpt(html), "just a few words here");
    assert_eq!(generate_excerpt(""), "");
}

#[test]
fn excerpt_truncates_to_thirty_words_with_ellipsis() {
    let words: Vec<String> = (0..31).map(|i| format!("w{}", i)).collect();
    let html = format!("<p>{}</p>", words.join(" "));
    let expected = format!("{}...", words[..30].join(" "));
    let got = generate_excerpt(&html);
    assert_eq!(got, expected);
    assert_eq!(got.split_whitespace().count(), 30);
}

#[test]
fn excerpt_strips_tags_and_code_blocks() {
    let html = "<h2>Head</h2><p>one two</p><pre><code>fn main() {}\nmore code\n</code></pre><p>three</p>";
    assert_eq!(generate_excerpt(html), "Head one two three");
}

#[test]
fn date_forms_are_exact() {
    let post = BlogService::parse_blog_post(GOOD, "first-post")
        .unwrap()
        .unwrap();
    assert_eq!(post.iso_date(), "2024-01-05T00:00:00+00:00");
    assert_eq!(post.formatted_date(), "January 05, 2024");
}

#[test]
fn invalid_dates_are_kept_raw() {
    let text = "---\ntitle: T\ndate: 2024-13-05\ndescription: D\n---\nbody\n";
    let post = BlogService::parse_blog_post(text, "t").unwrap().unwrap();
    assert!(post.date_parsed.is_none());
    assert_eq!(post.iso_date(), "2024-13-05");
    assert_eq!(post.formatted_date(), "2024-13-05");
}

#[test]
fn leap_years_are_respected() {
    let ok = "---\ntitle: T\ndate: 2024-02-29\ndescription: D\n---\nb\n";
    let post = BlogService::parse_blog_post(ok, "t").unwrap().unwrap();
    assert!(post.date_parsed.is_some());
    let bad = "---\ntitle: T\ndate: 2023-02-29\ndescription: D\n---\nb\n";
    let post = BlogService::parse_blog_post(bad, "t").unwrap().unwrap();
    assert!(post.date_parsed.is_none());
}

#[test]
fn cache_control_headers_are_exact() {
    let config = test_config();
    assert_eq!(
        config.cache_control_static(),
        "public, max-age=31536000, immutable"
    );
    assert_eq!(config.cache_control_html(), "public, max-age=3600");
}

#[test]
fn default_config_matches_the_documented_values() {
    let c = Config::default();
    assert_eq!(c.site.domain, "localhost:8080");
    assert_eq!(c.server.port, 8080);
    assert_eq!(c.cache.html_max_age, 3600);
    assert!(c.analytics.google_analytics_id.is_none());
}

#[test]
fn error_messages_carry_their_kind() {
    assert_eq!(
        AppError::Template("missing.html".to_string()).message(),
        "Template error: missing.html"
    );
    assert_eq!(
        AppError::NotFound("x".to_string()).message(),
        "Not found: x"
    );
    assert_eq!(AppError::Io("broken".to_string()).message(), "IO error: broken");
    assert_eq!(
        AppError::Config("bad".to_string()).message(),
        "Configuration error: bad"
    );
    assert_eq!(
        AppError::Internal("oops".to_string()).message(),
        "Internal server error: oops"
    );
}

fn make_posts(n: usize) -> Vec<BlogPost> {
    let mut docs = Vec::new();
    for i in 0..n {
        let day = (i % 27) + 1;
        let text = format!(
            "---\ntitle: Post Number {}\ndate: 2024-03-{:02}\ndescription: Entry {}\ntags: [tag{}]\n---\nbody {}\n",
            i, day, i, i, i
        );
        docs.push(doc(&format!("post-{}", i), &text));
    }
    let (posts, _) = BlogService::load_posts(&docs);
    posts
}

#[test]
fn feed_carries_at_most_twenty_items() {
    let config = test_config();
    let posts = make_posts(25);
    assert_eq!(posts.len(), 25);
    let feed = RssService::generate_feed(&config, &posts);
    assert_eq!(feed.matches("<item>").count(), 20);
    assert_eq!(feed.matches("</item>").count(), 20);
}

#[test]
fn empty_collection_yields_a_bare_channel() {
    let config = test_config();
    let feed = RssService::generate_feed(&config, &Vec::new());
    assert_eq!(feed.matches("<item>").count(), 0);
    assert!(feed.starts_with("<?xml version=\"1.0\" encoding=\"UTF-8\"?><rss version=\"2.0\"><channel>"));
    assert!(feed.ends_with("</channel></rss>"));
    assert!(feed.contains("<title>A Site</title>"));
    assert!(feed.contains("<link>https://example.org</link>"));
    assert!(feed.contains("<ttl>1440</ttl>"));
}

#[test]
fn feed_escapes_xml_text() {
    let mut config = test_config();
    config.site.title = "Tom & Jerry <live>".to_string();
    let feed = RssService::generate_feed(&config, &Vec::new());
    assert!(feed.contains("<title>Tom &amp; Jerry &lt;live&gt;</title>"));
}

#[test]
fn sitemap_has_three_fixed_entries_plus_one_per_post() {
    let config = test_config();
    let posts = make_posts(12);
    let entries = SitemapService::sitemap_entries(&config, &posts);
    assert_eq!(entries.len(), 15);
    assert_eq!(entries[0].loc, "https://example.org");
    assert_eq!(entries[0].priority, "1.0");
    assert_eq!(entries[1].loc, "https://example.org/blog");
    assert_eq!(entries[2].loc, "https://example.org/feed.xml");
    assert_eq!(entries[2].priority, "0.5");
    for (i, e) in entries[3..].iter().enumerate() {
        let expected = if i < 5 {
            "0.8"
        } else if i < 10 {
            "0.7"
        } else {
            "0.6"
        };
        assert_eq!(e.priority, expected);
        assert_eq!(e.changefreq, "monthly");
    }
    let xml = SitemapService::generate_sitemap(&config, &posts);
    assert_eq!(xml.matches("<url>").count(), 15);
    assert_eq!(xml.matches("<loc>").count(), 15);
    assert!(xml.ends_with("</urlset>"));
}

#[test]
fn sitemap_lastmod_is_the_date_part() {
    let config = test_config();
    let docs = vec![doc("only", GOOD)];
    let (posts, _) = BlogService::load_posts(&docs);
    let entries = SitemapService::sitemap_entries(&config, &posts);
    assert_eq!(entries[3].lastmod.as_deref(), Some("2024-01-05"));
    assert_eq!(entries[3].loc, "https://example.org/blog/first-post");
}

//! A small blog content pipeline: frontmatter parsing, post entities with
//! derived fields, placeholder templating, and RSS/sitemap generation.
pub mod chars;
pub mod config;
pub mod date;
pub mod error;
pub mod excerpt;
pub mod laws;
pub mod template;
pub mod text;
pub mod words;
pub mod blog;
pub mod markdown;
pub mod post;
pub mod rss;
pub mod sitemap;
pub mod slug;

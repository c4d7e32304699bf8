//! Site-wide configuration: plain data plus the cache-control header
//! strings derived from it.
use vstd::prelude::*;

verus! {

use crate::chars::chars_to_string;
use crate::chars::dec_digits;
use crate::chars::push_lit;
use crate::chars::push_u64;

#[derive(Debug, Clone)]
pub struct SiteConfig {
    pub title: String,
    pub domain: String,
    pub description: String,
    pub author: String,
    pub language: String,
}

#[derive(Debug, Clone)]
pub struct ServerConfig {
    pub host: String,
    pub port: u16,
}

#[derive(Debug, Clone)]
pub struct CacheConfig {
    pub static_files_max_age: u64,
    pub html_max_age: u64,
}

#[derive(Debug, Clone)]
pub struct SocialConfig {
    pub linkedin: Option<String>,
    pub github: Option<String>,
    pub email: Option<String>,
}

#[derive(Debug, Clone)]
pub struct AnalyticsConfig {
    pub google_analytics_id: Option<String>,
}

#[derive(Debug, Clone)]
pub struct Config {
    pub site: SiteConfig,
    pub server: ServerConfig,
    pub cache: CacheConfig,
    pub social: SocialConfig,
    pub analytics: AnalyticsConfig,
}

/// The `Cache-Control` value for immutable static files at a given age.
pub open spec fn cache_control_static_str(age: nat) -> Seq<char> {
    "public, max-age="@ + dec_digits(age) + ", immutable"@
}

/// The `Cache-Control` value for rendered pages at a given age.
pub open spec fn cache_control_html_str(age: nat) -> Seq<char> {
    "public, max-age="@ + dec_digits(age)
}

impl Config {
    pub fn cache_control_static(&self) -> (r: String)
        ensures
            r@ == cache_control_static_str(self.cache.static_files_max_age as nat),
    {
        let mut v: Vec<char> = Vec::new();
        push_lit(&mut v, "public, max-age=");
        push_u64(&mut v, self.cache.static_files_max_age);
        push_lit(&mut v, ", immutable");
        proof {
            assert(v@ =~= cache_control_static_str(self.cache.static_files_max_age as nat));
        }
        chars_to_string(&v)
    }

    pub fn cache_control_html(&self) -> (r: String)
        ensures
            r@ == cache_control_html_str(self.cache.html_max_age as nat),
    {
        let mut v: Vec<char> = Vec::new();
        push_lit(&mut v, "public, max-age=");
        push_u64(&mut v, self.cache.html_max_age);
        proof {
            assert(v@ =~= cache_control_html_str(self.cache.html_max_age as nat));
        }
        chars_to_string(&v)
    }
}

impl Default for Config {
    /// The configuration used when no configuration file is available.
    fn default() -> (c: Config)
        ensures
            c.site.title@ == "Juan M. Rada León"@,
            c.site.domain@ == "localhost:8080"@,
            c.site.description@ == "Personal website and blog"@,
            c.site.author@ == "Juan M. Rada León"@,
            c.site.language@ == "en"@,
            c.server.host@ == "0.0.0.0"@,
            c.server.port == 8080,
            c.cache.static_files_max_age == 31536000,
            c.cache.html_max_age == 3600,
            c.social.linkedin is None,
            c.social.github is None,
            c.social.email is None,
            c.analytics.google_analytics_id is None,
    {
        Config {
            site: SiteConfig {
                title: "Juan M. Rada León".to_owned(),
                domain: "localhost:8080".to_owned(),
                description: "Personal website and blog".to_owned(),
                author: "Juan M. Rada León".to_owned(),
                language: "en".to_owned(),
            },
            server: ServerConfig { host: "0.0.0.0".to_owned(), port: 8080 },
            cache: CacheConfig { static_files_max_age: 31536000, html_max_age: 3600 },
            social: SocialConfig { linkedin: None, github: None, email: None },
            analytics: AnalyticsConfig { google_analytics_id: None },
        }
    }
}

} // verus!

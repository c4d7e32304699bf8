//! The post entity: parsed metadata plus the derived attributes, and the
//! collection order over posts.
use vstd::prelude::*;

verus! {

use crate::chars::chars_to_string;
use crate::chars::str_to_chars;
use crate::date::parsed_date;
use crate::date::parse_date;
use crate::date::date_key;
use crate::date::DateStamp;
use crate::date::formatted_date_str;
use crate::date::formatted_date_chars;
use crate::date::iso_date_str;
use crate::date::iso_date_chars;
use crate::excerpt::excerpt_of;
use crate::excerpt::generate_excerpt;
use crate::slug::slug_of;
use crate::slug::generate_slug;
use crate::text::lex_le;
use crate::text::lex_le_chars;
use crate::text::lemma_lex_le_total;
use crate::text::lemma_lex_le_trans;
use crate::words::split_words;
use crate::words::words_of;

/// One blog post, fully derived from one source document.
#[derive(Debug, Clone)]
pub struct BlogPost {
    pub title: String,
    pub date: String,
    pub date_parsed: Option<DateStamp>,
    pub description: String,
    pub content: String,
    pub path: String,
    pub slug: String,
    pub tags: Vec<String>,
    pub reading_time: u32,
    pub excerpt: String,
}

/// The mathematical shadow of a [`BlogPost`].
pub ghost struct PostModel {
    pub title: Seq<char>,
    pub date: Seq<char>,
    pub date_parsed: Option<DateStamp>,
    pub description: Seq<char>,
    pub content: Seq<char>,
    pub path: Seq<char>,
    pub slug: Seq<char>,
    pub tags: Seq<Seq<char>>,
    pub reading_time: u32,
    pub excerpt: Seq<char>,
}

/// The views of a sequence of strings.
pub open spec fn str_views(ss: Seq<String>) -> Seq<Seq<char>> {
    ss.map_values(|s: String| s@)
}

/// The models of a sequence of posts.
pub open spec fn post_views(ps: Seq<BlogPost>) -> Seq<PostModel> {
    ps.map_values(|p: BlogPost| p@)
}

impl View for BlogPost {
    type V = PostModel;

    open spec fn view(&self) -> PostModel {
        PostModel {
            title: self.title@,
            date: self.date@,
            date_parsed: self.date_parsed,
            description: self.description@,
            content: self.content@,
            path: self.path@,
            slug: self.slug@,
            tags: str_views(self.tags@),
            reading_time: self.reading_time,
            excerpt: self.excerpt@,
        }
    }
}

/// Reading time in minutes: the word count at 200 words per minute,
/// rounded up, never below one.
pub open spec fn reading_time_of(words: nat) -> nat {
    if words == 0 {
        1
    } else {
        ((words + 199) / 200) as nat
    }
}

/// [`reading_time_of`] clamped into a `u32`.
pub open spec fn reading_time_u32(words: nat) -> u32 {
    if reading_time_of(words) > u32::MAX {
        u32::MAX
    } else {
        reading_time_of(words) as u32
    }
}

/// The post a well-formed document with these fields builds: the given
/// values plus every derived attribute.
pub open spec fn built_post(
    title: Seq<char>,
    date: Seq<char>,
    description: Seq<char>,
    content: Seq<char>,
    path: Seq<char>,
    tags: Seq<Seq<char>>,
) -> PostModel {
    PostModel {
        title: title,
        date: date,
        date_parsed: parsed_date(date),
        description: description,
        content: content,
        path: path,
        slug: slug_of(title),
        tags: tags,
        reading_time: reading_time_u32(words_of(content).len()),
        excerpt: excerpt_of(content),
    }
}

/// The display form of a post's date: the parsed date when there is one,
/// else the raw string.
pub open spec fn formatted_date_view(p: PostModel) -> Seq<char> {
    match p.date_parsed {
        Some(d) => formatted_date_str(d),
        None => p.date,
    }
}

/// The timestamp form of a post's date: the parsed date at midnight UTC
/// when there is one, else the raw string.
pub open spec fn iso_date_view(p: PostModel) -> Seq<char> {
    match p.date_parsed {
        Some(d) => iso_date_str(d),
        None => p.date,
    }
}

impl BlogPost {
    /// Builds a post from parsed metadata, the rendered body, and the
    /// filename-derived path token; every derived field is computed here.
    pub fn new(
        title: String,
        date: String,
        description: String,
        content: String,
        path: String,
        tags: Vec<String>,
    ) -> (p: BlogPost)
        ensures
            p@ == built_post(title@, date@, description@, content@, path@, str_views(tags@)),
    {
        let dchars = str_to_chars(date.as_str());
        let date_parsed = parse_date(&dchars);
        let slug = generate_slug(title.as_str());
        let reading_time = calculate_reading_time(content.as_str());
        let excerpt = generate_excerpt(content.as_str());
        BlogPost {
            title,
            date,
            date_parsed,
            description,
            content,
            path,
            slug,
            tags,
            reading_time,
            excerpt,
        }
    }

    pub fn formatted_date(&self) -> (r: String)
        ensures
            r@ == formatted_date_view(self@),
    {
        match &self.date_parsed {
            Some(d) => {
                let v = formatted_date_chars(d);
                chars_to_string(&v)
            },
            None => self.date.clone(),
        }
    }

    pub fn iso_date(&self) -> (r: String)
        ensures
            r@ == iso_date_view(self@),
    {
        match &self.date_parsed {
            Some(d) => {
                let v = iso_date_chars(d);
                chars_to_string(&v)
            },
            None => self.date.clone(),
        }
    }
}

impl PartialEq for BlogPost {
    /// Two posts are the same post when their path tokens agree.
    fn eq(&self, other: &Self) -> (r: bool) {
        self.path == other.path
    }
}

impl Eq for BlogPost {

}

impl vstd::std_specs::cmp::PartialEqSpecImpl for BlogPost {
    open spec fn obeys_eq_spec() -> bool {
        true
    }

    open spec fn eq_spec(&self, other: &BlogPost) -> bool {
        self.path@ == other.path@
    }
}

/// Counts the whitespace-delimited words of a text and converts the count
/// to minutes of reading.
pub fn calculate_reading_time(content: &str) -> (r: u32)
    ensures
        r == reading_time_u32(words_of(content@).len()),
{
    let v = str_to_chars(content);
    let ws = split_words(&v);
    let w = ws.len();
    proof {
        assert(crate::words::views_of(ws@).len() == ws@.len());
    }
    if w == 0 {
        1
    } else {
        let q = w / 200;
        let rem = w % 200;
        let rt: usize = if rem > 0 {
            q + 1
        } else {
            q
        };
        proof {
            assert(rt == reading_time_of(w as nat));
        }
        if rt > u32::MAX as usize {
            u32::MAX
        } else {
            rt as u32
        }
    }
}

/// The collection order: parsed dates newest first, posts with a parsed
/// date before posts without, and otherwise the raw date strings
/// lexicographically descending.
pub open spec fn post_le(a: PostModel, b: PostModel) -> bool {
    match (a.date_parsed, b.date_parsed) {
        (Some(x), Some(y)) => date_key(y) <= date_key(x),
        (Some(_), None) => true,
        (None, Some(_)) => false,
        (None, None) => lex_le(b.date, a.date),
    }
}

pub fn post_le_exec(a: &BlogPost, b: &BlogPost) -> (r: bool)
    ensures
        r == post_le(a@, b@),
{
    match (&a.date_parsed, &b.date_parsed) {
        (Some(x), Some(y)) => {
            let kx = (x.year as u64) * 10000 + (x.month as u64) * 100 + (x.day as u64);
            let ky = (y.year as u64) * 10000 + (y.month as u64) * 100 + (y.day as u64);
            ky <= kx
        },
        (Some(_), None) => true,
        (None, Some(_)) => false,
        (None, None) => {
            let da = str_to_chars(a.date.as_str());
            let db = str_to_chars(b.date.as_str());
            lex_le_chars(&db, &da)
        },
    }
}

/// The collection order can compare any two posts.
pub proof fn lemma_post_le_total(a: PostModel, b: PostModel)
    ensures
        post_le(a, b) || post_le(b, a),
{
    if a.date_parsed is None && b.date_parsed is None {
        lemma_lex_le_total(a.date, b.date);
    }
}

/// The collection order is transitive.
pub proof fn lemma_post_le_trans(a: PostModel, b: PostModel, c: PostModel)
    requires
        post_le(a, b),
        post_le(b, c),
    ensures
        post_le(a, c),
{
    if a.date_parsed is None && b.date_parsed is None && c.date_parsed is None {
        lemma_lex_le_trans(c.date, b.date, a.date);
    }
}

} // verus!

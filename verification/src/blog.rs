//! Loading the post collection: the frontmatter grammar, per-document
//! parsing with tolerant failure, the collection order, and lookup.
use vstd::prelude::*;

verus! {

use crate::chars::chars_to_string;
use crate::chars::copy_range;
use crate::chars::push_chars;
use crate::chars::push_lit;
use crate::chars::str_to_chars;
use crate::error::AppError;
use crate::markdown::html_of;
use crate::markdown::markdown_to_html;
use crate::post::built_post;
use crate::post::post_le;
use crate::post::post_views;
use crate::post::BlogPost;
use crate::post::PostModel;
use crate::post::str_views;
use crate::text::find_from;
use crate::text::find_idx;
use crate::text::lemma_find_from_agrees;
use crate::text::lemma_find_from_none;
use crate::text::match_at;
use crate::text::starts_with_at;
use crate::words::char_pred;
use crate::words::space_pred;
use crate::words::split_tokens;
use crate::words::tokens_of;
use crate::words::trim_ch;
use crate::words::trim_ch_vec;
use crate::words::trim_front;
use crate::words::trim_front_ws_vec;
use crate::words::trim_ws;
use crate::words::trim_ws_vec;
use crate::words::views_of;
use crate::words::Sep;

/// The frontmatter delimiter.
pub open spec fn delim() -> Seq<char> {
    "---"@
}

/// The metadata block and the body of a document: the text between the
/// first two delimiters, and everything after the second. A document with
/// fewer than two delimiters is no post.
pub open spec fn doc_split(s: Seq<char>) -> Option<(Seq<char>, Seq<char>)> {
    let f1 = find_idx(s, delim());
    if f1 < 0 {
        None
    } else {
        let rest = s.skip(f1 + delim().len());
        let f2 = find_idx(rest, delim());
        if f2 < 0 {
            None
        } else {
            Some((rest.take(f2), rest.skip(f2 + delim().len())))
        }
    }
}

/// The non-empty lines of a metadata block.
pub open spec fn meta_lines(meta: Seq<char>) -> Seq<Seq<char>> {
    tokens_of(meta, char_pred('\n'))
}

/// What a field's line begins with.
pub open spec fn field_prefix(name: Seq<char>) -> Seq<char> {
    name + ":"@
}

/// The text after `name:` on the first line that begins with it.
pub open spec fn field_rest(ls: Seq<Seq<char>>, name: Seq<char>) -> Option<Seq<char>>
    decreases ls.len(),
{
    if ls.len() == 0 {
        None
    } else if match_at(ls[0], 0, field_prefix(name)) {
        Some(ls[0].skip(field_prefix(name).len() as int))
    } else {
        field_rest(ls.skip(1), name)
    }
}

/// A scalar value: the raw text trimmed of whitespace, then of quotes.
pub open spec fn scalar_value(rest: Seq<char>) -> Seq<char> {
    trim_ch(trim_ws(rest), '"')
}

/// A required scalar field of a metadata block; `None` when no line
/// carries it or its value is empty.
pub open spec fn scalar_field(ls: Seq<Seq<char>>, name: Seq<char>) -> Option<Seq<char>> {
    match field_rest(ls, name) {
        None => None,
        Some(rest) => {
            let v = scalar_value(rest);
            if v.len() > 0 {
                Some(v)
            } else {
                None
            }
        },
    }
}

/// One tag: a list element trimmed of whitespace and both quote kinds.
pub open spec fn tag_value(t: Seq<char>) -> Seq<char> {
    trim_ch(trim_ch(trim_ws(t), '"'), '\'')
}

/// The trimmed, non-empty elements of a comma-separated list.
pub open spec fn tags_from(items: Seq<Seq<char>>) -> Seq<Seq<char>>
    decreases items.len(),
{
    if items.len() == 0 {
        Seq::empty()
    } else {
        let v = tag_value(items[0]);
        let rest = tags_from(items.skip(1));
        if v.len() > 0 {
            seq![v] + rest
        } else {
            rest
        }
    }
}

/// The optional tag list of a metadata block: the bracketed list on the
/// `tags:` line; empty when the line or its brackets are missing.
pub open spec fn tags_field(ls: Seq<Seq<char>>) -> Seq<Seq<char>> {
    match field_rest(ls, "tags"@) {
        None => Seq::empty(),
        Some(rest) => {
            let t = trim_front(rest, space_pred());
            if t.len() >= 1 && t[0] == '[' {
                let inner = t.skip(1);
                let j = find_idx(inner, "]"@);
                if j >= 0 {
                    tags_from(tokens_of(inner.take(j), char_pred(',')))
                } else {
                    Seq::empty()
                }
            } else {
                Seq::empty()
            }
        },
    }
}

/// A filename without its `.md` extension, if it has one.
pub open spec fn strip_md_suffix(name: Seq<char>) -> Seq<char> {
    if name.len() >= 3 && match_at(name, name.len() - 3, ".md"@) {
        name.take(name.len() - 3)
    } else {
        name
    }
}

/// The outcome of parsing one source document.
pub ghost enum DocParse {
    /// Fewer than two delimiters: silently skipped.
    NotAPost,
    /// A required scalar field is missing or empty: reported and skipped.
    MissingField(Seq<char>),
    /// A well-formed document and the post it builds.
    Parsed(PostModel),
}

/// What parsing a document with the given text and filename yields.
pub open spec fn parse_doc(text: Seq<char>, name: Seq<char>) -> DocParse {
    match doc_split(text) {
        None => DocParse::NotAPost,
        Some((meta, body)) => {
            let ls = meta_lines(meta);
            if scalar_field(ls, "title"@) is None {
                DocParse::MissingField("title"@)
            } else if scalar_field(ls, "date"@) is None {
                DocParse::MissingField("date"@)
            } else if scalar_field(ls, "description"@) is None {
                DocParse::MissingField("description"@)
            } else {
                DocParse::Parsed(
                    built_post(
                        scalar_field(ls, "title"@).unwrap(),
                        scalar_field(ls, "date"@).unwrap(),
                        scalar_field(ls, "description"@).unwrap(),
                        html_of(body),
                        strip_md_suffix(name),
                        tags_field(ls),
                    ),
                )
            }
        },
    }
}

/// The error detail reported for a missing required field.
pub open spec fn missing_msg(name: Seq<char>) -> Seq<char> {
    "Missing "@ + name + " field in frontmatter"@
}

fn field_rest_exec(lines: &Vec<Vec<char>>, name: &str) -> (r: Option<Vec<char>>)
    ensures
        match r {
            Some(v) => field_rest(views_of(lines@), name@) == Some(v@),
            None => field_rest(views_of(lines@), name@) is None,
        },
{
    let mut prefix = str_to_chars(name);
    prefix.push(':');
    proof {
        reveal_strlit(":");
        assert(prefix@ =~= field_prefix(name@));
    }
    let ghost ls = views_of(lines@);
    let mut i: usize = 0;
    proof {
        assert(ls.skip(0) =~= ls);
    }
    while i < lines.len()
        invariant
            i <= lines.len(),
            prefix@ == field_prefix(name@),
            ls == views_of(lines@),
            field_rest(ls, name@) == field_rest(ls.skip(i as int), name@),
        decreases lines.len() - i,
    {
        proof {
            assert(ls.skip(i as int)[0] == lines@[i as int]@);
            assert(ls.skip(i as int).skip(1) =~= ls.skip(i + 1));
        }
        if starts_with_at(&lines[i], 0, &prefix) {
            let line_len = lines[i].len();
            let rest = copy_range(&lines[i], prefix.len(), line_len);
            proof {
                assert(rest@ =~= lines@[i as int]@.skip(field_prefix(name@).len() as int));
            }
            return Some(rest);
        }
        i = i + 1;
    }
    proof {
        assert(ls.skip(ls.len() as int) =~= Seq::<Seq<char>>::empty());
    }
    None
}

fn scalar_field_exec(lines: &Vec<Vec<char>>, name: &str) -> (r: Option<Vec<char>>)
    ensures
        match r {
            Some(v) => scalar_field(views_of(lines@), name@) == Some(v@) && v@.len() > 0,
            None => scalar_field(views_of(lines@), name@) is None,
        },
{
    match field_rest_exec(lines, name) {
        None => None,
        Some(rest) => {
            let t = trim_ws_vec(&rest);
            let v = trim_ch_vec(&t, '"');
            if v.len() > 0 {
                Some(v)
            } else {
                None
            }
        },
    }
}

fn tags_field_exec(lines: &Vec<Vec<char>>) -> (r: Vec<Vec<char>>)
    ensures
        views_of(r@) == tags_field(views_of(lines@)),
{
    let empty: Vec<Vec<char>> = Vec::new();
    proof {
        assert(views_of(empty@) =~= Seq::<Seq<char>>::empty());
    }
    match field_rest_exec(lines, "tags") {
        None => empty,
        Some(rest) => {
            let t = trim_front_ws_vec(&rest);
            if t.len() >= 1 && t[0] == '[' {
                let inner_len = t.len();
                let inner = copy_range(&t, 1, inner_len);
                proof {
                    assert(inner@ =~= trim_front(rest@, space_pred()).skip(1));
                }
                let close = str_to_chars("]");
                proof {
                    reveal_strlit("]");
                }
                match find_from(&inner, 0, &close) {
                    Some(j) => {
                        proof {
                            assert(inner@.skip(0) =~= inner@);
                            lemma_find_from_agrees(inner@, 0, "]"@, j as int);
                        }
                        let body = copy_range(&inner, 0, j);
                        proof {
                            assert(body@ =~= inner@.take(j as int));
                        }
                        let items = split_tokens(&body, Sep::Match(','));
                        tags_items_exec(&items)
                    },
                    None => {
                        proof {
                            assert(inner@.skip(0) =~= inner@);
                            lemma_find_from_none(inner@, 0, "]"@);
                        }
                        empty
                    },
                }
            } else {
                empty
            }
        },
    }
}

fn tags_items_exec(items: &Vec<Vec<char>>) -> (r: Vec<Vec<char>>)
    ensures
        views_of(r@) == tags_from(views_of(items@)),
{
    let ghost its = views_of(items@);
    let mut out: Vec<Vec<char>> = Vec::new();
    let mut i: usize = 0;
    proof {
        assert(its.skip(0) =~= its);
        assert(views_of(out@) =~= Seq::<Seq<char>>::empty());
        assert(Seq::<Seq<char>>::empty() + tags_from(its) =~= tags_from(its));
    }
    while i < items.len()
        invariant
            i <= items.len(),
            its == views_of(items@),
            tags_from(its) == views_of(out@) + tags_from(its.skip(i as int)),
        decreases items.len() - i,
    {
        let ghost out0 = views_of(out@);
        proof {
            assert(its.skip(i as int)[0] == items@[i as int]@);
            assert(its.skip(i as int).skip(1) =~= its.skip(i + 1));
        }
        let t = trim_ws_vec(&items[i]);
        let t = trim_ch_vec(&t, '"');
        let t = trim_ch_vec(&t, '\'');
        let ghost tv = t@;
        if t.len() > 0 {
            out.push(t);
            proof {
                assert(views_of(out@) =~= out0.push(tv));
                assert(out0 + (seq![tv] + tags_from(its.skip(i + 1))) =~= out0.push(tv)
                    + tags_from(its.skip(i + 1)));
            }
        }
        i = i + 1;
    }
    proof {
        assert(its.skip(its.len() as int) =~= Seq::<Seq<char>>::empty());
        assert(views_of(out@) =~= tags_from(its));
    }
    out
}

fn missing_field_error(name: &str) -> (e: AppError)
    ensures
        e matches AppError::BlogParsing(m) && m@ == missing_msg(name@),
{
    let mut v: Vec<char> = Vec::new();
    push_lit(&mut v, "Missing ");
    let n = str_to_chars(name);
    push_chars(&mut v, &n);
    push_lit(&mut v, " field in frontmatter");
    proof {
        assert(v@ =~= missing_msg(name@));
    }
    AppError::BlogParsing(chars_to_string(&v))
}

/// One source document handed to the loader: the file's stem name and
/// its full text.
pub struct SourceDoc {
    pub name: String,
    pub text: String,
}

/// The mathematical shadow of a [`SourceDoc`].
pub ghost struct DocModel {
    pub name: Seq<char>,
    pub text: Seq<char>,
}

impl View for SourceDoc {
    type V = DocModel;

    open spec fn view(&self) -> DocModel {
        DocModel { name: self.name@, text: self.text@ }
    }
}

pub open spec fn doc_views(ds: Seq<SourceDoc>) -> Seq<DocModel> {
    ds.map_values(|d: SourceDoc| d@)
}

/// The posts of the well-formed documents, in document order.
pub open spec fn loaded_posts(ds: Seq<DocModel>) -> Seq<PostModel>
    decreases ds.len(),
{
    if ds.len() == 0 {
        Seq::empty()
    } else {
        let head = match parse_doc(ds[0].text, ds[0].name) {
            DocParse::Parsed(pm) => seq![pm],
            _ => Seq::empty(),
        };
        head + loaded_posts(ds.skip(1))
    }
}

/// The names of the documents that were skipped, in document order.
pub open spec fn skipped_names(ds: Seq<DocModel>) -> Seq<Seq<char>>
    decreases ds.len(),
{
    if ds.len() == 0 {
        Seq::empty()
    } else {
        let head = match parse_doc(ds[0].text, ds[0].name) {
            DocParse::Parsed(_) => Seq::empty(),
            _ => seq![ds[0].name],
        };
        head + skipped_names(ds.skip(1))
    }
}

/// The collection order holds between every earlier and every later post.
pub open spec fn posts_in_order(ps: Seq<BlogPost>) -> bool {
    forall|i: int, j: int| 0 <= i < j < ps.len() ==> post_le(ps[i]@, ps[j]@)
}

/// In an ordered collection a post without a parsed date never precedes
/// one with a parsed date.
pub proof fn lemma_dated_before_undated(ps: Seq<BlogPost>, i: int, j: int)
    requires
        posts_in_order(ps),
        0 <= i < j < ps.len(),
        ps[i]@.date_parsed is None,
    ensures
        ps[j]@.date_parsed is None,
{
    assert(post_le(ps[i]@, ps[j]@));
}

/// Inserting anywhere adds one occurrence to the multiset of a sequence.
proof fn lemma_insert_to_multiset<A>(s: Seq<A>, i: int, x: A)
    requires
        0 <= i <= s.len(),
    ensures
        s.insert(i, x).to_multiset() =~= s.to_multiset().insert(x),
{
    assert(s.insert(i, x) =~= s.take(i) + (seq![x] + s.skip(i)));
    vstd::seq_lib::lemma_multiset_commutative(s.take(i), seq![x] + s.skip(i));
    vstd::seq_lib::lemma_multiset_commutative(seq![x], s.skip(i));
    assert(s =~= s.take(i) + s.skip(i));
    vstd::seq_lib::lemma_multiset_commutative(s.take(i), s.skip(i));
    assert(seq![x] =~= Seq::<A>::empty().push(x));
    Seq::<A>::empty().to_multiset_ensures();
    assert(Seq::<A>::empty().to_multiset() =~= vstd::multiset::Multiset::<A>::empty()) by {
        assert forall|y: A| Seq::<A>::empty().to_multiset().count(y) == 0 by {
            assert(!Seq::<A>::empty().contains(y));
        }
    }
    assert(seq![x].to_multiset() =~= vstd::multiset::Multiset::<A>::empty().insert(x));
}

fn find_insert_pos(out: &Vec<BlogPost>, p: &BlogPost) -> (j: usize)
    ensures
        j <= out.len(),
        forall|k: int| 0 <= k < j ==> post_le(out@[k]@, p@),
        j < out.len() ==> !post_le(out@[j as int]@, p@),
{
    let mut j: usize = 0;
    while j < out.len()
        invariant
            j <= out.len(),
            forall|k: int| 0 <= k < j ==> post_le(out@[k]@, p@),
        decreases out.len() - j,
    {
        if !crate::post::post_le_exec(&out[j], p) {
            return j;
        }
        j = j + 1;
    }
    j
}

/// Orders a collection of posts: parsed dates newest first, undated
/// posts after all dated ones.
#[verifier::loop_isolation(false)]
pub fn sort_posts(posts: Vec<BlogPost>) -> (r: Vec<BlogPost>)
    ensures
        posts_in_order(r@),
        post_views(r@).to_multiset() == post_views(posts@).to_multiset(),
        r@.len() == posts@.len(),
{
    let ghost full = post_views(posts@);
    let mut rest = posts;
    let mut out: Vec<BlogPost> = Vec::new();
    proof {
        assert(post_views(out@) =~= Seq::<PostModel>::empty());
        Seq::<PostModel>::empty().to_multiset_ensures();
        assert forall|y: PostModel| Seq::<PostModel>::empty().to_multiset().count(y) == 0 by {
            assert(!Seq::<PostModel>::empty().contains(y));
        }
        assert(post_views(out@).to_multiset().add(post_views(rest@).to_multiset())
            =~= full.to_multiset());
    }
    loop
        invariant
            posts_in_order(out@),
            post_views(out@).to_multiset().add(post_views(rest@).to_multiset())
                == full.to_multiset(),
            out@.len() + rest@.len() == full.len(),
        decreases rest.len(),
    {
        let ghost rest0 = post_views(rest@);
        let ghost out0 = out@;
        match rest.pop() {
            None => {
                proof {
                    assert(rest0 =~= Seq::<PostModel>::empty());
                    rest0.to_multiset_ensures();
                    assert forall|y: PostModel| rest0.to_multiset().count(y) == 0 by {
                        assert(!rest0.contains(y));
                    }
                    assert(post_views(out@).to_multiset() =~= full.to_multiset());
                }
                return out;
            },
            Some(p) => {
                proof {
                    assert(rest0 =~= post_views(rest@).push(p@));
                    post_views(rest@).to_multiset_ensures();
                    assert(post_views(rest@).push(p@).to_multiset() =~= post_views(
                        rest@,
                    ).to_multiset().insert(p@));
                }
                let j = find_insert_pos(&out, &p);
                let ghost pm = p@;
                out.insert(j, p);
                proof {
                    assert(rest0.to_multiset() =~= post_views(rest@).to_multiset().insert(pm));
                    assert(out@ == out0.insert(j as int, p));
                    assert forall|k: int| 0 <= k < out@.len() implies post_views(out@)[k]
                        == post_views(out0).insert(j as int, pm)[k] by {
                        if k < j {
                            assert(out@[k] == out0[k]);
                        } else if k == j {
                            assert(out@[k] == p);
                        } else {
                            assert(out@[k] == out0[k - 1]);
                        }
                    }
                    assert(post_views(out@) =~= post_views(out0).insert(j as int, pm));
                    lemma_insert_to_multiset(post_views(out0), j as int, pm);
                    assert(post_views(out@).to_multiset().add(post_views(rest@).to_multiset())
                        =~= full.to_multiset());
                    assert forall|i1: int, j1: int|
                        0 <= i1 < j1 < out@.len() implies post_le(out@[i1]@, out@[j1]@) by {
                        crate::post::lemma_post_le_total(pm, out0[j1 - 1]@);
                        if i1 < j && j1 > j {
                            assert(out@[i1] == out0[i1]);
                            assert(out@[j1] == out0[j1 - 1]);
                        }
                        if i1 == j && j1 > j {
                            assert(out@[j1] == out0[j1 - 1]);
                            if j < out0.len() {
                                crate::post::lemma_post_le_total(out0[j as int]@, pm);
                                if j1 - 1 > j {
                                    crate::post::lemma_post_le_trans(
                                        pm,
                                        out0[j as int]@,
                                        out0[j1 - 1]@,
                                    );
                                }
                            }
                        }
                    }
                }
            },
        }
    }
}

/// The first position whose post carries the given slug.
pub open spec fn first_with_slug(ps: Seq<BlogPost>, key: Seq<char>) -> int
    decreases ps.len(),
{
    if ps.len() == 0 {
        -1
    } else if ps[0]@.slug == key {
        0
    } else {
        let r = first_with_slug(ps.skip(1), key);
        if r < 0 {
            -1
        } else {
            r + 1
        }
    }
}

/// The first position whose post carries the given path token.
pub open spec fn first_with_path(ps: Seq<BlogPost>, key: Seq<char>) -> int
    decreases ps.len(),
{
    if ps.len() == 0 {
        -1
    } else if ps[0]@.path == key {
        0
    } else {
        let r = first_with_path(ps.skip(1), key);
        if r < 0 {
            -1
        } else {
            r + 1
        }
    }
}

/// Dual-key lookup: the first post whose identifier is the key, else the
/// first whose path token is, else nothing.
pub open spec fn find_spec(ps: Seq<BlogPost>, key: Seq<char>) -> Option<int> {
    let s = first_with_slug(ps, key);
    let p = first_with_path(ps, key);
    if s >= 0 {
        Some(s)
    } else if p >= 0 {
        Some(p)
    } else {
        None
    }
}

pub struct BlogService;

impl BlogService {
    /// Parses one source document into a post: `Ok(None)` when the
    /// document is no post, `Err` when a required field is missing or
    /// empty, `Ok(Some(_))` with every derived field otherwise.
    pub fn parse_blog_post(content: &str, filename: &str) -> (r: Result<
        Option<BlogPost>,
        AppError,
    >)
        ensures
            match parse_doc(content@, filename@) {
                DocParse::NotAPost => r matches Ok(p) && p is None,
                DocParse::MissingField(f) => r matches Err(e) && e matches AppError::BlogParsing(m)
                    && m@ == missing_msg(f),
                DocParse::Parsed(pm) => r matches Ok(p) && p matches Some(post) && post@ == pm,
            },
    {
        let v = str_to_chars(content);
        let delim_v = str_to_chars("---");
        proof {
            reveal_strlit("---");
            assert(v@.skip(0) =~= v@);
        }
        let j1 = match find_from(&v, 0, &delim_v) {
            Some(j1) => {
                proof {
                    lemma_find_from_agrees(v@, 0, delim(), j1 as int);
                }
                j1
            },
            None => {
                proof {
                    lemma_find_from_none(v@, 0, delim());
                }
                return Ok(None);
            },
        };
        let vlen = v.len();
        proof {
            assert(match_at(v@, j1 as int, delim()));
            assert(j1 + 3 <= vlen);
        }
        let ghost rest = v@.skip(j1 + 3);
        let j2 = match find_from(&v, j1 + 3, &delim_v) {
            Some(j2) => {
                proof {
                    lemma_find_from_agrees(v@, j1 + 3, delim(), j2 as int);
                }
                j2
            },
            None => {
                proof {
                    lemma_find_from_none(v@, j1 + 3, delim());
                }
                return Ok(None);
            },
        };
        let ghost f2 = j2 - j1 - 3;
        let meta = copy_range(&v, j1 + 3, j2);
        let body = copy_range(&v, j2 + 3, v.len());
        proof {
            assert(meta@ =~= rest.take(f2));
            assert(body@ =~= rest.skip(f2 + 3));
        }
        let lines = split_tokens(&meta, Sep::Match('\n'));
        let ghost ls = meta_lines(rest.take(f2));
        let title = match scalar_field_exec(&lines, "title") {
            Some(t) => t,
            None => {
                return Err(missing_field_error("title"));
            },
        };
        let date = match scalar_field_exec(&lines, "date") {
            Some(t) => t,
            None => {
                return Err(missing_field_error("date"));
            },
        };
        let description = match scalar_field_exec(&lines, "description") {
            Some(t) => t,
            None => {
                return Err(missing_field_error("description"));
            },
        };
        let tags = tags_field_exec(&lines);
        let body_str = chars_to_string(&body);
        let html = markdown_to_html(body_str.as_str());
        let fv = str_to_chars(filename);
        let md_suffix = str_to_chars(".md");
        proof {
            reveal_strlit(".md");
        }
        let path = if fv.len() >= 3 {
            if starts_with_at(&fv, fv.len() - 3, &md_suffix) {
                let cut = fv.len() - 3;
                let p = copy_range(&fv, 0, cut);
                proof {
                    assert(p@ =~= strip_md_suffix(filename@));
                }
                p
            } else {
                fv
            }
        } else {
            fv
        };
        let mut tag_strings: Vec<String> = Vec::new();
        let mut i: usize = 0;
        while i < tags.len()
            invariant
                i <= tags.len(),
                tag_strings@.len() == i,
                forall|k: int| 0 <= k < i ==> tag_strings@[k]@ == tags@[k]@,
            decreases tags.len() - i,
        {
            let s = chars_to_string(&tags[i]);
            tag_strings.push(s);
            i = i + 1;
        }
        proof {
            assert forall|k: int|
                0 <= k < tags@.len() implies str_views(tag_strings@)[k] == views_of(tags@)[k] by {
                assert(str_views(tag_strings@)[k] == tag_strings@[k]@);
                assert(views_of(tags@)[k] == tags@[k]@);
            }
            assert(str_views(tag_strings@) =~= views_of(tags@));
        }
        let post = BlogPost::new(
            chars_to_string(&title),
            chars_to_string(&date),
            chars_to_string(&description),
            html,
            chars_to_string(&path),
            tag_strings,
        );
        Ok(Some(post))
    }

    /// Builds the ordered collection from the source documents. A
    /// document that is no post or lacks a required field is skipped and
    /// its name reported; it never aborts the load. Two titles that
    /// normalize to the same identifier are kept as they are: collisions
    /// are not detected, and lookup then finds the earlier post.
    pub fn load_posts(docs: &Vec<SourceDoc>) -> (r: (Vec<BlogPost>, Vec<String>))
        ensures
            posts_in_order(r.0@),
            post_views(r.0@).to_multiset() == loaded_posts(doc_views(docs@)).to_multiset(),
            r.0@.len() == loaded_posts(doc_views(docs@)).len(),
            str_views(r.1@) == skipped_names(doc_views(docs@)),
    {
        let ghost dviews = doc_views(docs@);
        let mut collected: Vec<BlogPost> = Vec::new();
        let mut skipped: Vec<String> = Vec::new();
        let mut i: usize = 0;
        proof {
            assert(dviews.skip(0) =~= dviews);
            assert(post_views(collected@) =~= Seq::<PostModel>::empty());
            assert(str_views(skipped@) =~= Seq::<Seq<char>>::empty());
            assert(Seq::<PostModel>::empty() + loaded_posts(dviews) =~= loaded_posts(dviews));
            assert(Seq::<Seq<char>>::empty() + skipped_names(dviews) =~= skipped_names(dviews));
        }
        while i < docs.len()
            invariant
                i <= docs.len(),
                dviews == doc_views(docs@),
                loaded_posts(dviews) == post_views(collected@) + loaded_posts(
                    dviews.skip(i as int),
                ),
                skipped_names(dviews) == str_views(skipped@) + skipped_names(
                    dviews.skip(i as int),
                ),
            decreases docs.len() - i,
        {
            let ghost drest = dviews.skip(i as int);
            let ghost col0 = post_views(collected@);
            let ghost skip0 = str_views(skipped@);
            proof {
                assert(drest[0] == docs@[i as int]@);
                assert(drest.skip(1) =~= dviews.skip(i + 1));
            }
            let doc = &docs[i];
            match Self::parse_blog_post(doc.text.as_str(), doc.name.as_str()) {
                Ok(Some(post)) => {
                    let ghost pm = post@;
                    collected.push(post);
                    proof {
                        assert(post_views(collected@) =~= col0.push(pm));
                        assert(loaded_posts(drest) == seq![pm] + loaded_posts(dviews.skip(i + 1)));
                        assert(col0 + (seq![pm] + loaded_posts(dviews.skip(i + 1))) =~= col0.push(
                            pm,
                        ) + loaded_posts(dviews.skip(i + 1)));
                        assert(skipped_names(drest) == skipped_names(dviews.skip(i + 1)));
                    }
                },
                Ok(None) => {
                    let ghost nm = doc.name@;
                    skipped.push(doc.name.clone());
                    proof {
                        assert(str_views(skipped@) =~= skip0.push(nm));
                        assert(skipped_names(drest) == seq![nm] + skipped_names(
                            dviews.skip(i + 1),
                        ));
                        assert(skip0 + (seq![nm] + skipped_names(dviews.skip(i + 1)))
                            =~= skip0.push(nm) + skipped_names(dviews.skip(i + 1)));
                        assert(loaded_posts(drest) == loaded_posts(dviews.skip(i + 1)));
                    }
                },
                Err(_) => {
                    let ghost nm = doc.name@;
                    skipped.push(doc.name.clone());
                    proof {
                        assert(str_views(skipped@) =~= skip0.push(nm));
                        assert(skipped_names(drest) == seq![nm] + skipped_names(
                            dviews.skip(i + 1),
                        ));
                        assert(skip0 + (seq![nm] + skipped_names(dviews.skip(i + 1)))
                            =~= skip0.push(nm) + skipped_names(dviews.skip(i + 1)));
                        assert(loaded_posts(drest) == loaded_posts(dviews.skip(i + 1)));
                    }
                },
            }
            i = i + 1;
        }
        proof {
            assert(dviews.skip(dviews.len() as int) =~= Seq::<DocModel>::empty());
            assert(post_views(collected@) =~= loaded_posts(dviews));
            assert(str_views(skipped@) =~= skipped_names(dviews));
        }
        let sorted = sort_posts(collected);
        (sorted, skipped)
    }

    /// Dual-key lookup: first by identifier, then by path token. Neither
    /// key space is authoritative, and among equal keys the first post in
    /// collection order wins.
    pub fn get_post_by_slug<'a>(posts: &'a Vec<BlogPost>, slug: &str) -> (r: Option<&'a BlogPost>)
        ensures
            match find_spec(posts@, slug@) {
                Some(i) => r matches Some(p) && *p == posts@[i],
                None => r is None,
            },
    {
        let key = str_to_chars(slug);
        let ghost ps = posts@;
        let mut i: usize = 0;
        proof {
            assert(ps.skip(0) =~= ps);
        }
        while i < posts.len()
            invariant
                i <= posts.len(),
                ps == posts@,
                key@ == slug@,
                first_with_slug(ps, slug@) == if first_with_slug(ps.skip(i as int), slug@) < 0 {
                    -1int
                } else {
                    first_with_slug(ps.skip(i as int), slug@) + i
                },
            decreases posts.len() - i,
        {
            proof {
                assert(ps.skip(i as int)[0] == ps[i as int]);
                assert(ps.skip(i as int).skip(1) =~= ps.skip(i + 1));
            }
            let pv = str_to_chars(posts[i].slug.as_str());
            if crate::chars::chars_eq(&pv, &key) {
                return Some(&posts[i]);
            }
            i = i + 1;
        }
        proof {
            assert(ps.skip(ps.len() as int) =~= Seq::<BlogPost>::empty());
            assert(first_with_slug(ps, slug@) < 0);
        }
        let mut i: usize = 0;
        proof {
            assert(ps.skip(0) =~= ps);
        }
        while i < posts.len()
            invariant
                i <= posts.len(),
                ps == posts@,
                key@ == slug@,
                first_with_slug(ps, slug@) < 0,
                first_with_path(ps, slug@) == if first_with_path(ps.skip(i as int), slug@) < 0 {
                    -1int
                } else {
                    first_with_path(ps.skip(i as int), slug@) + i
                },
            decreases posts.len() - i,
        {
            proof {
                assert(ps.skip(i as int)[0] == ps[i as int]);
                assert(ps.skip(i as int).skip(1) =~= ps.skip(i + 1));
            }
            let pv = str_to_chars(posts[i].path.as_str());
            if crate::chars::chars_eq(&pv, &key) {
                return Some(&posts[i]);
            }
            i = i + 1;
        }
        proof {
            assert(ps.skip(ps.len() as int) =~= Seq::<BlogPost>::empty());
            assert(first_with_path(ps, slug@) < 0);
        }
        None
    }
}

} // verus!

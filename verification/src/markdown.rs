//! The one step of the pipeline done by an outside crate: rendering a
//! markdown body to HTML.
use vstd::prelude::*;

verus! {

/// The HTML that the markdown renderer produces for a given text.
pub uninterp spec fn html_of(markdown: Seq<char>) -> Seq<char>;

/// Relies on pulldown_cmark's `Parser::new` and `html::push_html`: the
/// rendered HTML is a pure function of the markdown text alone.
#[verifier::external_body]
pub(crate) fn markdown_to_html(markdown: &str) -> (r: String)
    ensures
        r@ == html_of(markdown@),
{
    let parser = pulldown_cmark::Parser::new(markdown);
    let mut html_output = String::new();
    pulldown_cmark::html::push_html(&mut html_output, parser);
    html_output
}

} // verus!

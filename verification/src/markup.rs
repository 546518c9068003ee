//! The text of a post as it is shown: descriptions are written in Markdown and
//! shown as HTML.

use vstd::prelude::*;

verus! {

/// The HTML that `pulldown_cmark` renders for a Markdown text.
pub uninterp spec fn markdown_html(source: Seq<char>) -> Seq<char>;

/// `pulldown_cmark::Parser::new` and `pulldown_cmark::html::push_html`: parses the
/// text as CommonMark with no extension enabled and writes the HTML of what it
/// found to an empty string. The HTML depends on the text alone.
#[verifier::external_body]
fn render_markdown(source: &str) -> (html: String)
    ensures
        html@ == markdown_html(source@),
{
    let mut html = String::new();
    pulldown_cmark::html::push_html(&mut html, pulldown_cmark::Parser::new(source));
    html
}

/// Renders a Markdown text as HTML.
pub fn markdown(source: &str) -> (html: String)
    ensures
        html@ == markdown_html(source@),
{
    render_markdown(source)
}

/// The description of a post as it is shown: rendered where there is one, and
/// nothing where there is none.
pub fn description_html(description: Option<&String>) -> (html: Option<String>)
    ensures
        match description {
            Some(description) => html matches Some(html) && html@ == markdown_html(description@),
            None => html is None,
        },
{
    match description {
        Some(description) => Some(render_markdown(description.as_str())),
        None => None,
    }
}

} // verus!

//! Markdown rendering and HTML materialization.
//!
//! Rendering markdown to HTML is the pulldown-cmark crate's work; the crate
//! here names its result and derives the output path. Writing the rendered
//! file to disk is left to the caller of the library.

use vstd::prelude::*;

verus! {

/// The HTML rendering of a markdown text with strikethrough, footnotes and
/// tables enabled; what pulldown-cmark computes.
pub uninterp spec fn html_of(markdown: Seq<char>) -> Seq<char>;

/// Relies on pulldown-cmark's `Parser::new_ext` and `html::push_html`: the
/// rendered HTML depends on the markdown text alone.
#[verifier::external_body]
fn render_markdown(markdown: &str) -> (r: String)
    ensures
        r@ == html_of(markdown@),
{
    let mut options = pulldown_cmark::Options::empty();
    options.insert(pulldown_cmark::Options::ENABLE_STRIKETHROUGH);
    options.insert(pulldown_cmark::Options::ENABLE_FOOTNOTES);
    options.insert(pulldown_cmark::Options::ENABLE_TABLES);
    let parser = pulldown_cmark::Parser::new_ext(markdown, options);
    let mut html = String::with_capacity(markdown.len() * 3 / 2);
    pulldown_cmark::html::push_html(&mut html, parser);
    html
}

/// Converts the provided markdown to HTML.
pub fn markdown_to_html(markdown: &str) -> (r: String)
    ensures
        r@ == html_of(markdown@),
{
    render_markdown(markdown)
}

/// A rendered HTML document together with the path it is to be stored under.
#[derive(Debug)]
pub struct RenderedHtml {
    pub path: String,
    pub html: String,
}

/// The output path of a content unit's rendered HTML: the unit's name with an
/// added HTML extension, under the output directory.
pub open spec fn spec_html_path(output_dir: Seq<char>, file_name: Seq<char>) -> Seq<char> {
    output_dir + "/"@ + file_name + ".html"@
}

/// Renders a content unit's markdown body and derives the output path of the
/// HTML document; the stored document ends with a newline.
pub fn render_content_html(output_dir: &str, file_name: &str, markdown: &str) -> (r: RenderedHtml)
    ensures
        r.path@ == spec_html_path(output_dir@, file_name@),
        r.html@ == html_of(markdown@) + "\n"@,
{
    let mut path = String::from_str(output_dir);
    path.append("/");
    path.append(file_name);
    path.append(".html");
    let mut html = render_markdown(markdown);
    html.append("\n");
    proof {
        assert(path@ =~= spec_html_path(output_dir@, file_name@));
    }
    RenderedHtml { path, html }
}

} // verus!

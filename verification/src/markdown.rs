//! Markdown to HTML, by the pulldown-cmark crate.

use pulldown_cmark::{html, Options, Parser};
use vstd::prelude::*;

verus! {

/// The HTML that pulldown-cmark makes of `markdown` with its strikethrough
/// extension switched on and no other: what `html::push_html` appends to an
/// empty string for `Parser::new_ext`. Nothing more is stated of it here.
pub uninterp spec fn markdown_html(markdown: Seq<char>) -> Seq<char>;

/// Calls pulldown-cmark: `Parser::new_ext` on `markdown_content` with the
/// option `ENABLE_STRIKETHROUGH` alone, then `html::push_html` into an empty
/// string. The crate reads the text and nothing else, and has HTML for every
/// text; the contract gives that HTML its name and claims no more.
#[verifier::external_body]
pub(crate) fn convert_markdown_to_html(markdown_content: &str) -> (html_output: String)
    ensures
        html_output@ == markdown_html(markdown_content@),
{
    let mut options = Options::empty();
    options.insert(Options::ENABLE_STRIKETHROUGH);
    let parser = Parser::new_ext(markdown_content, options);
    let mut html_output = String::new();
    html::push_html(&mut html_output, parser);
    html_output
}

} // verus!

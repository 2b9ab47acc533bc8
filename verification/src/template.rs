//! The template engine: a page template is a text with the placeholder
//! `{content}` for the HTML of a body and, for each key of the metadata, a
//! placeholder `{key}` for its value.

use crate::frontmatter::{Entry, Frontmatter};
use crate::text::{
    append_chars, chars_of, contains, contains_chars, replace_all, replace_chars, string_of,
};
use vstd::prelude::*;

verus! {

/// The placeholder that every page template must hold.
pub open spec fn content_token() -> Seq<char> {
    "{content}"@
}

/// The placeholder for the value of `key`: the key between braces.
pub open spec fn placeholder(key: Seq<char>) -> Seq<char> {
    seq!['{'] + key + seq!['}']
}

/// `text` after the placeholders of `entries` have been replaced by their
/// values, one entry after the other in the order of `entries`. A later
/// entry reads what the earlier ones wrote.
pub open spec fn substitute_metadata(text: Seq<char>, entries: Seq<Entry>) -> Seq<char>
    decreases entries.len(),
{
    if entries.len() == 0 {
        text
    } else {
        substitute_metadata(
            replace_all(text, placeholder(entries[0].0), entries[0].1),
            entries.skip(1),
        )
    }
}

/// The page that `template` gives for a body's HTML and its metadata: every
/// `{content}` is replaced by the HTML, then the placeholders of the metadata
/// by their values. Nothing is escaped.
pub open spec fn render_page(
    template: Seq<char>,
    content_html: Seq<char>,
    metadata: Seq<Entry>,
) -> Seq<char> {
    substitute_metadata(replace_all(template, content_token(), content_html), metadata)
}

/// Why a template cannot be used.
#[derive(Debug, Clone, Copy, PartialEq, Eq)]
pub enum TemplateError {
    /// The template does not hold `{content}`.
    MissingContentPlaceholder,
}

impl TemplateError {
    /// The error in words.
    pub fn message(&self) -> (text: String)
        ensures
            text@ == "Invalid content template specified"@,
    {
        "Invalid content template specified".to_owned()
    }
}

/// Whether a text can serve as page template: it can if and only if it
/// holds `{content}`, whatever else it holds.
pub fn validate_content_template(template: &str) -> (checked: Result<(), TemplateError>)
    ensures
        checked is Ok <==> contains(template@, content_token()),
        checked is Err ==> checked == Err::<(), TemplateError>(
            TemplateError::MissingContentPlaceholder,
        ),
{
    let text = chars_of(template);
    let token = chars_of("{content}");
    if contains_chars(&text, &token) {
        Ok(())
    } else {
        Err(TemplateError::MissingContentPlaceholder)
    }
}

/// Takes the text of a template file as page template: the text itself
/// where it holds `{content}`, an error where it does not.
pub fn load_content_template(template_text: String) -> (loaded: Result<String, TemplateError>)
    ensures
        match loaded {
            Ok(template) => template == template_text && contains(
                template_text@,
                content_token(),
            ),
            Err(error) => error == TemplateError::MissingContentPlaceholder && !contains(
                template_text@,
                content_token(),
            ),
        },
{
    match validate_content_template(template_text.as_str()) {
        Ok(()) => Ok(template_text),
        Err(error) => Err(error),
    }
}

/// The characters of the placeholder for `key`.
fn placeholder_chars(key: &str) -> (chars: Vec<char>)
    ensures
        chars@ == placeholder(key@),
{
    let mut chars: Vec<char> = Vec::new();
    chars.push('{');
    let key_chars = chars_of(key);
    append_chars(&mut chars, &key_chars);
    chars.push('}');
    assert(chars@ =~= placeholder(key@));
    chars
}

/// Renders a page: what `template` gives for `content_html` and
/// `metadata`, or an error where the template does not hold `{content}`.
pub fn render(template: &str, content_html: &str, metadata: &Frontmatter) -> (rendered: Result<
    String,
    TemplateError,
>)
    ensures
        match rendered {
            Ok(page) => contains(template@, content_token()) && page@ == render_page(
                template@,
                content_html@,
                metadata@,
            ),
            Err(error) => error == TemplateError::MissingContentPlaceholder && !contains(
                template@,
                content_token(),
            ),
        },
{
    let text = chars_of(template);
    let token = chars_of("{content}");
    if !contains_chars(&text, &token) {
        return Err(TemplateError::MissingContentPlaceholder);
    }
    let html = chars_of(content_html);
    let mut page = replace_chars(&text, &token, &html);
    let count = metadata.len();
    let mut i: usize = 0;
    assert(metadata@.skip(0) =~= metadata@);
    while i < count
        invariant
            i <= count == metadata@.len(),
            substitute_metadata(page@, metadata@.skip(i as int)) == render_page(
                template@,
                content_html@,
                metadata@,
            ),
        decreases count - i,
    {
        let wanted = placeholder_chars(metadata.key_at(i).as_str());
        let value = chars_of(metadata.value_at(i).as_str());
        assert(metadata@.skip(i as int).skip(1) =~= metadata@.skip(i + 1));
        page = replace_chars(&page, &wanted, &value);
        i += 1;
    }
    Ok(string_of(&page, 0, page.len()))
}

} // verus!

//! File kinds: what the extension of a file makes it.
//!
//! The extension is that of the file's path as the platform reads it, handed
//! over as a text, or nothing where the path has none. Extensions are
//! compared as they stand: `CSS` is not `css`.

use vstd::prelude::*;

verus! {

/// An extension that may be missing, as a text.
pub open spec fn extension_view(extension: Option<String>) -> Option<Seq<char>> {
    match extension {
        Some(text) => Some(text@),
        None => None,
    }
}

/// Whether `extension` is that of a stylesheet: `css`.
pub open spec fn is_stylesheet_extension(extension: Option<Seq<char>>) -> bool {
    extension == Some("css"@)
}

/// Whether `extension` is that of a markdown file: `md`.
pub open spec fn is_markdown_extension(extension: Option<Seq<char>>) -> bool {
    extension == Some("md"@)
}

/// Whether `extension` is that of a plain text file: `md` or `txt`.
pub open spec fn is_plaintext_extension(extension: Option<Seq<char>>) -> bool {
    extension == Some("md"@) || extension == Some("txt"@)
}

/// Whether `extension` is there and is `wanted`.
fn is_extension(extension: &Option<String>, wanted: &str) -> (is: bool)
    ensures
        is == (extension_view(*extension) == Some(wanted@)),
{
    match extension {
        Some(text) => *text == wanted.to_owned(),
        None => false,
    }
}

/// Whether a file with the extension `extension` is a stylesheet.
pub fn is_stylesheet(extension: &Option<String>) -> (stylesheet: bool)
    ensures
        stylesheet == is_stylesheet_extension(extension_view(*extension)),
{
    is_extension(extension, "css")
}

/// Whether a file with the extension `extension` is a markdown file.
pub fn is_markdown(extension: &Option<String>) -> (markdown: bool)
    ensures
        markdown == is_markdown_extension(extension_view(*extension)),
{
    is_extension(extension, "md")
}

/// Whether a file with the extension `extension` is a plain text file.
pub fn is_plaintext_file(extension: &Option<String>) -> (plaintext: bool)
    ensures
        plaintext == is_plaintext_extension(extension_view(*extension)),
{
    is_extension(extension, "md") || is_extension(extension, "txt")
}

} // verus!

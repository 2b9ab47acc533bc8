use just_html::utils::{is_markdown, is_plaintext_file, is_stylesheet};
use std::path::Path;

fn extension(path: &str) -> Option<String> {
    Path::new(path).extension().and_then(|extension| extension.to_str()).map(String::from)
}

#[test]
fn stylesheets_are_known_by_their_extension() {
    assert!(is_stylesheet(&Some(String::from("css"))));
    assert!(!is_stylesheet(&Some(String::from("scss"))));
    assert!(!is_stylesheet(&Some(String::from("CSS"))));
    assert!(!is_stylesheet(&Some(String::from("md"))));
    assert!(!is_stylesheet(&Some(String::new())));
    assert!(!is_stylesheet(&None));
}

#[test]
fn plain_text_files_are_markdown_and_txt() {
    assert!(is_plaintext_file(&Some(String::from("md"))));
    assert!(is_plaintext_file(&Some(String::from("txt"))));
    assert!(!is_plaintext_file(&Some(String::from("html"))));
    assert!(!is_plaintext_file(&Some(String::from("bak"))));
    assert!(!is_plaintext_file(&Some(String::from("css"))));
    assert!(!is_plaintext_file(&None));
}

#[test]
fn markdown_files_end_in_md() {
    assert!(is_markdown(&Some(String::from("md"))));
    assert!(!is_markdown(&Some(String::from("txt"))));
    assert!(!is_markdown(&Some(String::from("markdown"))));
    assert!(!is_markdown(&Some(String::from("MD"))));
    assert!(!is_markdown(&None));
}

#[test]
fn the_extension_of_a_path_decides_the_kind_of_the_file() {
    assert!(is_stylesheet(&extension("templates/main.css")));
    assert!(is_stylesheet(&extension("templates/main.css/")));
    assert!(is_stylesheet(&extension("a.b.css")));
    assert!(!is_stylesheet(&extension("css")));
    assert!(!is_stylesheet(&extension(".css")));
    assert!(!is_stylesheet(&extension("main.css/readme")));
    assert!(!is_stylesheet(&extension("")));
    assert!(is_plaintext_file(&extension("content/hello.md")));
    assert!(is_plaintext_file(&extension("notes.txt")));
    assert!(is_plaintext_file(&extension("notes.txt/")));
    assert!(!is_plaintext_file(&extension("post.md.bak")));
    assert!(!is_plaintext_file(&extension("README")));
    assert!(!is_plaintext_file(&extension("style.css")));
    assert!(is_markdown(&extension("./content/hello.world.md")));
    assert!(!is_markdown(&extension("dir.md/hello")));
}

#[test]
fn no_file_is_both_stylesheet_and_plain_text() {
    for text in ["css", "md", "txt", "html", ""] {
        let extension = Some(String::from(text));
        assert!(!(is_stylesheet(&extension) && is_plaintext_file(&extension)));
    }
    assert!(!(is_stylesheet(&None) && is_plaintext_file(&None)));
}

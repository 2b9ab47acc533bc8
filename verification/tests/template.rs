use just_html::frontmatter::{parse_key_value_pairs, Frontmatter};
use just_html::template::{
    load_content_template, render, validate_content_template, TemplateError,
};
use just_html::text::{
    chars_of, contains_chars, find_from, matches_at, replace_chars, string_of, sub_vec,
};

fn replaced(text: &str, pattern: &str, with: &str) -> String {
    let result = replace_chars(&chars_of(text), &chars_of(pattern), &chars_of(with));
    string_of(&result, 0, result.len())
}

#[test]
fn a_template_without_the_content_placeholder_is_refused() {
    assert_eq!(
        validate_content_template("<html></html>"),
        Err(TemplateError::MissingContentPlaceholder)
    );
    assert_eq!(
        validate_content_template("{content"),
        Err(TemplateError::MissingContentPlaceholder)
    );
    assert_eq!(validate_content_template(""), Err(TemplateError::MissingContentPlaceholder));
    assert_eq!(
        load_content_template(String::from("<html>{ content }</html>")),
        Err(TemplateError::MissingContentPlaceholder)
    );
    assert_eq!(
        TemplateError::MissingContentPlaceholder.message(),
        "Invalid content template specified"
    );
}

#[test]
fn a_template_with_the_content_placeholder_is_taken_whatever_else_it_holds() {
    assert_eq!(validate_content_template("{content}"), Ok(()));
    assert_eq!(validate_content_template("<html>{title}{content}{{}}</html>"), Ok(()));
    assert_eq!(
        load_content_template(String::from("a{content}b")),
        Ok(String::from("a{content}b"))
    );
}

#[test]
fn every_content_placeholder_is_replaced() {
    let page = render("{content}|{content}|{content}", "<p>x</p>", &Frontmatter::new());
    assert_eq!(page, Ok(String::from("<p>x</p>|<p>x</p>|<p>x</p>")));
}

#[test]
fn no_content_placeholder_is_left_where_the_html_brings_none() {
    let page = render("a{content}b{content}", "<p>content</p>\n", &Frontmatter::new())
        .expect("the template is valid");
    assert_eq!(page, "a<p>content</p>\nb<p>content</p>\n");
    assert!(!page.contains("{content}"));
}

#[test]
fn no_content_placeholder_is_left_where_the_metadata_brings_none() {
    let metadata = parse_key_value_pairs("tent}: x\n{con: <i>y</i>\ntitle: T").expect("valid");
    let page = render("{con{tent}}{{con}tent}{title}{content}", "<p>z</p>", &metadata)
        .expect("the template is valid");
    assert_eq!(page, "{conx<i>y</i>tent}T<p>z</p>");
    assert!(!page.contains("{content}"));
}

#[test]
fn values_without_braces_that_are_no_part_of_the_placeholder_leave_none() {
    let metadata = parse_key_value_pairs("a: no\nb: cats\nc: content!").expect("valid");
    let page = render("{cont{a}ent}{b}{{c}}{con{b}tent}{content}", "tents", &metadata)
        .expect("the template is valid");
    assert_eq!(page, "{contnoent}cats{content!}{concatstent}tents");
    assert!(!page.contains("{content}"));
}

#[test]
fn a_part_of_the_placeholder_lets_the_text_around_it_join() {
    let metadata = parse_key_value_pairs("a: nte").expect("valid");
    assert_eq!(
        render("{content}{co{a}nt}", "<p>z</p>", &metadata),
        Ok(String::from("<p>z</p>{content}"))
    );
    let html = render("{con{content}nt}", "te", &Frontmatter::new());
    assert_eq!(html, Ok(String::from("{content}")));
}

#[test]
fn a_value_may_bring_the_placeholder_back() {
    let whole = parse_key_value_pairs("a: {content}").expect("valid");
    assert_eq!(render("{content}{a}", "<p>z</p>", &whole), Ok(String::from("<p>z</p>{content}")));
    let joining = parse_key_value_pairs("a: ").expect("valid");
    assert_eq!(
        render("{content}{cont{a}ent}", "<p>z</p>", &joining),
        Ok(String::from("<p>z</p>{content}"))
    );
}

#[test]
fn rendering_a_template_without_the_placeholder_fails() {
    assert_eq!(
        render("<html></html>", "<p>x</p>", &Frontmatter::new()),
        Err(TemplateError::MissingContentPlaceholder)
    );
}

#[test]
fn metadata_placeholders_are_replaced_by_their_values() {
    let metadata = parse_key_value_pairs("title: About\nauthor: Ada").expect("valid");
    let page = render(
        "<h1>{title}</h1>{content}<i>{author} wrote {title}</i>{date}",
        "<p>x</p>",
        &metadata,
    );
    assert_eq!(
        page,
        Ok(String::from("<h1>About</h1><p>x</p><i>Ada wrote About</i>{date}"))
    );
}

#[test]
fn metadata_is_substituted_in_the_order_of_its_keys_and_is_not_escaped() {
    let metadata = parse_key_value_pairs("a: {b}\nb: <b>&</b>").expect("valid");
    let page = render("{content}{a}", "", &metadata);
    assert_eq!(page, Ok(String::from("<b>&</b>")));
    let reversed = parse_key_value_pairs("b: <b>&</b>\na: {b}").expect("valid");
    assert_eq!(render("{content}{a}", "", &reversed), Ok(String::from("{b}")));
}

#[test]
fn html_may_bring_the_placeholder_back() {
    let page = render("<html>{content}</html>", "<p>{content}</p>", &Frontmatter::new());
    assert_eq!(page, Ok(String::from("<html><p>{content}</p></html>")));
    let joined = render("{cont{content}ent}", "", &Frontmatter::new());
    assert_eq!(joined, Ok(String::from("{content}")));
}

#[test]
fn replacing_reads_from_left_to_right_and_never_what_it_wrote() {
    assert_eq!(replaced("aaa", "aa", "b"), "ba");
    assert_eq!(replaced("abab", "ab", "abab"), "abababab");
    assert_eq!(replaced("hello", "l", ""), "heo");
    assert_eq!(replaced("hello", "xyz", "!"), "hello");
    assert_eq!(replaced("hi", "hello", "!"), "hi");
    assert_eq!(replaced("", "a", "b"), "");
}

#[test]
fn an_empty_pattern_replaces_nothing() {
    assert_eq!(replaced("abc", "", "-"), "abc");
}

#[test]
fn patterns_are_found_where_they_stand() {
    let text = chars_of("abcabc");
    let pattern = chars_of("bc");
    assert!(matches_at(&text, &pattern, 1));
    assert!(!matches_at(&text, &pattern, 2));
    assert!(!matches_at(&text, &pattern, 5));
    assert!(!matches_at(&text, &pattern, 7));
    assert_eq!(find_from(&text, &pattern, 0), Some(1));
    assert_eq!(find_from(&text, &pattern, 2), Some(4));
    assert_eq!(find_from(&text, &pattern, 5), None);
    assert_eq!(find_from(&text, &chars_of("x"), 0), None);
    assert_eq!(find_from(&text, &chars_of(""), 6), Some(6));
    assert_eq!(find_from(&text, &chars_of(""), 7), None);
    assert!(contains_chars(&text, &chars_of("ca")));
    assert!(!contains_chars(&text, &chars_of("cb")));
    assert_eq!(sub_vec(&text, 2, 4), vec!['c', 'a']);
    assert_eq!(string_of(&text, 3, 6), "abc");
}

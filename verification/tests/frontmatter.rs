use just_html::build::content::ContentFileFrontmatterAndRawContent;
use just_html::frontmatter::{
    parse_frontmatter, parse_key_value_pairs, remove_frontmatter, Frontmatter,
};

fn value_of(frontmatter: &Frontmatter, key: &str) -> Option<String> {
    frontmatter.get(key).cloned()
}

#[test]
fn it_parses_a_single_frontmatter_at_the_top_of_the_file() {
    let input = r#"---
marco: polo
leonardo: da vinci
---
"#;

    let parsed_frontmatter = parse_frontmatter(&String::from(input));

    match parsed_frontmatter {
        None => panic!("Parsing frontmatter returned nothing."),
        Some(frontmatter) => {
            assert_eq!(true, frontmatter.contains_key("marco"));
        }
    }
}

#[test]
fn it_parses_a_single_frontmatter_at_the_top_of_the_file_if_multiple_triple_dashes_are_in_the_content(
) {
    let input = r#"---
marco: polo
leonardo: da vinci
---

Lorem ipsum dolorem sic amet and other things as such.

---


Even more content down here

---
"#;

    let parsed_frontmatter = parse_frontmatter(&String::from(input));

    match parsed_frontmatter {
        None => panic!("Parsing frontmatter returned nothing."),
        Some(frontmatter) => {
            assert_eq!(true, frontmatter.contains_key("marco"));
            assert_eq!(2, frontmatter.len());
        }
    }
}

#[test]
fn it_only_parses_frontmatter_if_at_the_beginning_of_the_file() {
    let input = r#"There is some more content in this file about stuff and maybe an example:

---
marco: polo
leonardo: da vinci
---

Lorem ipsum dolorem sic amet and other things as such.

---


Even more content down here

---
"#;

    let parsed_frontmatter = parse_frontmatter(&String::from(input));

    match parsed_frontmatter {
        Some(_f) => panic!("Parsing frontmatter returned nothing."),
        None => {}
    }
}

#[test]
fn a_block_is_read_back_with_its_keys_values_and_body() {
    let text = "---\ntitle: About\nauthor: Ada\n---\n\nBody text\n";
    let frontmatter = parse_frontmatter(text).expect("the block is valid");
    assert_eq!(frontmatter.len(), 2);
    assert_eq!(value_of(&frontmatter, "title"), Some(String::from("About")));
    assert_eq!(value_of(&frontmatter, "author"), Some(String::from("Ada")));
    assert_eq!(value_of(&frontmatter, "date"), None);
    assert!(!frontmatter.contains_key("date"));
    assert_eq!(frontmatter.key_at(0), "title");
    assert_eq!(frontmatter.value_at(1), "Ada");
    assert_eq!(remove_frontmatter(String::from(text)), "\n\nBody text\n");
}

#[test]
fn the_body_keeps_later_delimiters() {
    let text = "---\na: b\n---\nfirst\n---\nsecond\n---\n";
    assert_eq!(remove_frontmatter(String::from(text)), "\nfirst\n---\nsecond\n---\n");
    assert_eq!(parse_frontmatter(text).expect("valid").len(), 1);
}

#[test]
fn a_block_behind_other_text_is_body() {
    let text = "\n---\na: b\n---\nbody";
    assert!(parse_frontmatter(text).is_none());
    assert_eq!(remove_frontmatter(String::from(text)), text);
    let indented = " ---\na: b\n---\n";
    assert!(parse_frontmatter(indented).is_none());
    assert_eq!(remove_frontmatter(String::from(indented)), indented);
}

#[test]
fn one_malformed_line_rejects_the_whole_block() {
    let text = "---\ntitle: About\nnot a pair\nauthor: Ada\n---\nbody\n";
    assert!(parse_frontmatter(text).is_none());
    assert_eq!(remove_frontmatter(String::from(text)), text);
    let parts = ContentFileFrontmatterAndRawContent::from_file_contents(String::from(text));
    assert!(parts.frontmatter.is_none());
    assert_eq!(parts.raw_content, text);
}

#[test]
fn a_colon_without_a_space_is_no_separator() {
    assert!(parse_frontmatter("---\ntitle:About\n---\n").is_none());
    assert!(parse_frontmatter("---\ntitle:\tAbout\n---\n").is_none());
    assert!(parse_key_value_pairs("title:About").is_none());
}

#[test]
fn an_empty_block_has_metadata_without_entries() {
    let frontmatter = parse_frontmatter("---\n---\nbody").expect("an empty block is valid");
    assert_eq!(frontmatter.len(), 0);
    assert_eq!(remove_frontmatter(String::from("---\n---\nbody")), "\nbody");
}

#[test]
fn the_closing_line_may_end_the_text() {
    let frontmatter = parse_frontmatter("---\na: b\n---").expect("valid");
    assert_eq!(value_of(&frontmatter, "a"), Some(String::from("b")));
    assert_eq!(remove_frontmatter(String::from("---\na: b\n---")), "");
}

#[test]
fn the_closing_line_must_be_exactly_three_hyphens() {
    let longer = "---\na: b\n----\nbody";
    assert!(parse_frontmatter(longer).is_none());
    assert_eq!(remove_frontmatter(String::from(longer)), longer);
    let trailing = "---\na: b\n--- \nbody";
    assert!(parse_frontmatter(trailing).is_none());
    assert_eq!(remove_frontmatter(String::from(trailing)), trailing);
}

#[test]
fn the_opening_line_must_be_exactly_three_hyphens() {
    assert!(parse_frontmatter("----\na: b\n---\n").is_none());
    assert!(parse_frontmatter("---").is_none());
    assert!(parse_frontmatter("--").is_none());
    assert!(parse_frontmatter("").is_none());
    assert!(parse_frontmatter("---\r\na: b\n---\n").is_none());
}

#[test]
fn a_block_without_closing_line_is_body() {
    let text = "---\na: b\nc: d\n";
    assert!(parse_frontmatter(text).is_none());
    assert_eq!(remove_frontmatter(String::from(text)), text);
    let unfinished = "---\na: b";
    assert!(parse_frontmatter(unfinished).is_none());
}

#[test]
fn the_key_ends_at_the_first_separator() {
    let frontmatter = parse_key_value_pairs("a: b: c").expect("valid");
    assert_eq!(frontmatter.len(), 1);
    assert_eq!(value_of(&frontmatter, "a"), Some(String::from("b: c")));
    assert!(!frontmatter.contains_key("a: b"));
    let url = parse_frontmatter("---\nlink: see: https://example.org/a: b\n---\n").expect("valid");
    assert_eq!(value_of(&url, "link"), Some(String::from("see: https://example.org/a: b")));
    let colons = parse_key_value_pairs("a:: b").expect("valid");
    assert_eq!(value_of(&colons, "a:"), Some(String::from("b")));
}

#[test]
fn keys_and_values_may_be_empty() {
    let frontmatter = parse_key_value_pairs(": \nkey: ").expect("valid");
    assert_eq!(frontmatter.len(), 2);
    assert_eq!(value_of(&frontmatter, ""), Some(String::new()));
    assert_eq!(value_of(&frontmatter, "key"), Some(String::new()));
}

#[test]
fn a_later_value_replaces_an_earlier_one_in_place() {
    let frontmatter = parse_key_value_pairs("a: 1\nb: 2\na: 3\n").expect("valid");
    assert_eq!(frontmatter.len(), 2);
    assert_eq!(frontmatter.key_at(0), "a");
    assert_eq!(frontmatter.value_at(0), "3");
    assert_eq!(frontmatter.key_at(1), "b");
    assert_eq!(frontmatter.value_at(1), "2");
    assert_eq!(frontmatter.position("b"), Some(1));
    assert_eq!(frontmatter.position("c"), None);
}

#[test]
fn a_carriage_return_before_the_line_feed_is_no_part_of_the_value() {
    let frontmatter = parse_key_value_pairs("a: 1\r\nb: 2\r\n").expect("valid");
    assert_eq!(value_of(&frontmatter, "a"), Some(String::from("1")));
    assert_eq!(value_of(&frontmatter, "b"), Some(String::from("2")));
    let last = parse_key_value_pairs("a: 1\r").expect("valid");
    assert_eq!(value_of(&last, "a"), Some(String::from("1\r")));
}

#[test]
fn the_decoder_takes_no_text_with_a_malformed_line() {
    assert!(parse_key_value_pairs("a: 1\n\nb: 2").is_none());
    assert!(parse_key_value_pairs("\n").is_none());
    assert!(parse_key_value_pairs("a: 1\nb").is_none());
    assert_eq!(parse_key_value_pairs("").expect("no line").len(), 0);
}

#[test]
fn inserting_keeps_keys_unique() {
    let mut frontmatter = Frontmatter::new();
    assert_eq!(frontmatter.len(), 0);
    frontmatter.insert(String::from("k"), String::from("v"));
    frontmatter.insert(String::from("l"), String::from("w"));
    frontmatter.insert(String::from("k"), String::from("x"));
    assert_eq!(frontmatter.len(), 2);
    assert_eq!(value_of(&frontmatter, "k"), Some(String::from("x")));
    assert_eq!(value_of(&frontmatter, "l"), Some(String::from("w")));
}

#[test]
fn text_beyond_ascii_is_kept() {
    let text = "---\nt\u{ef}tle: caf\u{e9} \u{2603}\n---\n\u{fc}ber\n";
    let frontmatter = parse_frontmatter(text).expect("valid");
    assert_eq!(value_of(&frontmatter, "t\u{ef}tle"), Some(String::from("caf\u{e9} \u{2603}")));
    assert_eq!(remove_frontmatter(String::from(text)), "\n\u{fc}ber\n");
}

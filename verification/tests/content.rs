use just_html::build::content::{
    build_content_files, build_content_pages, BuiltContentFile, ContentFile,
    ContentFileFrontmatterAndRawContent, SourceFile,
};
use just_html::template::TemplateError;

fn source(path: &str, contents: &str) -> SourceFile {
    let read = std::path::Path::new(path);
    SourceFile {
        path: String::from(path),
        stem: String::from(read.file_stem().and_then(|stem| stem.to_str()).unwrap_or("")),
        extension: read.extension().and_then(|extension| extension.to_str()).map(String::from),
        contents: String::from(contents),
    }
}

#[test]
fn markdown_becomes_html_inside_the_template() {
    let file = ContentFile::new("content/hello.md", "hello", String::from("Hello **world**"));
    assert_eq!(file.path, "content/hello.md");
    assert_eq!(file.file_name, "hello");
    assert_eq!(file.raw_contents, "Hello **world**");
    assert!(file.frontmatter.is_none());
    let built = file.build(String::from("<html>{content}</html>"), "build").expect("valid");
    assert_eq!(built.path, "build/hello.html");
    assert_eq!(built.file_name, "build/hello.html");
    assert_eq!(built.contents, "<html><p>Hello <strong>world</strong></p>\n</html>");
}

#[test]
fn strikethrough_is_switched_on_and_tables_are_not() {
    let file = ContentFile::new("s.md", "s", String::from("~~gone~~\n\n|a|\n|-|\n|b|\n"));
    let built = file.build(String::from("{content}"), "out").expect("valid");
    assert_eq!(built.contents, "<p><del>gone</del></p>\n<p>|a|\n|-|\n|b|</p>\n");
}

#[test]
fn the_metadata_of_a_file_fills_the_template() {
    let text = "---\ntitle: About\n---\n# About us\n";
    let file = ContentFile::new("about.md", "about", String::from(text));
    assert_eq!(file.raw_contents, "\n# About us\n");
    assert!(file.frontmatter.as_ref().expect("valid").contains_key("title"));
    let built = file
        .build(String::from("<title>{title}</title>{content}"), "./build/blog")
        .expect("valid");
    assert_eq!(built.path, "./build/blog/about.html");
    assert_eq!(built.contents, "<title>About</title><h1>About us</h1>\n");
}

#[test]
fn a_file_is_not_built_with_a_template_without_the_placeholder() {
    let file = ContentFile::new("a.md", "a", String::from("text"));
    assert_eq!(
        file.build(String::from("<html></html>"), "build").err(),
        Some(TemplateError::MissingContentPlaceholder)
    );
}

#[test]
fn the_parts_of_a_file_are_its_metadata_and_its_body() {
    let parts =
        ContentFileFrontmatterAndRawContent::from_file_contents(String::from("---\nk: v\n---\nb"));
    assert_eq!(parts.raw_content, "\nb");
    let frontmatter = parts.frontmatter.expect("valid");
    assert_eq!(frontmatter.get("k"), Some(&String::from("v")));
    let plain = ContentFileFrontmatterAndRawContent::from_file_contents(String::from("b"));
    assert_eq!(plain.raw_content, "b");
    assert!(plain.frontmatter.is_none());
}

#[test]
fn a_built_page_is_named_by_directory_and_stem() {
    let page = BuiltContentFile::from_file_name("build", &String::from("hello"));
    assert_eq!(page.path, "build/hello.html");
    assert_eq!(page.file_name, "build/hello.html");
    assert_eq!(page.contents, "");
    let nested = BuiltContentFile::from_file_name("./build/blog", &String::from("a.b"));
    assert_eq!(nested.path, "./build/blog/a.b.html");
}

#[test]
fn a_content_directory_is_built_page_by_page() {
    let sources = vec![
        source("hello.md", "Hello **world**"),
        source("notes.txt", "not a page"),
        source("about.md", "---\ntitle: About\n---\nAbout *us*"),
        source("style.css", "body {}"),
    ];
    let built = build_content_pages("<html>{title}{content}</html>", "build", &sources)
        .expect("the template is valid");
    assert_eq!(built.list.items, vec!["build/hello.html", "build/about.html"]);
    assert_eq!(built.files.len(), 2);
    assert_eq!(built.files[0].path, "build/hello.html");
    assert_eq!(
        built.files[0].contents,
        "<html>{title}<p>Hello <strong>world</strong></p>\n</html>"
    );
    assert_eq!(built.files[1].path, "build/about.html");
    assert_eq!(built.files[1].file_name, "build/about.html");
    assert_eq!(built.files[1].contents, "<html>About<p>About <em>us</em></p>\n</html>");
}

#[test]
fn the_example_site_is_built() {
    let sources = vec![
        source("hello.md", "Hello **world**"),
        source("about.md", "---\ntitle: About\n---\nAbout"),
    ];
    let built = build_content_pages("<html>{content}</html>", "build", &sources).expect("valid");
    assert_eq!(built.list.items, vec!["build/hello.html", "build/about.html"]);
    assert_eq!(built.files[0].file_name, "build/hello.html");
    assert_eq!(built.files[1].file_name, "build/about.html");
    assert_eq!(
        built.files[0].contents,
        "<html><p>Hello <strong>world</strong></p>\n</html>"
    );
    assert_eq!(built.files[1].contents, "<html><p>About</p>\n</html>");
}

#[test]
fn the_stem_and_the_extension_are_taken_as_given() {
    let sources = vec![
        SourceFile {
            path: String::from("content/one.md/"),
            stem: String::from("one"),
            extension: Some(String::from("md")),
            contents: String::from("1"),
        },
        SourceFile {
            path: String::from("two.md"),
            stem: String::from("two"),
            extension: None,
            contents: String::from("2"),
        },
        SourceFile {
            path: String::from("three"),
            stem: String::from("3"),
            extension: Some(String::from("md")),
            contents: String::from("3"),
        },
    ];
    let built = build_content_pages("{content}", "out", &sources).expect("valid");
    assert_eq!(built.list.items, vec!["out/one.html", "out/3.html"]);
}

#[test]
fn an_invalid_template_stops_the_build_before_any_file() {
    let sources = vec![source("hello.md", "Hello")];
    assert_eq!(
        build_content_pages("<html></html>", "build", &sources).err(),
        Some(TemplateError::MissingContentPlaceholder)
    );
    assert_eq!(
        build_content_files(&Vec::new(), "build", "no placeholder").err(),
        Some(TemplateError::MissingContentPlaceholder)
    );
}

#[test]
fn an_empty_directory_gives_an_empty_list() {
    let built = build_content_pages("{content}", "build", &Vec::new()).expect("valid");
    assert!(built.list.items.is_empty());
    assert!(built.files.is_empty());
    let files = build_content_files(&vec![source("a.txt", "x")], "build", "{content}");
    assert!(files.expect("valid").is_empty());
}

#[test]
fn files_with_the_same_stem_give_the_same_output_path() {
    let sources = vec![source("a/page.md", "one"), source("b/page.md", "two")];
    let built = build_content_pages("{content}", "build", &sources).expect("valid");
    assert_eq!(built.list.items, vec!["build/page.html", "build/page.html"]);
    assert_eq!(built.files[1].contents, "<p>two</p>\n");
}

//! Content pages: from the text of a content file to the page that is
//! written for it, and from the files of a content directory to the list of
//! the pages built.

use crate::frontmatter::{
    body_of, metadata_of, parse_frontmatter, remove_frontmatter, Entry, Frontmatter,
};
use crate::markdown::{convert_markdown_to_html, markdown_html};
use crate::template::{
    content_token, load_content_template, render, render_page, TemplateError,
};
use crate::text::contains;
use crate::utils::{extension_view, is_markdown, is_markdown_extension};
use vstd::prelude::*;
use vstd::string::StringExecFns;

verus! {

/// The pages of one build, by their output paths, in the order in which
/// they were built.
pub struct ContentList {
    pub items: Vec<String>,
}

/// One entry of the content directory as it was read: the path of a file,
/// the stem and the extension of its file name, and the text that it holds.
pub struct SourceFile {
    pub path: String,
    pub stem: String,
    pub extension: Option<String>,
    pub contents: String,
}

/// A source file, as texts.
pub struct Source {
    pub path: Seq<char>,
    pub stem: Seq<char>,
    pub extension: Option<Seq<char>>,
    pub contents: Seq<char>,
}

impl View for SourceFile {
    type V = Source;

    open spec fn view(&self) -> Source {
        Source {
            path: self.path@,
            stem: self.stem@,
            extension: extension_view(self.extension),
            contents: self.contents@,
        }
    }
}

/// One content file, taken apart: the path it came from, the stem of its
/// file name, its body without front matter, and its metadata, if it has
/// any.
pub struct ContentFile {
    pub path: String,
    pub file_name: String,
    pub raw_contents: String,
    pub frontmatter: Option<Frontmatter>,
}

/// The two parts of the text of a content file.
pub struct ContentFileFrontmatterAndRawContent {
    pub raw_content: String,
    pub frontmatter: Option<Frontmatter>,
}

/// A page that was built: the path of its file, the same path as its name
/// in listings, and the text to be written there.
pub struct BuiltContentFile {
    pub path: String,
    pub file_name: String,
    pub contents: String,
}

/// What a build hands back: the pages to be written, and the list of their
/// output paths.
pub struct BuiltPages {
    pub files: Vec<BuiltContentFile>,
    pub list: ContentList,
}

/// The entries of metadata that may be missing.
pub open spec fn metadata_view(frontmatter: Option<Frontmatter>) -> Option<Seq<Entry>> {
    match frontmatter {
        Some(entries) => Some(entries@),
        None => None,
    }
}

/// The entries of `metadata`, or none where there is no metadata.
pub open spec fn entries_of(metadata: Option<Seq<Entry>>) -> Seq<Entry> {
    match metadata {
        Some(entries) => entries,
        None => Seq::empty(),
    }
}

/// The output path of the page with the stem `stem`: the build directory,
/// a slash, the stem, and `.html`.
pub open spec fn output_path(build_directory: Seq<char>, stem: Seq<char>) -> Seq<char> {
    build_directory + "/"@ + stem + ".html"@
}

/// The text of the page for a content file that holds `file_contents`: the
/// template, rendered with the HTML of the body and with the metadata.
pub open spec fn page_contents(template: Seq<char>, file_contents: Seq<char>) -> Seq<char> {
    render_page(
        template,
        markdown_html(body_of(file_contents)),
        entries_of(metadata_of(file_contents)),
    )
}

/// A page as `(output path, contents)`.
pub type PathAndText = (Seq<char>, Seq<char>);

/// The page for the source file `source`.
pub open spec fn page_of(
    template: Seq<char>,
    build_directory: Seq<char>,
    source: Source,
) -> PathAndText {
    (output_path(build_directory, source.stem), page_contents(template, source.contents))
}

/// The pages for `sources`: one for each markdown file, in the order of the
/// sources. Files of other kinds are passed over.
pub open spec fn pages_of(
    template: Seq<char>,
    build_directory: Seq<char>,
    sources: Seq<Source>,
) -> Seq<PathAndText>
    decreases sources.len(),
{
    if sources.len() == 0 {
        Seq::empty()
    } else {
        let earlier = pages_of(template, build_directory, sources.drop_last());
        if is_markdown_extension(sources.last().extension) {
            earlier.push(page_of(template, build_directory, sources.last()))
        } else {
            earlier
        }
    }
}

/// Source files as texts.
pub open spec fn sources_view(sources: Seq<SourceFile>) -> Seq<Source> {
    Seq::new(sources.len(), |i: int| sources[i]@)
}

/// Built pages as output paths and texts.
pub open spec fn pages_view(pages: Seq<BuiltContentFile>) -> Seq<PathAndText> {
    Seq::new(pages.len(), |i: int| (pages[i].path@, pages[i].contents@))
}

/// The items of a list as texts.
pub open spec fn items_view(items: Seq<String>) -> Seq<Seq<char>> {
    Seq::new(items.len(), |i: int| items[i]@)
}

impl ContentFileFrontmatterAndRawContent {
    /// Takes the text of a content file apart: the metadata of the block at
    /// its very start, and the body behind that block. A text without a
    /// block, or with a malformed one, has no metadata and is all body.
    pub fn from_file_contents(file_contents: String) -> (parts: Self)
        ensures
            parts.raw_content@ == body_of(file_contents@),
            metadata_view(parts.frontmatter) == metadata_of(file_contents@),
    {
        let frontmatter = parse_frontmatter(file_contents.as_str());
        let content_without_frontmatter = remove_frontmatter(file_contents);
        ContentFileFrontmatterAndRawContent {
            raw_content: content_without_frontmatter,
            frontmatter,
        }
    }
}

impl ContentFile {
    /// The content file at `path`, whose file name has the stem `file_stem`,
    /// and which holds `file_contents`.
    pub fn new(path: &str, file_stem: &str, file_contents: String) -> (file: Self)
        ensures
            file.path@ == path@,
            file.file_name@ == file_stem@,
            file.raw_contents@ == body_of(file_contents@),
            metadata_view(file.frontmatter) == metadata_of(file_contents@),
    {
        let parsed_content = ContentFileFrontmatterAndRawContent::from_file_contents(file_contents);
        ContentFile {
            path: path.to_owned(),
            file_name: file_stem.to_owned(),
            raw_contents: parsed_content.raw_content,
            frontmatter: parsed_content.frontmatter,
        }
    }

    /// Builds the page of this file: its body becomes HTML, and `template`
    /// is rendered with that HTML and with the metadata of the file. The page
    /// goes to `<build_directory>/<stem>.html`. A template without
    /// `{content}` is an error.
    pub fn build(&self, template: String, build_directory: &str) -> (built: Result<
        BuiltContentFile,
        TemplateError,
    >)
        ensures
            match built {
                Ok(page) => {
                    &&& contains(template@, content_token())
                    &&& page.path@ == output_path(build_directory@, self.file_name@)
                    &&& page.file_name@ == page.path@
                    &&& page.contents@ == render_page(
                        template@,
                        markdown_html(self.raw_contents@),
                        entries_of(metadata_view(self.frontmatter)),
                    )
                },
                Err(error) => error == TemplateError::MissingContentPlaceholder && !contains(
                    template@,
                    content_token(),
                ),
            },
    {
        let mut built_content_file = BuiltContentFile::from_file_name(
            build_directory,
            &self.file_name,
        );
        let content_html = convert_markdown_to_html(self.raw_contents.as_str());
        let rendered = match &self.frontmatter {
            Some(frontmatter) => render(template.as_str(), content_html.as_str(), frontmatter),
            None => {
                let no_metadata = Frontmatter::new();
                render(template.as_str(), content_html.as_str(), &no_metadata)
            },
        };
        match rendered {
            Ok(contents) => {
                built_content_file.contents = contents;
                Ok(built_content_file)
            },
            Err(error) => Err(error),
        }
    }
}

impl BuiltContentFile {
    /// The page, still without text, for the content file with the stem
    /// `file_name`: its path is `<build_directory>/<file_name>.html`.
    pub fn from_file_name(build_directory: &str, file_name: &String) -> (page: Self)
        ensures
            page.path@ == output_path(build_directory@, file_name@),
            page.file_name@ == page.path@,
            page.contents@ == Seq::<char>::empty(),
    {
        let mut formatted_path = build_directory.to_owned();
        formatted_path.append("/");
        formatted_path.append(file_name.as_str());
        formatted_path.append(".html");
        BuiltContentFile {
            path: formatted_path.clone(),
            file_name: formatted_path,
            contents: String::new(),
        }
    }
}

/// Builds the page of every markdown file among `sources`, in their order,
/// with the template `content_page_template`. A template without
/// `{content}` is an error, and then no file is looked at.
pub fn build_content_files(
    sources: &Vec<SourceFile>,
    content_build_directory: &str,
    content_page_template: &str,
) -> (built: Result<Vec<BuiltContentFile>, TemplateError>)
    ensures
        match built {
            Ok(pages) => {
                &&& contains(content_page_template@, content_token())
                &&& pages_view(pages@) == pages_of(
                    content_page_template@,
                    content_build_directory@,
                    sources_view(sources@),
                )
                &&& forall|i: int|
                    0 <= i < pages.len() ==> (#[trigger] pages[i]).file_name@ == pages[i].path@
            },
            Err(error) => error == TemplateError::MissingContentPlaceholder && !contains(
                content_page_template@,
                content_token(),
            ),
        },
{
    let content_template = match load_content_template(content_page_template.to_owned()) {
        Ok(template) => template,
        Err(error) => {
            return Err(error);
        },
    };
    let ghost all = sources_view(sources@);
    let mut content_pages: Vec<BuiltContentFile> = Vec::new();
    let mut i: usize = 0;
    assert(all.take(0) =~= Seq::<Source>::empty());
    assert(pages_view(content_pages@) =~= Seq::<PathAndText>::empty());
    while i < sources.len()
        invariant
            i <= sources.len(),
            all == sources_view(sources@),
            content_template@ == content_page_template@,
            contains(content_page_template@, content_token()),
            pages_view(content_pages@) == pages_of(
                content_page_template@,
                content_build_directory@,
                all.take(i as int),
            ),
            forall|k: int|
                0 <= k < content_pages.len() ==> (#[trigger] content_pages[k]).file_name@
                    == content_pages[k].path@,
        decreases sources.len() - i,
    {
        let source = &sources[i];
        proof {
            let longer = all.take(i + 1);
            assert(longer.last() == source@);
            assert(longer.drop_last() =~= all.take(i as int));
        }
        if is_markdown(&source.extension) {
            let file = ContentFile::new(
                source.path.as_str(),
                source.stem.as_str(),
                source.contents.clone(),
            );
            match file.build(content_template.clone(), content_build_directory) {
                Ok(built_file) => {
                    let ghost before = pages_view(content_pages@);
                    let ghost page = (built_file.path@, built_file.contents@);
                    content_pages.push(built_file);
                    assert(pages_view(content_pages@) =~= before.push(page));
                },
                Err(error) => {
                    return Err(error);
                },
            }
        }
        i += 1;
    }
    assert(all.take(i as int) =~= all);
    Ok(content_pages)
}

/// Builds the pages of the markdown files among `content_directory`, the
/// entries of the content directory as they were read, and lists their
/// output paths in the order of the entries.
pub fn build_content_pages(
    content_page_template: &str,
    content_build_directory: &str,
    content_directory: &Vec<SourceFile>,
) -> (built: Result<BuiltPages, TemplateError>)
    ensures
        match built {
            Ok(pages) => {
                &&& contains(content_page_template@, content_token())
                &&& pages_view(pages.files@) == pages_of(
                    content_page_template@,
                    content_build_directory@,
                    sources_view(content_directory@),
                )
                &&& forall|i: int|
                    0 <= i < pages.files@.len() ==> (#[trigger] pages.files@[i]).file_name@
                        == pages.files@[i].path@
                &&& pages.list.items@.len() == pages.files@.len()
                &&& forall|i: int|
                    0 <= i < pages.files@.len() ==> (#[trigger] pages.list.items@[i])@
                        == pages.files@[i].path@
            },
            Err(error) => error == TemplateError::MissingContentPlaceholder && !contains(
                content_page_template@,
                content_token(),
            ),
        },
{
    let files = match build_content_files(
        content_directory,
        content_build_directory,
        content_page_template,
    ) {
        Ok(files) => files,
        Err(error) => {
            return Err(error);
        },
    };
    let mut items: Vec<String> = Vec::new();
    let mut i: usize = 0;
    while i < files.len()
        invariant
            i <= files.len(),
            items@.len() == i,
            forall|k: int|
                0 <= k < files.len() ==> (#[trigger] files[k]).file_name@ == files[k].path@,
            forall|k: int| 0 <= k < i ==> (#[trigger] items@[k])@ == files@[k].path@,
        decreases files.len() - i,
    {
        items.push(files[i].file_name.clone());
        i += 1;
    }
    Ok(BuiltPages { files, list: ContentList { items } })
}

} // verus!

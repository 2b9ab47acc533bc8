//! The build: content pages, and the page that lists them.

pub mod content;

use crate::build::content::{items_view, ContentList};
use crate::text::{
    append_chars, chars_of, matches_at, occurs_at, replace_all, replace_chars, string_of,
};
use vstd::prelude::*;
use vstd::string::StringExecFns;

verus! {

/// The prefix that every output path in a content list begins with, and
/// that its link does without.
pub open spec fn build_root() -> Seq<char> {
    "./build/"@
}

/// The placeholder of a listing template for the links.
pub open spec fn listing_token() -> Seq<char> {
    "{content_list}"@
}

/// Whether `identifier` begins with the build root.
pub open spec fn has_build_root(identifier: Seq<char>) -> bool {
    occurs_at(identifier, build_root(), 0)
}

/// What `identifier` links to: what follows the build root in it.
pub open spec fn link_target(identifier: Seq<char>) -> Seq<char> {
    identifier.skip(build_root().len() as int)
}

/// The anchor for `target`: it links to `target` and shows `target`, and
/// ends with a space and a line break element.
pub open spec fn anchor(target: Seq<char>) -> Seq<char> {
    "<a href="@ + target + ">"@ + target + "</a> <br />"@
}

/// The anchors for `items`, one for each and in their order.
pub open spec fn anchors_of(items: Seq<Seq<char>>) -> Seq<Seq<char>> {
    Seq::new(items.len(), |i: int| anchor(link_target(items[i])))
}

/// The texts of `parts`, one behind the other.
pub open spec fn joined(parts: Seq<Seq<char>>) -> Seq<char>
    decreases parts.len(),
{
    if parts.len() == 0 {
        Seq::empty()
    } else {
        joined(parts.drop_last()) + parts.last()
    }
}

/// The listing page: `template` with every `{content_list}` replaced by the
/// anchors for `items`.
pub open spec fn listing_page(template: Seq<char>, items: Seq<Seq<char>>) -> Seq<char> {
    replace_all(template, listing_token(), joined(anchors_of(items)))
}

/// Why a listing cannot be made.
#[derive(Debug, Clone, Copy, PartialEq, Eq)]
pub enum ListingError {
    /// The item at `index` does not begin with the build root. It is the
    /// first such item of the list.
    MissingBuildRoot { index: usize },
}

/// Whether `error` names the first of `items` that does not begin with the
/// build root.
pub open spec fn is_first_without_build_root(error: ListingError, items: Seq<Seq<char>>) -> bool {
    match error {
        ListingError::MissingBuildRoot { index } => {
            &&& index < items.len()
            &&& !has_build_root(items[index as int])
            &&& forall|j: int| 0 <= j < index ==> has_build_root(#[trigger] items[j])
        },
    }
}

/// Whether each of `items` begins with the build root.
pub open spec fn all_have_build_root(items: Seq<Seq<char>>) -> bool {
    forall|j: int| 0 <= j < items.len() ==> has_build_root(#[trigger] items[j])
}

/// The anchor for the page with the output path `identifier`, or nothing
/// where the path does not begin with the build root.
pub fn listing_anchor(identifier: &str) -> (made: Option<String>)
    ensures
        match made {
            Some(markup) => has_build_root(identifier@) && markup@ == anchor(
                link_target(identifier@),
            ),
            None => !has_build_root(identifier@),
        },
{
    let chars = chars_of(identifier);
    let root = chars_of("./build/");
    if !matches_at(&chars, &root, 0) {
        return None;
    }
    let target = string_of(&chars, root.len(), chars.len());
    assert(chars@.subrange(root@.len() as int, chars@.len() as int) =~= chars@.skip(
        root@.len() as int,
    ));
    let mut markup = "<a href=".to_owned();
    markup.append(target.as_str());
    markup.append(">");
    markup.append(target.as_str());
    markup.append("</a> <br />");
    Some(markup)
}

/// The anchors for the pages of `content_list`, one for each entry and in
/// the order of the list. An entry that does not begin with the build root
/// is an error, and the first such entry is named.
pub fn listing_anchors(content_list: &ContentList) -> (made: Result<Vec<String>, ListingError>)
    ensures
        match made {
            Ok(anchors) => {
                &&& all_have_build_root(items_view(content_list.items@))
                &&& anchors@.len() == content_list.items@.len()
                &&& items_view(anchors@) == anchors_of(items_view(content_list.items@))
            },
            Err(error) => is_first_without_build_root(error, items_view(content_list.items@)),
        },
{
    let ghost items = items_view(content_list.items@);
    let mut anchors: Vec<String> = Vec::new();
    let mut i: usize = 0;
    while i < content_list.items.len()
        invariant
            i <= content_list.items.len(),
            items == items_view(content_list.items@),
            anchors@.len() == i,
            forall|j: int| 0 <= j < i ==> has_build_root(#[trigger] items[j]),
            forall|j: int|
                0 <= j < i ==> (#[trigger] anchors@[j])@ == anchor(link_target(items[j])),
        decreases content_list.items.len() - i,
    {
        match listing_anchor(content_list.items[i].as_str()) {
            Some(markup) => {
                anchors.push(markup);
            },
            None => {
                return Err(ListingError::MissingBuildRoot { index: i });
            },
        }
        i += 1;
    }
    assert(items_view(anchors@) =~= anchors_of(items));
    Ok(anchors)
}

/// The listing page for `content_list`, made of `list_template` by
/// replacing every `{content_list}` with the anchors of the list. An entry
/// that does not begin with the build root is an error.
pub fn build_listing_page(content_list: ContentList, list_template: &str) -> (built: Result<
    String,
    ListingError,
>)
    ensures
        match built {
            Ok(page) => all_have_build_root(items_view(content_list.items@)) && page@
                == listing_page(list_template@, items_view(content_list.items@)),
            Err(error) => is_first_without_build_root(error, items_view(content_list.items@)),
        },
{
    let anchors = match listing_anchors(&content_list) {
        Ok(anchors) => anchors,
        Err(error) => {
            return Err(error);
        },
    };
    let ghost parts = items_view(anchors@);
    let mut content_hrefs: Vec<char> = Vec::new();
    let mut i: usize = 0;
    assert(parts.take(0) =~= Seq::<Seq<char>>::empty());
    while i < anchors.len()
        invariant
            i <= anchors.len(),
            parts == items_view(anchors@),
            content_hrefs@ == joined(parts.take(i as int)),
        decreases anchors.len() - i,
    {
        proof {
            let longer = parts.take(i + 1);
            assert(longer.last() == anchors@[i as int]@);
            assert(longer.drop_last() =~= parts.take(i as int));
        }
        let markup = chars_of(anchors[i].as_str());
        append_chars(&mut content_hrefs, &markup);
        i += 1;
    }
    assert(parts.take(i as int) =~= parts);
    let template = chars_of(list_template);
    let token = chars_of("{content_list}");
    let list_page = replace_chars(&template, &token, &content_hrefs);
    Ok(string_of(&list_page, 0, list_page.len()))
}

/// Listing completeness: a listing has one anchor for each entry of the
/// content list, in the order of the list, and the anchor of an entry links
/// to the entry without the build root and shows the same text.
pub proof fn lemma_listing_is_complete(items: Seq<Seq<char>>)
    requires
        all_have_build_root(items),
    ensures
        anchors_of(items).len() == items.len(),
        forall|i: int|
            0 <= i < items.len() ==> {
                let target = link_target(#[trigger] items[i]);
                &&& build_root() + target == items[i]
                &&& anchors_of(items)[i] == "<a href="@ + target + ">"@ + target
                    + "</a> <br />"@
            },
{
    assert forall|i: int| 0 <= i < items.len() implies build_root() + link_target(
        #[trigger] items[i],
    ) == items[i] by {
        let n = build_root().len() as int;
        assert(has_build_root(items[i]));
        assert(items[i].subrange(0, n) + items[i].skip(n) =~= items[i]);
    }
}

/// The file name of the listing page called `content_listing_page_name`:
/// the name and `.html`.
pub fn listing_file_name(content_listing_page_name: &str) -> (file_name: String)
    ensures
        file_name@ == content_listing_page_name@ + ".html"@,
{
    let mut file_name = content_listing_page_name.to_owned();
    file_name.append(".html");
    file_name
}

/// The path of the index page in `directory`: the directory and
/// `/index.html`.
pub fn index_path(directory: &str) -> (path: String)
    ensures
        path@ == directory@ + "/index.html"@,
{
    let mut path = directory.to_owned();
    path.append("/index.html");
    path
}

} // verus!

//! Front matter: the optional block of `key: value` lines between two `---`
//! lines at the very start of a content file.
//!
//! A block is taken whole or not at all. One line between the delimiters
//! that is not of the form `<key>: <value>` and the file has no front matter:
//! its whole text is then the body.

use crate::text::{
    chars_of, contains, contains_chars, find_from, lemma_occurs_at_skip, matches_at, occurs_at,
    string_of, sub_vec,
};
use vstd::prelude::*;

verus! {

/// A key and its value, as texts.
pub type Entry = (Seq<char>, Seq<char>);

/// What separates a key from its value: a colon and a space.
pub open spec fn separator() -> Seq<char> {
    seq![':', ' ']
}

/// The line that opens and closes a block: three hyphens.
pub open spec fn delimiter() -> Seq<char> {
    seq!['-', '-', '-']
}

/// The number of characters of `text` before its first line feed, or the
/// length of `text` where it has none.
pub open spec fn line_len(text: Seq<char>) -> nat
    decreases text.len(),
{
    if text.len() == 0 || text[0] == '\n' {
        0
    } else {
        1 + line_len(text.skip(1))
    }
}

/// `line` without the carriage return at its end, if it has one.
pub open spec fn without_carriage_return(line: Seq<char>) -> Seq<char> {
    if line.len() > 0 && line.last() == '\r' {
        line.drop_last()
    } else {
        line
    }
}

/// The first line of a text that is not empty: what stands before the first
/// line feed, without a carriage return just before that line feed. Where
/// the text has no line feed, it is its own first line.
pub open spec fn first_line(text: Seq<char>) -> Seq<char> {
    let n = line_len(text) as int;
    if n < text.len() {
        without_carriage_return(text.take(n))
    } else {
        text
    }
}

/// What follows the first line of `text` and the line feed that ends it.
pub open spec fn after_first_line(text: Seq<char>) -> Seq<char> {
    let n = line_len(text) as int;
    if n < text.len() {
        text.skip(n + 1)
    } else {
        Seq::empty()
    }
}

/// The lines of `text`. A line ends at a line feed, or at a carriage return
/// and a line feed; neither is part of the line. The last line may end with
/// the text, and the empty text has no line.
pub open spec fn lines_of(text: Seq<char>) -> Seq<Seq<char>>
    decreases text.len(),
{
    if text.len() == 0 {
        Seq::empty()
    } else {
        seq![first_line(text)] + lines_of(after_first_line(text))
    }
}

/// Whether `pattern` stands in `text` at `at` and nowhere before it.
pub open spec fn is_first_occurrence(text: Seq<char>, pattern: Seq<char>, at: int) -> bool {
    &&& occurs_at(text, pattern, at)
    &&& forall|j: int| j < at ==> !occurs_at(text, pattern, j)
}

/// Whether `line` has the form `<key>: <value>`.
pub open spec fn is_metadata_line(line: Seq<char>) -> bool {
    contains(line, separator())
}

/// The entry that a line of the form `<key>: <value>` declares. The key is
/// what stands before the first separator of the line and the value is all
/// that follows it, further separators too; either may be empty. A line
/// without a separator declares nothing.
pub open spec fn entry_of(line: Seq<char>) -> Option<Entry> {
    if is_metadata_line(line) {
        let at = choose|at: int| is_first_occurrence(line, separator(), at);
        Some((line.take(at), line.skip(at + 2)))
    } else {
        None
    }
}

/// Whether one of `entries` has the key `key`.
pub open spec fn has_key(entries: Seq<Entry>, key: Seq<char>) -> bool {
    exists|i: int| 0 <= i < entries.len() && (#[trigger] entries[i]).0 == key
}

/// Whether no two of `entries` have the same key.
pub open spec fn distinct_keys(entries: Seq<Entry>) -> bool {
    forall|i: int, j: int|
        0 <= i < j < entries.len() ==> (#[trigger] entries[i]).0 != (#[trigger] entries[j]).0
}

/// `entries` after `key` has been given `value`: a key that is there keeps
/// its place and takes the new value, a new key goes to the end.
pub open spec fn put(entries: Seq<Entry>, key: Seq<char>, value: Seq<char>) -> Seq<Entry> {
    if has_key(entries, key) {
        let i = choose|i: int| 0 <= i < entries.len() && (#[trigger] entries[i]).0 == key;
        entries.update(i, (key, value))
    } else {
        entries.push((key, value))
    }
}

/// `entries` after each of `lines` has been put into it, in order; nothing
/// where one of the lines declares no entry.
pub open spec fn put_lines(entries: Seq<Entry>, lines: Seq<Seq<char>>) -> Option<Seq<Entry>>
    decreases lines.len(),
{
    if lines.len() == 0 {
        Some(entries)
    } else {
        match entry_of(lines[0]) {
            Some((key, value)) => put_lines(put(entries, key, value), lines.skip(1)),
            None => None,
        }
    }
}

/// The entries that the lines of `interior` declare, or nothing where one of
/// its lines is not of the form `<key>: <value>`.
pub open spec fn decode(interior: Seq<char>) -> Option<Seq<Entry>> {
    put_lines(Seq::empty(), lines_of(interior))
}

/// The line that opens a block, with the line feed that ends it.
pub open spec fn opening() -> Seq<char> {
    seq!['-', '-', '-', '\n']
}

/// Whether `text` begins with a whole line of the form `<key>: <value>`,
/// ended by a line feed.
pub open spec fn starts_with_metadata_line(text: Seq<char>) -> bool {
    line_len(text) < text.len() && is_metadata_line(first_line(text))
}

/// The length of the longest run of whole metadata lines with which `text`
/// begins, their line feeds counted.
pub open spec fn metadata_len(text: Seq<char>) -> nat
    decreases text.len(),
{
    if starts_with_metadata_line(text) {
        line_len(text) + 1 + metadata_len(after_first_line(text))
    } else {
        0
    }
}

/// Whether `text` begins with a line that is exactly the delimiter: what
/// follows the three hyphens is a line feed or the end of the text.
pub open spec fn starts_with_closing_line(text: Seq<char>) -> bool {
    occurs_at(text, delimiter(), 0) && (text.len() == 3 || text[3] == '\n')
}

/// Where the front matter block of `text` ends: the index just behind the
/// hyphens of the closing line. A text has a block where its first line is
/// exactly the delimiter, ended by a line feed alone, and the metadata lines
/// that follow, none or more, are followed at once by a closing line.
pub open spec fn block_end(text: Seq<char>) -> Option<int> {
    if occurs_at(text, opening(), 0) {
        let close = 4 + metadata_len(text.skip(4)) as int;
        if starts_with_closing_line(text.skip(close)) {
            Some(close + 3)
        } else {
            None
        }
    } else {
        None
    }
}

/// The metadata that the front matter block of `text` declares, or nothing
/// where `text` has no such block.
pub open spec fn metadata_of(text: Seq<char>) -> Option<Seq<Entry>> {
    match block_end(text) {
        Some(end) => decode(text.subrange(4, end - 3)),
        None => None,
    }
}

/// `text` without its front matter block: what follows the closing line's
/// hyphens, or all of `text` where it has no block.
pub open spec fn body_of(text: Seq<char>) -> Seq<char> {
    match block_end(text) {
        Some(end) => text.skip(end),
        None => text,
    }
}

/// The metadata of one content file: keys with their values, no key twice,
/// in the order in which the keys first stood in the file.
pub struct Frontmatter {
    entries: Vec<(String, String)>,
}

impl View for Frontmatter {
    type V = Seq<Entry>;

    closed spec fn view(&self) -> Seq<Entry> {
        entries_view(self.entries@)
    }
}

/// The entries that a vector of pairs of strings stands for.
spec fn entries_view(pairs: Seq<(String, String)>) -> Seq<Entry> {
    Seq::new(pairs.len(), |i: int| (pairs[i].0@, pairs[i].1@))
}

impl Frontmatter {
    #[verifier::type_invariant]
    spec fn keys_are_distinct(self) -> bool {
        distinct_keys(self@)
    }

    /// Metadata without any entry.
    pub fn new() -> (empty: Frontmatter)
        ensures
            empty@ == Seq::<Entry>::empty(),
    {
        let empty = Frontmatter { entries: Vec::new() };
        assert(empty@ =~= Seq::<Entry>::empty());
        empty
    }

    /// The number of keys.
    pub fn len(&self) -> (n: usize)
        ensures
            n == self@.len(),
            distinct_keys(self@),
    {
        proof {
            use_type_invariant(self);
        }
        self.entries.len()
    }

    /// The key of the entry at `index`.
    pub fn key_at(&self, index: usize) -> (key: &String)
        requires
            index < self@.len(),
        ensures
            key@ == self@[index as int].0,
    {
        &self.entries[index].0
    }

    /// The value of the entry at `index`.
    pub fn value_at(&self, index: usize) -> (value: &String)
        requires
            index < self@.len(),
        ensures
            value@ == self@[index as int].1,
    {
        &self.entries[index].1
    }

    /// The index of the entry with the key `key`.
    pub fn position(&self, key: &str) -> (found: Option<usize>)
        ensures
            match found {
                Some(i) => i < self@.len() && self@[i as int].0 == key@,
                None => !has_key(self@, key@),
            },
    {
        let wanted = key.to_owned();
        let mut i: usize = 0;
        while i < self.entries.len()
            invariant
                i <= self.entries@.len(),
                wanted@ == key@,
                forall|j: int| 0 <= j < i ==> (#[trigger] self@[j]).0 != key@,
            decreases self.entries.len() - i,
        {
            if self.entries[i].0 == wanted {
                return Some(i);
            }
            i += 1;
        }
        None
    }

    /// Whether `key` is one of the keys.
    pub fn contains_key(&self, key: &str) -> (found: bool)
        ensures
            found == has_key(self@, key@),
    {
        self.position(key).is_some()
    }

    /// The value of `key`.
    pub fn get(&self, key: &str) -> (value: Option<&String>)
        ensures
            match value {
                Some(v) => exists|i: int|
                    0 <= i < self@.len() && (#[trigger] self@[i]) == (key@, v@),
                None => !has_key(self@, key@),
            },
    {
        match self.position(key) {
            Some(i) => Some(&self.entries[i].1),
            None => None,
        }
    }

    /// Gives `key` the value `value`: a key that is there keeps its place, a
    /// new key goes to the end.
    pub fn insert(&mut self, key: String, value: String)
        ensures
            final(self)@ == put(old(self)@, key@, value@),
    {
        proof {
            use_type_invariant(&*self);
        }
        let ghost before = self@;
        let found = self.position(key.as_str());
        let mut taken = Frontmatter { entries: Vec::new() };
        assert(taken@ =~= Seq::<Entry>::empty());
        core::mem::swap(self, &mut taken);
        let mut entries = taken.entries;
        match found {
            Some(i) => {
                entries.set(i, (key, value));
                let ghost chosen = choose|c: int|
                    0 <= c < before.len() && (#[trigger] before[c]).0 == key@;
                assert(chosen == i);
            },
            None => {
                entries.push((key, value));
            },
        }
        proof {
            lemma_put_keeps_keys_distinct(before, key@, value@);
            assert(entries_view(entries@) =~= put(before, key@, value@));
        }
        *self = Frontmatter { entries };
    }
}

/// Giving a key a value leaves no key twice, and adds no key but that one.
pub proof fn lemma_put_keeps_keys_distinct(entries: Seq<Entry>, key: Seq<char>, value: Seq<char>)
    requires
        distinct_keys(entries),
    ensures
        distinct_keys(put(entries, key, value)),
        has_key(put(entries, key, value), key),
        forall|other: Seq<char>|
            other != key ==> (has_key(put(entries, key, value), other) <==> has_key(
                entries,
                other,
            )),
{
    let after = put(entries, key, value);
    if has_key(entries, key) {
        let i = choose|i: int| 0 <= i < entries.len() && (#[trigger] entries[i]).0 == key;
        assert(after[i].0 == key);
    } else {
        assert(after[entries.len() as int].0 == key);
    }
    assert forall|other: Seq<char>| other != key implies (has_key(after, other) <==> has_key(
        entries,
        other,
    )) by {
        if has_key(entries, other) {
            let j = choose|j: int| 0 <= j < entries.len() && (#[trigger] entries[j]).0 == other;
            assert(after[j].0 == other);
        }
        if has_key(after, other) {
            let j = choose|j: int| 0 <= j < after.len() && (#[trigger] after[j]).0 == other;
            assert(entries[j].0 == other);
        }
    }
}

/// The key and the value of a line of the form `<key>: <value>`.
pub fn split_entry(line: &Vec<char>) -> (entry: Option<(String, String)>)
    ensures
        match entry {
            Some((key, value)) => entry_of(line@) == Some((key@, value@)),
            None => entry_of(line@) is None,
        },
{
    let mut colon_space: Vec<char> = Vec::new();
    colon_space.push(':');
    colon_space.push(' ');
    assert(colon_space@ =~= separator());
    match find_from(line, &colon_space, 0) {
        None => None,
        Some(at) => {
            assert(is_first_occurrence(line@, separator(), at as int));
            let ghost chosen = choose|c: int| is_first_occurrence(line@, separator(), c);
            assert(chosen == at);
            assert(at + 2 <= line.len());
            let key = string_of(line, 0, at);
            let value = string_of(line, at + 2, line.len());
            assert(line@.take(at as int) =~= line@.subrange(0, at as int));
            assert(line@.skip(at + 2) =~= line@.subrange(at + 2, line@.len() as int));
            Some((key, value))
        },
    }
}

/// `line_len(text)` is the index of the first line feed of `text`, or its
/// length.
pub proof fn lemma_line_len(text: Seq<char>)
    ensures
        line_len(text) <= text.len(),
        forall|i: int| 0 <= i < line_len(text) ==> text[i] != '\n',
        line_len(text) < text.len() ==> text[line_len(text) as int] == '\n',
    decreases text.len(),
{
    if text.len() == 0 || text[0] == '\n' {
    } else {
        let rest = text.skip(1);
        lemma_line_len(rest);
        assert forall|i: int| 0 <= i < line_len(text) implies text[i] != '\n' by {
            if i > 0 {
                assert(text[i] == rest[i - 1]);
            }
        }
        if line_len(text) < text.len() {
            assert(text[line_len(text) as int] == rest[line_len(rest) as int]);
        }
    }
}

/// An index before which `text` has no line feed, and at which it has one
/// or ends, is `line_len(text)`.
pub proof fn lemma_line_len_is(text: Seq<char>, n: int)
    requires
        0 <= n <= text.len(),
        forall|i: int| 0 <= i < n ==> text[i] != '\n',
        n == text.len() || text[n] == '\n',
    ensures
        line_len(text) == n,
{
    lemma_line_len(text);
    let m = line_len(text) as int;
    if m < n {
        assert(text[m] == '\n');
    } else if n < m {
        assert(text[n] == '\n');
    }
}

/// The first line of `text` from the index `from`, the index at which the
/// next line begins, and whether a line feed ended the line.
fn line_from(text: &Vec<char>, from: usize) -> (found: (Vec<char>, usize, bool))
    requires
        from < text.len(),
    ensures
        found.0@ == first_line(text@.skip(from as int)),
        from < found.1 <= text.len(),
        text@.skip(found.1 as int) == after_first_line(text@.skip(from as int)),
        found.2 == (line_len(text@.skip(from as int)) < text.len() - from),
        found.1 - from == line_len(text@.skip(from as int)) + if found.2 {
            1int
        } else {
            0int
        },
{
    let ghost rest = text@.skip(from as int);
    let mut end: usize = from;
    while end < text.len() && text[end] != '\n'
        invariant
            from <= end <= text.len(),
            forall|i: int| from <= i < end ==> text@[i] != '\n',
        decreases text.len() - end,
    {
        end += 1;
    }
    proof {
        lemma_line_len_is(rest, end - from);
        assert(rest.take(end - from) =~= text@.subrange(from as int, end as int));
    }
    if end < text.len() {
        let line_end: usize = if end > from && text[end - 1] == '\r' {
            (end - 1) as usize
        } else {
            end
        };
        let line = sub_vec(text, from, line_end);
        proof {
            let whole = text@.subrange(from as int, end as int);
            if end > from && text@[end - 1] == '\r' {
                assert(whole.last() == '\r');
                assert(whole.drop_last() =~= text@.subrange(from as int, line_end as int));
            }
            assert(rest.skip(end - from + 1) =~= text@.skip(end + 1));
        }
        (line, end + 1, true)
    } else {
        let line = sub_vec(text, from, end);
        proof {
            assert(text@.subrange(from as int, end as int) =~= rest);
            assert(text@.skip(end as int) =~= Seq::<char>::empty());
        }
        (line, end, false)
    }
}

/// Decodes the interior of a block: the entries that the lines of
/// `frontmatter` declare. One line that is not of the form `<key>: <value>`
/// and nothing is returned, whatever the other lines hold.
pub fn parse_key_value_pairs(frontmatter: &str) -> (parsed: Option<Frontmatter>)
    ensures
        match parsed {
            Some(entries) => decode(frontmatter@) == Some(entries@),
            None => decode(frontmatter@) is None,
        },
{
    let text = chars_of(frontmatter);
    let mut entries = Frontmatter::new();
    let mut at: usize = 0;
    assert(text@.skip(0) =~= text@);
    while at < text.len()
        invariant
            at <= text.len(),
            text@ == frontmatter@,
            put_lines(entries@, lines_of(text@.skip(at as int))) == decode(text@),
        decreases text.len() - at,
    {
        let ghost rest = text@.skip(at as int);
        let (line, next, _) = line_from(&text, at);
        proof {
            let lines = lines_of(rest);
            assert(lines[0] == first_line(rest));
            assert(lines.skip(1) =~= lines_of(after_first_line(rest)));
        }
        match split_entry(&line) {
            None => {
                return None;
            },
            Some((key, value)) => {
                entries.insert(key, value);
            },
        }
        at = next;
    }
    assert(text@.skip(at as int) =~= Seq::<char>::empty());
    Some(entries)
}

/// A run of metadata lines is never longer than the text that it begins.
pub proof fn lemma_metadata_len_bound(text: Seq<char>)
    ensures
        metadata_len(text) <= text.len(),
    decreases text.len(),
{
    if starts_with_metadata_line(text) {
        lemma_metadata_len_bound(after_first_line(text));
    }
}

/// Every line of the run of metadata lines with which `text` begins
/// declares an entry: the run decodes, whatever entries were there before.
pub proof fn lemma_metadata_run_decodes(text: Seq<char>, entries: Seq<Entry>)
    ensures
        put_lines(entries, lines_of(text.take(metadata_len(text) as int))) is Some,
    decreases text.len(),
{
    lemma_metadata_len_bound(text);
    let run = text.take(metadata_len(text) as int);
    if starts_with_metadata_line(text) {
        let n = line_len(text) as int;
        let after = after_first_line(text);
        lemma_line_len(text);
        lemma_metadata_len_bound(after);
        lemma_line_len_is(run, n);
        assert(run.take(n) =~= text.take(n));
        assert(first_line(run) == first_line(text));
        assert(after_first_line(run) =~= after.take(metadata_len(after) as int));
        let lines = lines_of(run);
        assert(lines[0] == first_line(text));
        assert(lines.skip(1) =~= lines_of(after.take(metadata_len(after) as int)));
        let (key, value) = entry_of(first_line(text))->0;
        lemma_metadata_run_decodes(after, put(entries, key, value));
    } else {
        assert(run =~= Seq::<char>::empty());
    }
}

/// The interior of a front matter block always decodes: a text with a block
/// has metadata.
pub proof fn lemma_block_decodes(text: Seq<char>)
    ensures
        metadata_of(text) is Some <==> block_end(text) is Some,
{
    if block_end(text) is Some {
        let rest = text.skip(4);
        lemma_metadata_len_bound(rest);
        lemma_metadata_run_decodes(rest, Seq::empty());
        assert(rest.take(metadata_len(rest) as int) =~= text.subrange(
            4,
            block_end(text)->0 - 3,
        ));
    }
}

/// Where the front matter block of `text` ends, if it has one.
fn find_block_end(text: &Vec<char>) -> (end: Option<usize>)
    ensures
        match end {
            Some(e) => block_end(text@) == Some(e as int),
            None => block_end(text@) is None,
        },
{
    let mut first_line: Vec<char> = Vec::new();
    first_line.push('-');
    first_line.push('-');
    first_line.push('-');
    let hyphens = sub_vec(&first_line, 0, 3);
    first_line.push('\n');
    let mut colon_space: Vec<char> = Vec::new();
    colon_space.push(':');
    colon_space.push(' ');
    assert(first_line@ =~= opening());
    assert(hyphens@ =~= delimiter());
    assert(colon_space@ =~= separator());
    if !matches_at(text, &first_line, 0) {
        return None;
    }
    let mut at: usize = 4;
    let mut more = true;
    while more
        invariant
            4 <= at <= text.len(),
            colon_space@ == separator(),
            at - 4 + metadata_len(text@.skip(at as int)) == metadata_len(text@.skip(4)),
            !more ==> metadata_len(text@.skip(at as int)) == 0,
        decreases
                text.len() - at + if more {
                    1int
                } else {
                    0int
                },
    {
        if at >= text.len() {
            more = false;
        } else {
            let (line, next, ended) = line_from(text, at);
            if ended && contains_chars(&line, &colon_space) {
                at = next;
            } else {
                more = false;
            }
        }
    }
    proof {
        lemma_occurs_at_skip(text@, delimiter(), at as int, 0);
    }
    if matches_at(text, &hyphens, at) && (at + 3 == text.len() || text[at + 3] == '\n') {
        Some(at + 3)
    } else {
        None
    }
}

/// The metadata of a content file: what the block at the very start of
/// `content` declares. A text that does not begin with a block has none,
/// whatever stands further down in it.
pub fn parse_frontmatter(content: &str) -> (parsed: Option<Frontmatter>)
    ensures
        parsed is Some <==> block_end(content@) is Some,
        match parsed {
            Some(entries) => metadata_of(content@) == Some(entries@),
            None => metadata_of(content@) is None,
        },
{
    let text = chars_of(content);
    proof {
        lemma_block_decodes(text@);
    }
    match find_block_end(&text) {
        None => None,
        Some(end) => {
            proof {
                lemma_metadata_len_bound(text@.skip(4));
            }
            let interior = string_of(&text, 4, end - 3);
            parse_key_value_pairs(interior.as_str())
        },
    }
}

/// The body of a content file: `file_content` without the block at its
/// very start, or as it is where it has none. The line feed behind the
/// closing line stays.
pub fn remove_frontmatter(file_content: String) -> (body: String)
    ensures
        body@ == body_of(file_content@),
{
    let text = chars_of(file_content.as_str());
    match find_block_end(&text) {
        None => file_content,
        Some(end) => {
            proof {
                lemma_metadata_len_bound(text@.skip(4));
                assert(text@.skip(end as int) =~= text@.subrange(end as int, text@.len() as int));
            }
            string_of(&text, end, text.len())
        },
    }
}

} // verus!

//! What holds of front matter for every text: a block that is written out
//! is read back, a block is found at the very start of a text only, and one
//! malformed line does away with the whole block.

use crate::frontmatter::{
    after_first_line, block_end, body_of, decode, delimiter, distinct_keys, entry_of, first_line,
    has_key, is_first_occurrence, is_metadata_line, lemma_line_len, lemma_line_len_is,
    lemma_metadata_len_bound, lemma_put_keeps_keys_distinct, line_len, lines_of, metadata_len,
    metadata_of, opening, put, put_lines, separator, starts_with_closing_line,
    starts_with_metadata_line, without_carriage_return, Entry,
};
use crate::text::{contains, occurs_at};
use vstd::prelude::*;

verus! {

/// The line that declares `entry`, with the line feed that ends it.
pub open spec fn metadata_line(entry: Entry) -> Seq<char> {
    entry.0 + separator() + entry.1 + seq!['\n']
}

/// The lines that declare `entries`, one behind the other.
pub open spec fn metadata_lines(entries: Seq<Entry>) -> Seq<char>
    decreases entries.len(),
{
    if entries.len() == 0 {
        Seq::empty()
    } else {
        metadata_line(entries[0]) + metadata_lines(entries.skip(1))
    }
}

/// The block that declares `entries`: the opening line, their lines, and
/// the hyphens of the closing line.
pub open spec fn block_of(entries: Seq<Entry>) -> Seq<char> {
    opening() + metadata_lines(entries) + delimiter()
}

/// Whether a line can declare `entry` and be read back as it: neither key
/// nor value holds a line feed, the key holds no separator, and the value
/// does not end in a carriage return. The value may hold separators.
pub open spec fn can_be_declared(entry: Entry) -> bool {
    &&& !entry.0.contains('\n')
    &&& !entry.1.contains('\n')
    &&& !contains(entry.0, separator())
    &&& !(entry.1.len() > 0 && entry.1.last() == '\r')
}

/// `entries` after each of `more` has been put into it, in order.
pub open spec fn put_all(entries: Seq<Entry>, more: Seq<Entry>) -> Seq<Entry>
    decreases more.len(),
{
    if more.len() == 0 {
        entries
    } else {
        put_all(put(entries, more[0].0, more[0].1), more.skip(1))
    }
}

/// The line that declares an entry is read back as that entry.
pub proof fn lemma_declared_line_is_read_back(entry: Entry)
    requires
        can_be_declared(entry),
    ensures
        entry_of(entry.0 + separator() + entry.1) == Some(entry),
        without_carriage_return(entry.0 + separator() + entry.1) == entry.0 + separator()
            + entry.1,
        !(entry.0 + separator() + entry.1).contains('\n'),
{
    let (key, value) = entry;
    let line = key + separator() + value;
    let at = key.len() as int;
    assert(line.subrange(at, at + 2) =~= separator());
    assert(occurs_at(line, separator(), at));
    assert forall|j: int| j < at implies !occurs_at(line, separator(), j) by {
        if occurs_at(line, separator(), j) {
            assert(line.subrange(j, j + 2)[1] == ' ');
            if j == at - 1 {
                assert(line[j + 1] == ':');
            } else {
                assert(key.subrange(j, j + 2) =~= line.subrange(j, j + 2));
                assert(occurs_at(key, separator(), j));
            }
        }
    }
    assert(is_first_occurrence(line, separator(), at));
    let chosen = choose|c: int| is_first_occurrence(line, separator(), c);
    assert(chosen == at);
    assert(line.take(at) =~= key);
    assert(line.skip(at + 2) =~= value);
    if value.len() > 0 {
        assert(line.last() == value.last());
    } else {
        assert(line.last() == ' ');
    }
    assert forall|i: int| 0 <= i < line.len() implies line[i] != '\n' by {
        if i < at {
            assert(key.contains(key[i]));
        } else if i >= at + 2 {
            assert(value.contains(value[i - at - 2]));
        }
    }
}

/// A text that begins with the line that declares an entry has that line's
/// content as its first line, and what follows the line behind it.
proof fn lemma_declared_line_is_first(entry: Entry, tail: Seq<char>)
    requires
        can_be_declared(entry),
    ensures
        line_len(metadata_line(entry) + tail) == entry.0.len() + 2 + entry.1.len(),
        first_line(metadata_line(entry) + tail) == entry.0 + separator() + entry.1,
        after_first_line(metadata_line(entry) + tail) == tail,
        starts_with_metadata_line(metadata_line(entry) + tail),
{
    let content = entry.0 + separator() + entry.1;
    let text = metadata_line(entry) + tail;
    let n = content.len() as int;
    lemma_declared_line_is_read_back(entry);
    assert forall|i: int| 0 <= i < n implies text[i] != '\n' by {
        assert(text[i] == content[i]);
        assert(content.contains(content[i]));
    }
    assert(text[n] == '\n');
    lemma_line_len_is(text, n);
    assert(text.take(n) =~= content);
    assert(text.skip(n + 1) =~= tail);
    assert(occurs_at(content, separator(), entry.0.len() as int)) by {
        assert(content.subrange(entry.0.len() as int, entry.0.len() as int + 2) =~= separator());
    }
}

/// Behind the lines that declare entries, the run of metadata lines goes
/// on as far as that of what follows them.
pub proof fn lemma_metadata_len_of_lines(entries: Seq<Entry>, tail: Seq<char>)
    requires
        forall|i: int| 0 <= i < entries.len() ==> can_be_declared(#[trigger] entries[i]),
    ensures
        metadata_len(metadata_lines(entries) + tail) == metadata_lines(entries).len()
            + metadata_len(tail),
    decreases entries.len(),
{
    if entries.len() == 0 {
        assert(metadata_lines(entries) + tail =~= tail);
    } else {
        let rest = entries.skip(1);
        let after = metadata_lines(rest) + tail;
        assert(can_be_declared(entries[0]));
        assert forall|i: int| 0 <= i < rest.len() implies can_be_declared(#[trigger] rest[i]) by {
            assert(rest[i] == entries[i + 1]);
        }
        assert(metadata_lines(entries) + tail =~= metadata_line(entries[0]) + after);
        lemma_declared_line_is_first(entries[0], after);
        lemma_metadata_len_of_lines(rest, tail);
    }
}

/// The lines that declare entries decode to those entries, put in order
/// into what was there before.
pub proof fn lemma_lines_decode(before: Seq<Entry>, entries: Seq<Entry>)
    requires
        forall|i: int| 0 <= i < entries.len() ==> can_be_declared(#[trigger] entries[i]),
    ensures
        put_lines(before, lines_of(metadata_lines(entries))) == Some(put_all(before, entries)),
    decreases entries.len(),
{
    if entries.len() > 0 {
        let rest = entries.skip(1);
        let text = metadata_lines(entries);
        assert(can_be_declared(entries[0]));
        assert forall|i: int| 0 <= i < rest.len() implies can_be_declared(#[trigger] rest[i]) by {
            assert(rest[i] == entries[i + 1]);
        }
        lemma_declared_line_is_first(entries[0], metadata_lines(rest));
        lemma_declared_line_is_read_back(entries[0]);
        let lines = lines_of(text);
        assert(lines[0] == first_line(text));
        assert(lines.skip(1) =~= lines_of(metadata_lines(rest)));
        lemma_lines_decode(put(before, entries[0].0, entries[0].1), rest);
    }
}

/// Putting entries into entries without a double key leaves none, and the
/// keys are those that were there and those that came.
pub proof fn lemma_put_all_keys(before: Seq<Entry>, more: Seq<Entry>)
    requires
        distinct_keys(before),
    ensures
        distinct_keys(put_all(before, more)),
        forall|key: Seq<char>|
            has_key(put_all(before, more), key) <==> has_key(before, key) || has_key(more, key),
    decreases more.len(),
{
    if more.len() > 0 {
        let first = more[0];
        let rest = more.skip(1);
        let next = put(before, first.0, first.1);
        lemma_put_keeps_keys_distinct(before, first.0, first.1);
        lemma_put_all_keys(next, rest);
        assert forall|key: Seq<char>|
            has_key(put_all(before, more), key) <==> has_key(before, key) || has_key(
                more,
                key,
            ) by {
            if has_key(more, key) {
                let i = choose|i: int| 0 <= i < more.len() && (#[trigger] more[i]).0 == key;
                if i > 0 {
                    assert(rest[i - 1].0 == key);
                }
            }
            if has_key(rest, key) {
                let i = choose|i: int| 0 <= i < rest.len() && (#[trigger] rest[i]).0 == key;
                assert(more[i + 1].0 == key);
            }
        }
    }
}

/// Entries whose keys differ from each other and from those that are
/// there are put one behind the other.
pub proof fn lemma_put_all_distinct(before: Seq<Entry>, more: Seq<Entry>)
    requires
        distinct_keys(before + more),
    ensures
        put_all(before, more) == before + more,
    decreases more.len(),
{
    if more.len() == 0 {
        assert(before + more =~= before);
    } else {
        let first = more[0];
        let rest = more.skip(1);
        let all = before + more;
        assert(!has_key(before, first.0)) by {
            if has_key(before, first.0) {
                let i = choose|i: int| 0 <= i < before.len() && (#[trigger] before[i]).0 == first.0;
                assert(all[i].0 == all[before.len() as int].0);
            }
        }
        assert(before.push(first) + rest =~= all);
        lemma_put_all_distinct(before.push(first), rest);
    }
}

/// Round trip. A text made of the block that declares `declared` and of a
/// body has as metadata what `declared` gives when its entries are put in
/// order, with exactly the declared keys, and has that body as its body.
/// Where no key is declared twice the metadata is `declared` itself.
pub proof fn lemma_frontmatter_round_trip(declared: Seq<Entry>, body: Seq<char>)
    requires
        forall|i: int| 0 <= i < declared.len() ==> can_be_declared(#[trigger] declared[i]),
        body.len() == 0 || body[0] == '\n',
    ensures
        block_end(block_of(declared) + body) == Some(block_of(declared).len() as int),
        metadata_of(block_of(declared) + body) == Some(put_all(Seq::empty(), declared)),
        body_of(block_of(declared) + body) == body,
        distinct_keys(put_all(Seq::empty(), declared)),
        forall|key: Seq<char>|
            has_key(put_all(Seq::empty(), declared), key) <==> has_key(declared, key),
        distinct_keys(declared) ==> put_all(Seq::empty(), declared) == declared,
{
    let lines = metadata_lines(declared);
    let text = block_of(declared) + body;
    let tail = delimiter() + body;
    assert(text.subrange(0, 4) =~= opening());
    assert(text.skip(4) =~= lines + tail);
    lemma_closing_line_ends_run(body);
    lemma_metadata_len_of_lines(declared, tail);
    let close = 4 + lines.len() as int;
    assert(text.skip(close) =~= tail);
    assert(text.skip(close + 3) =~= body);
    assert(text.subrange(4, close) =~= lines);
    lemma_lines_decode(Seq::empty(), declared);
    lemma_put_all_keys(Seq::empty(), declared);
    if distinct_keys(declared) {
        assert(Seq::<Entry>::empty() + declared =~= declared);
        lemma_put_all_distinct(Seq::empty(), declared);
    }
}

/// A closing line is no metadata line: the run of metadata lines ends
/// before it.
proof fn lemma_closing_line_ends_run(body: Seq<char>)
    requires
        body.len() == 0 || body[0] == '\n',
    ensures
        metadata_len(delimiter() + body) == 0,
        starts_with_closing_line(delimiter() + body),
{
    let tail = delimiter() + body;
    assert(tail.subrange(0, 3) =~= delimiter());
    lemma_line_len_is(tail, 3);
    if body.len() > 0 {
        assert(tail.take(3) =~= delimiter());
        assert(first_line(tail) == delimiter());
        assert forall|at: int| !occurs_at(delimiter(), separator(), at) by {
            if occurs_at(delimiter(), separator(), at) {
                assert(delimiter().subrange(at, at + 2)[0] == ':');
            }
        }
    }
}

/// Anchoring. A text that does not begin with the opening line has no
/// metadata and is its own body, whatever blocks stand further down in it.
pub proof fn lemma_frontmatter_is_anchored(text: Seq<char>)
    requires
        !occurs_at(text, opening(), 0),
    ensures
        block_end(text) is None,
        metadata_of(text) is None,
        body_of(text) == text,
{
}

/// Anchoring, of a block that stands behind other text: where `before` is
/// not empty and does not itself begin with the opening line, the block of
/// `declared` behind it is not taken for front matter.
pub proof fn lemma_later_block_is_body(before: Seq<char>, declared: Seq<Entry>, rest: Seq<char>)
    requires
        before.len() > 0,
        !occurs_at(before, opening(), 0),
    ensures
        metadata_of(before + block_of(declared) + rest) is None,
        body_of(before + block_of(declared) + rest) == before + block_of(declared) + rest,
{
    let block = block_of(declared);
    let text = before + block + rest;
    if occurs_at(text, opening(), 0) {
        let start = text.subrange(0, 4);
        if before.len() >= 4 {
            assert(before.subrange(0, 4) =~= start);
        } else {
            assert(start[3] == text[3]);
            assert(text[3] == block[3 - before.len()]);
            assert(block[3 - before.len()] == opening()[3 - before.len()]);
        }
    }
}

/// Strict rejection. Where the lines behind the opening line are metadata
/// lines up to one line that is neither a metadata line nor the closing
/// line, the text has no metadata at all, and all of it is body.
///
/// `lines` are the metadata lines before that line and `bad` is that line
/// without its line feed; `rest` is empty, or begins with the line feed
/// that ends `bad`.
pub proof fn lemma_malformed_line_rejects_block(
    lines: Seq<char>,
    bad: Seq<char>,
    rest: Seq<char>,
)
    requires
        metadata_len(lines) == lines.len(),
        !bad.contains('\n'),
        !is_metadata_line(without_carriage_return(bad)),
        bad != delimiter(),
        rest.len() == 0 || rest[0] == '\n',
    ensures
        block_end(opening() + lines + bad + rest) is None,
        metadata_of(opening() + lines + bad + rest) is None,
        body_of(opening() + lines + bad + rest) == opening() + lines + bad + rest,
{
    let text = opening() + lines + bad + rest;
    let tail = bad + rest;
    assert(text.subrange(0, 4) =~= opening());
    assert(text.skip(4) =~= lines + tail);
    assert forall|i: int| 0 <= i < bad.len() implies tail[i] != '\n' by {
        assert(bad.contains(bad[i]));
    }
    lemma_line_len_is(tail, bad.len() as int);
    assert(tail.take(bad.len() as int) =~= bad);
    assert(metadata_len(tail) == 0);
    lemma_metadata_len_of_run(lines, tail);
    let close = 4 + lines.len() as int;
    assert(text.skip(close) =~= tail);
    if starts_with_closing_line(tail) {
        assert(tail.subrange(0, 3) == delimiter());
        if bad.len() < 3 {
            assert(tail[bad.len() as int] == '\n');
            assert(tail.subrange(0, 3)[bad.len() as int] == '\n');
        } else if bad.len() > 3 {
            assert(tail[3] == bad[3]);
            assert(bad.contains(bad[3]));
        } else {
            assert(bad =~= tail.subrange(0, 3));
        }
    }
}

/// Behind a text that is all metadata lines, the run of metadata lines
/// goes on as far as that of what follows.
pub proof fn lemma_metadata_len_of_run(lines: Seq<char>, tail: Seq<char>)
    requires
        metadata_len(lines) == lines.len(),
    ensures
        metadata_len(lines + tail) == lines.len() + metadata_len(tail),
    decreases lines.len(),
{
    if lines.len() == 0 {
        assert(lines + tail =~= tail);
    } else {
        let n = line_len(lines) as int;
        let text = lines + tail;
        lemma_line_len(lines);
        lemma_metadata_len_bound(after_first_line(lines));
        assert(starts_with_metadata_line(lines));
        assert forall|i: int| 0 <= i < n implies text[i] != '\n' by {
            assert(text[i] == lines[i]);
        }
        assert(text[n] == lines[n]);
        lemma_line_len_is(text, n);
        assert(text.take(n) =~= lines.take(n));
        assert(after_first_line(text) =~= after_first_line(lines) + tail);
        lemma_metadata_len_of_run(after_first_line(lines), tail);
    }
}

/// Strict rejection, of the decoder: the lines of a text decode if and
/// only if each of them is of the form `<key>: <value>`.
pub proof fn lemma_decode_is_strict(interior: Seq<char>)
    ensures
        decode(interior) is Some <==> forall|i: int|
            0 <= i < lines_of(interior).len() ==> is_metadata_line(
                #[trigger] lines_of(interior)[i],
            ),
{
    lemma_put_lines_is_strict(Seq::empty(), lines_of(interior));
}

/// Lines are put if and only if each of them declares an entry.
pub proof fn lemma_put_lines_is_strict(before: Seq<Entry>, lines: Seq<Seq<char>>)
    ensures
        put_lines(before, lines) is Some <==> forall|i: int|
            0 <= i < lines.len() ==> is_metadata_line(#[trigger] lines[i]),
    decreases lines.len(),
{
    if lines.len() > 0 {
        let rest = lines.skip(1);
        match entry_of(lines[0]) {
            Some((key, value)) => {
                lemma_put_lines_is_strict(put(before, key, value), rest);
                if forall|i: int| 0 <= i < lines.len() ==> is_metadata_line(#[trigger] lines[i]) {
                    assert forall|i: int| 0 <= i < rest.len() implies is_metadata_line(
                        #[trigger] rest[i],
                    ) by {
                        assert(rest[i] == lines[i + 1]);
                    }
                }
                if forall|i: int| 0 <= i < rest.len() ==> is_metadata_line(#[trigger] rest[i]) {
                    assert forall|i: int| 0 <= i < lines.len() implies is_metadata_line(
                        #[trigger] lines[i],
                    ) by {
                        if i > 0 {
                            assert(lines[i] == rest[i - 1]);
                        }
                    }
                }
            },
            None => {
                assert(!is_metadata_line(lines[0]));
            },
        }
    }
}

} // verus!

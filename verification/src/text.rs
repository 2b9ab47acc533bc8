//! Character sequences: searching, replacing, and the passage between
//! strings and vectors of characters.
//!
//! Every contract in this crate speaks of text as a `Seq<char>`, the view of a
//! `str` or a `String`. The executable code works on `Vec<char>`, so that a
//! character is reached by its index.

use vstd::prelude::*;

verus! {

/// Whether `pattern` stands in `text` at index `at`.
pub open spec fn occurs_at(text: Seq<char>, pattern: Seq<char>, at: int) -> bool {
    &&& 0 <= at
    &&& at + pattern.len() <= text.len()
    &&& text.subrange(at, at + pattern.len()) == pattern
}

/// Whether `pattern` stands somewhere in `text`.
pub open spec fn contains(text: Seq<char>, pattern: Seq<char>) -> bool {
    exists|at: int| occurs_at(text, pattern, at)
}

/// `text` with every occurrence of `pattern` replaced by `with`.
///
/// The text is read from left to right. Where the pattern stands, `with` is
/// written and reading goes on behind the pattern; elsewhere one character is
/// copied. What was written is never read again. An empty pattern stands
/// nowhere: the text is left as it is.
pub open spec fn replace_all(text: Seq<char>, pattern: Seq<char>, with: Seq<char>) -> Seq<char>
    decreases text.len(),
{
    if pattern.len() == 0 || text.len() < pattern.len() {
        text
    } else if occurs_at(text, pattern, 0) {
        with + replace_all(text.skip(pattern.len() as int), pattern, with)
    } else {
        seq![text[0]] + replace_all(text.skip(1), pattern, with)
    }
}

/// An occurrence in what is left of `text` behind its first `skipped`
/// characters is an occurrence in `text`, `skipped` places further on.
pub proof fn lemma_occurs_at_skip(text: Seq<char>, pattern: Seq<char>, skipped: int, at: int)
    requires
        0 <= skipped <= text.len(),
    ensures
        occurs_at(text.skip(skipped), pattern, at) <==> 0 <= at && occurs_at(
            text,
            pattern,
            skipped + at,
        ),
{
    if 0 <= at && at + pattern.len() <= text.len() - skipped {
        assert(text.skip(skipped).subrange(at, at + pattern.len()) =~= text.subrange(
            skipped + at,
            skipped + at + pattern.len(),
        ));
    }
}

/// The number of indices at which `pattern`, a pattern that is not empty,
/// stands in `text`.
pub open spec fn count_occurrences(text: Seq<char>, pattern: Seq<char>) -> nat
    decreases text.len(),
{
    if text.len() == 0 {
        0
    } else if occurs_at(text, pattern, 0) {
        1 + count_occurrences(text.skip(1), pattern)
    } else {
        count_occurrences(text.skip(1), pattern)
    }
}

/// `String::push` of std: it appends one character to the end of the string.
pub assume_specification[ String::push ](s: &mut String, ch: char)
    ensures
        final(s)@ == old(s)@.push(ch),
;

/// The characters of `s`, in order.
pub fn chars_of(s: &str) -> (chars: Vec<char>)
    ensures
        chars@ == s@,
{
    let mut chars: Vec<char> = Vec::new();
    for c in it: s.chars()
        invariant
            it.seq() == s@,
            chars@ == it.seq().take(it.index()),
    {
        chars.push(c);
    }
    chars
}

/// The string made of the characters of `chars` from index `from` up to,
/// not including, index `to`.
pub fn string_of(chars: &Vec<char>, from: usize, to: usize) -> (s: String)
    requires
        from <= to <= chars.len(),
    ensures
        s@ == chars@.subrange(from as int, to as int),
{
    let mut s = String::new();
    let mut i: usize = from;
    while i < to
        invariant
            from <= i <= to <= chars.len(),
            s@ == chars@.subrange(from as int, i as int),
        decreases to - i,
    {
        s.push(chars[i]);
        i += 1;
    }
    s
}

/// The characters of `chars` from index `from` up to, not including,
/// index `to`.
pub fn sub_vec(chars: &Vec<char>, from: usize, to: usize) -> (part: Vec<char>)
    requires
        from <= to <= chars.len(),
    ensures
        part@ == chars@.subrange(from as int, to as int),
{
    let mut part: Vec<char> = Vec::new();
    let mut i: usize = from;
    while i < to
        invariant
            from <= i <= to <= chars.len(),
            part@ == chars@.subrange(from as int, i as int),
        decreases to - i,
    {
        part.push(chars[i]);
        i += 1;
    }
    part
}

/// Appends the characters of `tail` to `target`.
pub fn append_chars(target: &mut Vec<char>, tail: &Vec<char>)
    ensures
        final(target)@ == old(target)@ + tail@,
{
    let mut i: usize = 0;
    while i < tail.len()
        invariant
            i <= tail.len(),
            target@ == old(target)@ + tail@.take(i as int),
        decreases tail.len() - i,
    {
        target.push(tail[i]);
        i += 1;
    }
}

/// Whether `pattern` stands in `text` at index `at`.
pub fn matches_at(text: &Vec<char>, pattern: &Vec<char>, at: usize) -> (found: bool)
    ensures
        found == occurs_at(text@, pattern@, at as int),
{
    if at > text.len() || pattern.len() > text.len() - at {
        return false;
    }
    let mut i: usize = 0;
    while i < pattern.len()
        invariant
            at + pattern.len() <= text.len(),
            i <= pattern.len(),
            forall|j: int| 0 <= j < i ==> text@[at + j] == pattern@[j],
        decreases pattern.len() - i,
    {
        if text[at + i] != pattern[i] {
            assert(text@.subrange(at as int, at + pattern@.len())[i as int] != pattern@[i as int]);
            return false;
        }
        i += 1;
    }
    assert(text@.subrange(at as int, at + pattern@.len()) =~= pattern@);
    true
}

/// The first index at or behind `from` at which `pattern` stands in `text`.
pub fn find_from(text: &Vec<char>, pattern: &Vec<char>, from: usize) -> (found: Option<usize>)
    ensures
        match found {
            Some(at) => {
                &&& from <= at
                &&& occurs_at(text@, pattern@, at as int)
                &&& forall|j: int| from <= j < at ==> !occurs_at(text@, pattern@, j)
            },
            None => forall|j: int| from <= j ==> !occurs_at(text@, pattern@, j),
        },
{
    let mut at: usize = from;
    loop
        invariant
            from <= at,
            forall|j: int| from <= j < at ==> !occurs_at(text@, pattern@, j),
        decreases text.len() - at,
    {
        if matches_at(text, pattern, at) {
            return Some(at);
        }
        if at >= text.len() {
            return None;
        }
        at += 1;
    }
}

/// Whether `pattern` stands somewhere in `text`.
pub fn contains_chars(text: &Vec<char>, pattern: &Vec<char>) -> (found: bool)
    ensures
        found == contains(text@, pattern@),
{
    find_from(text, pattern, 0).is_some()
}

/// `text` with every occurrence of `pattern` replaced by `with`.
pub fn replace_chars(text: &Vec<char>, pattern: &Vec<char>, with: &Vec<char>) -> (replaced: Vec<
    char,
>)
    ensures
        replaced@ == replace_all(text@, pattern@, with@),
{
    let mut replaced: Vec<char> = Vec::new();
    let mut i: usize = 0;
    assert(text@.skip(0) =~= text@);
    assert(replaced@ + replace_all(text@, pattern@, with@) =~= replace_all(text@, pattern@, with@));
    while i < text.len()
        invariant
            i <= text.len(),
            replaced@ + replace_all(text@.skip(i as int), pattern@, with@) == replace_all(
                text@,
                pattern@,
                with@,
            ),
        decreases text.len() - i,
    {
        let ghost before = replaced@;
        proof {
            lemma_replace_all_step(text@, pattern@, with@, i as int);
        }
        if pattern.len() > 0 && matches_at(text, pattern, i) {
            append_chars(&mut replaced, with);
            i += pattern.len();
            assert(replaced@ + replace_all(text@.skip(i as int), pattern@, with@) =~= before + (
            with@ + replace_all(text@.skip(i as int), pattern@, with@)));
        } else {
            replaced.push(text[i]);
            i += 1;
            assert(replaced@ + replace_all(text@.skip(i as int), pattern@, with@) =~= before + (
            seq![text@[i - 1]] + replace_all(text@.skip(i as int), pattern@, with@)));
        }
    }
    assert(text@.skip(i as int) =~= Seq::<char>::empty());
    assert(replaced@ + Seq::<char>::empty() =~= replaced@);
    replaced
}

/// One step of reading `text` from index `at`: where the pattern stands, it
/// is replaced and skipped; elsewhere one character is copied.
pub proof fn lemma_replace_all_step(text: Seq<char>, pattern: Seq<char>, with: Seq<char>, at: int)
    requires
        0 <= at < text.len(),
    ensures
        pattern.len() > 0 && occurs_at(text, pattern, at) ==> replace_all(
            text.skip(at),
            pattern,
            with,
        ) == with + replace_all(text.skip(at + pattern.len()), pattern, with),
        !(pattern.len() > 0 && occurs_at(text, pattern, at)) ==> replace_all(
            text.skip(at),
            pattern,
            with,
        ) == seq![text[at]] + replace_all(text.skip(at + 1), pattern, with),
{
    let rest = text.skip(at);
    assert(rest.skip(1) =~= text.skip(at + 1));
    if rest.len() >= pattern.len() {
        assert(rest.skip(pattern.len() as int) =~= text.skip(at + pattern.len()));
        assert(rest.subrange(0, pattern.len() as int) =~= text.subrange(at, at + pattern.len()));
    }
    assert(rest =~= seq![text[at]] + rest.skip(1));
}

} // verus!

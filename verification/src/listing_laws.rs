//! What holds of every listing: the page has as many anchors as the content
//! list has entries.

use crate::build::{
    all_have_build_root, anchor, anchors_of, build_root, joined, link_target, listing_page,
    listing_token,
};
use crate::template_laws::{first_char_is_unique, lemma_every_occurrence_is_replaced};
use crate::text::{contains, count_occurrences, lemma_occurs_at_skip, occurs_at, replace_all};
use vstd::prelude::*;

verus! {

/// How an anchor opens.
pub open spec fn anchor_opening() -> Seq<char> {
    "<a "@
}

/// A text that does not hold a pattern is left as it is by replacing.
pub proof fn lemma_text_without_pattern_is_kept(
    text: Seq<char>,
    pattern: Seq<char>,
    with: Seq<char>,
)
    requires
        !contains(text, pattern),
    ensures
        replace_all(text, pattern, with) == text,
    decreases text.len(),
{
    if pattern.len() > 0 && text.len() >= pattern.len() {
        let rest = text.skip(1);
        assert forall|at: int| !occurs_at(rest, pattern, at) by {
            lemma_occurs_at_skip(text, pattern, 1, at);
            assert(!occurs_at(text, pattern, 1 + at));
        }
        assert(!occurs_at(text, pattern, 0));
        lemma_text_without_pattern_is_kept(rest, pattern, with);
        assert(seq![text[0]] + rest =~= text);
    }
}

/// A text that does not hold a pattern holds it zero times.
pub proof fn lemma_count_without_pattern(text: Seq<char>, pattern: Seq<char>)
    requires
        !contains(text, pattern),
    ensures
        count_occurrences(text, pattern) == 0,
    decreases text.len(),
{
    if text.len() > 0 {
        let rest = text.skip(1);
        assert forall|at: int| !occurs_at(rest, pattern, at) by {
            lemma_occurs_at_skip(text, pattern, 1, at);
            assert(!occurs_at(text, pattern, 1 + at));
        }
        assert(!occurs_at(text, pattern, 0));
        lemma_count_without_pattern(rest, pattern);
    }
}

/// Whether no occurrence of `pattern` in `first + second` lies across the
/// place where the two meet.
pub open spec fn none_across(first: Seq<char>, second: Seq<char>, pattern: Seq<char>) -> bool {
    forall|at: int|
        occurs_at(first + second, pattern, at) ==> at + pattern.len() <= first.len() || at
            >= first.len()
}

/// Where no occurrence lies across the place where two texts meet, the two
/// together hold a pattern as often as the first and the second do.
pub proof fn lemma_count_of_two(first: Seq<char>, second: Seq<char>, pattern: Seq<char>)
    requires
        pattern.len() > 0,
        none_across(first, second, pattern),
    ensures
        count_occurrences(first + second, pattern) == count_occurrences(first, pattern)
            + count_occurrences(second, pattern),
    decreases first.len(),
{
    let both = first + second;
    let n = pattern.len() as int;
    if first.len() == 0 {
        assert(both =~= second);
    } else {
        let rest = first.skip(1);
        assert(both.skip(1) =~= rest + second);
        assert forall|at: int| occurs_at(rest + second, pattern, at) implies at + n <= rest.len()
            || at >= rest.len() by {
            lemma_occurs_at_skip(both, pattern, 1, at);
            assert(occurs_at(both, pattern, 1 + at));
        }
        lemma_count_of_two(rest, second, pattern);
        if occurs_at(both, pattern, 0) {
            assert(first.subrange(0, n) =~= both.subrange(0, n));
        }
        if occurs_at(first, pattern, 0) {
            assert(first.subrange(0, n) =~= both.subrange(0, n));
        }
    }
}

/// No occurrence lies across the place where two texts meet, where the
/// second begins with a character that the pattern holds only in front, if
/// at all.
pub proof fn lemma_none_across_before(first: Seq<char>, second: Seq<char>, pattern: Seq<char>)
    requires
        second.len() > 0,
        forall|k: int| 0 < k < pattern.len() ==> #[trigger] pattern[k] != second[0],
    ensures
        none_across(first, second, pattern),
{
    let both = first + second;
    let m = first.len() as int;
    assert forall|at: int| occurs_at(both, pattern, at) implies at + pattern.len() <= m || at
        >= m by {
        if at < m && m < at + pattern.len() {
            assert(both.subrange(at, at + pattern.len())[m - at] == both[m]);
            assert(both[m] == second[0]);
            assert(pattern[m - at] != second[0]);
        }
    }
}

/// No occurrence lies across the place where two texts meet, where the
/// first ends with a character that the pattern holds only at its end, if
/// at all.
pub proof fn lemma_none_across_behind(first: Seq<char>, second: Seq<char>, pattern: Seq<char>)
    requires
        first.len() > 0,
        forall|k: int| 0 <= k < pattern.len() - 1 ==> #[trigger] pattern[k] != first.last(),
    ensures
        none_across(first, second, pattern),
{
    let both = first + second;
    let m = first.len() as int;
    assert forall|at: int| occurs_at(both, pattern, at) implies at + pattern.len() <= m || at
        >= m by {
        if at < m && m < at + pattern.len() {
            assert(both.subrange(at, at + pattern.len())[m - 1 - at] == both[m - 1]);
            assert(both[m - 1] == first.last());
            assert(pattern[m - 1 - at] != first.last());
        }
    }
}

/// How an anchor opens: a less-than sign, an `a` and a space.
pub proof fn lemma_anchor_opening()
    ensures
        anchor_opening() == seq!['<', 'a', ' '],
{
    reveal_strlit("<a ");
    assert(anchor_opening() =~= seq!['<', 'a', ' ']);
}

/// The anchor for a target that holds no anchor opening holds one.
pub proof fn lemma_anchor_has_one_opening(target: Seq<char>)
    requires
        !contains(target, anchor_opening()),
    ensures
        count_occurrences(anchor(target), anchor_opening()) == 1,
        anchor(target).len() > 0,
        anchor(target)[0] == '<',
{
    let opening = anchor_opening();
    let head = "<a href="@;
    let mid = ">"@;
    let tail = "</a> <br />"@;
    lemma_anchor_opening();
    reveal_strlit("<a href=");
    reveal_strlit(">");
    reveal_strlit("</a> <br />");
    // The parts, each alone.
    assert(count_occurrences(head, opening) == 1) by {
        assert(head.subrange(0, 3) =~= opening);
        let rest = head.skip(1);
        assert forall|at: int| !occurs_at(rest, opening, at) by {
            if occurs_at(rest, opening, at) {
                assert(rest.subrange(at, at + 3)[0] == '<');
                assert(rest[at] == head[at + 1]);
            }
        }
        lemma_count_without_pattern(rest, opening);
    }
    assert(count_occurrences(mid, opening) == 0) by {
        assert forall|at: int| !occurs_at(mid, opening, at) by {}
        lemma_count_without_pattern(mid, opening);
    }
    assert(count_occurrences(tail, opening) == 0) by {
        assert forall|at: int| !occurs_at(tail, opening, at) by {
            if occurs_at(tail, opening, at) {
                assert(tail.subrange(at, at + 3)[0] == '<');
                assert(tail.subrange(at, at + 3)[1] == 'a');
                assert(tail[at] == '<');
                assert(tail[at + 1] == 'a');
            }
        }
        lemma_count_without_pattern(tail, opening);
    }
    lemma_count_without_pattern(target, opening);
    // The parts together, from the end.
    let last_two = target + tail;
    lemma_none_across_before(target, tail, opening);
    lemma_count_of_two(target, tail, opening);
    let last_three = mid + last_two;
    lemma_none_across_behind(mid, last_two, opening);
    lemma_count_of_two(mid, last_two, opening);
    let last_four = target + last_three;
    assert(last_three[0] == '>');
    lemma_none_across_before(target, last_three, opening);
    lemma_count_of_two(target, last_three, opening);
    lemma_none_across_behind(head, last_four, opening);
    lemma_count_of_two(head, last_four, opening);
    assert(anchor(target) =~= head + last_four);
    assert(anchor(target)[0] == head[0]);
}

/// Anchors for targets that hold no anchor opening hold, joined, one
/// opening each.
pub proof fn lemma_joined_anchors_have_one_opening_each(targets: Seq<Seq<char>>)
    requires
        forall|i: int|
            0 <= i < targets.len() ==> !contains(#[trigger] targets[i], anchor_opening()),
    ensures
        count_occurrences(
            joined(Seq::new(targets.len(), |i: int| anchor(targets[i]))),
            anchor_opening(),
        ) == targets.len(),
    decreases targets.len(),
{
    let anchors = Seq::new(targets.len(), |i: int| anchor(targets[i]));
    if targets.len() > 0 {
        let earlier = targets.drop_last();
        let earlier_anchors = Seq::new(earlier.len(), |i: int| anchor(earlier[i]));
        assert(anchors.drop_last() =~= earlier_anchors);
        assert forall|i: int| 0 <= i < earlier.len() implies !contains(
            #[trigger] earlier[i],
            anchor_opening(),
        ) by {
            assert(earlier[i] == targets[i]);
        }
        lemma_joined_anchors_have_one_opening_each(earlier);
        let last = anchor(targets.last());
        assert(anchors.last() == last);
        lemma_anchor_opening();
        lemma_anchor_has_one_opening(targets.last());
        lemma_none_across_before(joined(earlier_anchors), last, anchor_opening());
        lemma_count_of_two(joined(earlier_anchors), last, anchor_opening());
    } else {
        assert(anchors =~= Seq::<Seq<char>>::empty());
    }
}

/// The placeholder `{content_list}`: its first character, the opening brace,
/// stands nowhere else in it.
pub proof fn lemma_listing_token()
    ensures
        listing_token().len() == 14,
        first_char_is_unique(listing_token()),
{
    reveal_strlit("{content_list}");
}

/// Listing completeness, counted in the page: the listing page holds as many
/// anchor openings as the content list has entries. This holds of a template
/// with one placeholder, `before` it and `after` it neither a placeholder nor
/// an anchor opening, and of entries that begin with the build root and hold
/// no anchor opening. For a list without entries the text around the
/// placeholder must not join to an anchor opening.
pub proof fn lemma_listing_has_one_anchor_opening_per_entry(
    before: Seq<char>,
    after: Seq<char>,
    items: Seq<Seq<char>>,
)
    requires
        !contains(before, listing_token()),
        !contains(after, listing_token()),
        !contains(before, anchor_opening()),
        !contains(after, anchor_opening()),
        all_have_build_root(items),
        forall|i: int| 0 <= i < items.len() ==> !contains(#[trigger] items[i], anchor_opening()),
        items.len() == 0 ==> !contains(before + after, anchor_opening()),
    ensures
        count_occurrences(
            listing_page(before + listing_token() + after, items),
            anchor_opening(),
        ) == items.len(),
{
    let opening = anchor_opening();
    let links = joined(anchors_of(items));
    let page = listing_page(before + listing_token() + after, items);
    lemma_listing_token();
    lemma_every_occurrence_is_replaced(before, after, listing_token(), links);
    lemma_text_without_pattern_is_kept(before, listing_token(), links);
    lemma_text_without_pattern_is_kept(after, listing_token(), links);
    assert(page == before + links + after);
    if items.len() == 0 {
        assert(links =~= Seq::<char>::empty());
        assert(page =~= before + after);
        lemma_count_without_pattern(page, opening);
    } else {
        let targets = Seq::new(items.len(), |i: int| link_target(items[i]));
        assert forall|i: int| 0 <= i < targets.len() implies !contains(
            #[trigger] targets[i],
            opening,
        ) by {
            let n = build_root().len() as int;
            assert(occurs_at(items[i], build_root(), 0));
            assert forall|at: int| !occurs_at(items[i].skip(n), opening, at) by {
                lemma_occurs_at_skip(items[i], opening, n, at);
                assert(!occurs_at(items[i], opening, n + at));
            }
        }
        assert(Seq::new(targets.len(), |i: int| anchor(targets[i])) =~= anchors_of(items));
        lemma_joined_anchors_have_one_opening_each(targets);
        lemma_anchor_opening();
        lemma_links_begin_and_end(items);
        lemma_count_without_pattern(before, opening);
        lemma_count_without_pattern(after, opening);
        lemma_none_across_before(before, links, opening);
        lemma_count_of_two(before, links, opening);
        lemma_none_across_behind(before + links, after, opening);
        lemma_count_of_two(before + links, after, opening);
    }
}

/// The anchors of a list with entries, joined, begin with a less-than sign
/// and end with a greater-than sign.
proof fn lemma_links_begin_and_end(items: Seq<Seq<char>>)
    requires
        items.len() > 0,
    ensures
        joined(anchors_of(items)).len() > 0,
        joined(anchors_of(items))[0] == '<',
        joined(anchors_of(items)).last() == '>',
    decreases items.len(),
{
    let anchors = anchors_of(items);
    let last = anchors.last();
    reveal_strlit("<a href=");
    reveal_strlit(">");
    reveal_strlit("</a> <br />");
    assert(last == anchor(link_target(items.last())));
    assert(last.len() > 0);
    assert(last[0] == '<');
    assert(last.last() == '>');
    if items.len() > 1 {
        let earlier = items.drop_last();
        assert(anchors.drop_last() =~= anchors_of(earlier));
        lemma_links_begin_and_end(earlier);
    } else {
        assert(anchors.drop_last() =~= Seq::<Seq<char>>::empty());
        assert(joined(anchors.drop_last()) =~= Seq::<char>::empty());
    }
}

} // verus!

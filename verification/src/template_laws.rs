//! What holds of templates and of replacing for every text: a text is a
//! template as soon as it holds `{content}`, every `{content}` is replaced,
//! and none is left where the HTML cannot bring one in.

use crate::frontmatter::Entry;
use crate::template::{content_token, placeholder, render_page, substitute_metadata};
use crate::text::{contains, lemma_occurs_at_skip, occurs_at, replace_all};
use vstd::prelude::*;

verus! {

/// Whether the first character of `pattern` stands nowhere else in it. Two
/// occurrences of such a pattern never overlap.
pub open spec fn first_char_is_unique(pattern: Seq<char>) -> bool {
    forall|k: int| 0 < k < pattern.len() ==> #[trigger] pattern[k] != pattern[0]
}

/// Every occurrence is replaced: wherever a pattern stands in a text, the
/// result is what replacing gives before it, the replacement, and what
/// replacing gives behind it. This holds of a pattern whose first character
/// stands nowhere else in it.
pub proof fn lemma_every_occurrence_is_replaced(
    before: Seq<char>,
    after: Seq<char>,
    pattern: Seq<char>,
    with: Seq<char>,
)
    requires
        pattern.len() > 0,
        first_char_is_unique(pattern),
    ensures
        replace_all(before + pattern + after, pattern, with) == replace_all(before, pattern, with)
            + with + replace_all(after, pattern, with),
    decreases before.len(),
{
    let text = before + pattern + after;
    let n = pattern.len() as int;
    if before.len() == 0 {
        assert(text.subrange(0, n) =~= pattern);
        assert(text.skip(n) =~= after);
        assert(replace_all(before, pattern, with) + with + replace_all(after, pattern, with)
            =~= with + replace_all(after, pattern, with));
    } else if occurs_at(text, pattern, 0) {
        if before.len() >= n {
            let rest = before.skip(n);
            assert(before.subrange(0, n) =~= text.subrange(0, n));
            assert(text.skip(n) =~= rest + pattern + after);
            lemma_every_occurrence_is_replaced(rest, after, pattern, with);
            assert(with + (replace_all(rest, pattern, with) + with + replace_all(
                after,
                pattern,
                with,
            )) =~= (with + replace_all(rest, pattern, with)) + with + replace_all(
                after,
                pattern,
                with,
            ));
        } else {
            let d = before.len() as int;
            assert(text.subrange(0, n)[d] == text[d]);
            assert(text[d] == pattern[0]);
            assert(false);
        }
    } else {
        let rest = before.skip(1);
        assert(text.skip(1) =~= rest + pattern + after);
        lemma_every_occurrence_is_replaced(rest, after, pattern, with);
        if before.len() >= n {
            assert(before.subrange(0, n) =~= text.subrange(0, n));
        }
        assert(before =~= seq![before[0]] + rest);
        assert(replace_all(before, pattern, with) == seq![before[0]] + replace_all(
            rest,
            pattern,
            with,
        ));
        assert(seq![text[0]] + (replace_all(rest, pattern, with) + with + replace_all(
            after,
            pattern,
            with,
        )) =~= (seq![before[0]] + replace_all(rest, pattern, with)) + with + replace_all(
            after,
            pattern,
            with,
        ));
    }
}

/// Whether `with`, written into a text, stays out of every occurrence of
/// `token`: it does not hold the first character of `token`, it is no part
/// of `token`, and no beginning of it is an end of `token`. An empty text
/// is a part of every text, so `with` is not empty.
pub open spec fn keeps_out(with: Seq<char>, token: Seq<char>) -> bool {
    &&& !with.contains(token[0])
    &&& !contains(token, with)
    &&& forall|k: int|
        0 < k < with.len() ==> !occurs_at(token, #[trigger] with.take(k), token.len() - k)
}

/// A text that is not empty and begins with a character that `token` does
/// not hold stays out of `token`, if it does not hold the first character
/// of `token`.
pub proof fn lemma_first_char_keeps_out(with: Seq<char>, token: Seq<char>)
    requires
        with.len() > 0,
        !token.contains(with[0]),
        !with.contains(token[0]),
    ensures
        keeps_out(with, token),
{
    assert forall|at: int| !occurs_at(token, with, at) by {
        if occurs_at(token, with, at) {
            assert(token.subrange(at, at + with.len())[0] == with[0]);
            assert(token.contains(token[at]));
        }
    }
    assert forall|k: int| 0 < k < with.len() implies !occurs_at(
        token,
        #[trigger] with.take(k),
        token.len() - k,
    ) by {
        let part = with.take(k);
        let at = token.len() - k;
        if occurs_at(token, part, at) {
            assert(token.subrange(at, at + k)[0] == part[0]);
            assert(token.contains(token[at]));
        }
    }
}

/// Where replacing first writes the replacement within the first `m`
/// characters of its result: up to the index returned the result is the
/// text itself, copied, and at that index, if it is below `m`, the
/// replacement stands.
proof fn lemma_first_replacement(
    text: Seq<char>,
    pattern: Seq<char>,
    with: Seq<char>,
    m: int,
) -> (k: int)
    requires
        0 <= m <= replace_all(text, pattern, with).len(),
    ensures
        0 <= k <= m,
        k <= text.len(),
        forall|j: int| 0 <= j < k ==> text[j] == replace_all(text, pattern, with)[j],
        k < m ==> occurs_at(replace_all(text, pattern, with), with, k),
    decreases text.len(),
{
    let replaced = replace_all(text, pattern, with);
    if m == 0 {
        0
    } else if pattern.len() == 0 || text.len() < pattern.len() {
        m
    } else if occurs_at(text, pattern, 0) {
        assert(replaced.subrange(0, with.len() as int) =~= with);
        0
    } else {
        let rest = text.skip(1);
        let rest_replaced = replace_all(rest, pattern, with);
        let k = lemma_first_replacement(rest, pattern, with, m - 1);
        assert forall|j: int| 0 <= j < k + 1 implies text[j] == replaced[j] by {
            if j > 0 {
                assert(text[j] == rest[j - 1]);
                assert(rest_replaced[j - 1] == replaced[j]);
            }
        }
        if k < m - 1 {
            assert(replaced.subrange(k + 1, k + 1 + with.len()) =~= rest_replaced.subrange(
                k,
                k + with.len(),
            ));
        }
        k + 1
    }
}

/// What is left of a text that does not hold `token` does not hold it
/// either.
proof fn lemma_rest_holds_no_token(text: Seq<char>, token: Seq<char>, skipped: int)
    requires
        0 <= skipped <= text.len(),
        !contains(text, token),
    ensures
        !contains(text.skip(skipped), token),
{
    assert forall|at: int| !occurs_at(text.skip(skipped), token, at) by {
        lemma_occurs_at_skip(text, token, skipped, at);
        assert(!occurs_at(text, token, skipped + at));
    }
}

/// `token` stands at no index of what replacing gives, where the
/// replacement stays out of `token` and either `token` is the pattern that
/// is replaced or the text does not hold `token`.
proof fn lemma_no_token_at(
    text: Seq<char>,
    pattern: Seq<char>,
    with: Seq<char>,
    token: Seq<char>,
    at: int,
)
    requires
        token.len() > 0,
        keeps_out(with, token),
        pattern == token || !contains(text, token),
    ensures
        !occurs_at(replace_all(text, pattern, with), token, at),
    decreases text.len(),
{
    let replaced = replace_all(text, pattern, with);
    let n = pattern.len() as int;
    let m = token.len() as int;
    assert(with.len() > 0) by {
        if with.len() == 0 {
            assert(token.subrange(0, 0) =~= with);
            assert(occurs_at(token, with, 0));
        }
    }
    if occurs_at(replaced, token, at) {
        assert(replaced.subrange(at, at + m)[0] == token[0]);
        if n == 0 || text.len() < n {
            assert(occurs_at(text, token, at));
        } else if occurs_at(text, pattern, 0) {
            let rest = text.skip(n);
            let rest_replaced = replace_all(rest, pattern, with);
            if at < with.len() {
                assert(replaced[at] == with[at]);
                assert(with.contains(with[at]));
            } else {
                assert(rest_replaced.subrange(at - with.len(), at - with.len() + m)
                    =~= replaced.subrange(at, at + m));
                if pattern != token {
                    lemma_rest_holds_no_token(text, token, n);
                }
                lemma_no_token_at(rest, pattern, with, token, at - with.len());
            }
        } else if at > 0 {
            let rest = text.skip(1);
            let rest_replaced = replace_all(rest, pattern, with);
            assert(rest_replaced.subrange(at - 1, at - 1 + m) =~= replaced.subrange(at, at + m));
            if pattern != token {
                lemma_rest_holds_no_token(text, token, 1);
            }
            lemma_no_token_at(rest, pattern, with, token, at - 1);
        } else {
            let k = lemma_first_replacement(text, pattern, with, m);
            if k == m {
                assert(text.subrange(0, m) =~= replaced.subrange(0, m));
                assert(occurs_at(text, token, 0));
            } else if k == 0 {
                assert(replaced.subrange(0, with.len() as int)[0] == with[0]);
                assert(with.contains(with[0]));
            } else if k + with.len() <= m {
                assert(token.subrange(k, k + with.len()) =~= replaced.subrange(
                    k,
                    k + with.len(),
                ));
                assert(occurs_at(token, with, k));
            } else {
                let part = with.take(m - k);
                assert(token.subrange(k, m) =~= part) by {
                    assert forall|j: int| 0 <= j < m - k implies token[k + j] == part[j] by {
                        assert(replaced.subrange(0, m)[k + j] == token[k + j]);
                        assert(replaced.subrange(k, k + with.len())[j] == with[j]);
                    }
                }
                assert(occurs_at(token, part, m - (m - k)));
            }
        }
    }
}

/// No occurrence is left: the result of replacing does not hold the
/// pattern, where the replacement stays out of the pattern. Without that a
/// replacement can bring the pattern back, alone or together with the text
/// around it.
pub proof fn lemma_no_occurrence_is_left(text: Seq<char>, pattern: Seq<char>, with: Seq<char>)
    requires
        pattern.len() > 0,
        keeps_out(with, pattern),
    ensures
        !contains(replace_all(text, pattern, with), pattern),
{
    assert forall|at: int| !occurs_at(replace_all(text, pattern, with), pattern, at) by {
        lemma_no_token_at(text, pattern, with, pattern, at);
    }
}

/// Replacing brings no occurrence of another pattern: where a text does not
/// hold `token`, what replacing `pattern` by `with` in it gives does not hold
/// `token` either, as long as `with` stays out of `token`.
pub proof fn lemma_replacing_brings_no_token(
    text: Seq<char>,
    pattern: Seq<char>,
    with: Seq<char>,
    token: Seq<char>,
)
    requires
        token.len() > 0,
        keeps_out(with, token),
        !contains(text, token),
    ensures
        !contains(replace_all(text, pattern, with), token),
{
    assert forall|at: int| !occurs_at(replace_all(text, pattern, with), token, at) by {
        lemma_no_token_at(text, pattern, with, token, at);
    }
}

/// Whether `text`, written into a page, can neither make up a `{content}`
/// nor help the text around it to make one up. It cannot where it holds no
/// brace and is no part of `{content}`; the empty text is a part of it. Nor
/// can it where it is not empty, begins with a character that is not one of
/// `{content}`, and holds no opening brace.
pub open spec fn brings_no_content_token(text: Seq<char>) -> bool {
    ||| (!text.contains('{') && !text.contains('}') && !contains(content_token(), text))
    ||| (text.len() > 0 && !content_token().contains(text[0]) && !text.contains('{'))
}

/// A text that brings no `{content}` stays out of `{content}`.
pub proof fn lemma_brings_no_content_token(text: Seq<char>)
    requires
        brings_no_content_token(text),
    ensures
        keeps_out(text, content_token()),
{
    let token = content_token();
    lemma_content_token();
    reveal_strlit("{content}");
    if text.len() > 0 && !token.contains(text[0]) && !text.contains('{') {
        lemma_first_char_keeps_out(text, token);
    } else {
        assert forall|k: int| 0 < k < text.len() implies !occurs_at(
            token,
            #[trigger] text.take(k),
            token.len() - k,
        ) by {
            let part = text.take(k);
            let at = token.len() - k;
            if occurs_at(token, part, at) {
                assert(token.subrange(at, at + k)[k - 1] == part[k - 1]);
                assert(token[8] == '}');
                assert(text.contains(text[k - 1]));
            }
        }
    }
}

/// Whether the value of each of `entries` brings no `{content}`.
pub open spec fn values_bring_no_content_token(entries: Seq<Entry>) -> bool {
    forall|i: int| 0 <= i < entries.len() ==> brings_no_content_token((#[trigger] entries[i]).1)
}

/// Substituting metadata whose values bring no `{content}` into a text that
/// holds none leaves a text that holds none.
pub proof fn lemma_metadata_brings_no_content_token(text: Seq<char>, entries: Seq<Entry>)
    requires
        !contains(text, content_token()),
        values_bring_no_content_token(entries),
    ensures
        !contains(substitute_metadata(text, entries), content_token()),
    decreases entries.len(),
{
    if entries.len() > 0 {
        let rest = entries.skip(1);
        lemma_content_token();
        assert(brings_no_content_token(entries[0].1));
        lemma_brings_no_content_token(entries[0].1);
        lemma_replacing_brings_no_token(
            text,
            placeholder(entries[0].0),
            entries[0].1,
            content_token(),
        );
        assert forall|i: int| 0 <= i < rest.len() implies brings_no_content_token(
            (#[trigger] rest[i]).1,
        ) by {
            assert(rest[i] == entries[i + 1]);
        }
        lemma_metadata_brings_no_content_token(
            replace_all(text, placeholder(entries[0].0), entries[0].1),
            rest,
        );
    }
}

/// The placeholder `{content}`: nine characters, of which the first, the
/// opening brace, stands nowhere else.
pub proof fn lemma_content_token()
    ensures
        content_token().len() == 9,
        content_token()[0] == '{',
        first_char_is_unique(content_token()),
{
    reveal_strlit("{content}");
}

/// Template contract: a text that holds `{content}` anywhere is a template,
/// whatever stands before and behind the placeholder.
pub proof fn lemma_template_with_content_token_is_valid(before: Seq<char>, after: Seq<char>)
    ensures
        contains(before + content_token() + after, content_token()),
{
    let text = before + content_token() + after;
    let at = before.len() as int;
    assert(text.subrange(at, at + content_token().len()) =~= content_token());
    assert(occurs_at(text, content_token(), at));
}

/// Substitution totality, first half: every `{content}` of a template is
/// replaced by the HTML. Wherever the placeholder stands, the page without
/// metadata is the page of what stands before it, the HTML, and the page of
/// what stands behind it.
pub proof fn lemma_every_content_token_is_replaced(
    before: Seq<char>,
    after: Seq<char>,
    content_html: Seq<char>,
)
    ensures
        render_page(before + content_token() + after, content_html, Seq::empty()) == render_page(
            before,
            content_html,
            Seq::empty(),
        ) + content_html + render_page(after, content_html, Seq::empty()),
{
    lemma_content_token();
    lemma_every_occurrence_is_replaced(before, after, content_token(), content_html);
}

/// Substitution totality, second half: the page holds no `{content}`, where
/// the HTML and the value of every entry of the metadata bring none: each
/// holds no brace and is no part of `{content}`, or is not empty, begins
/// with a character that is not one of `{content}`, and holds no opening
/// brace. Without that a page can hold the placeholder again: the HTML or a
/// value may hold one, and an empty one, or a part of `content`, lets the
/// text on its two sides join to one.
pub proof fn lemma_no_content_token_is_left(
    template: Seq<char>,
    content_html: Seq<char>,
    metadata: Seq<Entry>,
)
    requires
        brings_no_content_token(content_html),
        values_bring_no_content_token(metadata),
    ensures
        !contains(render_page(template, content_html, metadata), content_token()),
{
    lemma_content_token();
    lemma_brings_no_content_token(content_html);
    lemma_no_occurrence_is_left(template, content_token(), content_html);
    lemma_metadata_brings_no_content_token(
        replace_all(template, content_token(), content_html),
        metadata,
    );
}

} // verus!

//! What substitution leaves alone, what it removes, and what it cannot bring in.

use vstd::prelude::*;

use crate::replace;
use crate::text;

verus! {

/// Where a word stands in the rest of a text it stands in the text.
pub(crate) proof fn lemma_occurs_in_rest(word: Seq<char>, text: Seq<char>, n: int)
    requires
        0 <= n <= text.len(),
        text::occurs(word, text.skip(n)),
    ensures
        text::occurs(word, text),
{
    let i = choose|i: int| text::occurs_at(word, text.skip(n), i);
    assert(text.subrange(n + i, n + i + word.len()) =~= text.skip(n).subrange(i, i + word.len()));
    assert(text::occurs_at(word, text, n + i));
}

/// A word that a text begins with stands in it.
pub(crate) proof fn lemma_prefix_occurs(word: Seq<char>, text: Seq<char>)
    requires
        word.is_prefix_of(text),
    ensures
        text::occurs(word, text),
{
    assert(text::occurs_at(word, text, 0));
}

/// Without a match, substitution for a simple pattern changes nothing.
pub(crate) proof fn lemma_simple_absent(pattern: Seq<char>, text: Seq<char>, replacement: Seq<char>)
    requires
        forall|i: int| 0 <= i <= text.len() ==> !replace::simple_matches(pattern, #[trigger] text.skip(i)),
    ensures
        replace::replace_simple(pattern, text, replacement) == text,
    decreases text.len(),
{
    if text.len() > 0 {
        assert(text.skip(0) =~= text);
        assert forall|i: int| 0 <= i <= text.skip(1).len() implies !replace::simple_matches(
            pattern,
            #[trigger] text.skip(1).skip(i),
        ) by {
            assert(text.skip(1).skip(i) =~= text.skip(1 + i));
        }
        lemma_simple_absent(pattern, text.skip(1), replacement);
        assert(seq![text[0]] + text.skip(1) =~= text);
    }
}

/// Without the literal in it, substitution for a literal leaves a text as it is.
pub(crate) proof fn lemma_literal_absent(word: Seq<char>, text: Seq<char>, replacement: Seq<char>)
    requires
        word.len() > 0,
        forall|d: int| 0 <= d < word.len() ==> #[trigger] word[d] != '.',
        !text::occurs(word, text),
    ensures
        replace::replace_simple(word, text, replacement) == text,
{
    assert forall|i: int| 0 <= i <= text.len() implies !replace::simple_matches(
        word,
        #[trigger] text.skip(i),
    ) by {
        if replace::simple_matches(word, text.skip(i)) {
            assert forall|d: int| 0 <= d < word.len() implies text[i + d] == word[d] by {
                assert(replace::char_matches(word[d], text.skip(i)[d]));
            }
            assert(text.subrange(i, i + word.len()) =~= word);
            assert(text::occurs_at(word, text, i));
        }
    }
    lemma_simple_absent(word, text, replacement);
}

/// Where `(a)+b` matches, an `ab` stands.
proof fn lemma_repeated_occurs(a: Seq<char>, b: Seq<char>, text: Seq<char>)
    requires
        replace::repeated_len(a, b, text) > 0,
    ensures
        text::occurs(a + b, text),
    decreases text.len(),
{
    let rest = text.skip(a.len() as int);
    if replace::repeated_len(a, b, rest) > 0 {
        lemma_repeated_occurs(a, b, rest);
        lemma_occurs_in_rest(a + b, text, a.len() as int);
    } else {
        assert((a + b).is_prefix_of(text)) by {
            assert(text.subrange(0, (a + b).len() as int) =~= a + b) by {
                assert(text.subrange(0, a.len() as int) == a);
                assert(rest.subrange(0, b.len() as int) == b);
                assert forall|i: int| 0 <= i < (a + b).len() implies text[i] == (a + b)[i] by {
                    if i < a.len() {
                        assert(text.subrange(0, a.len() as int)[i] == text[i]);
                    } else {
                        assert(rest.subrange(0, b.len() as int)[i - a.len()] == text[i]);
                    }
                }
            }
        }
        lemma_prefix_occurs(a + b, text);
    }
}

/// Without an `ab` in it, substitution for `(a)+b` leaves a text as it is.
pub(crate) proof fn lemma_repeated_absent(
    a: Seq<char>,
    b: Seq<char>,
    text: Seq<char>,
    replacement: Seq<char>,
)
    requires
        !text::occurs(a + b, text),
    ensures
        replace::replace_repeated(a, b, text, replacement) == text,
    decreases text.len(),
{
    if text.len() > 0 {
        if replace::repeated_len(a, b, text) > 0 {
            lemma_repeated_occurs(a, b, text);
        }
        if text::occurs(a + b, text.skip(1)) {
            lemma_occurs_in_rest(a + b, text, 1);
        }
        lemma_repeated_absent(a, b, text.skip(1), replacement);
        assert(seq![text[0]] + text.skip(1) =~= text);
    }
}

/// Without a match in any line, nothing is inserted.
pub(crate) proof fn lemma_lines_absent(
    head: Seq<char>,
    tail: Seq<char>,
    block: Seq<char>,
    text: Seq<char>,
)
    requires
        forall|i: int| 0 <= i <= text.len() ==> !replace::line_matches(head, tail, #[trigger] text.skip(i)),
    ensures
        replace::insert_in_lines(head, tail, block, text) == text,
    decreases text.len(),
{
    if text.len() > 0 {
        assert(text.skip(0) =~= text);
        assert forall|i: int| 0 <= i <= text.skip(1).len() implies !replace::line_matches(
            head,
            tail,
            #[trigger] text.skip(1).skip(i),
        ) by {
            assert(text.skip(1).skip(i) =~= text.skip(1 + i));
        }
        lemma_lines_absent(head, tail, block, text.skip(1));
        assert(seq![text[0]] + text.skip(1) =~= text);
    }
}

/// `word` laid over `block` from position `i` on meets a character of `block` that is not its own.
pub open spec fn misfits(word: Seq<char>, block: Seq<char>, i: int) -> bool {
    exists|d: int|
        0 <= d < word.len() && i + d < block.len() && #[trigger] word[d] != block[i + d]
}

/// Whatever stands behind `block`, `word` does not begin within `block`.
pub open spec fn cannot_begin_in(word: Seq<char>, block: Seq<char>) -> bool {
    forall|i: int| 0 <= i < block.len() ==> #[trigger] misfits(word, block, i)
}

/// What is left of `word` from position `k` on meets in `block` a character that is not its own,
/// or is as good with `pattern` in the place of `block`.
pub open spec fn tail_is_foreign(
    word: Seq<char>,
    pattern: Seq<char>,
    block: Seq<char>,
    k: int,
) -> bool {
    ||| exists|d: int|
        0 <= d < word.len() - k && d < block.len() && #[trigger] block[d] != word[k + d]
    ||| {
        &&& word.len() - k <= block.len()
        &&& word.len() - k <= pattern.len()
        &&& forall|d: int|
            0 <= d < word.len() - k ==> #[trigger] pattern[d] == block[d] && pattern[d] != '.'
    }
}

/// No `word` comes about that ends in a `block` put in the place of a match of `pattern`.
pub open spec fn cannot_end_in(word: Seq<char>, pattern: Seq<char>, block: Seq<char>) -> bool {
    forall|k: int| 1 <= k < word.len() ==> #[trigger] tail_is_foreign(word, pattern, block, k)
}

pub(crate) proof fn lemma_occurs_at_index(word: Seq<char>, text: Seq<char>, i: int, d: int)
    requires
        text::occurs_at(word, text, i),
        0 <= d < word.len(),
    ensures
        text[i + d] == word[d],
{
    assert(text.subrange(i, i + word.len())[d] == text[i + d]);
}

pub(crate) proof fn lemma_prefix_index(word: Seq<char>, text: Seq<char>, d: int)
    requires
        word.is_prefix_of(text),
        0 <= d < word.len(),
    ensures
        text[d] == word[d],
{
    assert(text.subrange(0, word.len() as int)[d] == text[d]);
}

proof fn lemma_prefix_of_pushed_front(word: Seq<char>, c: char, rest: Seq<char>)
    requires
        word.len() > 0,
    ensures
        word.is_prefix_of(seq![c] + rest) <==> word[0] == c && word.skip(1).is_prefix_of(rest),
{
    let all = seq![c] + rest;
    if word.is_prefix_of(all) {
        lemma_prefix_index(word, all, 0);
        assert forall|d: int| 0 <= d < word.skip(1).len() implies rest[d] == word.skip(1)[d] by {
            lemma_prefix_index(word, all, d + 1);
        }
        assert(rest.subrange(0, word.skip(1).len() as int) =~= word.skip(1));
    }
    if word[0] == c && word.skip(1).is_prefix_of(rest) {
        assert forall|d: int| 0 <= d < word.len() implies all[d] == word[d] by {
            if d > 0 {
                lemma_prefix_index(word.skip(1), rest, d - 1);
            }
        }
        assert(all.subrange(0, word.len() as int) =~= word);
    }
}

/// What follows the head of a word at the front of a text, with the head's position taken off.
pub(crate) proof fn lemma_occurs_at_shift(word: Seq<char>, front: Seq<char>, rest: Seq<char>, i: int)
    requires
        text::occurs_at(word, front + rest, i),
        i >= front.len(),
    ensures
        text::occurs_at(word, rest, i - front.len()),
{
    assert(rest.subrange(i - front.len(), i - front.len() + word.len()) =~= (front
        + rest).subrange(i, i + word.len()));
}

pub(crate) proof fn lemma_no_begin(word: Seq<char>, block: Seq<char>, rest: Seq<char>, i: int)
    requires
        cannot_begin_in(word, block),
        text::occurs_at(word, block + rest, i),
    ensures
        i >= block.len(),
{
    if i < block.len() {
        assert(misfits(word, block, i));
        let d = choose|d: int|
            0 <= d < word.len() && i + d < block.len() && #[trigger] word[d] != block[i + d];
        lemma_occurs_at_index(word, block + rest, i, d);
    }
}

/// The end of a word that stands at the front after the substitution stood there before it.
proof fn lemma_simple_tail(
    word: Seq<char>,
    pattern: Seq<char>,
    text: Seq<char>,
    replacement: Seq<char>,
    k: int,
)
    requires
        1 <= k <= word.len(),
        cannot_end_in(word, pattern, replacement),
        word.skip(k).is_prefix_of(replace::replace_simple(pattern, text, replacement)),
    ensures
        word.skip(k).is_prefix_of(text),
    decreases text.len(),
{
    let s = word.skip(k);
    let out = replace::replace_simple(pattern, text, replacement);
    if s.len() == 0 {
        assert(text.subrange(0, 0) =~= s);
    } else if text.len() == 0 {
    } else if pattern.len() > 0 && replace::simple_matches(pattern, text) {
        assert(tail_is_foreign(word, pattern, replacement, k));
        if exists|d: int|
            0 <= d < word.len() - k && d < replacement.len() && #[trigger] replacement[d] != word[k
                + d] {
            let d = choose|d: int|
                0 <= d < word.len() - k && d < replacement.len() && #[trigger] replacement[d]
                    != word[k + d];
            lemma_prefix_index(s, out, d);
            assert(false);
        } else {
            assert forall|d: int| 0 <= d < s.len() implies text[d] == s[d] by {
                lemma_prefix_index(s, out, d);
                assert(pattern[d] == replacement[d]);
                assert(replace::char_matches(pattern[d], text[d]));
            }
            assert(text.subrange(0, s.len() as int) =~= s);
        }
    } else {
        let rest = replace::replace_simple(pattern, text.skip(1), replacement);
        lemma_prefix_of_pushed_front(s, text[0], rest);
        assert(s.skip(1) =~= word.skip(k + 1));
        lemma_simple_tail(word, pattern, text.skip(1), replacement, k + 1);
        lemma_prefix_of_pushed_front(s, text[0], text.skip(1));
        assert(seq![text[0]] + text.skip(1) =~= text);
    }
}

/// A word at the front of the outcome, where nothing was replaced there, was there before.
pub(crate) proof fn lemma_simple_front(
    word: Seq<char>,
    pattern: Seq<char>,
    text: Seq<char>,
    replacement: Seq<char>,
)
    requires
        word.len() > 0,
        text.len() > 0,
        !(pattern.len() > 0 && replace::simple_matches(pattern, text)),
        cannot_end_in(word, pattern, replacement),
        word.is_prefix_of(replace::replace_simple(pattern, text, replacement)),
    ensures
        word.is_prefix_of(text),
{
    let rest = replace::replace_simple(pattern, text.skip(1), replacement);
    lemma_prefix_of_pushed_front(word, text[0], rest);
    lemma_simple_tail(word, pattern, text.skip(1), replacement, 1);
    lemma_prefix_of_pushed_front(word, text[0], text.skip(1));
    assert(seq![text[0]] + text.skip(1) =~= text);
}

/// Substitution for a simple pattern brings in no word that its replacement has no part in.
pub(crate) proof fn lemma_simple_keeps_out(
    word: Seq<char>,
    pattern: Seq<char>,
    text: Seq<char>,
    replacement: Seq<char>,
)
    requires
        word.len() > 0,
        cannot_begin_in(word, replacement),
        cannot_end_in(word, pattern, replacement),
        !text::occurs(word, text),
    ensures
        !text::occurs(word, replace::replace_simple(pattern, text, replacement)),
    decreases text.len(),
{
    let out = replace::replace_simple(pattern, text, replacement);
    if text::occurs(word, out) {
        let i = choose|i: int| text::occurs_at(word, out, i);
        if text.len() > 0 {
            let matched = pattern.len() > 0 && replace::simple_matches(pattern, text);
            let n: int = if matched { pattern.len() as int } else { 1 };
            let front = if matched { replacement } else { seq![text[0]] };
            let rest = replace::replace_simple(pattern, text.skip(n), replacement);
            assert(out == front + rest);
            if text::occurs(word, text.skip(n)) {
                lemma_occurs_in_rest(word, text, n);
            }
            lemma_simple_keeps_out(word, pattern, text.skip(n), replacement);
            if matched {
                lemma_no_begin(word, replacement, rest, i);
            }
            if i >= front.len() {
                lemma_occurs_at_shift(word, front, rest, i);
            } else {
                assert(word.is_prefix_of(out));
                lemma_simple_front(word, pattern, text, replacement);
                lemma_prefix_occurs(word, text);
            }
        }
    }
}

/// Substitution for a literal leaves none of it, where the replacement has no part in a new one.
pub(crate) proof fn lemma_literal_removed(
    word: Seq<char>,
    text: Seq<char>,
    replacement: Seq<char>,
)
    requires
        word.len() > 0,
        forall|d: int| 0 <= d < word.len() ==> #[trigger] word[d] != '.',
        cannot_begin_in(word, replacement),
        cannot_end_in(word, word, replacement),
    ensures
        !text::occurs(word, replace::replace_simple(word, text, replacement)),
    decreases text.len(),
{
    let out = replace::replace_simple(word, text, replacement);
    if text::occurs(word, out) {
        let i = choose|i: int| text::occurs_at(word, out, i);
        if text.len() > 0 {
            let matched = replace::simple_matches(word, text);
            let n: int = if matched { word.len() as int } else { 1 };
            let front = if matched { replacement } else { seq![text[0]] };
            let rest = replace::replace_simple(word, text.skip(n), replacement);
            assert(out == front + rest);
            lemma_literal_removed(word, text.skip(n), replacement);
            if matched {
                lemma_no_begin(word, replacement, rest, i);
            }
            if i >= front.len() {
                lemma_occurs_at_shift(word, front, rest, i);
            } else {
                assert(word.is_prefix_of(out));
                lemma_simple_front(word, word, text, replacement);
                assert forall|d: int| 0 <= d < word.len() implies replace::char_matches(
                    #[trigger] word[d],
                    text[d],
                ) by {
                    lemma_prefix_index(word, text, d);
                }
            }
        }
    }
}

/// The end of a word that stands at the front after the insertion stood there before it.
proof fn lemma_lines_tail(
    word: Seq<char>,
    head: Seq<char>,
    tail: Seq<char>,
    block: Seq<char>,
    text: Seq<char>,
    k: int,
)
    requires
        1 <= k <= word.len(),
        cannot_end_in(word, Seq::empty(), block),
        word.skip(k).is_prefix_of(replace::insert_in_lines(head, tail, block, text)),
    ensures
        word.skip(k).is_prefix_of(text),
    decreases text.len(),
{
    let s = word.skip(k);
    let out = replace::insert_in_lines(head, tail, block, text);
    let n = replace::line_len(text) as int;
    if s.len() == 0 {
        assert(text.subrange(0, 0) =~= s);
    } else if text.len() == 0 {
    } else if n > 0 && replace::line_matches(head, tail, text) {
        assert(tail_is_foreign(word, Seq::empty(), block, k));
        let d = choose|d: int|
            0 <= d < word.len() - k && d < block.len() && #[trigger] block[d] != word[k + d];
        lemma_prefix_index(s, out, d);
        assert(false);
    } else {
        let rest = replace::insert_in_lines(head, tail, block, text.skip(1));
        lemma_prefix_of_pushed_front(s, text[0], rest);
        assert(s.skip(1) =~= word.skip(k + 1));
        lemma_lines_tail(word, head, tail, block, text.skip(1), k + 1);
        lemma_prefix_of_pushed_front(s, text[0], text.skip(1));
        assert(seq![text[0]] + text.skip(1) =~= text);
    }
}

/// A word that begins in the part of a text in front of position `n`, and goes on after it as far
/// as an insertion in the rest lets it, stands in the text.
proof fn lemma_lines_across(
    word: Seq<char>,
    head: Seq<char>,
    tail: Seq<char>,
    block: Seq<char>,
    text: Seq<char>,
    n: int,
    i: int,
)
    requires
        0 <= i < n <= text.len(),
        cannot_end_in(word, Seq::empty(), block),
        text::occurs_at(
            word,
            text.take(n) + replace::insert_in_lines(head, tail, block, text.skip(n)),
            i,
        ),
    ensures
        text::occurs_at(word, text, i),
{
    let rest = replace::insert_in_lines(head, tail, block, text.skip(n));
    let all = text.take(n) + rest;
    let m = n - i;
    if m < word.len() {
        let s = word.skip(m);
        assert forall|d: int| 0 <= d < s.len() implies rest[d] == s[d] by {
            lemma_occurs_at_index(word, all, i, m + d);
        }
        assert(rest.subrange(0, s.len() as int) =~= s);
        lemma_lines_tail(word, head, tail, block, text.skip(n), m);
    }
    assert forall|d: int| 0 <= d < word.len() implies text[i + d] == word[d] by {
        lemma_occurs_at_index(word, all, i, d);
        if d >= m {
            lemma_prefix_index(word.skip(m), text.skip(n), d - m);
        }
    }
    assert(text.subrange(i, i + word.len()) =~= word);
}

/// Insertion into lines brings in no word that the inserted block has no part in.
pub(crate) proof fn lemma_lines_keep_out(
    word: Seq<char>,
    head: Seq<char>,
    tail: Seq<char>,
    block: Seq<char>,
    text: Seq<char>,
)
    requires
        word.len() > 0,
        cannot_begin_in(word, block),
        cannot_end_in(word, Seq::empty(), block),
        !text::occurs(word, text),
    ensures
        !text::occurs(word, replace::insert_in_lines(head, tail, block, text)),
    decreases text.len(),
{
    let out = replace::insert_in_lines(head, tail, block, text);
    if text::occurs(word, out) {
        let i = choose|i: int| text::occurs_at(word, out, i);
        if text.len() > 0 {
            replace::lemma_line_len(text);
            let matched = replace::line_len(text) > 0 && replace::line_matches(head, tail, text);
            let n: int = if matched { replace::line_len(text) as int } else { 1 };
            let front = if matched { block } else { Seq::<char>::empty() };
            let rest = replace::insert_in_lines(head, tail, block, text.skip(n));
            assert(seq![text[0]] =~= text.take(1));
            assert(out =~= front + (text.take(n) + rest));
            if text::occurs(word, text.skip(n)) {
                lemma_occurs_in_rest(word, text, n);
            }
            lemma_lines_keep_out(word, head, tail, block, text.skip(n));
            lemma_no_begin(word, front, text.take(n) + rest, i);
            lemma_occurs_at_shift(word, front, text.take(n) + rest, i);
            let j = i - front.len();
            if j >= n {
                lemma_occurs_at_shift(word, text.take(n), rest, j);
            } else {
                lemma_lines_across(word, head, tail, block, text, n, j);
            }
        }
    }
}

/// A replacement that shares with `ab` no more than the first characters of `a`'s and `b`'s own:
/// no `a` begins in it, and it does not begin with an inner character of `a` or of `b`.
pub open spec fn is_apart(a: Seq<char>, b: Seq<char>, replacement: Seq<char>) -> bool {
    &&& a.len() > 0
    &&& b.len() > 0
    &&& replacement.len() > 0
    &&& forall|i: int| 0 <= i < replacement.len() ==> #[trigger] replacement[i] != a[0]
    &&& forall|k: int| 1 <= k < a.len() ==> #[trigger] a[k] != replacement[0]
    &&& forall|m: int| 1 <= m < b.len() - 1 ==> #[trigger] b[m] != replacement[0]
}

/// Part of an `ab` stands at the front, and a match of `(a)+b` where its position `k` would be.
spec fn runs_into_match(a: Seq<char>, b: Seq<char>, text: Seq<char>, j: int, k: int) -> bool {
    &&& j <= k
    &&& (a + b).subrange(j, k).is_prefix_of(text)
    &&& replace::repeated_len(a, b, text.skip(k - j)) > 0
}

/// Where the end of an `ab` stands at the front after the substitution, it stood there before, or
/// it runs into a match where its `b`, or the last character of its `b`, would be.
proof fn lemma_repeated_tail(
    a: Seq<char>,
    b: Seq<char>,
    text: Seq<char>,
    replacement: Seq<char>,
    j: int,
)
    requires
        is_apart(a, b, replacement),
        1 <= j < (a + b).len(),
        (a + b).skip(j).is_prefix_of(replace::replace_repeated(a, b, text, replacement)),
    ensures
        ({
            ||| (a + b).skip(j).is_prefix_of(text)
            ||| runs_into_match(a, b, text, j, a.len() as int)
            ||| runs_into_match(a, b, text, j, (a + b).len() - 1)
        }),
    decreases text.len(),
{
    let word = a + b;
    let s = word.skip(j);
    let out = replace::replace_repeated(a, b, text, replacement);
    lemma_prefix_index(s, out, 0);
    if text.len() == 0 {
    } else if replace::repeated_len(a, b, text) > 0 {
        assert(s[0] == replacement[0]);
        if j < a.len() {
            assert(a[j] == word[j]);
            assert(false);
        } else if a.len() < j < word.len() - 1 {
            assert(b[j - a.len()] == word[j]);
            assert(false);
        }
        assert(word.subrange(j, j) =~= text.subrange(0, 0));
        assert(text.skip(0) =~= text);
    } else {
        let rest = replace::replace_repeated(a, b, text.skip(1), replacement);
        assert(seq![text[0]] + text.skip(1) =~= text);
        lemma_prefix_of_pushed_front(s, text[0], rest);
        if s.len() == 1 {
            assert(s.skip(1).is_prefix_of(text.skip(1))) by {
                assert(text.skip(1).subrange(0, 0) =~= s.skip(1));
            }
            lemma_prefix_of_pushed_front(s, text[0], text.skip(1));
        } else {
            assert(s.skip(1) =~= word.skip(j + 1));
            lemma_repeated_tail(a, b, text.skip(1), replacement, j + 1);
            if word.skip(j + 1).is_prefix_of(text.skip(1)) {
                lemma_prefix_of_pushed_front(s, text[0], text.skip(1));
            } else {
                let k: int = if runs_into_match(a, b, text.skip(1), j + 1, a.len() as int) {
                    a.len() as int
                } else {
                    word.len() - 1
                };
                assert(runs_into_match(a, b, text.skip(1), j + 1, k));
                assert(word.subrange(j, k).skip(1) =~= word.subrange(j + 1, k));
                lemma_prefix_of_pushed_front(word.subrange(j, k), text[0], text.skip(1));
                assert(text.skip(1).skip(k - (j + 1)) =~= text.skip(k - j));
                assert(runs_into_match(a, b, text, j, k));
            }
        }
    }
}

/// An `ab` at the front of a text is a match of `(a)+b`, and so is an `a` with a match behind it.
proof fn lemma_repeated_front(a: Seq<char>, b: Seq<char>, text: Seq<char>)
    requires
        a.len() > 0,
        b.len() > 0,
        a.is_prefix_of(text),
        b.is_prefix_of(text.skip(a.len() as int)) || replace::repeated_len(
            a,
            b,
            text.skip(a.len() as int),
        ) > 0,
    ensures
        replace::repeated_len(a, b, text) > 0,
{
}

proof fn lemma_prefix_split(u: Seq<char>, v: Seq<char>, text: Seq<char>)
    requires
        (u + v).is_prefix_of(text),
    ensures
        u.is_prefix_of(text),
        v.is_prefix_of(text.skip(u.len() as int)),
{
    assert forall|d: int| 0 <= d < u.len() implies text[d] == u[d] by {
        lemma_prefix_index(u + v, text, d);
    }
    assert(text.subrange(0, u.len() as int) =~= u);
    let rest = text.skip(u.len() as int);
    assert forall|d: int| 0 <= d < v.len() implies rest[d] == v[d] by {
        lemma_prefix_index(u + v, text, u.len() + d);
    }
    assert(rest.subrange(0, v.len() as int) =~= v);
}

/// Substitution for `(a)+b` leaves no `ab`, unless one was cut short right before a match.
pub(crate) proof fn lemma_repeated_removed(
    a: Seq<char>,
    b: Seq<char>,
    text: Seq<char>,
    replacement: Seq<char>,
)
    requires
        is_apart(a, b, replacement),
        !replace::cut_short(a, b, text),
    ensures
        !text::occurs(a + b, replace::replace_repeated(a, b, text, replacement)),
    decreases text.len(),
{
    let word = a + b;
    let out = replace::replace_repeated(a, b, text, replacement);
    if text::occurs(word, out) {
        let i = choose|i: int| text::occurs_at(word, out, i);
        if text.len() > 0 {
            replace::lemma_repeated_len(a, b, text);
            let len = replace::repeated_len(a, b, text) as int;
            let n: int = if len > 0 { len } else { 1 };
            let front = if len > 0 { replacement } else { seq![text[0]] };
            let rest = replace::replace_repeated(a, b, text.skip(n), replacement);
            assert(out == front + rest);
            assert(!replace::cut_short(a, b, text.skip(n))) by {
                let stump = a + b.drop_last();
                if replace::cut_short(a, b, text.skip(n)) {
                    let k = choose|k: int|
                        #![trigger text.skip(n).skip(k)]
                        0 <= k <= text.skip(n).len() && stump.is_prefix_of(text.skip(n).skip(k))
                            && replace::repeated_len(
                            a,
                            b,
                            text.skip(n).skip(k).skip(stump.len() as int),
                        ) > 0;
                    assert(text.skip(n).skip(k) =~= text.skip(n + k));
                }
            }
            lemma_repeated_removed(a, b, text.skip(n), replacement);
            if i >= front.len() {
                lemma_occurs_at_shift(word, front, rest, i);
            } else {
                lemma_occurs_at_index(word, out, i, 0);
                assert(word[0] == a[0]);
                if len > 0 {
                    assert(out[i] == replacement[i]);
                } else {
                    assert(word.is_prefix_of(out));
                    lemma_repeated_at_front(a, b, text, replacement);
                }
            }
        }
    }
}

/// Where nothing is replaced at the front, no `ab` stands there afterwards.
proof fn lemma_repeated_at_front(
    a: Seq<char>,
    b: Seq<char>,
    text: Seq<char>,
    replacement: Seq<char>,
)
    requires
        is_apart(a, b, replacement),
        !replace::cut_short(a, b, text),
        text.len() > 0,
        replace::repeated_len(a, b, text) == 0,
    ensures
        !(a + b).is_prefix_of(replace::replace_repeated(a, b, text, replacement)),
{
    let word = a + b;
    let stump = a + b.drop_last();
    let rest = replace::replace_repeated(a, b, text.skip(1), replacement);
    if word.is_prefix_of(replace::replace_repeated(a, b, text, replacement)) {
        lemma_prefix_of_pushed_front(word, text[0], rest);
        lemma_repeated_tail(a, b, text.skip(1), replacement, 1);
        assert(seq![text[0]] + text.skip(1) =~= text);
        if word.skip(1).is_prefix_of(text.skip(1)) {
            lemma_prefix_of_pushed_front(word, text[0], text.skip(1));
            lemma_prefix_split(a, b, text);
            lemma_repeated_front(a, b, text);
        } else if runs_into_match(a, b, text.skip(1), 1, a.len() as int) {
            assert(a.skip(1) =~= word.subrange(1, a.len() as int));
            lemma_prefix_of_pushed_front(a, text[0], text.skip(1));
            assert(text.skip(1).skip(a.len() - 1) =~= text.skip(a.len() as int));
            lemma_repeated_front(a, b, text);
        } else {
            assert(stump.skip(1) =~= word.subrange(1, word.len() - 1));
            lemma_prefix_of_pushed_front(stump, text[0], text.skip(1));
            assert(text.skip(0) =~= text);
            assert(text.skip(1).skip(word.len() - 2) =~= text.skip(0).skip(stump.len() as int));
        }
    }
}

pub(crate) proof fn lemma_occurs_at_unshift(word: Seq<char>, front: Seq<char>, rest: Seq<char>, i: int)
    requires
        text::occurs_at(word, rest, i),
    ensures
        text::occurs_at(word, front + rest, i + front.len()),
{
    let all = front + rest;
    assert(all.subrange(i + front.len(), i + front.len() + word.len()) =~= rest.subrange(
        i,
        i + word.len(),
    ));
}

proof fn lemma_only_within_rest(word: Seq<char>, whole: Seq<char>, text: Seq<char>, n: int)
    requires
        0 <= n <= text.len(),
        text::only_within(word, whole, text),
    ensures
        text::only_within(word, whole, text.skip(n)),
{
    assert(text.take(n) + text.skip(n) =~= text);
    assert forall|i: int| #[trigger] text::occurs_at(word, text.skip(n), i) implies text::occurs_at(
        whole,
        text.skip(n),
        i,
    ) by {
        lemma_occurs_at_unshift(word, text.take(n), text.skip(n), i);
        lemma_occurs_at_shift(whole, text.take(n), text.skip(n), i + n);
    }
}

/// After substitution for a simple pattern, the pattern's own text stands only where a replacement
/// begins, if it cannot begin further on in a replacement or end in one.
pub(crate) proof fn lemma_simple_marks(word: Seq<char>, text: Seq<char>, block: Seq<char>)
    requires
        word.len() > 0,
        forall|i: int| 1 <= i < block.len() ==> #[trigger] misfits(word, block, i),
        cannot_end_in(word, word, block),
    ensures
        text::only_within(word, block, replace::replace_simple(word, text, block)),
    decreases text.len(),
{
    let out = replace::replace_simple(word, text, block);
    assert forall|i: int| #[trigger] text::occurs_at(word, out, i) implies text::occurs_at(
        block,
        out,
        i,
    ) by {
        if text.len() > 0 {
            let matched = replace::simple_matches(word, text);
            let n: int = if matched { word.len() as int } else { 1 };
            let front = if matched { block } else { seq![text[0]] };
            let rest = replace::replace_simple(word, text.skip(n), block);
            assert(out == front + rest);
            lemma_simple_marks(word, text.skip(n), block);
            if i >= front.len() {
                lemma_occurs_at_shift(word, front, rest, i);
                lemma_occurs_at_unshift(block, front, rest, i - front.len());
            } else if matched {
                if i > 0 {
                    assert(misfits(word, block, i));
                    let d = choose|d: int|
                        0 <= d < word.len() && i + d < block.len() && #[trigger] word[d]
                            != block[i + d];
                    lemma_occurs_at_index(word, out, i, d);
                }
                assert(out.subrange(0, block.len() as int) =~= block);
            } else {
                assert(word.is_prefix_of(out));
                lemma_simple_front(word, word, text, block);
                assert forall|d: int| 0 <= d < word.len() implies replace::char_matches(
                    #[trigger] word[d],
                    text[d],
                ) by {
                    lemma_prefix_index(word, text, d);
                }
            }
        }
    }
}

/// A text that no match begins in stays at the front.
pub(crate) proof fn lemma_simple_front_stays(
    front: Seq<char>,
    pattern: Seq<char>,
    text: Seq<char>,
    replacement: Seq<char>,
)
    requires
        front.is_prefix_of(text),
        forall|p: int|
            0 <= p < front.len() ==> !replace::simple_matches(pattern, #[trigger] text.skip(p)),
    ensures
        front.is_prefix_of(replace::replace_simple(pattern, text, replacement)),
    decreases text.len(),
{
    let out = replace::replace_simple(pattern, text, replacement);
    if front.len() == 0 {
        assert(out.subrange(0, 0) =~= front);
    } else {
        assert(text.skip(0) =~= text);
        assert(seq![text[0]] + text.skip(1) =~= text);
        lemma_prefix_of_pushed_front(front, text[0], text.skip(1));
        assert forall|p: int| 0 <= p < front.skip(1).len() implies !replace::simple_matches(
            pattern,
            #[trigger] text.skip(1).skip(p),
        ) by {
            assert(text.skip(1).skip(p) =~= text.skip(1 + p));
        }
        lemma_simple_front_stays(front.skip(1), pattern, text.skip(1), replacement);
        lemma_prefix_of_pushed_front(
            front,
            text[0],
            replace::replace_simple(pattern, text.skip(1), replacement),
        );
    }
}

/// A text that nothing is inserted in stays at the front.
#[verifier::spinoff_prover]
proof fn lemma_lines_front_stays(
    front: Seq<char>,
    head: Seq<char>,
    tail: Seq<char>,
    block: Seq<char>,
    text: Seq<char>,
)
    requires
        front.is_prefix_of(text),
        forall|p: int|
            0 <= p < front.len() ==> !replace::line_matches(head, tail, #[trigger] text.skip(p)),
    ensures
        front.is_prefix_of(replace::insert_in_lines(head, tail, block, text)),
    decreases text.len(),
{
    let out = replace::insert_in_lines(head, tail, block, text);
    if front.len() == 0 {
        assert(out.subrange(0, 0) =~= front);
    } else {
        assert(text.skip(0) =~= text);
        assert(seq![text[0]] + text.skip(1) =~= text);
        lemma_prefix_of_pushed_front(front, text[0], text.skip(1));
        assert forall|p: int| 0 <= p < front.skip(1).len() implies !replace::line_matches(
            head,
            tail,
            #[trigger] text.skip(1).skip(p),
        ) by {
            assert(text.skip(1).skip(p) =~= text.skip(1 + p));
        }
        lemma_lines_front_stays(front.skip(1), head, tail, block, text.skip(1));
        lemma_prefix_of_pushed_front(
            front,
            text[0],
            replace::insert_in_lines(head, tail, block, text.skip(1)),
        );
    }
}

/// No match of `pattern` begins within a `whole`, whatever stands behind it.
pub open spec fn no_match_begins_in(pattern: Seq<char>, whole: Seq<char>) -> bool {
    forall|rest: Seq<char>, p: int|
        0 <= p < whole.len() ==> !#[trigger] replace::simple_matches(
            pattern,
            (whole + rest).skip(p),
        )
}

/// No match of `head(.+)tail(.+)` begins within a `whole`, whatever stands behind it.
pub open spec fn no_line_match_begins_in(
    head: Seq<char>,
    tail: Seq<char>,
    whole: Seq<char>,
) -> bool {
    forall|rest: Seq<char>, p: int|
        0 <= p < whole.len() ==> !#[trigger] replace::line_matches(
            head,
            tail,
            (whole + rest).skip(p),
        )
}

pub(crate) proof fn lemma_split_at_prefix(front: Seq<char>, text: Seq<char>)
    requires
        front.is_prefix_of(text),
    ensures
        text == front + text.skip(front.len() as int),
{
    assert(text.subrange(0, front.len() as int) == front);
    assert(text =~= text.subrange(0, front.len() as int) + text.skip(front.len() as int));
}

/// Substitution for a simple pattern that does not meddle with `whole` keeps a `word` within it.
pub(crate) proof fn lemma_simple_keeps_within(
    word: Seq<char>,
    whole: Seq<char>,
    pattern: Seq<char>,
    text: Seq<char>,
    replacement: Seq<char>,
)
    requires
        word.len() > 0,
        cannot_begin_in(word, replacement),
        cannot_end_in(word, pattern, replacement),
        no_match_begins_in(pattern, whole),
        text::only_within(word, whole, text),
    ensures
        text::only_within(word, whole, replace::replace_simple(pattern, text, replacement)),
    decreases text.len(),
{
    let out = replace::replace_simple(pattern, text, replacement);
    assert forall|i: int| #[trigger] text::occurs_at(word, out, i) implies text::occurs_at(
        whole,
        out,
        i,
    ) by {
        if text.len() > 0 {
            let matched = pattern.len() > 0 && replace::simple_matches(pattern, text);
            let n: int = if matched { pattern.len() as int } else { 1 };
            let front = if matched { replacement } else { seq![text[0]] };
            let rest = replace::replace_simple(pattern, text.skip(n), replacement);
            assert(out == front + rest);
            lemma_only_within_rest(word, whole, text, n);
            lemma_simple_keeps_within(word, whole, pattern, text.skip(n), replacement);
            if matched {
                lemma_no_begin(word, replacement, rest, i);
            }
            if i >= front.len() {
                lemma_occurs_at_shift(word, front, rest, i);
                lemma_occurs_at_unshift(whole, front, rest, i - front.len());
            } else {
                assert(word.is_prefix_of(out));
                lemma_simple_front(word, pattern, text, replacement);
                assert(text::occurs_at(word, text, 0));
                assert(whole.is_prefix_of(text));
                lemma_split_at_prefix(whole, text);
                assert forall|p: int| 0 <= p < whole.len() implies !replace::simple_matches(
                    pattern,
                    #[trigger] text.skip(p),
                ) by {
                    assert(!replace::simple_matches(
                        pattern,
                        (whole + text.skip(whole.len() as int)).skip(p),
                    ));
                }
                lemma_simple_front_stays(whole, pattern, text, replacement);
                assert(text::occurs_at(whole, out, 0));
            }
        }
    }
}

/// Insertion into lines that does not meddle with `whole` keeps a `word` within it.
pub(crate) proof fn lemma_lines_keep_within(
    word: Seq<char>,
    whole: Seq<char>,
    head: Seq<char>,
    tail: Seq<char>,
    block: Seq<char>,
    text: Seq<char>,
)
    requires
        word.len() > 0,
        cannot_begin_in(word, block),
        cannot_end_in(word, Seq::empty(), block),
        no_line_match_begins_in(head, tail, whole),
        text::only_within(word, whole, text),
    ensures
        text::only_within(word, whole, replace::insert_in_lines(head, tail, block, text)),
    decreases text.len(),
{
    let out = replace::insert_in_lines(head, tail, block, text);
    assert forall|i: int| #[trigger] text::occurs_at(word, out, i) implies text::occurs_at(
        whole,
        out,
        i,
    ) by {
        if text.len() > 0 {
            replace::lemma_line_len(text);
            let matched = replace::line_len(text) > 0 && replace::line_matches(head, tail, text);
            let n: int = if matched { replace::line_len(text) as int } else { 1 };
            let front = if matched { block } else { Seq::<char>::empty() };
            let rest = replace::insert_in_lines(head, tail, block, text.skip(n));
            let kept = text.take(n) + rest;
            assert(seq![text[0]] =~= text.take(1));
            assert(out =~= front + kept);
            lemma_only_within_rest(word, whole, text, n);
            lemma_lines_keep_within(word, whole, head, tail, block, text.skip(n));
            lemma_no_begin(word, front, kept, i);
            lemma_occurs_at_shift(word, front, kept, i);
            let j = i - front.len();
            if j >= n {
                lemma_occurs_at_shift(word, text.take(n), rest, j);
                lemma_occurs_at_unshift(whole, text.take(n), rest, j - n);
            } else {
                lemma_lines_across(word, head, tail, block, text, n, j);
                assert(text::occurs_at(whole, text, j));
                lemma_lines_whole_stays(whole, head, tail, block, text, n, j);
            }
            lemma_occurs_at_unshift(whole, front, kept, j);
        }
    }
}

/// A `whole` that begins in front of position `n` is not torn by an insertion in the rest.
pub(crate) proof fn lemma_lines_whole_stays(
    whole: Seq<char>,
    head: Seq<char>,
    tail: Seq<char>,
    block: Seq<char>,
    text: Seq<char>,
    n: int,
    j: int,
)
    requires
        0 <= j < n <= text.len(),
        no_line_match_begins_in(head, tail, whole),
        text::occurs_at(whole, text, j),
    ensures
        text::occurs_at(
            whole,
            text.take(n) + replace::insert_in_lines(head, tail, block, text.skip(n)),
            j,
        ),
{
    let rest = replace::insert_in_lines(head, tail, block, text.skip(n));
    let kept = text.take(n) + rest;
    let m = n - j;
    if m < whole.len() {
        let s = whole.skip(m);
        assert forall|d: int| 0 <= d < s.len() implies text.skip(n)[d] == s[d] by {
            lemma_occurs_at_index(whole, text, j, m + d);
        }
        assert(text.skip(n).subrange(0, s.len() as int) =~= s);
        let after = text.skip(j + whole.len());
        assert forall|d: int| 0 <= d < whole.len() implies text[j + d] == whole[d] by {
            lemma_occurs_at_index(whole, text, j, d);
        }
        assert forall|p: int| 0 <= p < s.len() implies !replace::line_matches(
            head,
            tail,
            #[trigger] text.skip(n).skip(p),
        ) by {
            assert(text.skip(n).skip(p) =~= (whole + after).skip(m + p));
        }
        lemma_lines_front_stays(s, head, tail, block, text.skip(n));
    }
    assert forall|d: int| 0 <= d < whole.len() implies kept[j + d] == whole[d] by {
        lemma_occurs_at_index(whole, text, j, d);
        if d >= m {
            lemma_prefix_index(whole.skip(m), rest, d - m);
        }
    }
    assert(kept.subrange(j, j + whole.len()) =~= whole);
}

/// A line is no longer than up to any line feed, and has none in it.
pub(crate) proof fn lemma_line_end(text: Seq<char>)
    ensures
        forall|q: int|
            0 <= q < text.len() && #[trigger] text[q] == '\n' ==> replace::line_len(text) <= q,
    decreases text.len(),
{
    if text.len() > 0 && text[0] != '\n' {
        lemma_line_end(text.skip(1));
        assert forall|q: int| 0 <= q < text.len() && #[trigger] text[q] == '\n' implies
            replace::line_len(text) <= q by {
            assert(text.skip(1)[q - 1] == '\n');
        }
    }
}

/// What the insertion of `block` takes to leave other words alone: `block` does not begin as `head`
/// does, it goes over more than one line, and neither `head` nor `tail` can have a part in it.
pub open spec fn is_separate_block(head: Seq<char>, tail: Seq<char>, block: Seq<char>) -> bool {
    &&& head.len() > 0
    &&& tail.len() > 0
    &&& block.len() > 0
    &&& block[0] != head[0]
    &&& exists|q: int| 0 <= q < block.len() && #[trigger] block[q] == '\n'
    &&& cannot_begin_in(head, block)
    &&& cannot_begin_in(tail, block)
    &&& cannot_end_in(head, Seq::empty(), block)
    &&& cannot_end_in(tail, Seq::empty(), block)
}

/// A word at the front of the outcome, where nothing was inserted there, was there before.
proof fn lemma_lines_front(
    word: Seq<char>,
    head: Seq<char>,
    tail: Seq<char>,
    block: Seq<char>,
    text: Seq<char>,
)
    requires
        word.len() > 0,
        text.len() > 0,
        !(replace::line_len(text) > 0 && replace::line_matches(head, tail, text)),
        cannot_end_in(word, Seq::empty(), block),
        word.is_prefix_of(replace::insert_in_lines(head, tail, block, text)),
    ensures
        word.is_prefix_of(text),
{
    let rest = replace::insert_in_lines(head, tail, block, text.skip(1));
    lemma_prefix_of_pushed_front(word, text[0], rest);
    lemma_lines_tail(word, head, tail, block, text.skip(1), 1);
    lemma_prefix_of_pushed_front(word, text[0], text.skip(1));
    assert(seq![text[0]] + text.skip(1) =~= text);
}

/// Up to the end of a word that stands in the first line after the insertion, nothing has changed.
proof fn lemma_lines_first_line(
    word: Seq<char>,
    head: Seq<char>,
    tail: Seq<char>,
    block: Seq<char>,
    text: Seq<char>,
    j: int,
)
    requires
        word.len() > 0,
        is_separate_block(head, tail, block),
        cannot_begin_in(word, block),
        cannot_end_in(word, Seq::empty(), block),
        text::occurs_at(word, replace::insert_in_lines(head, tail, block, text), j),
        j + word.len() <= replace::line_len(replace::insert_in_lines(head, tail, block, text)),
    ensures
        text::occurs_at(word, text, j),
        text.take(j + word.len()) == replace::insert_in_lines(head, tail, block, text).take(
            j + word.len(),
        ),
    decreases text.len(),
{
    let out = replace::insert_in_lines(head, tail, block, text);
    let n = replace::line_len(text) as int;
    if text.len() == 0 {
    } else if n > 0 && replace::line_matches(head, tail, text) {
        let rest = text.take(n) + replace::insert_in_lines(head, tail, block, text.skip(n));
        assert(out =~= block + rest);
        lemma_no_begin(word, block, rest, j);
        let q = choose|q: int| 0 <= q < block.len() && #[trigger] block[q] == '\n';
        lemma_line_end(out);
        assert(out[q] == '\n');
    } else {
        let rest = replace::insert_in_lines(head, tail, block, text.skip(1));
        assert(seq![text[0]] + text.skip(1) =~= text);
        if j == 0 {
            assert(word.is_prefix_of(out));
            lemma_lines_front(word, head, tail, block, text);
            assert(text.take(word.len() as int) =~= text.subrange(0, word.len() as int));
            assert(out.take(word.len() as int) =~= out.subrange(0, word.len() as int));
        } else {
            lemma_occurs_at_shift(word, seq![text[0]], rest, j);
            assert(out.skip(1) =~= rest);
            lemma_lines_first_line(word, head, tail, block, text.skip(1), j - 1);
            lemma_occurs_at_unshift(word, seq![text[0]], text.skip(1), j - 1);
            let e = j + word.len();
            assert(text.take(e) =~= seq![text[0]] + text.skip(1).take(e - 1));
            assert(out.take(e) =~= seq![text[0]] + rest.take(e - 1));
        }
    }
}

/// Where the first line goes on after the insertion, and nothing has changed up to there, it went
/// on before.
proof fn lemma_lines_goes_on(
    head: Seq<char>,
    tail: Seq<char>,
    block: Seq<char>,
    text: Seq<char>,
    k: int,
)
    requires
        is_separate_block(head, tail, block),
        0 <= k < replace::line_len(replace::insert_in_lines(head, tail, block, text)),
        k <= text.len(),
        text.take(k) == replace::insert_in_lines(head, tail, block, text).take(k),
    ensures
        k < replace::line_len(text),
    decreases text.len(),
{
    let out = replace::insert_in_lines(head, tail, block, text);
    let n = replace::line_len(text) as int;
    replace::lemma_line_len(out);
    if text.len() == 0 {
    } else if n > 0 && replace::line_matches(head, tail, text) {
        if k > 0 {
            lemma_prefix_index(head, text, 0);
            assert(text.take(k)[0] == text[0]);
            assert(out.take(k)[0] == out[0]);
            assert(out[0] == block[0]);
        }
    } else {
        let rest = replace::insert_in_lines(head, tail, block, text.skip(1));
        assert(out.skip(1) =~= rest);
        if k > 0 {
            assert forall|d: int| 0 <= d < k - 1 implies #[trigger] text.skip(1).take(k - 1)[d]
                == rest.take(k - 1)[d] by {
                assert(text.take(k)[d + 1] == out.take(k)[d + 1]);
            }
            assert(text.skip(1).take(k - 1) =~= rest.take(k - 1));
            lemma_lines_goes_on(head, tail, block, text.skip(1), k - 1);
        }
    }
}

/// Where nothing is inserted at the front, no match begins there afterwards.
pub(crate) proof fn lemma_lines_no_new_match(
    head: Seq<char>,
    tail: Seq<char>,
    block: Seq<char>,
    text: Seq<char>,
)
    requires
        is_separate_block(head, tail, block),
        text.len() > 0,
        !(replace::line_len(text) > 0 && replace::line_matches(head, tail, text)),
    ensures
        !replace::line_matches(head, tail, replace::insert_in_lines(head, tail, block, text)),
{
    let out = replace::insert_in_lines(head, tail, block, text);
    if replace::line_matches(head, tail, out) {
        lemma_lines_front(head, head, tail, block, text);
        let j = choose|j: int|
            #![trigger text::occurs_at(tail, out, j)]
            head.len() < j && j + tail.len() < replace::line_len(out) && text::occurs_at(
                tail,
                out,
                j,
            );
        lemma_lines_first_line(tail, head, tail, block, text, j);
        lemma_lines_goes_on(head, tail, block, text, j + tail.len());
        assert(replace::line_matches(head, tail, text));
    }
}

} // verus!

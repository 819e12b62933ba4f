//! When exactly a word is left standing by substitution.

use vstd::prelude::*;

use crate::replace;
use crate::replace_facts;
use crate::text;

verus! {

/// A word stands in the outcome exactly if it stood in the text, with its first character in no
/// match that was replaced.
pub(crate) proof fn lemma_simple_leaves(
    word: Seq<char>,
    pattern: Seq<char>,
    text: Seq<char>,
    replacement: Seq<char>,
)
    requires
        word.len() > 0,
        replace_facts::cannot_begin_in(word, replacement),
        replace_facts::cannot_end_in(word, pattern, replacement),
        replace_facts::no_match_begins_in(pattern, word),
    ensures
        text::occurs(word, replace::replace_simple(pattern, text, replacement))
            <==> replace::stands_apart(word, pattern, text),
    decreases text.len(),
{
    let out = replace::replace_simple(pattern, text, replacement);
    if text.len() > 0 {
        let matched = pattern.len() > 0 && replace::simple_matches(pattern, text);
        let n: int = if matched { pattern.len() as int } else { 1 };
        let front = if matched { replacement } else { seq![text[0]] };
        let rest = replace::replace_simple(pattern, text.skip(n), replacement);
        assert(out == front + rest);
        assert(text.take(n) + text.skip(n) =~= text);
        lemma_simple_leaves(word, pattern, text.skip(n), replacement);
        if text::occurs(word, out) {
            let i = choose|i: int| text::occurs_at(word, out, i);
            if matched {
                replace_facts::lemma_no_begin(word, replacement, rest, i);
            }
            if i >= front.len() {
                replace_facts::lemma_occurs_at_shift(word, front, rest, i);
                let j = choose|j: int|
                    #![trigger text::occurs_at(word, text.skip(n), j)]
                    text::occurs_at(word, text.skip(n), j) && replace::is_kept(
                        pattern,
                        text.skip(n),
                        j,
                    );
                replace_facts::lemma_occurs_at_unshift(word, text.take(n), text.skip(n), j);
                assert(replace::is_kept(pattern, text, j + n));
            } else {
                assert(word.is_prefix_of(out));
                replace_facts::lemma_simple_front(word, pattern, text, replacement);
                assert(text::occurs_at(word, text, 0));
            }
        }
        if replace::stands_apart(word, pattern, text) {
            let i = choose|i: int|
                #![trigger text::occurs_at(word, text, i)]
                text::occurs_at(word, text, i) && replace::is_kept(pattern, text, i);
            if i >= n {
                replace_facts::lemma_occurs_at_shift(word, text.take(n), text.skip(n), i);
                assert(replace::stands_apart(word, pattern, text.skip(n)));
                let j = choose|j: int| text::occurs_at(word, rest, j);
                replace_facts::lemma_occurs_at_unshift(word, front, rest, j);
            } else {
                assert(word.is_prefix_of(text));
                replace_facts::lemma_split_at_prefix(word, text);
                assert forall|p: int| 0 <= p < word.len() implies !replace::simple_matches(
                    pattern,
                    #[trigger] text.skip(p),
                ) by {
                    assert(!replace::simple_matches(
                        pattern,
                        (word + text.skip(word.len() as int)).skip(p),
                    ));
                }
                replace_facts::lemma_simple_front_stays(word, pattern, text, replacement);
                replace_facts::lemma_prefix_occurs(word, out);
            }
        }
    }
}

/// Insertion into lines leaves a word in the text that it does not tear.
#[verifier::spinoff_prover]
proof fn lemma_lines_word_stays(
    word: Seq<char>,
    head: Seq<char>,
    tail: Seq<char>,
    block: Seq<char>,
    text: Seq<char>,
    i: int,
)
    requires
        word.len() > 0,
        replace_facts::no_line_match_begins_in(head, tail, word),
        text::occurs_at(word, text, i),
    ensures
        text::occurs(word, replace::insert_in_lines(head, tail, block, text)),
    decreases text.len(),
{
    let out = replace::insert_in_lines(head, tail, block, text);
    replace::lemma_line_len(text);
    let matched = replace::line_len(text) > 0 && replace::line_matches(head, tail, text);
    let n: int = if matched { replace::line_len(text) as int } else { 1 };
    let front = if matched { block } else { Seq::<char>::empty() };
    let rest = replace::insert_in_lines(head, tail, block, text.skip(n));
    let kept = text.take(n) + rest;
    assert(out == front + kept) by {
        assert(text.len() > 0);
        assert(seq![text[0]] =~= text.take(1));
        assert(out =~= front + kept);
    }
    assert(text.take(n) + text.skip(n) =~= text);
    if i >= n {
        replace_facts::lemma_occurs_at_shift(word, text.take(n), text.skip(n), i);
        lemma_lines_word_stays(word, head, tail, block, text.skip(n), i - n);
        let j = choose|j: int| text::occurs_at(word, rest, j);
        replace_facts::lemma_occurs_at_unshift(word, text.take(n), rest, j);
        replace_facts::lemma_occurs_at_unshift(word, front, kept, j + n);
    } else {
        replace_facts::lemma_lines_whole_stays(word, head, tail, block, text, n, i);
        replace_facts::lemma_occurs_at_unshift(word, front, kept, i);
    }
}

/// A word that insertion into lines has no part in stands in the outcome exactly if it stood in the
/// text.
pub(crate) proof fn lemma_lines_leave(
    word: Seq<char>,
    head: Seq<char>,
    tail: Seq<char>,
    block: Seq<char>,
    text: Seq<char>,
)
    requires
        word.len() > 0,
        replace_facts::cannot_begin_in(word, block),
        replace_facts::cannot_end_in(word, Seq::empty(), block),
        replace_facts::no_line_match_begins_in(head, tail, word),
    ensures
        text::occurs(word, replace::insert_in_lines(head, tail, block, text)) <==> text::occurs(
            word,
            text,
        ),
{
    if text::occurs(word, text) {
        let i = choose|i: int| text::occurs_at(word, text, i);
        lemma_lines_word_stays(word, head, tail, block, text, i);
    } else {
        replace_facts::lemma_lines_keep_out(word, head, tail, block, text);
    }
}

/// The first character of `a` is nowhere else in `ab`, and the replacement begins as `b` ends.
pub open spec fn is_resumed(a: Seq<char>, b: Seq<char>, replacement: Seq<char>) -> bool {
    &&& a.len() > 0
    &&& b.len() > 1
    &&& replacement.len() > 0
    &&& replacement[0] == b.last()
    &&& forall|k: int| 1 <= k < a.len() ==> #[trigger] a[k] != a[0]
    &&& forall|m: int| 0 <= m < b.len() ==> #[trigger] b[m] != a[0]
}

/// At the front of `text` an `ab` breaks off before its last character, right before a match.
spec fn is_stump(a: Seq<char>, b: Seq<char>, text: Seq<char>) -> bool {
    let stump = a + b.drop_last();
    stump.is_prefix_of(text) && replace::repeated_len(a, b, text.skip(stump.len() as int)) > 0
}

/// No match begins within a stump.
proof fn lemma_stump(a: Seq<char>, b: Seq<char>, text: Seq<char>, replacement: Seq<char>)
    requires
        is_resumed(a, b, replacement),
        is_stump(a, b, text),
    ensures
        forall|p: int|
            0 <= p < a.len() + b.len() - 1 ==> replace::repeated_len(a, b, #[trigger] text.skip(p))
                == 0,
{
    let stump = a + b.drop_last();
    let after = text.skip(stump.len() as int);
    replace_facts::lemma_prefix_index(a, after, 0);
    assert(text[stump.len() as int] == a[0]);
    assert forall|p: int| 0 <= p < stump.len() implies replace::repeated_len(
        a,
        b,
        #[trigger] text.skip(p),
    ) == 0 by {
        if p > 0 {
            replace_facts::lemma_prefix_index(stump, text, p);
            if a.is_prefix_of(text.skip(p)) {
                replace_facts::lemma_prefix_index(a, text.skip(p), 0);
                if p < a.len() {
                    assert(stump[p] == a[p]);
                } else {
                    assert(stump[p] == b[p - a.len()]);
                }
            }
        } else {
            assert(text.skip(0) =~= text);
            let rest = text.skip(a.len() as int);
            if a.is_prefix_of(rest) {
                replace_facts::lemma_prefix_index(a, rest, 0);
                replace_facts::lemma_prefix_index(stump, text, a.len() as int);
                assert(stump[a.len() as int] == b[0]);
            }
            assert(replace::repeated_len(a, b, rest) == 0);
            if b.is_prefix_of(rest) {
                replace_facts::lemma_prefix_index(b, rest, b.len() - 1);
                assert(b.last() == b[b.len() - 1]);
            }
        }
    }
}

/// A stump lies behind a match at the front, not in it.
proof fn lemma_stump_behind_match(
    a: Seq<char>,
    b: Seq<char>,
    text: Seq<char>,
    replacement: Seq<char>,
    i: int,
)
    requires
        is_resumed(a, b, replacement),
        0 <= i <= text.len(),
        is_stump(a, b, text.skip(i)),
        replace::repeated_len(a, b, text) > 0,
    ensures
        i >= replace::repeated_len(a, b, text),
    decreases text.len(),
{
    let stump = a + b.drop_last();
    let rest = text.skip(a.len() as int);
    lemma_stump(a, b, text.skip(i), replacement);
    assert(text.skip(i).skip(0) =~= text.skip(i));
    replace_facts::lemma_prefix_index(stump, text.skip(i), 0);
    assert(text[i] == a[0]);
    if i == 0 {
        assert(text.skip(0) =~= text);
    } else if i < a.len() {
        replace_facts::lemma_prefix_index(a, text, i);
    } else {
        assert(rest.skip(i - a.len()) =~= text.skip(i));
        if replace::repeated_len(a, b, rest) > 0 {
            lemma_stump_behind_match(a, b, rest, replacement, i - a.len());
        } else if i < a.len() + b.len() {
            replace_facts::lemma_prefix_index(b, rest, i - a.len());
        }
    }
}

/// A text that no match begins in stays at the front, with what becomes of the rest behind it.
proof fn lemma_repeated_front_stays(
    a: Seq<char>,
    b: Seq<char>,
    text: Seq<char>,
    replacement: Seq<char>,
    n: int,
)
    requires
        0 <= n <= text.len(),
        forall|p: int|
            0 <= p < n ==> replace::repeated_len(a, b, #[trigger] text.skip(p)) == 0,
    ensures
        replace::replace_repeated(a, b, text, replacement) == text.take(n)
            + replace::replace_repeated(a, b, text.skip(n), replacement),
    decreases n,
{
    if n == 0 {
        assert(text.skip(0) =~= text);
        assert(text.take(0) + text =~= text);
        assert(text.take(0) + replace::replace_repeated(a, b, text, replacement)
            =~= replace::replace_repeated(a, b, text, replacement));
    } else {
        assert(text.skip(0) =~= text);
        assert forall|p: int| 0 <= p < n - 1 implies replace::repeated_len(
            a,
            b,
            #[trigger] text.skip(1).skip(p),
        ) == 0 by {
            assert(text.skip(1).skip(p) =~= text.skip(1 + p));
        }
        lemma_repeated_front_stays(a, b, text.skip(1), replacement, n - 1);
        assert(text.skip(1).skip(n - 1) =~= text.skip(n));
        let rest = replace::replace_repeated(a, b, text.skip(n), replacement);
        assert(seq![text[0]] + (text.skip(1).take(n - 1) + rest) =~= text.take(n) + rest);
    }
}

/// Where an `ab` is cut short right before a match, the replacement completes it.
proof fn lemma_repeated_resumed(
    a: Seq<char>,
    b: Seq<char>,
    text: Seq<char>,
    replacement: Seq<char>,
    i: int,
)
    requires
        is_resumed(a, b, replacement),
        0 <= i <= text.len(),
        is_stump(a, b, text.skip(i)),
    ensures
        text::occurs(a + b, replace::replace_repeated(a, b, text, replacement)),
    decreases text.len(),
{
    let out = replace::replace_repeated(a, b, text, replacement);
    let stump = a + b.drop_last();
    let word = a + b;
    if i == 0 {
        assert(text.skip(0) =~= text);
        lemma_stump(a, b, text, replacement);
        let n = stump.len() as int;
        lemma_repeated_front_stays(a, b, text, replacement, n);
        assert(text.take(n) =~= stump) by {
            assert(text.subrange(0, n) == stump);
        }
        let rest = replace::replace_repeated(a, b, text.skip(n), replacement);
        assert(text.skip(n).len() > 0) by {
            replace_facts::lemma_prefix_index(a, text.skip(n), 0);
        }
        assert(rest[0] == replacement[0]);
        assert(out.subrange(0, word.len() as int) =~= word) by {
            assert(out == stump + rest);
        }
        assert(text::occurs_at(word, out, 0));
    } else {
        replace::lemma_repeated_len(a, b, text);
        let len = replace::repeated_len(a, b, text) as int;
        let n: int = if len > 0 { len } else { 1 };
        let front = if len > 0 { replacement } else { seq![text[0]] };
        if len > 0 {
            lemma_stump_behind_match(a, b, text, replacement, i);
        }
        assert(text.skip(n).skip(i - n) =~= text.skip(i));
        lemma_repeated_resumed(a, b, text.skip(n), replacement, i - n);
        let rest = replace::replace_repeated(a, b, text.skip(n), replacement);
        let j = choose|j: int| text::occurs_at(word, rest, j);
        replace_facts::lemma_occurs_at_unshift(word, front, rest, j);
    }
}

/// After substitution for `(a)+b` an `ab` stands exactly if one was cut short right before a match.
pub(crate) proof fn lemma_repeated_leaves(
    a: Seq<char>,
    b: Seq<char>,
    text: Seq<char>,
    replacement: Seq<char>,
)
    requires
        replace_facts::is_apart(a, b, replacement),
        is_resumed(a, b, replacement),
    ensures
        text::occurs(a + b, replace::replace_repeated(a, b, text, replacement))
            <==> replace::cut_short(a, b, text),
{
    if replace::cut_short(a, b, text) {
        let stump = a + b.drop_last();
        let i = choose|i: int|
            #![trigger text.skip(i)]
            0 <= i <= text.len() && stump.is_prefix_of(text.skip(i)) && replace::repeated_len(
                a,
                b,
                text.skip(i).skip(stump.len() as int),
            ) > 0;
        lemma_repeated_resumed(a, b, text, replacement, i);
    } else {
        replace_facts::lemma_repeated_removed(a, b, text, replacement);
    }
}

} // verus!

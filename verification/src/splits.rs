//! Where a text can be parted so that substitution works on each part alone.

use vstd::prelude::*;

use crate::replace;
use crate::replace_facts;
use crate::text;

verus! {

/// Every match of a simple pattern that begins in `x`, with `rest` behind it, ends in `x`.
pub open spec fn is_simple_cut(pattern: Seq<char>, x: Seq<char>, rest: Seq<char>) -> bool {
    forall|i: int|
        #![trigger (x + rest).skip(i)]
        0 <= i < x.len() && replace::simple_matches(pattern, (x + rest).skip(i)) ==> i
            + pattern.len() <= x.len()
}

pub(crate) proof fn lemma_simple_cut(
    pattern: Seq<char>,
    x: Seq<char>,
    rest: Seq<char>,
    block: Seq<char>,
)
    requires
        pattern.len() > 0,
        is_simple_cut(pattern, x, rest),
    ensures
        replace::replace_simple(pattern, x + rest, block) == replace::replace_simple(
            pattern,
            x,
            block,
        ) + replace::replace_simple(pattern, rest, block),
    decreases x.len(),
{
    let whole = x + rest;
    if x.len() == 0 {
        assert(whole =~= rest);
        assert(x + replace::replace_simple(pattern, rest, block) =~= replace::replace_simple(
            pattern,
            rest,
            block,
        ));
    } else {
        assert(whole.skip(0) =~= whole);
        let matched = replace::simple_matches(pattern, whole);
        let n: int = if matched { pattern.len() as int } else { 1 };
        let put = if matched { block } else { seq![x[0]] };
        assert(matched == replace::simple_matches(pattern, x)) by {
            if matched {
                assert forall|d: int| 0 <= d < pattern.len() implies replace::char_matches(
                    #[trigger] pattern[d],
                    x[d],
                ) by {
                    assert(replace::char_matches(pattern[d], whole[d]));
                }
            } else if replace::simple_matches(pattern, x) {
                assert forall|d: int| 0 <= d < pattern.len() implies replace::char_matches(
                    #[trigger] pattern[d],
                    whole[d],
                ) by {
                    assert(replace::char_matches(pattern[d], x[d]));
                }
            }
        }
        assert(x.skip(n) + rest =~= whole.skip(n));
        assert forall|i: int|
            #![trigger (x.skip(n) + rest).skip(i)]
            0 <= i < x.skip(n).len() && replace::simple_matches(
                pattern,
                (x.skip(n) + rest).skip(i),
            ) implies i + pattern.len() <= x.skip(n).len() by {
            assert((x.skip(n) + rest).skip(i) =~= whole.skip(n + i));
        }
        lemma_simple_cut(pattern, x.skip(n), rest, block);
        let after = replace::replace_simple(pattern, rest, block);
        assert(put + (replace::replace_simple(pattern, x.skip(n), block) + after) =~= (put
            + replace::replace_simple(pattern, x.skip(n), block)) + after);
    }
}

/// A match in the middle, with none that runs into it, is replaced, and the parts before and behind
/// it are dealt with alone.
pub(crate) proof fn lemma_simple_match(
    pattern: Seq<char>,
    x: Seq<char>,
    found: Seq<char>,
    y: Seq<char>,
    block: Seq<char>,
)
    requires
        pattern.len() > 0,
        found.len() == pattern.len(),
        replace::simple_matches(pattern, found),
        is_simple_cut(pattern, x, found + y),
    ensures
        replace::replace_simple(pattern, x + found + y, block) == replace::replace_simple(
            pattern,
            x,
            block,
        ) + block + replace::replace_simple(pattern, y, block),
{
    let rest = found + y;
    lemma_simple_cut(pattern, x, rest, block);
    assert(x + found + y =~= x + rest);
    assert forall|d: int| 0 <= d < pattern.len() implies replace::char_matches(
        #[trigger] pattern[d],
        rest[d],
    ) by {
        assert(replace::char_matches(pattern[d], found[d]));
    }
    assert(rest.skip(pattern.len() as int) =~= y);
    let before = replace::replace_simple(pattern, x, block);
    let behind = replace::replace_simple(pattern, y, block);
    assert(before + (block + behind) =~= before + block + behind);
}

/// Substitution for a pattern without a line end goes line by line.
pub(crate) proof fn lemma_simple_lines(
    pattern: Seq<char>,
    x: Seq<char>,
    y: Seq<char>,
    block: Seq<char>,
)
    requires
        pattern.len() > 0,
        forall|d: int| 0 <= d < pattern.len() ==> #[trigger] pattern[d] != '\n',
    ensures
        replace::replace_simple(pattern, x + seq!['\n'] + y, block) == replace::replace_simple(
            pattern,
            x,
            block,
        ) + seq!['\n'] + replace::replace_simple(pattern, y, block),
{
    let rest = seq!['\n'] + y;
    assert forall|i: int|
        #![trigger (x + rest).skip(i)]
        0 <= i < x.len() && replace::simple_matches(pattern, (x + rest).skip(i)) implies i
        + pattern.len() <= x.len() by {
        if i + pattern.len() > x.len() {
            let d = x.len() - i;
            assert((x + rest).skip(i)[d] == '\n');
            assert(replace::char_matches(pattern[d], (x + rest).skip(i)[d]));
        }
    }
    lemma_simple_cut(pattern, x, rest, block);
    assert(x + seq!['\n'] + y =~= x + rest);
    if replace::simple_matches(pattern, rest) {
        assert(replace::char_matches(pattern[0], rest[0]));
    }
    assert(rest.skip(1) =~= y);
    let before = replace::replace_simple(pattern, x, block);
    let behind = replace::replace_simple(pattern, y, block);
    assert(before + (seq!['\n'] + behind) =~= before + seq!['\n'] + behind);
}

/// What stands behind a text makes no match in it shorter, and where the match ends in the text, no
/// longer.
proof fn lemma_repeated_len_grows(a: Seq<char>, b: Seq<char>, x: Seq<char>, rest: Seq<char>)
    ensures
        replace::repeated_len(a, b, x) > 0 ==> replace::repeated_len(a, b, x + rest) > 0,
        replace::repeated_len(a, b, x + rest) <= x.len() ==> replace::repeated_len(a, b, x)
            == replace::repeated_len(a, b, x + rest),
    decreases x.len(),
{
    let whole = x + rest;
    let n = a.len() as int;
    if n > 0 && a.is_prefix_of(whole) && n <= x.len() {
        assert(x.subrange(0, n) =~= whole.subrange(0, n));
        assert(whole.skip(n) =~= x.skip(n) + rest);
        lemma_repeated_len_grows(a, b, x.skip(n), rest);
        let m = b.len() as int;
        if b.is_prefix_of(x.skip(n)) {
            assert(whole.skip(n).subrange(0, m) =~= x.skip(n).subrange(0, m));
        }
        if b.is_prefix_of(whole.skip(n)) && m <= x.skip(n).len() {
            assert(whole.skip(n).subrange(0, m) =~= x.skip(n).subrange(0, m));
        }
    } else if n > 0 && a.is_prefix_of(x) {
        assert(x.subrange(0, n) =~= whole.subrange(0, n));
    }
}

/// Every match of `(a)+b` that begins in `x`, with `rest` behind it, ends in `x`.
pub open spec fn is_repeated_cut(
    a: Seq<char>,
    b: Seq<char>,
    x: Seq<char>,
    rest: Seq<char>,
) -> bool {
    forall|i: int|
        #![trigger (x + rest).skip(i)]
        0 <= i < x.len() ==> i + replace::repeated_len(a, b, (x + rest).skip(i)) <= x.len()
}

pub(crate) proof fn lemma_repeated_cut(
    a: Seq<char>,
    b: Seq<char>,
    x: Seq<char>,
    rest: Seq<char>,
    block: Seq<char>,
)
    requires
        is_repeated_cut(a, b, x, rest),
    ensures
        replace::replace_repeated(a, b, x + rest, block) == replace::replace_repeated(
            a,
            b,
            x,
            block,
        ) + replace::replace_repeated(a, b, rest, block),
    decreases x.len(),
{
    let whole = x + rest;
    let after = replace::replace_repeated(a, b, rest, block);
    if x.len() == 0 {
        assert(whole =~= rest);
        assert(x + after =~= after);
    } else {
        assert(whole.skip(0) =~= whole);
        let k = replace::repeated_len(a, b, whole);
        lemma_repeated_len_grows(a, b, x, rest);
        let n: int = if k > 0 { k as int } else { 1 };
        let put = if k > 0 { block } else { seq![x[0]] };
        assert(x.skip(n) + rest =~= whole.skip(n));
        assert forall|i: int|
            #![trigger (x.skip(n) + rest).skip(i)]
            0 <= i < x.skip(n).len() implies i + replace::repeated_len(
            a,
            b,
            (x.skip(n) + rest).skip(i),
        ) <= x.skip(n).len() by {
            assert((x.skip(n) + rest).skip(i) =~= whole.skip(n + i));
        }
        lemma_repeated_cut(a, b, x.skip(n), rest, block);
        let before = replace::replace_repeated(a, b, x.skip(n), block);
        assert(put + (before + after) =~= (put + before) + after);
    }
}

/// In a match of `(a)+b` the first character of `a`, where it is nowhere else in `ab`, has an `a`
/// right before it, but for the very first.
proof fn lemma_repeated_head(a: Seq<char>, b: Seq<char>, text: Seq<char>, d: int)
    requires
        a.len() > 0,
        forall|k: int| 1 <= k < a.len() ==> #[trigger] a[k] != a[0],
        forall|k: int| 0 <= k < b.len() ==> #[trigger] b[k] != a[0],
        0 < d < replace::repeated_len(a, b, text),
        d < text.len(),
        text[d] == a[0],
    ensures
        d >= a.len(),
        text.subrange(d - a.len(), d) == a,
    decreases text.len(),
{
    let n = a.len() as int;
    let rest = text.skip(n);
    assert(a.is_prefix_of(text));
    if d < n {
        replace_facts::lemma_prefix_index(a, text, d);
    } else if d > n {
        assert(rest[d - n] == text[d]);
        if replace::repeated_len(a, b, rest) > 0 {
            lemma_repeated_head(a, b, rest, d - n);
            assert(text.subrange(d - n, d) =~= rest.subrange(d - n - n, d - n));
        } else {
            replace_facts::lemma_prefix_index(b, rest, d - n);
        }
    } else if replace::repeated_len(a, b, rest) == 0 {
        replace_facts::lemma_prefix_index(b, rest, 0);
    }
}

/// A match of `(a)+b` has in it only characters of `ab`.
proof fn lemma_repeated_chars(a: Seq<char>, b: Seq<char>, text: Seq<char>, d: int, c: char)
    requires
        forall|k: int| 0 <= k < a.len() ==> #[trigger] a[k] != c,
        forall|k: int| 0 <= k < b.len() ==> #[trigger] b[k] != c,
        0 <= d < replace::repeated_len(a, b, text),
    ensures
        d < text.len(),
        text[d] != c,
    decreases text.len(),
{
    replace::lemma_repeated_len(a, b, text);
    let n = a.len() as int;
    let rest = text.skip(n);
    assert(n > 0 && a.is_prefix_of(text));
    if d < n {
        replace_facts::lemma_prefix_index(a, text, d);
    } else {
        assert(rest[d - n] == text[d]);
        if replace::repeated_len(a, b, rest) > 0 {
            lemma_repeated_chars(a, b, rest, d - n, c);
        } else {
            replace_facts::lemma_prefix_index(b, rest, d - n);
        }
    }
}

/// `n` times `a`.
pub open spec fn run_of(a: Seq<char>, n: nat) -> Seq<char>
    decreases n,
{
    if n == 0 {
        Seq::empty()
    } else {
        a + run_of(a, (n - 1) as nat)
    }
}

/// A run of `a`s with a `b` behind it is a match from end to end.
proof fn lemma_run_is_match(a: Seq<char>, b: Seq<char>, n: nat, y: Seq<char>)
    requires
        n > 0,
        a.len() > 0,
        b.len() > 0,
        forall|k: int| 0 <= k < b.len() ==> #[trigger] b[k] != a[0],
    ensures
        replace::repeated_len(a, b, run_of(a, n) + b + y) == run_of(a, n).len() + b.len(),
    decreases n,
{
    let whole = run_of(a, n) + b + y;
    let rest = run_of(a, (n - 1) as nat) + b + y;
    assert(whole.subrange(0, a.len() as int) =~= a);
    assert(whole.skip(a.len() as int) =~= rest);
    if n > 1 {
        lemma_run_is_match(a, b, (n - 1) as nat, y);
    } else {
        assert(rest =~= b + y);
        assert(rest[0] == b[0]);
        if a.is_prefix_of(rest) {
            replace_facts::lemma_prefix_index(a, rest, 0);
        }
        assert(replace::repeated_len(a, b, rest) == 0);
        assert(rest.subrange(0, b.len() as int) =~= b);
    }
}

/// A run of `a`s that no `a` stands before, with a `b` behind it, is replaced, and the parts before
/// and behind it are dealt with alone.
pub(crate) proof fn lemma_repeated_match(
    a: Seq<char>,
    b: Seq<char>,
    x: Seq<char>,
    n: nat,
    y: Seq<char>,
    block: Seq<char>,
)
    requires
        n > 0,
        a.len() > 0,
        b.len() > 0,
        forall|k: int| 1 <= k < a.len() ==> #[trigger] a[k] != a[0],
        forall|k: int| 0 <= k < b.len() ==> #[trigger] b[k] != a[0],
        !a.is_suffix_of(x),
    ensures
        replace::replace_repeated(a, b, x + run_of(a, n) + b + y, block)
            == replace::replace_repeated(a, b, x, block) + block + replace::replace_repeated(
            a,
            b,
            y,
            block,
        ),
{
    let rest = run_of(a, n) + b + y;
    let whole = x + rest;
    assert(rest[0] == a[0]);
    assert forall|i: int|
        #![trigger (x + rest).skip(i)]
        0 <= i < x.len() implies i + replace::repeated_len(a, b, (x + rest).skip(i)) <= x.len() by {
        let here = whole.skip(i);
        let d = x.len() - i;
        if replace::repeated_len(a, b, here) > d {
            assert(here[d] == rest[0]);
            lemma_repeated_head(a, b, here, d);
            assert(x.subrange(x.len() - a.len(), x.len() as int) =~= here.subrange(
                d - a.len(),
                d,
            ));
        }
    }
    lemma_repeated_cut(a, b, x, rest, block);
    lemma_run_is_match(a, b, n, y);
    let k = run_of(a, n).len() + b.len();
    assert(rest.skip(k as int) =~= y);
    assert(x + run_of(a, n) + b + y =~= whole);
    let before = replace::replace_repeated(a, b, x, block);
    let behind = replace::replace_repeated(a, b, y, block);
    assert(before + (block + behind) =~= before + block + behind);
}

/// Substitution for `(a)+b`, where neither has a line end in it, goes line by line.
pub(crate) proof fn lemma_repeated_lines(
    a: Seq<char>,
    b: Seq<char>,
    x: Seq<char>,
    y: Seq<char>,
    block: Seq<char>,
)
    requires
        a.len() > 0,
        forall|k: int| 0 <= k < a.len() ==> #[trigger] a[k] != '\n',
        forall|k: int| 0 <= k < b.len() ==> #[trigger] b[k] != '\n',
    ensures
        replace::replace_repeated(a, b, x + seq!['\n'] + y, block) == replace::replace_repeated(
            a,
            b,
            x,
            block,
        ) + seq!['\n'] + replace::replace_repeated(a, b, y, block),
{
    let rest = seq!['\n'] + y;
    assert forall|i: int|
        #![trigger (x + rest).skip(i)]
        0 <= i < x.len() implies i + replace::repeated_len(a, b, (x + rest).skip(i)) <= x.len() by {
        let here = (x + rest).skip(i);
        let d = x.len() - i;
        if replace::repeated_len(a, b, here) > d {
            assert(here[d] == '\n');
            lemma_repeated_chars(a, b, here, d, '\n');
        }
    }
    lemma_repeated_cut(a, b, x, rest, block);
    assert(x + seq!['\n'] + y =~= x + rest);
    if replace::repeated_len(a, b, rest) > 0 {
        lemma_repeated_chars(a, b, rest, 0, '\n');
    }
    assert(rest.skip(1) =~= y);
    let before = replace::replace_repeated(a, b, x, block);
    let behind = replace::replace_repeated(a, b, y, block);
    assert(before + (seq!['\n'] + behind) =~= before + seq!['\n'] + behind);
}

/// The first line of a text is the same whatever lines follow.
proof fn lemma_first_line(x: Seq<char>, y: Seq<char>)
    ensures
        replace::line_len(x + seq!['\n'] + y) == replace::line_len(x),
    decreases x.len(),
{
    let whole = x + seq!['\n'] + y;
    if x.len() > 0 && x[0] != '\n' {
        assert(whole.skip(1) =~= x.skip(1) + seq!['\n'] + y);
        lemma_first_line(x.skip(1), y);
    }
}

/// A match in the first line does not depend on what lines follow.
proof fn lemma_first_line_matches(head: Seq<char>, tail: Seq<char>, x: Seq<char>, y: Seq<char>)
    ensures
        replace::line_matches(head, tail, x + seq!['\n'] + y) == replace::line_matches(
            head,
            tail,
            x,
        ),
{
    let whole = x + seq!['\n'] + y;
    let n = replace::line_len(x) as int;
    let h = head.len() as int;
    lemma_first_line(x, y);
    replace::lemma_line_len(x);
    if replace::line_matches(head, tail, x) {
        let j = choose|j: int|
            #![trigger text::occurs_at(tail, x, j)]
            head.len() < j && j + tail.len() < n && text::occurs_at(tail, x, j);
        assert(whole.subrange(j, j + tail.len()) =~= x.subrange(j, j + tail.len()));
        assert(text::occurs_at(tail, whole, j));
        assert(whole.subrange(0, h) =~= x.subrange(0, h));
        assert(head.is_prefix_of(whole));
    }
    if replace::line_matches(head, tail, whole) {
        let j = choose|j: int|
            #![trigger text::occurs_at(tail, whole, j)]
            head.len() < j && j + tail.len() < n && text::occurs_at(tail, whole, j);
        assert(whole.subrange(j, j + tail.len()) =~= x.subrange(j, j + tail.len()));
        assert(text::occurs_at(tail, x, j));
        assert(whole.subrange(0, h) =~= x.subrange(0, h));
        assert(head.is_prefix_of(x));
    }
}

/// Insertion into lines goes line by line.
pub(crate) proof fn lemma_insertion_lines(
    head: Seq<char>,
    tail: Seq<char>,
    block: Seq<char>,
    x: Seq<char>,
    y: Seq<char>,
)
    ensures
        replace::insert_in_lines(head, tail, block, x + seq!['\n'] + y)
            == replace::insert_in_lines(head, tail, block, x) + seq!['\n']
            + replace::insert_in_lines(head, tail, block, y),
    decreases x.len(),
{
    let whole = x + seq!['\n'] + y;
    let behind = replace::insert_in_lines(head, tail, block, y);
    lemma_first_line(x, y);
    lemma_first_line_matches(head, tail, x, y);
    replace::lemma_line_len(x);
    if x.len() == 0 {
        assert(whole =~= seq!['\n'] + y);
        assert(whole.skip(1) =~= y);
        assert(whole[0] == '\n');
        assert(x + seq!['\n'] + behind =~= seq!['\n'] + behind);
    } else {
        let matched = replace::line_len(x) > 0 && replace::line_matches(head, tail, x);
        let n: int = if matched { replace::line_len(x) as int } else { 1 };
        let put = if matched { block + x.take(n) } else { seq![x[0]] };
        assert(whole.skip(n) =~= x.skip(n) + seq!['\n'] + y);
        assert(whole.take(n) =~= x.take(n));
        lemma_insertion_lines(head, tail, block, x.skip(n), y);
        let before = replace::insert_in_lines(head, tail, block, x.skip(n));
        assert(put + (before + seq!['\n'] + behind) =~= (put + before) + seq!['\n'] + behind);
        assert(whole[0] == x[0]);
    }
}

/// A text without a line end is one line.
pub(crate) proof fn lemma_one_line(x: Seq<char>)
    requires
        forall|d: int| 0 <= d < x.len() ==> #[trigger] x[d] != '\n',
    ensures
        replace::line_len(x) == x.len(),
    decreases x.len(),
{
    if x.len() > 0 {
        assert(forall|d: int| 0 <= d < x.skip(1).len() ==> #[trigger] x.skip(1)[d] == x[d + 1]);
        lemma_one_line(x.skip(1));
    }
}

/// In one line, the block goes in front of the first `head` that has a `tail` behind it.
pub(crate) proof fn lemma_insertion_in_line(
    head: Seq<char>,
    tail: Seq<char>,
    block: Seq<char>,
    x: Seq<char>,
    m: Seq<char>,
    z: Seq<char>,
)
    requires
        head.len() > 0,
        m.len() > 0,
        z.len() > 0,
        forall|d: int|
            0 <= d < (x + head + m + tail + z).len() ==> #[trigger] (x + head + m + tail + z)[d]
                != '\n',
        forall|p: int|
            0 <= p < x.len() ==> !#[trigger] text::occurs_at(head, x + head + m + tail + z, p),
    ensures
        replace::insert_in_lines(head, tail, block, x + head + m + tail + z) == x + block + head
            + m + tail + z,
    decreases x.len(),
{
    let line = x + head + m + tail + z;
    lemma_one_line(line);
    if x.len() == 0 {
        let j = (head.len() + m.len()) as int;
        assert(line.subrange(0, head.len() as int) =~= head);
        assert(line.subrange(j, j + tail.len()) =~= tail);
        assert(text::occurs_at(tail, line, j));
        assert(replace::line_matches(head, tail, line));
        let n = line.len() as int;
        assert(line.take(n) =~= line);
        assert(line.skip(n) =~= Seq::<char>::empty());
        assert(replace::insert_in_lines(head, tail, block, line.skip(n)) =~= Seq::<char>::empty());
        assert(block + line + Seq::<char>::empty() =~= x + block + head + m + tail + z);
    } else {
        let rest = x.skip(1) + head + m + tail + z;
        assert(line.skip(1) =~= rest);
        assert(!text::occurs_at(head, line, 0));
        assert forall|p: int| 0 <= p < x.skip(1).len() implies !#[trigger] text::occurs_at(
            head,
            rest,
            p,
        ) by {
            assert(rest.subrange(p, p + head.len()) =~= line.subrange(p + 1, p + 1 + head.len()));
            assert(!text::occurs_at(head, line, p + 1));
        }
        assert forall|d: int| 0 <= d < rest.len() implies #[trigger] rest[d] != '\n' by {
            assert(rest[d] == line[d + 1]);
        }
        lemma_insertion_in_line(head, tail, block, x.skip(1), m, z);
        assert(seq![x[0]] + (x.skip(1) + block + head + m + tail + z) =~= x + block + head + m
            + tail + z);
    }
}

/// `word` stands in `text` where `text` can be written as something, `word`, and something.
pub(crate) proof fn lemma_absent(word: Seq<char>, text: Seq<char>)
    requires
        forall|x: Seq<char>, y: Seq<char>| text != #[trigger] (x + word + y),
    ensures
        !text::occurs(word, text),
{
    if text::occurs(word, text) {
        let i = choose|i: int| text::occurs_at(word, text, i);
        let x = text.take(i);
        let y = text.skip(i + word.len());
        assert(text.subrange(i, i + word.len()) =~= word);
        assert(text =~= x + word + y);
    }
}

/// An outcome without a character of the block has no block in it.
proof fn lemma_no_block(pattern: Seq<char>, text: Seq<char>, block: Seq<char>)
    requires
        block.len() > 0,
        forall|d: int|
            0 <= d < replace::replace_simple(pattern, text, block).len()
                ==> #[trigger] replace::replace_simple(pattern, text, block)[d] != block.last(),
    ensures
        replace::replace_simple(pattern, text, block) == text,
    decreases text.len(),
{
    let out = replace::replace_simple(pattern, text, block);
    if text.len() > 0 {
        if pattern.len() > 0 && replace::simple_matches(pattern, text) {
            assert(out[block.len() - 1] == block.last());
        } else {
            let rest = replace::replace_simple(pattern, text.skip(1), block);
            assert forall|d: int| 0 <= d < rest.len() implies #[trigger] rest[d] != block.last() by {
                assert(out[d + 1] == rest[d]);
            }
            lemma_no_block(pattern, text.skip(1), block);
            assert(seq![text[0]] + text.skip(1) =~= text);
        }
    }
}

/// A word at the end of the outcome that has no part in the block was at the end of the text.
pub(crate) proof fn lemma_simple_suffix(
    word: Seq<char>,
    pattern: Seq<char>,
    text: Seq<char>,
    block: Seq<char>,
)
    requires
        block.len() > 0,
        forall|d: int| 0 <= d < word.len() ==> #[trigger] word[d] != block.last(),
        word.is_suffix_of(replace::replace_simple(pattern, text, block)),
    ensures
        word.is_suffix_of(text),
    decreases text.len(),
{
    let out = replace::replace_simple(pattern, text, block);
    let w = word.len();
    if text.len() > 0 {
        let matched = pattern.len() > 0 && replace::simple_matches(pattern, text);
        let n: int = if matched { pattern.len() as int } else { 1 };
        let put = if matched { block } else { seq![text[0]] };
        let rest = replace::replace_simple(pattern, text.skip(n), block);
        assert(out =~= put + rest);
        if w <= rest.len() {
            assert(rest.subrange(rest.len() - w, rest.len() as int) =~= out.subrange(
                out.len() - w,
                out.len() as int,
            ));
            lemma_simple_suffix(word, pattern, text.skip(n), block);
            assert(text.subrange(text.len() - w, text.len() as int) =~= text.skip(n).subrange(
                text.skip(n).len() - w,
                text.skip(n).len() as int,
            ));
        } else {
            let front = w - rest.len();
            assert forall|d: int| 0 <= d < w implies word[d] == out[out.len() - w + d] by {
                assert(out.subrange(out.len() - w, out.len() as int)[d] == out[out.len() - w + d]);
            }
            assert(word[front - 1] == put.last());
            assert forall|d: int| 0 <= d < rest.len() implies #[trigger] rest[d] != block.last() by {
                assert(rest[d] == word[front + d]);
            }
            lemma_no_block(pattern, text.skip(n), block);
            assert(front == 1);
            assert(text =~= out);
        }
    }
}

/// A word in no part of which a match can begin, whatever follows, is left as it is, and what
/// follows is dealt with alone.
pub(crate) proof fn lemma_simple_passes(
    pattern: Seq<char>,
    word: Seq<char>,
    y: Seq<char>,
    block: Seq<char>,
)
    requires
        pattern.len() > 0,
        replace_facts::no_match_begins_in(pattern, word),
    ensures
        replace::replace_simple(pattern, word + y, block) == word + replace::replace_simple(
            pattern,
            y,
            block,
        ),
{
    assert forall|i: int|
        #![trigger (word + y).skip(i)]
        0 <= i < word.len() && replace::simple_matches(pattern, (word + y).skip(i)) implies i
        + pattern.len() <= word.len() by {}
    lemma_simple_cut(pattern, word, y, block);
    let nothing = Seq::<char>::empty();
    assert(word + nothing =~= word);
    assert forall|i: int| 0 <= i <= word.len() implies !replace::simple_matches(
        pattern,
        #[trigger] word.skip(i),
    ) by {
        if i < word.len() {
            assert((word + nothing).skip(i) =~= word.skip(i));
        }
    }
    replace_facts::lemma_simple_absent(pattern, word, block);
}

} // verus!

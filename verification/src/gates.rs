//! Where an inserted block goes when the text is rewritten once more.

use vstd::prelude::*;

use crate::replace;
use crate::replace_facts;
use crate::rewrite;
use crate::text;

verus! {

/// One step of substitution for a simple pattern.
pub open spec fn simple_step(pattern: Seq<char>, replacement: Seq<char>) -> spec_fn(
    Seq<char>,
) -> (int, Seq<char>) {
    |text: Seq<char>|
        if pattern.len() > 0 && replace::simple_matches(pattern, text) {
            (pattern.len() as int, replacement)
        } else {
            (1int, seq![text[0]])
        }
}

/// One step of insertion into lines.
pub open spec fn lines_step(head: Seq<char>, tail: Seq<char>, block: Seq<char>) -> spec_fn(
    Seq<char>,
) -> (int, Seq<char>) {
    |text: Seq<char>|
        if replace::line_len(text) > 0 && replace::line_matches(head, tail, text) {
            (
                replace::line_len(text) as int,
                block + text.take(replace::line_len(text) as int),
            )
        } else {
            (1int, seq![text[0]])
        }
}

proof fn lemma_simple_step(pattern: Seq<char>, text: Seq<char>, replacement: Seq<char>)
    ensures
        rewrite::is_step(simple_step(pattern, replacement)),
        rewrite::rewritten(simple_step(pattern, replacement), text) == replace::replace_simple(
            pattern,
            text,
            replacement,
        ),
    decreases text.len(),
{
    let step = simple_step(pattern, replacement);
    if text.len() > 0 {
        lemma_simple_step(pattern, text.skip(step(text).0), replacement);
    }
}

proof fn lemma_lines_step(head: Seq<char>, tail: Seq<char>, block: Seq<char>, text: Seq<char>)
    ensures
        rewrite::is_step(lines_step(head, tail, block)),
        rewrite::rewritten(lines_step(head, tail, block), text) == replace::insert_in_lines(
            head,
            tail,
            block,
            text,
        ),
    decreases text.len(),
{
    let step = lines_step(head, tail, block);
    assert forall|t: Seq<char>| t.len() > 0 implies 1 <= (#[trigger] step(t)).0 <= t.len() by {
        replace::lemma_line_len(t);
    }
    if text.len() > 0 {
        replace::lemma_line_len(text);
        lemma_lines_step(head, tail, block, text.skip(step(text).0));
    }
}

/// What the first line of a text is when its beginning, in which no line ends, is left out.
proof fn lemma_line_len_skip(text: Seq<char>, n: int)
    requires
        0 <= n <= text.len(),
        forall|d: int| 0 <= d < n ==> #[trigger] text[d] != '\n',
    ensures
        replace::line_len(text) == n + replace::line_len(text.skip(n)),
    decreases n,
{
    if n == 0 {
        assert(text.skip(0) =~= text);
    } else {
        assert(text.skip(1).skip(n - 1) =~= text.skip(n));
        lemma_line_len_skip(text.skip(1), n - 1);
    }
}

/// A word in which `head` stands, without a line end, that shares nothing with how `block` begins,
/// and whose first character is not in `block`.
pub open spec fn is_bait(word: Seq<char>, head: Seq<char>, block: Seq<char>, o: int) -> bool {
    &&& word.len() > 0
    &&& head.len() > 0
    &&& block.len() > 0
    &&& text::occurs_at(head, word, o)
    &&& forall|d: int| 0 <= d < word.len() ==> #[trigger] word[d] != '\n' && word[d] != block[0]
    &&& forall|d: int| 0 <= d < block.len() ==> #[trigger] block[d] != word[0]
}

/// A word that stands in the outcome from where one character is kept was kept throughout.
proof fn lemma_word_was_kept(
    head: Seq<char>,
    tail: Seq<char>,
    block: Seq<char>,
    text: Seq<char>,
    word: Seq<char>,
    m: int,
    len: int,
)
    requires
        block.len() > 0,
        forall|d: int| 0 <= d < word.len() ==> #[trigger] word[d] != block[0],
        rewrite::is_reached(lines_step(head, tail, block), text, m),
        text::occurs_at(
            word,
            replace::insert_in_lines(head, tail, block, text),
            rewrite::image(lines_step(head, tail, block), text, m),
        ),
        0 <= len <= word.len(),
    ensures
        m + len <= text.len(),
        forall|x: int|
            m <= x < m + len ==> rewrite::keeps_one(
                lines_step(head, tail, block),
                #[trigger] text.skip(x),
            ),
    decreases len,
{
    let step = lines_step(head, tail, block);
    let out = replace::insert_in_lines(head, tail, block, text);
    let q = rewrite::image(step, text, m);
    lemma_lines_step(head, tail, block, text);
    rewrite::lemma_reached(step, text, m);
    if len > 0 {
        lemma_word_was_kept(head, tail, block, text, word, m, len - 1);
        rewrite::lemma_run(step, text, m, len - 1);
        let x = m + len - 1;
        let y = q + len - 1;
        rewrite::lemma_reached(step, text, x);
        lemma_lines_step(head, tail, block, text.skip(x));
        replace_facts::lemma_occurs_at_index(word, out, q, len - 1);
        assert(out.skip(y)[0] == out[y]);
        assert(out.skip(y) == rewrite::rewritten(step, text.skip(x)));
        if x < text.len() {
            let here = text.skip(x);
            if replace::line_len(here) > 0 && replace::line_matches(head, tail, here) {
                assert(step(here).1[0] == block[0]);
                assert(false);
            }
            assert(rewrite::keeps_one(step, here));
        }
    }
}

/// A block is not inserted right behind a bait: it would have been inserted in it.
#[verifier::spinoff_prover]
proof fn lemma_no_bait_before(
    head: Seq<char>,
    tail: Seq<char>,
    block: Seq<char>,
    text: Seq<char>,
    word: Seq<char>,
    o: int,
    p: int,
)
    requires
        is_bait(word, head, block, o),
        rewrite::is_reached(lines_step(head, tail, block), text, p),
        p < text.len(),
        replace::line_len(text.skip(p)) > 0,
        replace::line_matches(head, tail, text.skip(p)),
    ensures
        !text::occurs_at(
            word,
            replace::insert_in_lines(head, tail, block, text),
            rewrite::image(lines_step(head, tail, block), text, p) - word.len(),
        ),
{
    let step = lines_step(head, tail, block);
    let out = replace::insert_in_lines(head, tail, block, text);
    let k = rewrite::image(step, text, p);
    let q = k - word.len();
    lemma_lines_step(head, tail, block, text);
    rewrite::lemma_reached(step, text, p);
    if text::occurs_at(word, out, q) {
        let m = rewrite::lemma_origin(step, text, q);
        let here = text.skip(m);
        if m > p {
            rewrite::lemma_order(step, text, p, m);
        }
        assert(m < p);
        rewrite::lemma_reached(step, text, m);
        rewrite::lemma_next(step, text, m);
        rewrite::lemma_order(step, text, m, p);
        lemma_lines_step(head, tail, block, here);
        replace_facts::lemma_occurs_at_index(word, out, q, 0);
        let at = rewrite::image(step, text, m);
        assert(out.skip(at) == rewrite::rewritten(step, here));
        assert(out.skip(at)[q - at] == out[q]);
        if replace::line_len(here) > 0 && replace::line_matches(head, tail, here) {
            let n = replace::line_len(here) as int;
            replace::lemma_line_len(here);
            if q - at < block.len() {
                assert(step(here).1[q - at] == block[q - at]);
                assert(false);
            }
            let z = m + n;
            assert(here[n] == text[z]);
            replace_facts::lemma_prefix_index(head, text.skip(p), 0);
            replace_facts::lemma_occurs_at_index(head, word, o, 0);
            if p == z {
                assert(text.skip(p)[0] == '\n');
                assert(false);
            }
            lemma_lines_step(head, tail, block, text.skip(z));
            rewrite::lemma_reached(step, text, z);
            rewrite::lemma_order(step, text, z, p);
            let y = rewrite::image(step, text, z);
            assert(text.skip(z)[0] == '\n');
            assert(replace::line_len(text.skip(z)) == 0);
            assert(out.skip(y)[0] == '\n');
            assert(out[y] == '\n');
            replace_facts::lemma_occurs_at_index(word, out, q, y - q);
        } else {
            assert(at == q);
            lemma_word_was_kept(head, tail, block, text, word, m, word.len() as int);
            rewrite::lemma_run(step, text, m, word.len() as int);
            let end = m + word.len();
            if p < end {
                rewrite::lemma_order(step, text, p, end);
            } else if end < p {
                rewrite::lemma_order(step, text, end, p);
                lemma_put_something(head, tail, block, text.skip(end));
            }
            if p < end {
                lemma_put_something(head, tail, block, text.skip(p));
            }
            assert(p == end);
            assert forall|d: int| 0 <= d < word.len() implies text[m + d] == word[d] by {
                assert(out[q + d] == text[m + d]);
                replace_facts::lemma_occurs_at_index(word, out, q, d);
            }
            lemma_bait_is_taken(head, tail, text, word, m, o);
            assert(rewrite::keeps_one(step, text.skip(m + o)));
            assert(step(text.skip(m + o)).1.len() == 1);
            assert(step(text.skip(m + o)).1.len() >= block.len() + 1);
        }
    }
}

proof fn lemma_put_something(head: Seq<char>, tail: Seq<char>, block: Seq<char>, text: Seq<char>)
    requires
        text.len() > 0,
    ensures
        lines_step(head, tail, block)(text).1.len() >= 1,
{
    replace::lemma_line_len(text);
}

/// A match right behind a word in which `head` stands makes a match of that `head` too.
proof fn lemma_bait_is_taken(
    head: Seq<char>,
    tail: Seq<char>,
    text: Seq<char>,
    word: Seq<char>,
    m: int,
    o: int,
)
    requires
        0 <= m,
        m + word.len() <= text.len(),
        head.len() > 0,
        text::occurs_at(head, word, o),
        forall|d: int| 0 <= d < word.len() ==> #[trigger] word[d] != '\n',
        forall|d: int| 0 <= d < word.len() ==> text[m + d] == #[trigger] word[d],
        replace::line_matches(head, tail, text.skip(m + word.len())),
    ensures
        replace::line_len(text.skip(m + o)) > 0,
        replace::line_matches(head, tail, text.skip(m + o)),
{
    let here = text.skip(m + o);
    let c = word.len() - o;
    let there = text.skip(m + word.len());
    assert(here.skip(c) =~= there);
    assert forall|d: int| 0 <= d < c implies #[trigger] here[d] != '\n' by {
        assert(word[o + d] != '\n');
        assert(text[m + (o + d)] == word[o + d]);
    }
    lemma_line_len_skip(here, c);
    assert forall|d: int| 0 <= d < head.len() implies here[d] == head[d] by {
        replace_facts::lemma_occurs_at_index(head, word, o, d);
        assert(text[m + (o + d)] == word[o + d]);
    }
    assert(here.subrange(0, head.len() as int) =~= head);
    let j = choose|j: int|
        #![trigger text::occurs_at(tail, there, j)]
        head.len() < j && j + tail.len() < replace::line_len(there) && text::occurs_at(
            tail,
            there,
            j,
        );
    assert(here.take(c) + there =~= here);
    replace_facts::lemma_occurs_at_unshift(tail, here.take(c), there, j);
    assert(text::occurs_at(tail, here, j + c));
}

/// In front of position `i`, in its line, a `block` stands, and no `word` right before the block.
pub open spec fn is_soundly_under(
    block: Seq<char>,
    word: Seq<char>,
    text: Seq<char>,
    i: int,
) -> bool {
    exists|k: int|
        #![trigger text::occurs_at(block, text, k)]
        text::occurs_at(block, text, k) && k + block.len() <= i && (forall|d: int|
            k + block.len() <= d < i ==> #[trigger] text[d] != '\n') && !text::occurs_at(
            word,
            text,
            k - word.len(),
        )
}

/// After the insertion, a match of `head(.+)tail(.+)` has the inserted block in front of it or of
/// another match before it in its line, and the block does not follow on a bait.
pub(crate) proof fn lemma_lines_under_block(
    head: Seq<char>,
    tail: Seq<char>,
    block: Seq<char>,
    text: Seq<char>,
    word: Seq<char>,
    o: int,
    i: int,
)
    requires
        replace_facts::is_separate_block(head, tail, block),
        is_bait(word, head, block, o),
        0 <= i <= replace::insert_in_lines(head, tail, block, text).len(),
        replace::line_matches(
            head,
            tail,
            replace::insert_in_lines(head, tail, block, text).skip(i),
        ),
    ensures
        is_soundly_under(block, word, replace::insert_in_lines(head, tail, block, text), i),
{
    let step = lines_step(head, tail, block);
    let out = replace::insert_in_lines(head, tail, block, text);
    lemma_lines_step(head, tail, block, text);
    replace_facts::lemma_prefix_index(head, out.skip(i), 0);
    let j = rewrite::lemma_origin(step, text, i);
    let here = text.skip(j);
    let k = rewrite::image(step, text, j);
    rewrite::lemma_reached(step, text, j);
    lemma_lines_step(head, tail, block, here);
    if replace::line_len(here) > 0 && replace::line_matches(head, tail, here) {
        let n = replace::line_len(here) as int;
        replace::lemma_line_len(here);
        replace_facts::lemma_line_end(here);
        let rest = here.take(n) + replace::insert_in_lines(head, tail, block, here.skip(n));
        assert(out.skip(k) =~= block + rest);
        assert(out.skip(k).skip(i - k) =~= out.skip(i));
        if i - k < block.len() {
            assert((block + rest).subrange(i - k, i - k + head.len()) =~= out.skip(i).subrange(
                0,
                head.len() as int,
            ));
            assert(text::occurs_at(head, block + rest, i - k));
            replace_facts::lemma_no_begin(head, block, rest, i - k);
        }
        assert(out.subrange(k, k + block.len()) =~= (block + rest).subrange(
            0,
            block.len() as int,
        ));
        assert((block + rest).subrange(0, block.len() as int) =~= block);
        assert(text::occurs_at(block, out, k));
        assert forall|d: int| k + block.len() <= d < i implies #[trigger] out[d] != '\n' by {
            assert(out.skip(k)[d - k] == out[d]);
            assert(out[d] == here[d - k - block.len()]);
        }
        lemma_no_bait_before(head, tail, block, text, word, o, j);
    } else {
        assert(out.skip(i) == replace::insert_in_lines(head, tail, block, here));
        replace_facts::lemma_lines_no_new_match(head, tail, block, here);
    }
}

/// What makes `block`, in the place of a match of `pattern`, keep lines apart: the pattern ends in
/// its only dot, the first line of `block` is no longer than the pattern, and `head(.+)tail(.+)`
/// has no part in it.
pub open spec fn is_mark(
    head: Seq<char>,
    tail: Seq<char>,
    pattern: Seq<char>,
    block: Seq<char>,
) -> bool {
    &&& head.len() > 0
    &&& tail.len() > 0
    &&& 1 < pattern.len() < block.len()
    &&& pattern.last() == '.'
    &&& forall|d: int|
        0 <= d < pattern.len() - 1 ==> #[trigger] pattern[d] != '.' && pattern[d] != '\n'
    &&& block[pattern.len() as int] == '\n'
    &&& replace_facts::no_line_match_begins_in(head, tail, block)
    &&& replace_facts::cannot_begin_in(tail, block)
    &&& replace_facts::cannot_end_in(head, pattern, block)
    &&& replace_facts::cannot_end_in(tail, pattern, block)
}

/// Up to the end of a word that stands in the first line after the substitution, nothing has
/// changed.
proof fn lemma_simple_first_line(
    head: Seq<char>,
    tail: Seq<char>,
    pattern: Seq<char>,
    text: Seq<char>,
    block: Seq<char>,
    j: int,
)
    requires
        is_mark(head, tail, pattern, block),
        text::occurs_at(tail, replace::replace_simple(pattern, text, block), j),
        j + tail.len() <= replace::line_len(replace::replace_simple(pattern, text, block)),
    ensures
        text::occurs_at(tail, text, j),
    decreases text.len(),
{
    let out = replace::replace_simple(pattern, text, block);
    if text.len() == 0 {
    } else if replace::simple_matches(pattern, text) {
        let rest = replace::replace_simple(pattern, text.skip(pattern.len() as int), block);
        replace_facts::lemma_no_begin(tail, block, rest, j);
        replace_facts::lemma_line_end(out);
        assert(out[pattern.len() as int] == '\n');
    } else {
        let rest = replace::replace_simple(pattern, text.skip(1), block);
        assert(seq![text[0]] + text.skip(1) =~= text);
        if j == 0 {
            assert(tail.is_prefix_of(out));
            replace_facts::lemma_simple_front(tail, pattern, text, block);
        } else {
            replace_facts::lemma_occurs_at_shift(tail, seq![text[0]], rest, j);
            assert(out.skip(1) =~= rest);
            lemma_simple_first_line(head, tail, pattern, text.skip(1), block, j - 1);
            replace_facts::lemma_occurs_at_unshift(tail, seq![text[0]], text.skip(1), j - 1);
        }
    }
}

/// The substitution makes no first line longer.
proof fn lemma_simple_line_len(
    head: Seq<char>,
    tail: Seq<char>,
    pattern: Seq<char>,
    text: Seq<char>,
    block: Seq<char>,
)
    requires
        is_mark(head, tail, pattern, block),
    ensures
        replace::line_len(replace::replace_simple(pattern, text, block)) <= replace::line_len(text),
    decreases text.len(),
{
    let out = replace::replace_simple(pattern, text, block);
    if text.len() == 0 {
    } else if replace::simple_matches(pattern, text) {
        let n = pattern.len() as int;
        replace_facts::lemma_line_end(out);
        assert(out[n] == '\n');
        assert forall|d: int| 0 <= d < n implies #[trigger] text[d] != '\n' by {
            assert(replace::char_matches(pattern[d], text[d]));
        }
        lemma_line_len_skip(text, n);
    } else {
        assert(out.skip(1) =~= replace::replace_simple(pattern, text.skip(1), block));
        lemma_simple_line_len(head, tail, pattern, text.skip(1), block);
    }
}

/// Where nothing is replaced at the front, a match of `head(.+)tail(.+)` that begins there
/// afterwards began there before.
proof fn lemma_simple_no_new_match(
    head: Seq<char>,
    tail: Seq<char>,
    pattern: Seq<char>,
    text: Seq<char>,
    block: Seq<char>,
)
    requires
        is_mark(head, tail, pattern, block),
        text.len() > 0,
        !replace::simple_matches(pattern, text),
        replace::line_matches(head, tail, replace::replace_simple(pattern, text, block)),
    ensures
        replace::line_matches(head, tail, text),
{
    let out = replace::replace_simple(pattern, text, block);
    replace_facts::lemma_simple_front(head, pattern, text, block);
    let j = choose|j: int|
        #![trigger text::occurs_at(tail, out, j)]
        head.len() < j && j + tail.len() < replace::line_len(out) && text::occurs_at(tail, out, j);
    lemma_simple_first_line(head, tail, pattern, text, block, j);
    lemma_simple_line_len(head, tail, pattern, text, block);
}

/// A match of `pattern` at position `m` is replaced.
spec fn is_replaced(pattern: Seq<char>, block: Seq<char>, text: Seq<char>, m: int) -> bool {
    rewrite::is_reached(simple_step(pattern, block), text, m) && replace::simple_matches(
        pattern,
        text.skip(m),
    )
}

/// The last match from `e` on and before `j` that is replaced; a position before `e` if there is
/// none.
proof fn lemma_last_replaced(
    pattern: Seq<char>,
    block: Seq<char>,
    text: Seq<char>,
    e: int,
    j: int,
) -> (m: int)
    requires
        e <= j,
    ensures
        m < j,
        e <= m ==> is_replaced(pattern, block, text, m),
        forall|x: int| e <= x && m < x < j ==> !#[trigger] is_replaced(pattern, block, text, x),
    decreases j - e,
{
    if e == j {
        e - 1
    } else if is_replaced(pattern, block, text, j - 1) {
        j - 1
    } else {
        lemma_last_replaced(pattern, block, text, e, j - 1)
    }
}

/// Between two positions that are reached, and with nothing replaced between them, every character
/// is kept.
proof fn lemma_kept_between(
    pattern: Seq<char>,
    block: Seq<char>,
    text: Seq<char>,
    z: int,
    j: int,
)
    requires
        pattern.len() > 0,
        rewrite::is_reached(simple_step(pattern, block), text, z),
        0 <= z <= j <= text.len(),
        forall|x: int| z <= x < j ==> !#[trigger] is_replaced(pattern, block, text, x),
    ensures
        forall|x: int|
            z <= x < j ==> rewrite::keeps_one(
                simple_step(pattern, block),
                #[trigger] text.skip(x),
            ),
    decreases j - z,
{
    if z < j {
        let step = simple_step(pattern, block);
        lemma_simple_step(pattern, text, block);
        assert(!is_replaced(pattern, block, text, z));
        assert(rewrite::keeps_one(step, text.skip(z)));
        rewrite::lemma_next(step, text, z);
        lemma_kept_between(pattern, block, text, z + 1, j);
    }
}

/// What is kept between two positions stands in the outcome as it stood in the text.
proof fn lemma_stands_as_before(
    pattern: Seq<char>,
    block: Seq<char>,
    text: Seq<char>,
    z: int,
    j: int,
)
    requires
        pattern.len() > 0,
        rewrite::is_reached(simple_step(pattern, block), text, z),
        0 <= z <= j <= text.len(),
        forall|x: int| z <= x < j ==> !#[trigger] is_replaced(pattern, block, text, x),
    ensures
        rewrite::image(simple_step(pattern, block), text, z) >= 0,
        rewrite::image(simple_step(pattern, block), text, j) == rewrite::image(
            simple_step(pattern, block),
            text,
            z,
        ) + (j - z),
        rewrite::image(simple_step(pattern, block), text, j) <= replace::replace_simple(
            pattern,
            text,
            block,
        ).len(),
        forall|d: int|
            0 <= d < j - z ==> #[trigger] replace::replace_simple(
                pattern,
                text,
                block,
            )[rewrite::image(simple_step(pattern, block), text, z) + d] == text[z + d],
{
    let step = simple_step(pattern, block);
    lemma_simple_step(pattern, text, block);
    lemma_kept_between(pattern, block, text, z, j);
    rewrite::lemma_reached(step, text, z);
    rewrite::lemma_run(step, text, z, j - z);
}

/// A match that would take in the beginning of `gate` from before it ends right there, with the
/// word that the pattern spells out before its dot in front of `gate`.
proof fn lemma_gate_is_reached(
    head: Seq<char>,
    tail: Seq<char>,
    gate: Seq<char>,
    pattern: Seq<char>,
    block: Seq<char>,
    text: Seq<char>,
    k: int,
)
    requires
        is_mark(head, tail, pattern, block),
        gate.len() > 0,
        text::occurs_at(gate, text, k),
        !text::occurs_at(pattern.drop_last(), text, k - pattern.drop_last().len()),
        forall|d: int| 0 <= d < pattern.len() - 1 ==> #[trigger] pattern[d] != gate[0],
    ensures
        rewrite::is_reached(simple_step(pattern, block), text, k),
{
    let step = simple_step(pattern, block);
    let word = pattern.drop_last();
    lemma_simple_step(pattern, text, block);
    if !rewrite::is_reached(step, text, k) {
        let m = rewrite::lemma_cover(step, text, k);
        let here = text.skip(m);
        assert(replace::simple_matches(pattern, here));
        replace_facts::lemma_occurs_at_index(gate, text, k, 0);
        assert(here[k - m] == gate[0]);
        assert(replace::char_matches(pattern[k - m], here[k - m]));
        assert(k - m == word.len());
        assert forall|d: int| 0 <= d < word.len() implies text[m + d] == word[d] by {
            assert(replace::char_matches(pattern[d], here[d]));
        }
        assert(text.subrange(m, m + word.len()) =~= word);
    }
}

/// After a substitution in a text in which every match of `head(.+)tail(.+)` has a `gate` in front
/// of it in its line, every match has one still, or a `block` in the place of a match of `pattern`.
#[verifier::spinoff_prover]
pub(crate) proof fn lemma_under_gate_or_block(
    head: Seq<char>,
    tail: Seq<char>,
    gate: Seq<char>,
    pattern: Seq<char>,
    block: Seq<char>,
    text: Seq<char>,
    i: int,
)
    requires
        is_mark(head, tail, pattern, block),
        gate.len() > 0,
        forall|d: int| 0 <= d < pattern.len() - 1 ==> #[trigger] pattern[d] != gate[0],
        forall|d: int| 0 <= d < gate.len() ==> #[trigger] gate[d] != pattern[0],
        forall|j: int|
            0 <= j <= text.len() && replace::line_matches(head, tail, #[trigger] text.skip(j))
                ==> is_soundly_under(gate, pattern.drop_last(), text, j),
        0 <= i <= replace::replace_simple(pattern, text, block).len(),
        replace::line_matches(head, tail, replace::replace_simple(pattern, text, block).skip(i)),
    ensures
        replace::is_under_block(gate, replace::replace_simple(pattern, text, block), i)
            || replace::is_under_block(block, replace::replace_simple(pattern, text, block), i),
{
    let step = simple_step(pattern, block);
    let out = replace::replace_simple(pattern, text, block);
    lemma_simple_step(pattern, text, block);
    replace_facts::lemma_prefix_index(head, out.skip(i), 0);
    let j = rewrite::lemma_origin(step, text, i);
    let here = text.skip(j);
    let at = rewrite::image(step, text, j);
    rewrite::lemma_reached(step, text, j);
    lemma_simple_step(pattern, here, block);
    if replace::simple_matches(pattern, here) {
        let rest = replace::replace_simple(pattern, here.skip(pattern.len() as int), block);
        assert(out.skip(at) =~= block + rest);
        assert((block + rest).skip(i - at) =~= out.skip(i));
        assert(!replace::line_matches(head, tail, (block + rest).skip(i - at)));
    } else {
        assert(at == i);
        lemma_simple_no_new_match(head, tail, pattern, here, block);
        let word = pattern.drop_last();
        assert(is_soundly_under(gate, word, text, j));
        let k = choose|k: int|
            #![trigger text::occurs_at(gate, text, k)]
            text::occurs_at(gate, text, k) && k + gate.len() <= j && (forall|d: int|
                k + gate.len() <= d < j ==> #[trigger] text[d] != '\n') && !text::occurs_at(
                word,
                text,
                k - word.len(),
            );
        let e = k + gate.len();
        let m = lemma_last_replaced(pattern, block, text, e, j);
        if e <= m {
            lemma_under_replaced(pattern, block, text, m, j, e);
        } else {
            lemma_gate_is_reached(head, tail, gate, pattern, block, text, k);
            assert forall|x: int| k <= x < j implies !#[trigger] is_replaced(
                pattern,
                block,
                text,
                x,
            ) by {
                if x < e && replace::simple_matches(pattern, text.skip(x)) {
                    replace_facts::lemma_occurs_at_index(gate, text, k, x - k);
                    assert(replace::char_matches(pattern[0], text.skip(x)[0]));
                    assert(pattern[0] != '.');
                }
            }
            lemma_stands_as_before(pattern, block, text, k, j);
            let y = rewrite::image(step, text, k);
            assert forall|d: int| 0 <= d < gate.len() implies out[y + d] == gate[d] by {
                assert(out[y + d] == text[k + d]);
                replace_facts::lemma_occurs_at_index(gate, text, k, d);
            }
            assert(out.subrange(y, y + gate.len()) =~= gate);
            assert(text::occurs_at(gate, out, y));
            assert forall|d: int| y + gate.len() <= d < i implies #[trigger] out[d] != '\n' by {
                assert(out[y + (d - y)] == text[k + (d - y)]);
            }
        }
    }
}

/// A position behind a match that is replaced, with no other in between and no line end, is under
/// what the match is replaced by.
proof fn lemma_under_replaced(
    pattern: Seq<char>,
    block: Seq<char>,
    text: Seq<char>,
    m: int,
    j: int,
    e: int,
)
    requires
        pattern.len() > 0,
        is_replaced(pattern, block, text, m),
        0 <= e <= m < j < text.len(),
        rewrite::is_reached(simple_step(pattern, block), text, j),
        forall|x: int| m < x < j ==> !#[trigger] is_replaced(pattern, block, text, x),
        forall|d: int| e <= d < j ==> #[trigger] text[d] != '\n',
    ensures
        replace::is_under_block(
            block,
            replace::replace_simple(pattern, text, block),
            rewrite::image(simple_step(pattern, block), text, j),
        ),
{
    let step = simple_step(pattern, block);
    let out = replace::replace_simple(pattern, text, block);
    let y = rewrite::image(step, text, m);
    let z = m + pattern.len();
    lemma_simple_step(pattern, text, block);
    rewrite::lemma_reached(step, text, m);
    rewrite::lemma_next(step, text, m);
    rewrite::lemma_order(step, text, m, j);
    lemma_simple_step(pattern, text.skip(m), block);
    lemma_stands_as_before(pattern, block, text, z, j);
    assert(out.skip(y) == rewrite::rewritten(step, text.skip(m)));
    assert forall|d: int| 0 <= d < block.len() implies out[y + d] == block[d] by {
        assert(out.skip(y)[d] == out[y + d]);
    }
    assert(out.subrange(y, y + block.len()) =~= block);
    assert(text::occurs_at(block, out, y));
    let i = rewrite::image(step, text, j);
    let past = y + block.len();
    assert forall|d: int| past <= d < i implies #[trigger] out[d] != '\n' by {
        assert(out[past + (d - past)] == text[z + (d - past)]);
    }
}

/// Two blocks whose last lines begin differently are not both the last before a position.
pub(crate) proof fn lemma_not_under_both(
    a: Seq<char>,
    b: Seq<char>,
    text: Seq<char>,
    i: int,
    p: int,
    q: int,
)
    requires
        i <= text.len(),
        0 <= p < a.len() - 1,
        0 <= q < b.len() - 1,
        a[p] == '\n',
        b[q] == '\n',
        a[p + 1] != b[q + 1],
        forall|d: int| p < d < a.len() ==> #[trigger] a[d] != '\n',
        forall|d: int| q < d < b.len() ==> #[trigger] b[d] != '\n',
    ensures
        !(replace::is_under_block(a, text, i) && replace::is_under_block(b, text, i)),
{
    if replace::is_under_block(a, text, i) && replace::is_under_block(b, text, i) {
        let k = lemma_last_line_end(a, text, i, p);
        let l = lemma_last_line_end(b, text, i, q);
        assert(k + p == l + q);
        replace_facts::lemma_occurs_at_index(a, text, k, p + 1);
        replace_facts::lemma_occurs_at_index(b, text, l, q + 1);
    }
}

/// The last line end before a position that is under a block is the last of the block.
proof fn lemma_last_line_end(block: Seq<char>, text: Seq<char>, i: int, p: int) -> (k: int)
    requires
        i <= text.len(),
        0 <= p < block.len(),
        block[p] == '\n',
        forall|d: int| p < d < block.len() ==> #[trigger] block[d] != '\n',
        replace::is_under_block(block, text, i),
    ensures
        text::occurs_at(block, text, k),
        k + block.len() <= i,
        text[k + p] == '\n',
        forall|d: int| k + p < d < i ==> #[trigger] text[d] != '\n',
{
    let k = choose|k: int|
        #![trigger text::occurs_at(block, text, k)]
        text::occurs_at(block, text, k) && k + block.len() <= i && forall|d: int|
            k + block.len() <= d < i ==> #[trigger] text[d] != '\n';
    replace_facts::lemma_occurs_at_index(block, text, k, p);
    assert forall|d: int| k + p < d < i implies #[trigger] text[d] != '\n' by {
        if d < k + block.len() {
            replace_facts::lemma_occurs_at_index(block, text, k, d - k);
        }
    }
    k
}

} // verus!

//! Rewriting a text from left to right, and where in the outcome each part of the text went.

use vstd::prelude::*;

verus! {

/// Every step takes a part of what is left of the text.
pub open spec fn is_step(step: spec_fn(Seq<char>) -> (int, Seq<char>)) -> bool {
    forall|text: Seq<char>| text.len() > 0 ==> 1 <= (#[trigger] step(text)).0 <= text.len()
}

/// What becomes of `text`: step by step, a part of it is taken, and something put there.
pub open spec fn rewritten(
    step: spec_fn(Seq<char>) -> (int, Seq<char>),
    text: Seq<char>,
) -> Seq<char>
    decreases text.len(),
{
    let (n, put) = step(text);
    if text.len() > 0 && 1 <= n <= text.len() {
        put + rewritten(step, text.skip(n))
    } else {
        text
    }
}

/// A step begins, or the last one ends, at position `j`.
pub open spec fn is_reached(
    step: spec_fn(Seq<char>) -> (int, Seq<char>),
    text: Seq<char>,
    j: int,
) -> bool
    decreases text.len(),
{
    let n = step(text).0;
    if j <= 0 || text.len() == 0 || n < 1 || n > text.len() {
        j == 0
    } else {
        j >= n && is_reached(step, text.skip(n), j - n)
    }
}

/// Where in the outcome the steps before position `j` end.
pub open spec fn image(
    step: spec_fn(Seq<char>) -> (int, Seq<char>),
    text: Seq<char>,
    j: int,
) -> int
    decreases text.len(),
{
    let (n, put) = step(text);
    if j <= 0 || text.len() == 0 || n < 1 || n > text.len() {
        0
    } else {
        put.len() + image(step, text.skip(n), j - n)
    }
}

/// From a position that a step begins at, the outcome is what becomes of the rest.
pub proof fn lemma_reached(
    step: spec_fn(Seq<char>) -> (int, Seq<char>),
    text: Seq<char>,
    j: int,
)
    requires
        is_step(step),
        is_reached(step, text, j),
    ensures
        0 <= j <= text.len(),
        0 <= image(step, text, j) <= rewritten(step, text).len(),
        rewritten(step, text).skip(image(step, text, j)) == rewritten(step, text.skip(j)),
    decreases text.len(),
{
    if j <= 0 || text.len() == 0 {
        assert(text.skip(0) =~= text);
        assert(rewritten(step, text).skip(0) =~= rewritten(step, text));
    } else {
        let (n, put) = step(text);
        lemma_reached(step, text.skip(n), j - n);
        let rest = rewritten(step, text.skip(n));
        let k = image(step, text.skip(n), j - n);
        assert((put + rest).skip(put.len() + k) =~= rest.skip(k));
        assert(text.skip(n).skip(j - n) =~= text.skip(j));
    }
}

/// Where a step ends the next one begins.
pub proof fn lemma_next(step: spec_fn(Seq<char>) -> (int, Seq<char>), text: Seq<char>, j: int)
    requires
        is_step(step),
        is_reached(step, text, j),
        j < text.len(),
    ensures
        is_reached(step, text, j + step(text.skip(j)).0),
        image(step, text, j + step(text.skip(j)).0) == image(step, text, j) + step(
            text.skip(j),
        ).1.len(),
    decreases text.len(),
{
    let (n, put) = step(text);
    if j <= 0 {
        assert(text.skip(0) =~= text);
        assert(is_reached(step, text.skip(n), 0));
        assert(image(step, text.skip(n), 0) == 0);
    } else {
        lemma_next(step, text.skip(n), j - n);
        assert(text.skip(n).skip(j - n) =~= text.skip(j));
        assert(step(text.skip(j)).0 >= 1);
    }
}

/// A position that no step begins at lies within what a step takes.
pub proof fn lemma_cover(
    step: spec_fn(Seq<char>) -> (int, Seq<char>),
    text: Seq<char>,
    x: int,
) -> (m: int)
    requires
        is_step(step),
        0 <= x <= text.len(),
        !is_reached(step, text, x),
    ensures
        0 <= m < x,
        is_reached(step, text, m),
        x < m + step(text.skip(m)).0,
    decreases text.len(),
{
    let n = step(text).0;
    if x < n {
        assert(text.skip(0) =~= text);
        0
    } else {
        let m = lemma_cover(step, text.skip(n), x - n);
        assert(text.skip(n).skip(m) =~= text.skip(n + m));
        n + m
    }
}

/// Steps do not overlap, neither in the text nor in the outcome.
pub proof fn lemma_order(
    step: spec_fn(Seq<char>) -> (int, Seq<char>),
    text: Seq<char>,
    p: int,
    q: int,
)
    requires
        is_step(step),
        is_reached(step, text, p),
        is_reached(step, text, q),
        p < q,
    ensures
        q >= p + step(text.skip(p)).0,
        image(step, text, q) >= image(step, text, p) + step(text.skip(p)).1.len(),
    decreases text.len(),
{
    lemma_reached(step, text, p);
    lemma_reached(step, text, q);
    let n = step(text).0;
    if p <= 0 {
        assert(text.skip(0) =~= text);
        lemma_reached(step, text.skip(n), q - n);
    } else {
        lemma_order(step, text.skip(n), p - n, q - n);
        assert(text.skip(n).skip(p - n) =~= text.skip(p));
    }
}

/// Everything in the outcome was put there by a step.
pub proof fn lemma_origin(
    step: spec_fn(Seq<char>) -> (int, Seq<char>),
    text: Seq<char>,
    i: int,
) -> (j: int)
    requires
        is_step(step),
        0 <= i < rewritten(step, text).len(),
    ensures
        0 <= j < text.len(),
        is_reached(step, text, j),
        image(step, text, j) <= i < image(step, text, j) + step(text.skip(j)).1.len(),
    decreases text.len(),
{
    if text.len() == 0 {
        assert(false);
        0
    } else {
        let (n, put) = step(text);
        if i < put.len() {
            assert(text.skip(0) =~= text);
            0
        } else {
            let j = lemma_origin(step, text.skip(n), i - put.len());
            assert(text.skip(n).skip(j) =~= text.skip(n + j));
            n + j
        }
    }
}

/// The step at `text` keeps one character.
pub open spec fn keeps_one(
    step: spec_fn(Seq<char>) -> (int, Seq<char>),
    text: Seq<char>,
) -> bool {
    text.len() > 0 && step(text) == (1int, seq![text[0]])
}

/// A part of the text in which each step keeps one character stands in the outcome.
pub proof fn lemma_run(
    step: spec_fn(Seq<char>) -> (int, Seq<char>),
    text: Seq<char>,
    j: int,
    len: int,
)
    requires
        is_step(step),
        is_reached(step, text, j),
        0 <= len,
        j + len <= text.len(),
        forall|x: int| j <= x < j + len ==> keeps_one(step, #[trigger] text.skip(x)),
    ensures
        is_reached(step, text, j + len),
        image(step, text, j + len) == image(step, text, j) + len,
        image(step, text, j) + len <= rewritten(step, text).len(),
        forall|d: int|
            0 <= d < len ==> #[trigger] rewritten(step, text)[image(step, text, j) + d] == text[j
                + d],
    decreases len,
{
    let out = rewritten(step, text);
    let k = image(step, text, j);
    lemma_reached(step, text, j);
    if len > 0 {
        lemma_next(step, text, j);
        assert(keeps_one(step, text.skip(j)));
        assert(out.skip(k) == rewritten(step, text.skip(j)));
        assert(out.skip(k)[0] == text.skip(j)[0]);
        lemma_run(step, text, j + 1, len - 1);
        assert forall|d: int| 0 <= d < len implies #[trigger] out[k + d] == text[j + d] by {
            if d > 0 {
                assert(out[image(step, text, j + 1) + (d - 1)] == text[j + 1 + (d - 1)]);
            } else {
                assert(out.skip(k)[0] == out[k]);
            }
        }
    }
}

} // verus!

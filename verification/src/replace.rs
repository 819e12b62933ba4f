//! Regular-expression substitution.
//!
//! The substitution itself is the work of the `regex` crate. This module says what it does with the
//! kinds of pattern that the build uses, and proves what follows from that.

use vstd::prelude::*;

use crate::text;

verus! {

/// Why a pattern cannot be used.
#[derive(Debug, Clone, Copy, PartialEq, Eq, Structural)]
pub enum PatternError {
    /// The pattern is not a regular expression.
    Malformed,
    /// The pattern is a regular expression, but its compiled form is over the size limit.
    TooBig,
}

/// A number of characters that keeps a plain pattern far below the size limit for compiled patterns.
pub const SMALL_PATTERN: usize = 1024;

/// Whether `regex::Regex::new` takes the text for a regular expression (whatever the size of its
/// compiled form).
pub uninterp spec fn regex_parses(pattern: Seq<char>) -> bool;

/// What `regex::Regex::replace_all` makes of a text with a pattern that compiles.
pub uninterp spec fn regex_replaced(
    pattern: Seq<char>,
    text: Seq<char>,
    replacement: Seq<char>,
) -> Seq<char>;

/// A character that stands for itself in a pattern.
pub open spec fn is_literal_char(c: char) -> bool {
    ||| 'a' <= c <= 'z'
    ||| 'A' <= c <= 'Z'
    ||| '0' <= c <= '9'
    ||| c == ' '
    ||| c == '_'
    ||| c == ':'
    ||| c == '/'
}

/// A nonempty pattern that matches itself alone.
pub open spec fn is_literal(pattern: Seq<char>) -> bool {
    &&& pattern.len() > 0
    &&& forall|i: int| 0 <= i < pattern.len() ==> is_literal_char(#[trigger] pattern[i])
}

/// A nonempty pattern of literal characters and dots.
pub open spec fn is_simple(pattern: Seq<char>) -> bool {
    &&& pattern.len() > 0
    &&& forall|i: int|
        0 <= i < pattern.len() ==> is_literal_char(#[trigger] pattern[i]) || pattern[i] == '.'
}

/// One character of a simple pattern against one character of a text: a dot matches anything but
/// the end of a line.
pub open spec fn char_matches(p: char, c: char) -> bool {
    if p == '.' {
        c != '\n'
    } else {
        p == c
    }
}

/// A simple pattern matches at the beginning of `text`.
pub open spec fn simple_matches(pattern: Seq<char>, text: Seq<char>) -> bool {
    &&& pattern.len() <= text.len()
    &&& forall|i: int| 0 <= i < pattern.len() ==> char_matches(#[trigger] pattern[i], text[i])
}

/// `text` with every match of a simple pattern, from left to right and without overlap, replaced.
pub open spec fn replace_simple(
    pattern: Seq<char>,
    text: Seq<char>,
    replacement: Seq<char>,
) -> Seq<char>
    decreases text.len(),
{
    if text.len() == 0 {
        text
    } else if pattern.len() > 0 && simple_matches(pattern, text) {
        replacement + replace_simple(pattern, text.skip(pattern.len() as int), replacement)
    } else {
        seq![text[0]] + replace_simple(pattern, text.skip(1), replacement)
    }
}

/// The character at position `i` is in no match of a simple pattern that is replaced.
pub open spec fn is_kept(pattern: Seq<char>, text: Seq<char>, i: int) -> bool
    decreases text.len(),
{
    if i < 0 || i >= text.len() {
        false
    } else if pattern.len() > 0 && simple_matches(pattern, text) {
        i >= pattern.len() && is_kept(pattern, text.skip(pattern.len() as int), i - pattern.len())
    } else {
        i == 0 || is_kept(pattern, text.skip(1), i - 1)
    }
}

/// Somewhere in `text` stands a `word` whose first character is in no match that is replaced.
pub open spec fn stands_apart(word: Seq<char>, pattern: Seq<char>, text: Seq<char>) -> bool {
    exists|i: int|
        #![trigger text::occurs_at(word, text, i)]
        text::occurs_at(word, text, i) && is_kept(pattern, text, i)
}

/// The pattern `(a)+b`.
pub open spec fn repeated_pattern(a: Seq<char>, b: Seq<char>) -> Seq<char> {
    seq!['('] + a + seq![')', '+'] + b
}

/// The length of the longest run of `a`s, at least one of them, with a `b` behind it that `text`
/// begins with; 0 if there is none.
pub open spec fn repeated_len(a: Seq<char>, b: Seq<char>, text: Seq<char>) -> nat
    decreases text.len(),
{
    if a.len() == 0 || !a.is_prefix_of(text) {
        0
    } else {
        let rest = text.skip(a.len() as int);
        let more = repeated_len(a, b, rest);
        if more > 0 {
            a.len() + more
        } else if b.is_prefix_of(rest) {
            a.len() + b.len()
        } else {
            0
        }
    }
}

/// `text` with every match of `(a)+b`, from left to right and without overlap, replaced.
pub open spec fn replace_repeated(
    a: Seq<char>,
    b: Seq<char>,
    text: Seq<char>,
    replacement: Seq<char>,
) -> Seq<char>
    decreases text.len(),
{
    let n = repeated_len(a, b, text);
    if text.len() == 0 {
        text
    } else if n > 0 {
        proof {
            lemma_repeated_len(a, b, text);
        }
        replacement + replace_repeated(a, b, text.skip(n as int), replacement)
    } else {
        seq![text[0]] + replace_repeated(a, b, text.skip(1), replacement)
    }
}

/// A `block` stands in front of position `i`, with nothing between the two that ends a line.
pub open spec fn is_under_block(block: Seq<char>, text: Seq<char>, i: int) -> bool {
    exists|k: int|
        #![trigger text::occurs_at(block, text, k)]
        text::occurs_at(block, text, k) && k + block.len() <= i && forall|d: int|
            k + block.len() <= d < i ==> #[trigger] text[d] != '\n'
}

/// Somewhere in `text` an `ab` breaks off before its last character, and a match of `(a)+b` follows
/// right there.
pub open spec fn cut_short(a: Seq<char>, b: Seq<char>, text: Seq<char>) -> bool {
    let stump = a + b.drop_last();
    exists|i: int|
        #![trigger text.skip(i)]
        0 <= i <= text.len() && stump.is_prefix_of(text.skip(i)) && repeated_len(
            a,
            b,
            text.skip(i).skip(stump.len() as int),
        ) > 0
}

/// The pattern `head(.+)tail(.+)`.
pub open spec fn line_pattern(head: Seq<char>, tail: Seq<char>) -> Seq<char> {
    head + seq!['(', '.', '+', ')'] + tail + seq!['(', '.', '+', ')']
}

/// A replacement that puts `block` in front of what `head(.+)tail(.+)` matched.
pub open spec fn line_replacement(block: Seq<char>, head: Seq<char>, tail: Seq<char>) -> Seq<char> {
    block + head + seq!['$', '{', '1', '}'] + tail + seq!['$', '{', '2', '}']
}

/// How many characters there are before the end of the first line of `text`.
pub open spec fn line_len(text: Seq<char>) -> nat
    decreases text.len(),
{
    if text.len() == 0 || text[0] == '\n' {
        0
    } else {
        1 + line_len(text.skip(1))
    }
}

/// `text` begins with `head`, and further on in the same line stands `tail`, with at least one
/// character between the two and one behind.
pub open spec fn line_matches(head: Seq<char>, tail: Seq<char>, text: Seq<char>) -> bool {
    &&& head.is_prefix_of(text)
    &&& exists|j: int|
        #![trigger text::occurs_at(tail, text, j)]
        head.len() < j && j + tail.len() < line_len(text) && text::occurs_at(tail, text, j)
}

/// The pattern is one of those whose substitution is stated here: literal characters and dots,
/// `(a)+b`, or `head(.+)tail(.+)`.
pub open spec fn has_known_form(pattern: Seq<char>) -> bool {
    ||| is_simple(pattern)
    ||| exists|a: Seq<char>, b: Seq<char>|
        #[trigger] repeated_pattern(a, b) == pattern && is_literal(a) && is_literal(b)
    ||| exists|head: Seq<char>, tail: Seq<char>|
        #[trigger] line_pattern(head, tail) == pattern && is_literal(head) && is_literal(tail)
}

/// A character that stands for itself, or one of the operators that take no number and no class.
pub open spec fn is_plain_char(c: char) -> bool {
    ||| is_literal_char(c)
    ||| c == '.'
    ||| c == '^'
    ||| c == '$'
    ||| c == '*'
    ||| c == '+'
    ||| c == '?'
    ||| c == '|'
    ||| c == '('
    ||| c == ')'
}

/// A pattern of few characters, all of them plain.
pub open spec fn is_small(pattern: Seq<char>) -> bool {
    &&& pattern.len() <= SMALL_PATTERN
    &&& forall|i: int| 0 <= i < pattern.len() ==> is_plain_char(#[trigger] pattern[i])
}

/// `text` with `block` put in front of the first match of `head(.+)tail(.+)` in each line.
pub open spec fn insert_in_lines(
    head: Seq<char>,
    tail: Seq<char>,
    block: Seq<char>,
    text: Seq<char>,
) -> Seq<char>
    decreases text.len(),
{
    let n = line_len(text) as int;
    if text.len() == 0 {
        text
    } else if n > 0 && line_matches(head, tail, text) {
        proof {
            lemma_line_len(text);
        }
        block + text.take(n) + insert_in_lines(head, tail, block, text.skip(n))
    } else {
        seq![text[0]] + insert_in_lines(head, tail, block, text.skip(1))
    }
}

/// Calls `regex::Regex::new` and, where the pattern compiles, `Regex::replace_all`.
///
/// Claimed of `new`: whether it reports a syntax error depends on the pattern alone, and it reports
/// none for a pattern that [`has_known_form`]. It does not report that the size limit is exceeded
/// for a pattern that [`is_small`]: without counted repetition every character is compiled once. A
/// dot takes the most, at most eleven UTF-8 sequences of up to four bytes, with a state of at most
/// 32 bytes for each byte and two more; that comes to less than two megabytes in all, and the limit
/// is ten. On which other patterns it reports that depends on the size of a state on the machine,
/// and is left open.
///
/// Claimed of `replace_all`: its result depends on the pattern, the text and the replacement alone.
/// It replaces the matches from left to right without overlap. In a replacement without `$`
/// nothing is expanded, so what that gives is [`replace_simple`] for a pattern of literal
/// characters and dots, and [`replace_repeated`] for `(a)+b`. In `head(.+)tail(.+)` the dots stay
/// within a line and `.+` takes as much as it can, so a match goes to the end of its line; with
/// `${1}` and `${2}` the replacement puts back what was matched, which gives [`insert_in_lines`].
#[verifier::external_body]
pub(crate) fn replace_all(pattern: &str, text: &str, replacement: &str) -> (out: Result<String, PatternError>)
    ensures
        out matches Ok(_) ==> regex_parses(pattern@),
        out matches Err(PatternError::TooBig) ==> regex_parses(pattern@),
        out matches Err(PatternError::Malformed) ==> !regex_parses(pattern@),
        has_known_form(pattern@) ==> !(out matches Err(PatternError::Malformed)),
        is_small(pattern@) ==> !(out matches Err(PatternError::TooBig)),
        out matches Ok(s) ==> s@ == regex_replaced(pattern@, text@, replacement@),
        out matches Ok(s) ==> (is_simple(pattern@) && !replacement@.contains('$') ==> s@
            == replace_simple(pattern@, text@, replacement@)),
        out matches Ok(s) ==> (forall|a: Seq<char>, b: Seq<char>|
            #[trigger] repeated_pattern(a, b) == pattern@ && is_literal(a) && is_literal(b)
                && !replacement@.contains('$') ==> s@ == replace_repeated(
                a,
                b,
                text@,
                replacement@,
            )),
        out matches Ok(s) ==> (forall|head: Seq<char>, tail: Seq<char>, block: Seq<char>|
            #![trigger line_pattern(head, tail), line_replacement(block, head, tail)]
            line_pattern(head, tail) == pattern@ && line_replacement(block, head, tail)
                == replacement@ && is_literal(head) && is_literal(tail) && !block.contains('$')
                ==> s@ == insert_in_lines(head, tail, block, text@)),
{
    match regex::Regex::new(pattern) {
        Ok(re) => Ok(re.replace_all(text, replacement).to_string()),
        Err(regex::Error::CompiledTooBig(_)) => Err(PatternError::TooBig),
        Err(_) => Err(PatternError::Malformed),
    }
}

/// A pattern of a known form is plain.
pub proof fn lemma_known_form_is_plain(pattern: Seq<char>)
    requires
        has_known_form(pattern),
        pattern.len() <= SMALL_PATTERN,
    ensures
        is_small(pattern),
{
    if is_simple(pattern) {
        assert forall|i: int| 0 <= i < pattern.len() implies is_plain_char(
            #[trigger] pattern[i],
        ) by {
            assert(is_literal_char(pattern[i]) || pattern[i] == '.');
        }
    } else if exists|a: Seq<char>, b: Seq<char>|
        #[trigger] repeated_pattern(a, b) == pattern && is_literal(a) && is_literal(b) {
        let (a, b) = choose|a: Seq<char>, b: Seq<char>|
            #[trigger] repeated_pattern(a, b) == pattern && is_literal(a) && is_literal(b);
        assert forall|i: int| 0 <= i < pattern.len() implies is_plain_char(
            #[trigger] pattern[i],
        ) by {
            if 1 <= i < 1 + a.len() {
                assert(is_literal_char(a[i - 1]));
            } else if i >= a.len() + 3 {
                assert(is_literal_char(b[i - a.len() - 3]));
            }
        }
    } else {
        let (head, tail) = choose|head: Seq<char>, tail: Seq<char>|
            #[trigger] line_pattern(head, tail) == pattern && is_literal(head) && is_literal(tail);
        assert forall|i: int| 0 <= i < pattern.len() implies is_plain_char(
            #[trigger] pattern[i],
        ) by {
            if i < head.len() {
                assert(is_literal_char(head[i]));
            } else if head.len() + 4 <= i < head.len() + 4 + tail.len() {
                assert(is_literal_char(tail[i - head.len() - 4]));
            }
        }
    }
}

/// A match of `(a)+b` lies within the text.
pub proof fn lemma_repeated_len(a: Seq<char>, b: Seq<char>, text: Seq<char>)
    ensures
        repeated_len(a, b, text) <= text.len(),
    decreases text.len(),
{
    if a.len() > 0 && a.is_prefix_of(text) {
        lemma_repeated_len(a, b, text.skip(a.len() as int));
    }
}

/// The first line ends at a line feed or with the text.
pub proof fn lemma_line_len(text: Seq<char>)
    ensures
        line_len(text) <= text.len(),
        line_len(text) < text.len() ==> text[line_len(text) as int] == '\n',
    decreases text.len(),
{
    if text.len() > 0 && text[0] != '\n' {
        lemma_line_len(text.skip(1));
    }
}

} // verus!

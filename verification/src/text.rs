//! Text helpers: the mathematical vocabulary that the contracts use for strings, and the few
//! string operations that the rest of the library is built from.

use vstd::prelude::*;
use vstd::string::*;

verus! {

/// The contents of a list of strings.
pub open spec fn strings(list: Seq<String>) -> Seq<Seq<char>> {
    list.map_values(|s: String| s@)
}

pub(crate) proof fn lemma_strings_push(list: Seq<String>, s: String)
    ensures
        strings(list.push(s)) == strings(list).push(s@),
{
    assert(strings(list.push(s)) =~= strings(list).push(s@));
}

/// `word` stands in `text` at position `i`.
pub open spec fn occurs_at(word: Seq<char>, text: Seq<char>, i: int) -> bool {
    &&& 0 <= i
    &&& i + word.len() <= text.len()
    &&& text.subrange(i, i + word.len()) == word
}

/// `word` stands somewhere in `text`.
pub open spec fn occurs(word: Seq<char>, text: Seq<char>) -> bool {
    exists|i: int| occurs_at(word, text, i)
}

/// Wherever `word` stands in `text`, `whole` stands.
pub open spec fn only_within(word: Seq<char>, whole: Seq<char>, text: Seq<char>) -> bool {
    forall|i: int| #[trigger] occurs_at(word, text, i) ==> occurs_at(whole, text, i)
}

/// `a` followed by `b`.
pub(crate) fn concat(a: &str, b: &str) -> (out: String)
    ensures
        out@ == a@ + b@,
{
    let mut out = String::from_str(a);
    out.append(b);
    out
}

/// Whether `text` begins with `front`.
pub(crate) fn starts_with(text: &str, front: &str) -> (yes: bool)
    ensures
        yes == front@.is_prefix_of(text@),
{
    let n: usize = front.unicode_len();
    if text.unicode_len() < n {
        return false;
    }
    let mut i: usize = 0;
    while i < n
        invariant
            i <= n,
            n == front@.len(),
            n <= text@.len(),
            forall|k: int| 0 <= k < i ==> text@[k] == front@[k],
        decreases n - i,
    {
        if text.get_char(i) != front.get_char(i) {
            proof {
                assert(text@.subrange(0, n as int)[i as int] == text@[i as int]);
            }
            return false;
        }
        i += 1;
    }
    proof {
        assert(text@.subrange(0, n as int) =~= front@);
    }
    true
}

/// The same list with strings of its own.
pub(crate) fn owned(list: &Vec<&str>) -> (out: Vec<String>)
    ensures
        strings(out@) == list@.map_values(|s: &str| s@),
{
    let mut out: Vec<String> = Vec::new();
    let mut i: usize = 0;
    while i < list.len()
        invariant
            i <= list@.len(),
            out@.len() == i,
            forall|k: int| 0 <= k < i ==> #[trigger] out@[k]@ == list@[k]@,
        decreases list@.len() - i,
    {
        out.push(list[i].to_owned());
        i += 1;
    }
    proof {
        assert(strings(out@) =~= list@.map_values(|s: &str| s@));
    }
    out
}

/// One decimal digit.
pub open spec fn digit(d: nat) -> Seq<char> {
    if d == 0 {
        "0"@
    } else if d == 1 {
        "1"@
    } else if d == 2 {
        "2"@
    } else if d == 3 {
        "3"@
    } else if d == 4 {
        "4"@
    } else if d == 5 {
        "5"@
    } else if d == 6 {
        "6"@
    } else if d == 7 {
        "7"@
    } else if d == 8 {
        "8"@
    } else {
        "9"@
    }
}

/// A natural number in decimal, without leading zeros.
pub open spec fn digits(n: nat) -> Seq<char>
    decreases n,
{
    if n < 10 {
        digit(n)
    } else {
        digits(n / 10) + digit(n % 10)
    }
}

/// An integer in decimal, with a sign where it is negative.
pub open spec fn decimal(n: int) -> Seq<char> {
    if n < 0 {
        "-"@ + digits((-n) as nat)
    } else {
        digits(n as nat)
    }
}

fn digit_text(d: u32) -> (out: &'static str)
    requires
        d < 10,
    ensures
        out@ == digit(d as nat),
{
    match d {
        0 => "0",
        1 => "1",
        2 => "2",
        3 => "3",
        4 => "4",
        5 => "5",
        6 => "6",
        7 => "7",
        8 => "8",
        _ => "9",
    }
}

fn digits_text(n: u32) -> (out: String)
    ensures
        out@ == digits(n as nat),
    decreases n,
{
    if n < 10 {
        digit_text(n).to_owned()
    } else {
        concat(digits_text(n / 10).as_str(), digit_text(n % 10))
    }
}

/// An integer in decimal.
pub(crate) fn int_text(n: i32) -> (out: String)
    ensures
        out@ == decimal(n as int),
{
    if n < 0 {
        let magnitude: u32 = (-(n as i64)) as u32;
        concat("-", digits_text(magnitude).as_str())
    } else {
        digits_text(n as u32)
    }
}

/// A list of strings holds what they hold, one for one and in order.
pub proof fn law_list_holds_its_strings(list: Seq<String>, i: int)
    requires
        0 <= i < list.len(),
    ensures
        strings(list).len() == list.len(),
        strings(list)[i] == list[i]@,
{
}

/// A number of one digit is that digit.
pub proof fn law_one_digit(d: int)
    requires
        0 <= d < 10,
    ensures
        decimal(d).len() == 1,
        decimal(d)[0] as int == '0' as int + d,
{
    reveal_strlit("0");
    reveal_strlit("1");
    reveal_strlit("2");
    reveal_strlit("3");
    reveal_strlit("4");
    reveal_strlit("5");
    reveal_strlit("6");
    reveal_strlit("7");
    reveal_strlit("8");
    reveal_strlit("9");
}

/// A further digit goes behind the number that the others make.
pub proof fn law_further_digit(n: int, d: int)
    requires
        n > 0,
        0 <= d < 10,
    ensures
        decimal(10 * n + d) == decimal(n) + decimal(d),
{
    assert((10 * n + d) / 10 == n && (10 * n + d) % 10 == d);
}

/// A negative number has the sign in front.
pub proof fn law_negative_number(n: int)
    requires
        n > 0,
    ensures
        decimal(-n) == "-"@ + decimal(n),
{
}

} // verus!

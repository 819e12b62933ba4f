//! Paths, written with `/` between their parts.

use vstd::prelude::*;
use vstd::string::*;

use crate::text;

verus! {

/// `rest` below `base`: an absolute `rest` stands for itself; otherwise a separator is put between
/// the two where `base` is not empty and does not end with one.
pub open spec fn joined(base: Seq<char>, rest: Seq<char>) -> Seq<char> {
    if rest.len() > 0 && rest[0] == '/' {
        rest
    } else if base.len() > 0 && base.last() != '/' {
        base + "/"@ + rest
    } else {
        base + rest
    }
}

/// The path of `rest` below `base`.
pub fn join(base: &str, rest: &str) -> (out: String)
    ensures
        out@ == joined(base@, rest@),
{
    if rest.unicode_len() > 0 && rest.get_char(0) == '/' {
        return rest.to_owned();
    }
    let n: usize = base.unicode_len();
    let mut out = base.to_owned();
    if n > 0 && base.get_char(n - 1) != '/' {
        out.append("/");
    }
    out.append(rest);
    out
}

/// Something relative below a directory: with one separator between the two, whether or not the
/// directory is written with one at its end.
pub proof fn law_relative_path_goes_below(base: Seq<char>, rest: Seq<char>)
    requires
        rest.len() > 0 ==> rest[0] != '/',
    ensures
        joined(base + "/"@, rest) == base + "/"@ + rest,
        base.len() > 0 && base.last() != '/' ==> joined(base, rest) == base + "/"@ + rest,
        joined(Seq::empty(), rest) == rest,
{
    reveal_strlit("/");
    assert((base + "/"@).last() == '/');
    assert(Seq::<char>::empty() + rest =~= rest);
}

/// An absolute path stands for itself, whatever it is put below.
pub proof fn law_absolute_path_stays(base: Seq<char>, rest: Seq<char>)
    ensures
        joined(base, seq!['/'] + rest) == seq!['/'] + rest,
{
}

} // verus!

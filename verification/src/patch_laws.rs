//! What the substitutions do to emitted code, place by place.

use vstd::prelude::*;

use crate::config;
use crate::patch;
use crate::replace;
use crate::replace_facts;
use crate::splits;
use crate::text;

verus! {

/// A reference to a `tendermint` module, through any number of `super::`, becomes a reference to the
/// `tendermint_proto` crate, whatever else stands in the file before it and behind it.
pub proof fn law_every_reference_is_redirected(x: Seq<char>, n: nat, y: Seq<char>)
    requires
        n > 0,
        !"super::"@.is_suffix_of(x),
    ensures
        patch::tendermint_redirected(
            x + Seq::new(7 * n, |i: int| "super::"@[i % 7]) + "tendermint"@ + y,
        ) == patch::tendermint_redirected(x) + "tendermint_proto"@ + patch::tendermint_redirected(
            y,
        ),
{
    lemma_reference_letters();
    lemma_run_of_supers(n);
    splits::lemma_repeated_match(
        "super::"@,
        "tendermint"@,
        x,
        n,
        y,
        "tendermint_proto"@,
    );
}

/// The first letter of `super::` is nowhere else in a reference.
proof fn lemma_reference_letters()
    ensures
        "super::"@.len() > 0,
        "tendermint"@.len() > 0,
        forall|k: int| 1 <= k < "super::"@.len() ==> #[trigger] "super::"@[k] != "super::"@[0],
        forall|k: int|
            0 <= k < "tendermint"@.len() ==> #[trigger] "tendermint"@[k] != "super::"@[0],
{
    reveal_strlit("super::");
    reveal_strlit("tendermint");
}

proof fn lemma_run_of_supers(n: nat)
    ensures
        splits::run_of("super::"@, n) == Seq::new(7 * n, |i: int| "super::"@[i % 7]),
    decreases n,
{
    reveal_strlit("super::");
    if n > 0 {
        lemma_run_of_supers((n - 1) as nat);
    }
    assert(splits::run_of("super::"@, n) =~= Seq::new(7 * n, |i: int| "super::"@[i % 7]));
}

/// Where no `tendermint` module above is referred to, nothing is redirected.
pub proof fn law_nothing_else_is_redirected(text: Seq<char>)
    requires
        forall|x: Seq<char>, y: Seq<char>| text != #[trigger] (x + "super::tendermint"@ + y),
    ensures
        patch::tendermint_redirected(text) == text,
{
    reveal_strlit("super::tendermint");
    reveal_strlit("super::");
    reveal_strlit("tendermint");
    assert("super::"@ + "tendermint"@ =~= "super::tendermint"@);
    splits::lemma_absent("super::tendermint"@, text);
    replace_facts::lemma_repeated_absent(
        "super::"@,
        "tendermint"@,
        text,
        "tendermint_proto"@,
    );
}

/// A comment of three slashes, with an open last character, runs into no other before it, unless
/// that one lacks just the last character.
proof fn lemma_comment_cut(pattern: Seq<char>, x: Seq<char>, c: char, y: Seq<char>)
    requires
        pattern.len() > 5,
        pattern.last() == '.',
        forall|d: int| 0 <= d < pattern.len() - 1 ==> #[trigger] pattern[d] != '.',
        pattern[0] == '/',
        pattern[1] == '/',
        pattern[2] == '/',
        forall|d: int| 3 <= d < pattern.len() ==> #[trigger] pattern[d] != '/',
        !pattern.drop_last().is_suffix_of(x),
        c != '\n',
    ensures
        splits::is_simple_cut(pattern, x, pattern.drop_last() + seq![c] + y),
        replace::simple_matches(pattern, pattern.drop_last() + seq![c]),
{
    let stem = pattern.drop_last();
    let found = stem + seq![c];
    let rest = found + y;
    assert forall|i: int|
        #![trigger (x + rest).skip(i)]
        0 <= i < x.len() && replace::simple_matches(pattern, (x + rest).skip(i)) implies i
        + pattern.len() <= x.len() by {
        let here = (x + rest).skip(i);
        let d = x.len() - i;
        if d < stem.len() {
            let e: int = if d == 1 { 2 } else if d == 2 { 1 } else { 0 };
            assert(replace::char_matches(pattern[d + e], here[d + e]));
            assert(here[d + e] == stem[e]);
        } else if d == stem.len() {
            assert forall|k: int| 0 <= k < stem.len() implies x[i + k] == stem[k] by {
                assert(replace::char_matches(pattern[k], here[k]));
            }
            assert(x.subrange(x.len() - stem.len(), x.len() as int) =~= stem);
        }
    }
    assert forall|d: int| 0 <= d < pattern.len() implies replace::char_matches(
        #[trigger] pattern[d],
        found[d],
    ) by {}
}

/// Without a comment, the one character behind it included, nothing is gated.
proof fn lemma_no_comment(pattern: Seq<char>, text: Seq<char>, block: Seq<char>)
    requires
        pattern.len() > 1,
        pattern.last() == '.',
        forall|d: int| 0 <= d < pattern.len() - 1 ==> #[trigger] pattern[d] != '.',
        forall|x: Seq<char>, c: char, y: Seq<char>|
            text == #[trigger] (x + pattern.drop_last() + seq![c] + y) ==> c == '\n',
    ensures
        replace::replace_simple(pattern, text, block) == text,
{
    let stem = pattern.drop_last();
    assert forall|i: int| 0 <= i <= text.len() implies !replace::simple_matches(
        pattern,
        #[trigger] text.skip(i),
    ) by {
        let here = text.skip(i);
        if replace::simple_matches(pattern, here) {
            let c = here[stem.len() as int];
            assert(replace::char_matches(pattern[stem.len() as int], c));
            assert forall|d: int| 0 <= d < stem.len() implies text[i + d] == stem[d] by {
                assert(replace::char_matches(pattern[d], here[d]));
            }
            let x = text.take(i);
            let y = text.skip(i + pattern.len());
            assert(text =~= x + stem + seq![c] + y);
        }
    }
    replace_facts::lemma_simple_absent(pattern, text, block);
}

/// The comment above a gRPC client module gets the feature gate below it, whatever else stands in
/// the file. Any one character may end the comment.
pub proof fn law_every_client_comment_is_gated(x: Seq<char>, c: char, y: Seq<char>)
    requires
        c != '\n',
        !"/// Generated client implementations"@.is_suffix_of(x),
    ensures
        patch::clients_gated(x + "/// Generated client implementations"@ + seq![c] + y)
            == patch::clients_gated(x)
            + "/// Generated client implementations.\n#[cfg(feature = \"grpc\")]\n#[cfg_attr(docsrs, doc(cfg(feature = \"grpc\")))]"@
            + patch::clients_gated(y),
{
    let pattern = config::CLIENT_PATTERN@;
    let stem = "/// Generated client implementations"@;
    reveal_strlit("/// Generated client implementations.");
    reveal_strlit("/// Generated client implementations");
    assert(pattern.drop_last() =~= stem);
    lemma_comment_cut(pattern, x, c, y);
    assert(x + (stem + seq![c]) + y =~= x + stem + seq![c] + y);
    splits::lemma_simple_match(pattern, x, stem + seq![c], y, config::CLIENT_REPLACEMENT@);
}

/// Where there is no such comment, no client is gated.
pub proof fn law_no_other_client_is_gated(text: Seq<char>)
    requires
        forall|x: Seq<char>, c: char, y: Seq<char>|
            text == #[trigger] (x + "/// Generated client implementations"@ + seq![c] + y) ==> c
                == '\n',
    ensures
        patch::clients_gated(text) == text,
{
    let pattern = config::CLIENT_PATTERN@;
    reveal_strlit("/// Generated client implementations.");
    reveal_strlit("/// Generated client implementations");
    assert(pattern.drop_last() =~= "/// Generated client implementations"@);
    lemma_no_comment(pattern, text, config::CLIENT_REPLACEMENT@);
}

/// The comment above a gRPC server module gets the feature gate below it, whatever else stands in
/// the file. Any one character may end the comment.
pub proof fn law_every_server_comment_is_gated(x: Seq<char>, c: char, y: Seq<char>)
    requires
        c != '\n',
        !"/// Generated server implementations"@.is_suffix_of(x),
    ensures
        patch::servers_gated(x + "/// Generated server implementations"@ + seq![c] + y)
            == patch::servers_gated(x)
            + "/// Generated server implementations.\n#[cfg(feature = \"grpc\")]\n#[cfg_attr(docsrs, doc(cfg(feature = \"grpc\")))]"@
            + patch::servers_gated(y),
{
    let pattern = config::SERVER_PATTERN@;
    let stem = "/// Generated server implementations"@;
    reveal_strlit("/// Generated server implementations.");
    reveal_strlit("/// Generated server implementations");
    assert(pattern.drop_last() =~= stem);
    lemma_comment_cut(pattern, x, c, y);
    assert(x + (stem + seq![c]) + y =~= x + stem + seq![c] + y);
    splits::lemma_simple_match(pattern, x, stem + seq![c], y, config::SERVER_REPLACEMENT@);
}

/// Where there is no such comment, no server is gated.
pub proof fn law_no_other_server_is_gated(text: Seq<char>)
    requires
        forall|x: Seq<char>, c: char, y: Seq<char>|
            text == #[trigger] (x + "/// Generated server implementations"@ + seq![c] + y) ==> c
                == '\n',
    ensures
        patch::servers_gated(text) == text,
{
    let pattern = config::SERVER_PATTERN@;
    reveal_strlit("/// Generated server implementations.");
    reveal_strlit("/// Generated server implementations");
    assert(pattern.drop_last() =~= "/// Generated server implementations"@);
    lemma_no_comment(pattern, text, config::SERVER_REPLACEMENT@);
}

/// Impls that use `tonic::transport` are gated line by line.
pub proof fn law_transports_are_gated_by_line(x: Seq<char>, y: Seq<char>)
    ensures
        patch::transports_gated(x + seq!['\n'] + y) == patch::transports_gated(x) + seq!['\n']
            + patch::transports_gated(y),
{
    splits::lemma_insertion_lines(
        "impl"@,
        "tonic::transport"@,
        config::TRANSPORT_GATE@,
        x,
        y,
    );
}

/// In a line, the feature attributes go right in front of the first `impl`, if `tonic::transport`
/// stands further on in the line, with something between the two and something behind.
pub proof fn law_every_transport_line_is_gated(x: Seq<char>, m: Seq<char>, z: Seq<char>)
    requires
        m.len() > 0,
        z.len() > 0,
        forall|d: int|
            0 <= d < (x + "impl"@ + m + "tonic::transport"@ + z).len() ==> #[trigger] (x + "impl"@
                + m + "tonic::transport"@ + z)[d] != '\n',
        forall|u: Seq<char>, v: Seq<char>|
            x + "impl"@ + m + "tonic::transport"@ + z == #[trigger] (u + "impl"@ + v) ==> u.len()
                >= x.len(),
    ensures
        patch::transports_gated(x + "impl"@ + m + "tonic::transport"@ + z) == x
            + "#[cfg(feature = \"grpc-transport\")]\n    #[cfg_attr(docsrs, doc(cfg(feature = \"grpc-transport\")))]\n    "@
            + "impl"@ + m + "tonic::transport"@ + z,
{
    let line = x + "impl"@ + m + "tonic::transport"@ + z;
    reveal_strlit("impl");
    assert forall|p: int| 0 <= p < x.len() implies !#[trigger] text::occurs_at(
        "impl"@,
        line,
        p,
    ) by {
        if text::occurs_at("impl"@, line, p) {
            let u = line.take(p);
            let v = line.skip(p + 4);
            assert(line.subrange(p, p + 4) =~= "impl"@);
            assert(line =~= u + "impl"@ + v);
        }
    }
    splits::lemma_insertion_in_line(
        "impl"@,
        "tonic::transport"@,
        config::TRANSPORT_GATE@,
        x,
        m,
        z,
    );
}

/// In a line without such an impl nothing is put.
pub proof fn law_no_other_line_is_gated(line: Seq<char>)
    requires
        forall|d: int| 0 <= d < line.len() ==> #[trigger] line[d] != '\n',
        forall|x: Seq<char>, m: Seq<char>, z: Seq<char>|
            line == #[trigger] (x + "impl"@ + m + "tonic::transport"@ + z) ==> m.len() == 0
                || z.len() == 0,
    ensures
        patch::transports_gated(line) == line,
{
    lemma_no_transport(line);
    replace_facts::lemma_lines_absent(
        "impl"@,
        "tonic::transport"@,
        config::TRANSPORT_GATE@,
        line,
    );
}

proof fn lemma_no_transport(text: Seq<char>)
    requires
        forall|x: Seq<char>, m: Seq<char>, z: Seq<char>|
            text == #[trigger] (x + "impl"@ + m + "tonic::transport"@ + z) ==> m.len() == 0
                || z.len() == 0,
    ensures
        forall|i: int|
            0 <= i <= text.len() ==> !replace::line_matches(
                "impl"@,
                "tonic::transport"@,
                #[trigger] text.skip(i),
            ),
{
    let head = "impl"@;
    let tail = "tonic::transport"@;
    assert forall|i: int| 0 <= i <= text.len() implies !replace::line_matches(
        head,
        tail,
        #[trigger] text.skip(i),
    ) by {
        let here = text.skip(i);
        if replace::line_matches(head, tail, here) {
            let j = choose|j: int|
                #![trigger text::occurs_at(tail, here, j)]
                head.len() < j && j + tail.len() < replace::line_len(here) && text::occurs_at(
                    tail,
                    here,
                    j,
                );
            replace::lemma_line_len(here);
            let x = text.take(i);
            let m = here.subrange(head.len() as int, j);
            let z = here.skip(j + tail.len());
            assert(here.subrange(0, head.len() as int) =~= head);
            assert(here.subrange(j, j + tail.len()) =~= tail);
            assert(here =~= head + m + tail + z);
            assert(text =~= x + here);
            assert(text =~= x + head + m + tail + z);
        }
    }
}

/// An emitted file goes through the redirection, then the gating of clients, of impls that use
/// `tonic::transport`, and of servers, and through nothing else.
pub proof fn law_substitutions_come_in_order(text: Seq<char>)
    ensures
        patch::patched(text) == patch::servers_gated(
            patch::transports_gated(patch::clients_gated(patch::tendermint_redirected(text))),
        ),
{
}

/// What becomes of a line of an emitted file does not depend on the other lines.
pub proof fn law_files_are_patched_line_by_line(x: Seq<char>, y: Seq<char>)
    ensures
        patch::patched(x + seq!['\n'] + y) == patch::patched(x) + seq!['\n'] + patch::patched(y),
{
    reveal_strlit("super::");
    reveal_strlit("tendermint");
    reveal_strlit("/// Generated client implementations.");
    reveal_strlit("/// Generated server implementations.");
    splits::lemma_repeated_lines(
        "super::"@,
        "tendermint"@,
        x,
        y,
        config::TENDERMINT_REPLACEMENT@,
    );
    let (x1, y1) = (patch::tendermint_redirected(x), patch::tendermint_redirected(y));
    splits::lemma_simple_lines(config::CLIENT_PATTERN@, x1, y1, config::CLIENT_REPLACEMENT@);
    let (x2, y2) = (patch::clients_gated(x1), patch::clients_gated(y1));
    law_transports_are_gated_by_line(x2, y2);
    splits::lemma_simple_lines(
        config::SERVER_PATTERN@,
        patch::transports_gated(x2),
        patch::transports_gated(y2),
        config::SERVER_REPLACEMENT@,
    );
}

/// A simple pattern with a letter in it that the text lacks has no match there.
proof fn lemma_foreign_letter(pattern: Seq<char>, text: Seq<char>, k: int)
    requires
        0 <= k < pattern.len(),
        pattern[k] != '.',
        forall|d: int| 0 <= d < text.len() ==> #[trigger] text[d] != pattern[k],
    ensures
        forall|i: int|
            0 <= i <= text.len() ==> !replace::simple_matches(pattern, #[trigger] text.skip(i)),
{
    assert forall|i: int| 0 <= i <= text.len() implies !replace::simple_matches(
        pattern,
        #[trigger] text.skip(i),
    ) by {
        if replace::simple_matches(pattern, text.skip(i)) {
            assert(replace::char_matches(pattern[k], text.skip(i)[k]));
            assert(text.skip(i)[k] == text[i + k]);
        }
    }
}

/// A word with a letter in it that the text lacks does not stand there.
proof fn lemma_foreign_word(word: Seq<char>, text: Seq<char>, k: int)
    requires
        0 <= k < word.len(),
        forall|d: int| 0 <= d < text.len() ==> #[trigger] text[d] != word[k],
    ensures
        !text::occurs(word, text),
{
    if text::occurs(word, text) {
        let i = choose|i: int| text::occurs_at(word, text, i);
        replace_facts::lemma_occurs_at_index(word, text, i, k);
    }
}

/// A comment that begins with a word that does not stand in the text has no match there.
proof fn lemma_no_match_without_word(pattern: Seq<char>, word: Seq<char>, o: int, text: Seq<char>)
    requires
        0 <= o,
        o + word.len() <= pattern.len(),
        forall|d: int|
            0 <= d < word.len() ==> pattern[o + d] == #[trigger] word[d] && word[d] != '.',
        !text::occurs(word, text),
    ensures
        forall|i: int|
            0 <= i <= text.len() ==> !replace::simple_matches(pattern, #[trigger] text.skip(i)),
{
    assert forall|i: int| 0 <= i <= text.len() implies !replace::simple_matches(
        pattern,
        #[trigger] text.skip(i),
    ) by {
        let here = text.skip(i);
        if replace::simple_matches(pattern, here) {
            assert forall|d: int| 0 <= d < word.len() implies text[i + o + d] == word[d] by {
                assert(replace::char_matches(pattern[o + d], here[o + d]));
            }
            assert(text.subrange(i + o, i + o + word.len()) =~= word);
            assert(text::occurs_at(word, text, i + o));
        }
    }
}

/// Without `tonic::transport` nothing is put in any line.
proof fn lemma_no_line_without_transport(text: Seq<char>)
    requires
        !text::occurs("tonic::transport"@, text),
    ensures
        patch::transports_gated(text) == text,
{
    let tail = "tonic::transport"@;
    assert forall|i: int| 0 <= i <= text.len() implies !replace::line_matches(
        "impl"@,
        tail,
        #[trigger] text.skip(i),
    ) by {
        let here = text.skip(i);
        if replace::line_matches("impl"@, tail, here) {
            let j = choose|j: int|
                #![trigger text::occurs_at(tail, here, j)]
                "impl"@.len() < j && j + tail.len() < replace::line_len(here) && text::occurs_at(
                    tail,
                    here,
                    j,
                );
            replace_facts::lemma_occurs_in_rest(tail, text, i);
        }
    }
    replace_facts::lemma_lines_absent("impl"@, tail, config::TRANSPORT_GATE@, text);
}

/// Without the words that gRPC code is found by, nothing is gated.
proof fn lemma_nothing_gated(text: Seq<char>)
    requires
        !text::occurs("tonic::transport"@, text),
        !text::occurs("implementations"@, text),
    ensures
        patch::servers_gated(patch::transports_gated(patch::clients_gated(text))) == text,
{
    reveal_strlit("implementations");
    assert(patch::clients_gated(text) == text) by {
        reveal_strlit("/// Generated client implementations.");
        lemma_no_match_without_word(config::CLIENT_PATTERN@, "implementations"@, 21, text);
        replace_facts::lemma_simple_absent(
            config::CLIENT_PATTERN@,
            text,
            config::CLIENT_REPLACEMENT@,
        );
    }
    lemma_no_line_without_transport(text);
    assert(patch::servers_gated(text) == text) by {
        reveal_strlit("/// Generated server implementations.");
        lemma_no_match_without_word(config::SERVER_PATTERN@, "implementations"@, 21, text);
        replace_facts::lemma_simple_absent(
            config::SERVER_PATTERN@,
            text,
            config::SERVER_REPLACEMENT@,
        );
    }
}

/// In a file without gRPC code, a reference to a `tendermint` module is all that changes: what it
/// becomes is the name of the `tendermint_proto` crate, and all that stands around it stays.
pub proof fn law_only_the_reference_changes(x: Seq<char>, n: nat, y: Seq<char>)
    requires
        n > 0,
        !"super::"@.is_suffix_of(x),
        forall|u: Seq<char>, v: Seq<char>| x != #[trigger] (u + "super::tendermint"@ + v),
        forall|u: Seq<char>, v: Seq<char>| y != #[trigger] (u + "super::tendermint"@ + v),
        forall|u: Seq<char>, v: Seq<char>|
            x + "tendermint_proto"@ + y != #[trigger] (u + "tonic::transport"@ + v),
        forall|u: Seq<char>, v: Seq<char>|
            x + "tendermint_proto"@ + y != #[trigger] (u + "implementations"@ + v),
    ensures
        patch::patched(x + Seq::new(7 * n, |i: int| "super::"@[i % 7]) + "tendermint"@ + y) == x
            + "tendermint_proto"@ + y,
{
    let out = x + "tendermint_proto"@ + y;
    law_every_reference_is_redirected(x, n, y);
    law_nothing_else_is_redirected(x);
    law_nothing_else_is_redirected(y);
    splits::lemma_absent("tonic::transport"@, out);
    splits::lemma_absent("implementations"@, out);
    lemma_nothing_gated(out);
}

/// A file in which no `tendermint` module is referred to, and that has no gRPC code, stays as it is.
pub proof fn law_plain_code_stays(text: Seq<char>)
    requires
        forall|u: Seq<char>, v: Seq<char>| text != #[trigger] (u + "super::tendermint"@ + v),
        forall|u: Seq<char>, v: Seq<char>| text != #[trigger] (u + "tonic::transport"@ + v),
        forall|u: Seq<char>, v: Seq<char>| text != #[trigger] (u + "implementations"@ + v),
    ensures
        patch::patched(text) == text,
{
    law_nothing_else_is_redirected(text);
    splits::lemma_absent("tonic::transport"@, text);
    splits::lemma_absent("implementations"@, text);
    lemma_nothing_gated(text);
}

/// A line that is the comment above a gRPC client module, at whatever depth, gets the feature gate.
pub proof fn law_client_comment_line(depth: nat)
    ensures
        patch::patched(
            Seq::new(depth, |i: int| ' ') + "/// Generated client implementations."@,
        ) == Seq::new(depth, |i: int| ' ')
            + "/// Generated client implementations.\n#[cfg(feature = \"grpc\")]\n#[cfg_attr(docsrs, doc(cfg(feature = \"grpc\")))]"@,
{
    let x = Seq::new(depth, |i: int| ' ');
    let none = Seq::<char>::empty();
    let stem = "/// Generated client implementations"@;
    let line = x + "/// Generated client implementations."@;
    let out = x + config::CLIENT_REPLACEMENT@;
    reveal_strlit("/// Generated client implementations.");
    reveal_strlit("/// Generated client implementations");
    reveal_strlit("/// Generated server implementations.");
    reveal_strlit(
        "/// Generated client implementations.\n#[cfg(feature = \"grpc\")]\n#[cfg_attr(docsrs, doc(cfg(feature = \"grpc\")))]",
    );
    lemma_no_reference_in(line);
    if stem.is_suffix_of(x) {
        assert(x.subrange(x.len() - stem.len(), x.len() as int)[0] == '/');
    }
    assert(line =~= x + stem + seq!['.'] + none);
    law_every_client_comment_is_gated(x, '.', none);
    lemma_foreign_letter(config::CLIENT_PATTERN@, x, 0);
    replace_facts::lemma_simple_absent(config::CLIENT_PATTERN@, x, config::CLIENT_REPLACEMENT@);
    assert(patch::clients_gated(line) =~= out);
    lemma_no_transport_in(out);
    lemma_foreign_letter(config::SERVER_PATTERN@, out, 17);
    replace_facts::lemma_simple_absent(config::SERVER_PATTERN@, out, config::SERVER_REPLACEMENT@);
}

/// A line that is the comment above a gRPC server module, at whatever depth, gets the feature gate.
pub proof fn law_server_comment_line(depth: nat)
    ensures
        patch::patched(
            Seq::new(depth, |i: int| ' ') + "/// Generated server implementations."@,
        ) == Seq::new(depth, |i: int| ' ')
            + "/// Generated server implementations.\n#[cfg(feature = \"grpc\")]\n#[cfg_attr(docsrs, doc(cfg(feature = \"grpc\")))]"@,
{
    let x = Seq::new(depth, |i: int| ' ');
    let none = Seq::<char>::empty();
    let stem = "/// Generated server implementations"@;
    let line = x + "/// Generated server implementations."@;
    reveal_strlit("/// Generated client implementations.");
    reveal_strlit("/// Generated server implementations");
    reveal_strlit("/// Generated server implementations.");
    lemma_no_reference_in(line);
    lemma_foreign_letter(config::CLIENT_PATTERN@, line, 14);
    replace_facts::lemma_simple_absent(config::CLIENT_PATTERN@, line, config::CLIENT_REPLACEMENT@);
    lemma_no_transport_in(line);
    if stem.is_suffix_of(x) {
        assert(x.subrange(x.len() - stem.len(), x.len() as int)[0] == '/');
    }
    assert(line =~= x + stem + seq!['.'] + none);
    law_every_server_comment_is_gated(x, '.', none);
    lemma_foreign_letter(config::SERVER_PATTERN@, x, 0);
    replace_facts::lemma_simple_absent(config::SERVER_PATTERN@, x, config::SERVER_REPLACEMENT@);
    assert(patch::servers_gated(line) =~= x + config::SERVER_REPLACEMENT@);
}

/// Nothing is redirected where there is no colon.
proof fn lemma_no_reference_in(text: Seq<char>)
    requires
        forall|d: int| 0 <= d < text.len() ==> #[trigger] text[d] != ':',
    ensures
        patch::tendermint_redirected(text) == text,
{
    reveal_strlit("super::");
    reveal_strlit("tendermint");
    let word = "super::"@ + "tendermint"@;
    lemma_foreign_word(word, text, 5);
    replace_facts::lemma_repeated_absent(
        "super::"@,
        "tendermint"@,
        text,
        config::TENDERMINT_REPLACEMENT@,
    );
}

/// No impl is gated where there is no colon.
proof fn lemma_no_transport_in(text: Seq<char>)
    requires
        forall|d: int| 0 <= d < text.len() ==> #[trigger] text[d] != ':',
    ensures
        patch::transports_gated(text) == text,
{
    reveal_strlit("tonic::transport");
    lemma_foreign_word("tonic::transport"@, text, 5);
    lemma_no_line_without_transport(text);
}

/// A line with an impl that uses `tonic::transport`, and nothing else to be dealt with, gets the
/// feature attributes right in front of its first `impl`, and all that is in it stays.
pub proof fn law_transport_line(x: Seq<char>, m: Seq<char>, z: Seq<char>)
    requires
        m.len() > 0,
        z.len() > 0,
        forall|d: int|
            0 <= d < (x + "impl"@ + m + "tonic::transport"@ + z).len() ==> #[trigger] (x + "impl"@
                + m + "tonic::transport"@ + z)[d] != '\n',
        forall|u: Seq<char>, v: Seq<char>|
            x + "impl"@ + m + "tonic::transport"@ + z == #[trigger] (u + "impl"@ + v) ==> u.len()
                >= x.len(),
        forall|u: Seq<char>, v: Seq<char>|
            x + "impl"@ + m + "tonic::transport"@ + z != #[trigger] (u + "super::tendermint"@ + v),
        forall|u: Seq<char>, v: Seq<char>|
            x + "impl"@ + m + "tonic::transport"@ + z != #[trigger] (u + "/// Generated"@ + v),
    ensures
        patch::patched(x + "impl"@ + m + "tonic::transport"@ + z) == x
            + "#[cfg(feature = \"grpc-transport\")]\n    #[cfg_attr(docsrs, doc(cfg(feature = \"grpc-transport\")))]\n    "@
            + "impl"@ + m + "tonic::transport"@ + z,
{
    let line = x + "impl"@ + m + "tonic::transport"@ + z;
    let out = patch::transports_gated(line);
    let word = "/// Generated"@;
    law_nothing_else_is_redirected(line);
    splits::lemma_absent(word, line);
    reveal_strlit("/// Generated");
    assert(patch::clients_gated(line) == line) by {
        reveal_strlit("/// Generated client implementations.");
        lemma_no_match_without_word(config::CLIENT_PATTERN@, word, 0, line);
        replace_facts::lemma_simple_absent(
            config::CLIENT_PATTERN@,
            line,
            config::CLIENT_REPLACEMENT@,
        );
    }
    law_every_transport_line_is_gated(x, m, z);
    patch::lemma_gate_is_foreign(word);
    replace_facts::lemma_lines_keep_out(
        word,
        "impl"@,
        "tonic::transport"@,
        config::TRANSPORT_GATE@,
        line,
    );
    assert(patch::servers_gated(out) == out) by {
        reveal_strlit("/// Generated server implementations.");
        lemma_no_match_without_word(config::SERVER_PATTERN@, word, 0, out);
        replace_facts::lemma_simple_absent(
            config::SERVER_PATTERN@,
            out,
            config::SERVER_REPLACEMENT@,
        );
    }
}

/// No match of `enum Validators` runs into another, nor into a use of the enum, unless that begins
/// with its last letter.
proof fn lemma_declaration_cuts(x: Seq<char>, y: Seq<char>)
    ensures
        splits::is_simple_cut("enum Validators"@, x, "enum Validators"@ + y),
        !"enum Validator"@.is_suffix_of(x) ==> splits::is_simple_cut(
            "enum Validators"@,
            x,
            "stake_authorization::Validators"@ + y,
        ),
{
    let word = "enum Validators"@;
    let path = "stake_authorization::Validators"@;
    reveal_strlit("enum Validators");
    reveal_strlit("enum Validator");
    reveal_strlit("stake_authorization::Validators");
    assert forall|i: int|
        #![trigger (x + (word + y)).skip(i)]
        0 <= i < x.len() && replace::simple_matches(word, (x + (word + y)).skip(i)) implies i
        + word.len() <= x.len() by {
        let here = (x + (word + y)).skip(i);
        let d = x.len() - i;
        if d < word.len() {
            assert(replace::char_matches(word[d], here[d]));
            assert(here[d] == word[0]);
        }
    }
    if !"enum Validator"@.is_suffix_of(x) {
        assert forall|i: int|
            #![trigger (x + (path + y)).skip(i)]
            0 <= i < x.len() && replace::simple_matches(word, (x + (path + y)).skip(i)) implies i
            + word.len() <= x.len() by {
            let here = (x + (path + y)).skip(i);
            let d = x.len() - i;
            if d < word.len() {
                assert(replace::char_matches(word[d], here[d]));
                assert(here[d] == path[0]);
                assert(d == 14);
                assert forall|k: int| 0 <= k < 14 implies x[i + k] == "enum Validator"@[k] by {
                    assert(replace::char_matches(word[k], here[k]));
                }
                assert(x.subrange(x.len() - 14, x.len() as int) =~= "enum Validator"@);
            }
        }
    }
}

/// No use of the enum runs into `enum Policy`, nor into another use, unless that begins with its
/// last letter.
proof fn lemma_use_cuts(x: Seq<char>, y: Seq<char>)
    ensures
        splits::is_simple_cut("stake_authorization::Validators"@, x, "enum Policy"@ + y),
        !"stake_authorization::Validator"@.is_suffix_of(x) ==> splits::is_simple_cut(
            "stake_authorization::Validators"@,
            x,
            "stake_authorization::Validators"@ + y,
        ),
{
    let path = "stake_authorization::Validators"@;
    let decl = "enum Policy"@;
    let stem = "stake_authorization::Validator"@;
    reveal_strlit("enum Policy");
    reveal_strlit("stake_authorization::Validator");
    reveal_strlit("stake_authorization::Validators");
    assert forall|i: int|
        #![trigger (x + (decl + y)).skip(i)]
        0 <= i < x.len() && replace::simple_matches(path, (x + (decl + y)).skip(i)) implies i
        + path.len() <= x.len() by {
        let here = (x + (decl + y)).skip(i);
        let d = x.len() - i;
        if d < path.len() {
            assert(replace::char_matches(path[d], here[d]));
            assert(here[d] == decl[0]);
            assert(d == 4);
            assert(replace::char_matches(path[5], here[5]));
            assert(here[5] == decl[1]);
        }
    }
    if !stem.is_suffix_of(x) {
        assert forall|i: int|
            #![trigger (x + (path + y)).skip(i)]
            0 <= i < x.len() && replace::simple_matches(path, (x + (path + y)).skip(i)) implies i
            + path.len() <= x.len() by {
            let here = (x + (path + y)).skip(i);
            let d = x.len() - i;
            if d < path.len() {
                assert(replace::char_matches(path[d], here[d]));
                assert(here[d] == path[0]);
                assert(d == 30);
                assert forall|k: int| 0 <= k < 30 implies x[i + k] == stem[k] by {
                    assert(replace::char_matches(path[k], here[k]));
                }
                assert(x.subrange(x.len() - 30, x.len() as int) =~= stem);
            }
        }
    }
}

/// Neither substitution finds anything in what the other puts or leaves.
proof fn lemma_names_stay_apart()
    ensures
        replace_facts::no_match_begins_in(
            "enum Validators"@,
            "stake_authorization::Validators"@,
        ),
        replace_facts::no_match_begins_in("stake_authorization::Validators"@, "enum Policy"@),
{
    let word = "enum Validators"@;
    let path = "stake_authorization::Validators"@;
    let decl = "enum Policy"@;
    reveal_strlit("enum Validators");
    reveal_strlit("enum Policy");
    reveal_strlit("stake_authorization::Validators");
    assert forall|rest: Seq<char>, p: int| 0 <= p < path.len() implies
        !#[trigger] replace::simple_matches(word, (path + rest).skip(p)) by {
        let there = (path + rest).skip(p);
        if replace::simple_matches(word, there) {
            assert(replace::char_matches(word[0], there[0]));
            assert(there[0] == path[p]);
            assert(p == 4);
            assert(replace::char_matches(word[1], there[1]));
            assert(there[1] == path[5]);
        }
    }
    assert forall|rest: Seq<char>, p: int| 0 <= p < decl.len() implies
        !#[trigger] replace::simple_matches(path, (decl + rest).skip(p)) by {
        let there = (decl + rest).skip(p);
        if replace::simple_matches(path, there) {
            assert(replace::char_matches(path[0], there[0]));
            assert(there[0] == decl[p]);
        }
    }
}

/// In the staking file, `enum Policy` stands where the declaration `enum Validators` stood, and the
/// parts before it and behind it become what they become alone.
pub proof fn law_every_declaration_is_renamed(x: Seq<char>, y: Seq<char>)
    ensures
        patch::staking_patched(x + "enum Validators"@ + y) == patch::staking_patched(x)
            + "enum Policy"@ + patch::staking_patched(y),
{
    let word = "enum Validators"@;
    let path = "stake_authorization::Validators"@;
    let put = config::VALIDATORS_ENUM_REPLACEMENT@;
    let renamed = config::VALIDATORS_PATH_REPLACEMENT@;
    lemma_literal_matches_itself(word);
    lemma_declaration_cuts(x, y);
    splits::lemma_simple_match(word, x, word, y, put);
    let x1 = replace::replace_simple(word, x, put);
    let y1 = replace::replace_simple(word, y, put);
    lemma_use_cuts(x1, y1);
    lemma_names_stay_apart();
    assert(path.len() > 0) by {
        reveal_strlit("stake_authorization::Validators");
    }
    splits::lemma_simple_cut(path, x1, put + y1, renamed);
    splits::lemma_simple_passes(path, put, y1, renamed);
    assert(x1 + put + y1 =~= x1 + (put + y1));
    let x2 = replace::replace_simple(path, x1, renamed);
    let y2 = replace::replace_simple(path, y1, renamed);
    assert(x2 + (put + y2) =~= x2 + put + y2);
}

/// A literal matches itself.
proof fn lemma_literal_matches_itself(word: Seq<char>)
    requires
        word == "enum Validators"@ || word == "stake_authorization::Validators"@,
    ensures
        word.len() > 0,
        replace::simple_matches(word, word),
{
    reveal_strlit("enum Validators");
    reveal_strlit("stake_authorization::Validators");
    assert forall|d: int| 0 <= d < word.len() implies replace::char_matches(
        #[trigger] word[d],
        word[d],
    ) by {}
}

/// In the staking file, `stake_authorization::Policy` stands where the use
/// `stake_authorization::Validators` stood, and the parts before it and behind it become what they
/// become alone. Its first letter must not be the last of a name before it.
pub proof fn law_every_use_is_renamed(x: Seq<char>, y: Seq<char>)
    requires
        !"enum Validator"@.is_suffix_of(x),
        !"stake_authorization::Validator"@.is_suffix_of(x),
    ensures
        patch::staking_patched(x + "stake_authorization::Validators"@ + y)
            == patch::staking_patched(x) + "stake_authorization::Policy"@ + patch::staking_patched(
            y,
        ),
{
    let word = "enum Validators"@;
    let path = "stake_authorization::Validators"@;
    let stem = "stake_authorization::Validator"@;
    let put = config::VALIDATORS_ENUM_REPLACEMENT@;
    let renamed = config::VALIDATORS_PATH_REPLACEMENT@;
    lemma_literal_matches_itself(path);
    lemma_literal_matches_itself(word);
    lemma_declaration_cuts(x, y);
    lemma_names_stay_apart();
    splits::lemma_simple_cut(word, x, path + y, put);
    splits::lemma_simple_passes(word, path, y, put);
    assert(x + path + y =~= x + (path + y));
    let x1 = replace::replace_simple(word, x, put);
    let y1 = replace::replace_simple(word, y, put);
    assert(x1 + (path + y1) =~= x1 + path + y1);
    if stem.is_suffix_of(x1) {
        assert(put.len() > 0 && forall|d: int| 0 <= d < stem.len() ==> #[trigger] stem[d]
            != put.last()) by {
            reveal_strlit("stake_authorization::Validator");
            reveal_strlit("enum Policy");
        }
        splits::lemma_simple_suffix(stem, word, x, put);
    }
    lemma_use_cuts(x1, y1);
    splits::lemma_simple_match(path, x1, path, y1, renamed);
}

/// A staking file that neither declares nor uses the enum stays as it is.
pub proof fn law_no_other_name_is_changed(text: Seq<char>)
    requires
        forall|u: Seq<char>, v: Seq<char>| text != #[trigger] (u + "enum Validators"@ + v),
        forall|u: Seq<char>, v: Seq<char>|
            text != #[trigger] (u + "stake_authorization::Validators"@ + v),
    ensures
        patch::staking_patched(text) == text,
{
    splits::lemma_absent("enum Validators"@, text);
    splits::lemma_absent("stake_authorization::Validators"@, text);
    patch::law_clean_staking_file_is_untouched(text);
}

/// A file is left out exactly if it is one of the `gogoproto`, `google` and `tendermint` packages.
pub proof fn law_only_three_packages_are_left_out(name: Seq<char>)
    ensures
        patch::excluded(name) <==> "gogoproto."@.is_prefix_of(name) || "google."@.is_prefix_of(name)
            || "tendermint."@.is_prefix_of(name),
{
    patch::lemma_excluded_names(name);
}

} // verus!

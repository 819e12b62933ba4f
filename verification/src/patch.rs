//! The substitutions that the emitted Rust code goes through.

use vstd::prelude::*;

use crate::config;
use crate::gates;
use crate::replace;
use crate::replace::PatternError;
use crate::replace_exact;
use crate::replace_facts;
use crate::text;

verus! {

/// The file belongs to a package whose code is left out.
pub open spec fn excluded(file_name: Seq<char>) -> bool {
    exists|i: int|
        0 <= i < config::excluded_proto_packages().len() && (
        #[trigger] config::excluded_proto_packages()[i] + "."@).is_prefix_of(file_name)
}

/// References to a `tendermint` module become references to the `tendermint_proto` crate.
pub open spec fn tendermint_redirected(text: Seq<char>) -> Seq<char> {
    replace::replace_repeated(
        "super::"@,
        "tendermint"@,
        text,
        config::TENDERMINT_REPLACEMENT@,
    )
}

/// gRPC client modules get their feature gate.
pub open spec fn clients_gated(text: Seq<char>) -> Seq<char> {
    replace::replace_simple(config::CLIENT_PATTERN@, text, config::CLIENT_REPLACEMENT@)
}

/// gRPC impls that use `tonic::transport` get their feature gate.
pub open spec fn transports_gated(text: Seq<char>) -> Seq<char> {
    replace::insert_in_lines("impl"@, "tonic::transport"@, config::TRANSPORT_GATE@, text)
}

/// gRPC server modules get their feature gate.
pub open spec fn servers_gated(text: Seq<char>) -> Seq<char> {
    replace::replace_simple(config::SERVER_PATTERN@, text, config::SERVER_REPLACEMENT@)
}

/// What an emitted file becomes.
pub open spec fn patched(text: Seq<char>) -> Seq<char> {
    servers_gated(transports_gated(clients_gated(tendermint_redirected(text))))
}

/// What the emitted staking file becomes in addition.
pub open spec fn staking_patched(text: Seq<char>) -> Seq<char> {
    replace::replace_simple(
        config::VALIDATORS_PATH_PATTERN@,
        replace::replace_simple(
            config::VALIDATORS_ENUM_PATTERN@,
            text,
            config::VALIDATORS_ENUM_REPLACEMENT@,
        ),
        config::VALIDATORS_PATH_REPLACEMENT@,
    )
}

/// The names of the files that are left out begin in one of three ways.
pub(crate) proof fn lemma_excluded_names(name: Seq<char>)
    ensures
        excluded(name) <==> "gogoproto."@.is_prefix_of(name) || "google."@.is_prefix_of(name)
            || "tendermint."@.is_prefix_of(name),
{
    let packages = config::excluded_proto_packages();
    assert(packages[0] + "."@ == "gogoproto."@ && packages[1] + "."@ == "google."@ && packages[2]
        + "."@ == "tendermint."@) by {
        reveal_strlit(".");
        reveal_strlit("gogoproto");
        reveal_strlit("gogoproto.");
        reveal_strlit("google");
        reveal_strlit("google.");
        reveal_strlit("tendermint");
        reveal_strlit("tendermint.");
        assert(packages[0] + "."@ =~= "gogoproto."@);
        assert(packages[1] + "."@ =~= "google."@);
        assert(packages[2] + "."@ =~= "tendermint."@);
    }
}

/// Whether a file is left out. A file without a name in Unicode is not.
pub fn is_excluded(file_name: Option<&str>) -> (yes: bool)
    ensures
        yes == (file_name matches Some(name) && excluded(name@)),
        yes == (file_name matches Some(name) && ("gogoproto."@.is_prefix_of(name@)
            || "google."@.is_prefix_of(name@) || "tendermint."@.is_prefix_of(name@))),
{
    let packages: [&str; 3] = ["gogoproto", "google", "tendermint"];
    let name = match file_name {
        Some(name) => name,
        None => return false,
    };
    let mut i: usize = 0;
    while i < 3
        invariant
            i <= 3,
            file_name == Some(name),
            packages@ == seq!["gogoproto", "google", "tendermint"],
            forall|k: int|
                0 <= k < i ==> !(#[trigger] config::excluded_proto_packages()[k]
                    + "."@).is_prefix_of(name@),
        decreases 3 - i,
    {
        let front = text::concat(packages[i], ".");
        assert(packages@[i as int]@ == config::excluded_proto_packages()[i as int]);
        if text::starts_with(name, front.as_str()) {
            proof {
                lemma_excluded_names(name@);
            }
            return true;
        }
        i += 1;
    }
    proof {
        lemma_excluded_names(name@);
    }
    false
}

/// Points references to a `tendermint` module to the `tendermint_proto` crate.
fn redirect_tendermint(text: &str) -> (out: String)
    ensures
        out@ == tendermint_redirected(text@),
{
    proof {
        reveal_strlit("(super::)+tendermint");
        reveal_strlit("super::");
        reveal_strlit("tendermint");
        reveal_strlit("tendermint_proto");
        assert(replace::repeated_pattern("super::"@, "tendermint"@) =~= config::TENDERMINT_PATTERN@);
        lemma_built_in_compiles(0);
    }
    replace::replace_all(
        config::TENDERMINT_PATTERN,
        text,
        config::TENDERMINT_REPLACEMENT,
    ).unwrap()
}

/// Gates gRPC client modules.
fn gate_clients(text: &str) -> (out: String)
    ensures
        out@ == clients_gated(text@),
{
    proof {
        reveal_strlit("/// Generated client implementations.");
        reveal_strlit(
            "/// Generated client implementations.\n#[cfg(feature = \"grpc\")]\n#[cfg_attr(docsrs, doc(cfg(feature = \"grpc\")))]",
        );
        lemma_built_in_compiles(1);
    }
    replace::replace_all(config::CLIENT_PATTERN, text, config::CLIENT_REPLACEMENT).unwrap()
}

/// Gates gRPC impls that use `tonic::transport`.
fn gate_transports(text: &str) -> (out: String)
    ensures
        out@ == transports_gated(text@),
{
    proof {
        reveal_strlit("impl(.+)tonic::transport(.+)");
        reveal_strlit("impl");
        reveal_strlit("tonic::transport");
        reveal_strlit(
            "#[cfg(feature = \"grpc-transport\")]\n    #[cfg_attr(docsrs, doc(cfg(feature = \"grpc-transport\")))]\n    ",
        );
        reveal_strlit(
            "#[cfg(feature = \"grpc-transport\")]\n    #[cfg_attr(docsrs, doc(cfg(feature = \"grpc-transport\")))]\n    impl${1}tonic::transport${2}",
        );
        assert(replace::line_pattern("impl"@, "tonic::transport"@) =~= config::TRANSPORT_PATTERN@);
        assert(replace::line_replacement(config::TRANSPORT_GATE@, "impl"@, "tonic::transport"@)
            =~= config::TRANSPORT_REPLACEMENT@);
        lemma_built_in_compiles(2);
    }
    replace::replace_all(config::TRANSPORT_PATTERN, text, config::TRANSPORT_REPLACEMENT).unwrap()
}

/// Gates gRPC server modules.
fn gate_servers(text: &str) -> (out: String)
    ensures
        out@ == servers_gated(text@),
{
    proof {
        reveal_strlit("/// Generated server implementations.");
        reveal_strlit(
            "/// Generated server implementations.\n#[cfg(feature = \"grpc\")]\n#[cfg_attr(docsrs, doc(cfg(feature = \"grpc\")))]",
        );
        lemma_built_in_compiles(3);
    }
    replace::replace_all(config::SERVER_PATTERN, text, config::SERVER_REPLACEMENT).unwrap()
}

/// What is to be written for an emitted file: nothing if it is left out, else its contents with
/// the substitutions made.
pub fn copy_and_patch(file_name: Option<&str>, contents: &str) -> (out: Option<String>)
    ensures
        out is None <==> (file_name matches Some(name) && excluded(name@)),
        out is None <==> (file_name matches Some(name) && ("gogoproto."@.is_prefix_of(name@)
            || "google."@.is_prefix_of(name@) || "tendermint."@.is_prefix_of(name@))),
        out matches Some(text) ==> text@ == patched(contents@),
{
    if is_excluded(file_name) {
        return None;
    }
    let redirected = redirect_tendermint(contents);
    let with_clients = gate_clients(redirected.as_str());
    let with_transports = gate_transports(with_clients.as_str());
    Some(gate_servers(with_transports.as_str()))
}

/// `contents` with every match of `pattern` replaced. Which patterns that are not small are too big
/// is for the `regex` crate to say, and depends on the machine.
pub fn patch_file(contents: &str, pattern: &str, replacement: &str) -> (out: Result<
    String,
    PatternError,
>)
    ensures
        out matches Ok(s) ==> s@ == replace::regex_replaced(pattern@, contents@, replacement@),
        out matches Ok(s) ==> (replace::is_simple(pattern@) && !replacement@.contains('$') ==> s@
            == replace::replace_simple(pattern@, contents@, replacement@)),
        out matches Ok(s) ==> (forall|a: Seq<char>, b: Seq<char>|
            #[trigger] replace::repeated_pattern(a, b) == pattern@ && replace::is_literal(a)
                && replace::is_literal(b) && !replacement@.contains('$') ==> s@
                == replace::replace_repeated(a, b, contents@, replacement@)),
        out matches Ok(s) ==> (forall|head: Seq<char>, tail: Seq<char>, block: Seq<char>|
            #![trigger replace::line_pattern(head, tail), replace::line_replacement(block, head, tail)]
            replace::line_pattern(head, tail) == pattern@ && replace::line_replacement(
                block,
                head,
                tail,
            ) == replacement@ && replace::is_literal(head) && replace::is_literal(tail)
                && !block.contains('$') ==> s@ == replace::insert_in_lines(
                head,
                tail,
                block,
                contents@,
            )),
        out == Err::<String, PatternError>(PatternError::Malformed) <==> !replace::regex_parses(
            pattern@,
        ),
        replace::has_known_form(pattern@) ==> !(out matches Err(PatternError::Malformed)),
        replace::is_small(pattern@) ==> (out is Ok <==> replace::regex_parses(pattern@)),
        replace::has_known_form(pattern@) && pattern@.len() <= replace::SMALL_PATTERN ==> out is Ok,
        config::built_in_patterns().contains(pattern@) ==> out is Ok,
{
    proof {
        if replace::has_known_form(pattern@) && pattern@.len() <= replace::SMALL_PATTERN {
            replace::lemma_known_form_is_plain(pattern@);
        }
        if config::built_in_patterns().contains(pattern@) {
            let i = choose|i: int|
                0 <= i < config::built_in_patterns().len() && config::built_in_patterns()[i]
                    == pattern@;
            lemma_built_in_compiles(i);
        }
    }
    replace::replace_all(pattern, contents, replacement)
}

/// The built-in patterns are small and of a known form.
proof fn lemma_built_in_compiles(i: int)
    requires
        0 <= i < config::built_in_patterns().len(),
    ensures
        replace::has_known_form(config::built_in_patterns()[i]),
        replace::is_small(config::built_in_patterns()[i]),
{
    let pattern = config::built_in_patterns()[i];
    if i == 0 {
        reveal_strlit("(super::)+tendermint");
        reveal_strlit("super::");
        reveal_strlit("tendermint");
        assert(replace::repeated_pattern("super::"@, "tendermint"@) =~= pattern);
    } else if i == 1 {
        reveal_strlit("/// Generated client implementations.");
        assert(replace::is_simple(pattern));
    } else if i == 2 {
        reveal_strlit("impl(.+)tonic::transport(.+)");
        reveal_strlit("impl");
        reveal_strlit("tonic::transport");
        assert(replace::line_pattern("impl"@, "tonic::transport"@) =~= pattern);
    } else if i == 3 {
        reveal_strlit("/// Generated server implementations.");
        assert(replace::is_simple(pattern));
    } else if i == 4 {
        reveal_strlit("enum Validators");
        assert(replace::is_simple(pattern));
    } else {
        reveal_strlit("stake_authorization::Validators");
        assert(replace::is_simple(pattern));
    }
    replace::lemma_known_form_is_plain(pattern);
}

/// Fixes the clashing type names in the emitted staking file.
pub fn apply_patches(contents: &str) -> (out: String)
    ensures
        out@ == staking_patched(contents@),
{
    proof {
        reveal_strlit("enum Validators");
        reveal_strlit("enum Policy");
        reveal_strlit("stake_authorization::Validators");
        reveal_strlit("stake_authorization::Policy");
        assert(config::built_in_patterns()[4] == config::VALIDATORS_ENUM_PATTERN@);
        assert(config::built_in_patterns()[5] == config::VALIDATORS_PATH_PATTERN@);
    }
    let declared = patch_file(
        contents,
        config::VALIDATORS_ENUM_PATTERN,
        config::VALIDATORS_ENUM_REPLACEMENT,
    ).unwrap();
    patch_file(
        declared.as_str(),
        config::VALIDATORS_PATH_PATTERN,
        config::VALIDATORS_PATH_REPLACEMENT,
    ).unwrap()
}

/// A reference to a `tendermint` module comes about anew and stays: somewhere `super::tendermin`
/// runs straight into a reference, so that the `t` of what is put in completes the word, and the
/// comment above a client or server module does not end, with the character that its pattern
/// leaves open, at the first character of the word.
pub open spec fn reference_stays(text: Seq<char>) -> bool {
    let redirected = tendermint_redirected(text);
    let with_transports = transports_gated(clients_gated(redirected));
    &&& replace::cut_short("super::"@, "tendermint"@, text)
    &&& replace::stands_apart("super::tendermint"@, config::CLIENT_PATTERN@, redirected)
    &&& replace::stands_apart("super::tendermint"@, config::SERVER_PATTERN@, with_transports)
}

/// Patched code refers to no `tendermint` module above it: every such reference now goes to the
/// `tendermint_proto` crate. The one exception is [`reference_stays`].
pub proof fn law_tendermint_is_redirected(text: Seq<char>)
    ensures
        text::occurs("super::tendermint"@, patched(text)) <==> reference_stays(text),
{
    let word = "super::tendermint"@;
    reveal_strlit("super::tendermint");
    reveal_strlit("super::");
    reveal_strlit("tendermint");
    reveal_strlit("tendermint_proto");
    assert("super::"@ + "tendermint"@ =~= word);
    let redirected = tendermint_redirected(text);
    replace_exact::lemma_repeated_leaves(
        "super::"@,
        "tendermint"@,
        text,
        config::TENDERMINT_REPLACEMENT@,
    );
    reveal_strlit("/// Generated client implementations.");
    reveal_strlit(
        "/// Generated client implementations.\n#[cfg(feature = \"grpc\")]\n#[cfg_attr(docsrs, doc(cfg(feature = \"grpc\")))]",
    );
    lemma_block_is_foreign(config::CLIENT_PATTERN@, config::CLIENT_REPLACEMENT@);
    lemma_no_comment_begins_in(config::CLIENT_PATTERN@, word);
    replace_exact::lemma_simple_leaves(
        word,
        config::CLIENT_PATTERN@,
        redirected,
        config::CLIENT_REPLACEMENT@,
    );
    let with_clients = clients_gated(redirected);
    reveal_strlit(
        "#[cfg(feature = \"grpc-transport\")]\n    #[cfg_attr(docsrs, doc(cfg(feature = \"grpc-transport\")))]\n    ",
    );
    lemma_block_is_foreign(Seq::empty(), config::TRANSPORT_GATE@);
    lemma_no_impl_begins_in_reference();
    replace_exact::lemma_lines_leave(
        word,
        "impl"@,
        "tonic::transport"@,
        config::TRANSPORT_GATE@,
        with_clients,
    );
    let with_transports = transports_gated(with_clients);
    reveal_strlit("/// Generated server implementations.");
    reveal_strlit(
        "/// Generated server implementations.\n#[cfg(feature = \"grpc\")]\n#[cfg_attr(docsrs, doc(cfg(feature = \"grpc\")))]",
    );
    lemma_block_is_foreign(config::SERVER_PATTERN@, config::SERVER_REPLACEMENT@);
    lemma_no_comment_begins_in(config::SERVER_PATTERN@, word);
    replace_exact::lemma_simple_leaves(
        word,
        config::SERVER_PATTERN@,
        with_transports,
        config::SERVER_REPLACEMENT@,
    );
    assert(replace::stands_apart(word, config::SERVER_PATTERN@, with_transports)
        ==> text::occurs(word, with_transports));
    assert(replace::stands_apart(word, config::CLIENT_PATTERN@, redirected) ==> text::occurs(
        word,
        redirected,
    ));
}

/// What begins with a slash does not begin in a word that has none.
proof fn lemma_no_comment_begins_in(pattern: Seq<char>, word: Seq<char>)
    requires
        pattern.len() > 0,
        pattern[0] == '/',
        forall|d: int| 0 <= d < word.len() ==> #[trigger] word[d] != '/',
    ensures
        replace_facts::no_match_begins_in(pattern, word),
{
    assert forall|rest: Seq<char>, p: int| 0 <= p < word.len() implies
        !#[trigger] replace::simple_matches(pattern, (word + rest).skip(p)) by {
        let there = (word + rest).skip(p);
        if replace::simple_matches(pattern, there) {
            assert(replace::char_matches(pattern[0], there[0]));
            assert(there[0] == word[p]);
        }
    }
}

/// No `impl` begins in `super::tendermint`.
proof fn lemma_no_impl_begins_in_reference()
    ensures
        replace_facts::no_line_match_begins_in(
            "impl"@,
            "tonic::transport"@,
            "super::tendermint"@,
        ),
{
    let word = "super::tendermint"@;
    reveal_strlit("impl");
    reveal_strlit("super::tendermint");
    assert forall|rest: Seq<char>, p: int| 0 <= p < word.len() implies
        !#[trigger] replace::line_matches("impl"@, "tonic::transport"@, (word + rest).skip(p)) by {
        let there = (word + rest).skip(p);
        if replace::line_matches("impl"@, "tonic::transport"@, there) {
            replace_facts::lemma_prefix_index("impl"@, there, 0);
            replace_facts::lemma_prefix_index("impl"@, there, 1);
            assert(there[0] == word[p]);
            assert(p == 14);
            assert(there[1] == word[15]);
        }
    }
}

/// A block in which no `s` has a `u` behind it, and that does not begin with a character of
/// `super::tendermint`, can have no part in that word.
proof fn lemma_block_is_foreign(pattern: Seq<char>, block: Seq<char>)
    requires
        block.len() > 0,
        block[0] == '/' || block[0] == '#',
        block.last() != 's',
        forall|i: int| 0 <= i < block.len() - 1 && block[i] == 's' ==> #[trigger] block[i + 1] != 'u',
    ensures
        replace_facts::cannot_begin_in("super::tendermint"@, block),
        replace_facts::cannot_end_in("super::tendermint"@, pattern, block),
{
    let word = "super::tendermint"@;
    reveal_strlit("super::tendermint");
    assert forall|i: int| 0 <= i < block.len() implies #[trigger] replace_facts::misfits(
        word,
        block,
        i,
    ) by {
        if block[i] == 's' {
            assert(block[i + 1] != 'u');
            assert(word[1] == 'u');
        } else {
            assert(word[0] != block[i + 0]);
        }
    }
    assert forall|k: int| 1 <= k < word.len() implies #[trigger] replace_facts::tail_is_foreign(
        word,
        pattern,
        block,
        k,
    ) by {
        assert(block[0] != word[k + 0]);
    }
}

/// Code that nothing has to be done to stays as it is.
pub proof fn law_other_code_is_untouched(text: Seq<char>)
    requires
        !text::occurs("super::tendermint"@, text),
        forall|i: int|
            #![trigger text.skip(i)]
            0 <= i <= text.len() ==> {
                &&& !replace::simple_matches(config::CLIENT_PATTERN@, text.skip(i))
                &&& !replace::line_matches("impl"@, "tonic::transport"@, text.skip(i))
                &&& !replace::simple_matches(config::SERVER_PATTERN@, text.skip(i))
            },
    ensures
        patched(text) == text,
{
    reveal_strlit("super::tendermint");
    reveal_strlit("super::");
    reveal_strlit("tendermint");
    assert("super::"@ + "tendermint"@ =~= "super::tendermint"@);
    replace_facts::lemma_repeated_absent(
        "super::"@,
        "tendermint"@,
        text,
        config::TENDERMINT_REPLACEMENT@,
    );
    replace_facts::lemma_simple_absent(config::CLIENT_PATTERN@, text, config::CLIENT_REPLACEMENT@);
    replace_facts::lemma_lines_absent(
        "impl"@,
        "tonic::transport"@,
        config::TRANSPORT_GATE@,
        text,
    );
    replace_facts::lemma_simple_absent(config::SERVER_PATTERN@, text, config::SERVER_REPLACEMENT@);
}

/// In patched code the comment above a gRPC client module always has the feature gate below it.
pub proof fn law_clients_are_gated(text: Seq<char>)
    ensures
        text::only_within(config::CLIENT_PATTERN@, config::CLIENT_REPLACEMENT@, patched(text)),
{
    let marker = config::CLIENT_PATTERN@;
    let gated = config::CLIENT_REPLACEMENT@;
    let server = config::SERVER_PATTERN@;
    let server_gated = config::SERVER_REPLACEMENT@;
    reveal_strlit("/// Generated client implementations.");
    reveal_strlit(
        "/// Generated client implementations.\n#[cfg(feature = \"grpc\")]\n#[cfg_attr(docsrs, doc(cfg(feature = \"grpc\")))]",
    );
    reveal_strlit("/// Generated server implementations.");
    reveal_strlit(
        "/// Generated server implementations.\n#[cfg(feature = \"grpc\")]\n#[cfg_attr(docsrs, doc(cfg(feature = \"grpc\")))]",
    );
    let redirected = tendermint_redirected(text);
    lemma_comment_is_foreign(marker, marker, gated);
    replace_facts::lemma_simple_marks(marker, redirected, gated);
    let with_clients = clients_gated(redirected);
    lemma_gate_is_foreign(marker);
    lemma_nothing_inserted_in_gated(gated);
    replace_facts::lemma_lines_keep_within(
        marker,
        gated,
        "impl"@,
        "tonic::transport"@,
        config::TRANSPORT_GATE@,
        with_clients,
    );
    let with_transports = transports_gated(with_clients);
    lemma_comment_is_foreign(marker, server, server_gated);
    assert(replace_facts::cannot_begin_in(marker, server_gated)) by {
        assert forall|i: int| 0 <= i < server_gated.len() implies #[trigger] replace_facts::misfits(
            marker,
            server_gated,
            i,
        ) by {
            if i == 0 {
                assert(marker[14] != server_gated[i + 14]);
            }
        }
    }
    assert(replace_facts::no_match_begins_in(server, gated)) by {
        assert forall|rest: Seq<char>, p: int| 0 <= p < gated.len() implies
            !#[trigger] replace::simple_matches(server, (gated + rest).skip(p)) by {
            let there = (gated + rest).skip(p);
            if replace::simple_matches(server, there) {
                assert(replace::char_matches(server[0], there[0]));
                assert(replace::char_matches(server[2], there[2]));
                assert(replace::char_matches(server[14], there[14]));
                assert(there[0] == gated[p]);
                if p <= 2 {
                    assert(there[2] == gated[p + 2]);
                }
            }
        }
    }
    replace_facts::lemma_simple_keeps_within(
        marker,
        gated,
        server,
        with_transports,
        server_gated,
    );
}

/// In patched code the comment above a gRPC server module always has the feature gate below it.
pub proof fn law_servers_are_gated(text: Seq<char>)
    ensures
        text::only_within(config::SERVER_PATTERN@, config::SERVER_REPLACEMENT@, patched(text)),
{
    let marker = config::SERVER_PATTERN@;
    let gated = config::SERVER_REPLACEMENT@;
    reveal_strlit("/// Generated server implementations.");
    reveal_strlit(
        "/// Generated server implementations.\n#[cfg(feature = \"grpc\")]\n#[cfg_attr(docsrs, doc(cfg(feature = \"grpc\")))]",
    );
    lemma_comment_is_foreign(marker, marker, gated);
    replace_facts::lemma_simple_marks(
        marker,
        transports_gated(clients_gated(tendermint_redirected(text))),
        gated,
    );
}

/// Two texts that begin with `/// G` and have no slash after that do not overlap.
proof fn lemma_comment_is_foreign(word: Seq<char>, pattern: Seq<char>, block: Seq<char>)
    requires
        word.len() > 5,
        block.len() > 5,
        word.take(5) =~= seq!['/', '/', '/', ' ', 'G'],
        block.take(5) =~= seq!['/', '/', '/', ' ', 'G'],
        forall|i: int| 3 <= i < word.len() ==> #[trigger] word[i] != '/',
        forall|i: int| 3 <= i < block.len() ==> #[trigger] block[i] != '/',
    ensures
        forall|i: int|
            1 <= i < block.len() ==> #[trigger] replace_facts::misfits(word, block, i),
        replace_facts::cannot_end_in(word, pattern, block),
{
    assert forall|d: int| 0 <= d < 5 implies word[d] == block[d] && word[d] == word.take(5)[d] by {
        assert(word.take(5)[d] == word[d]);
        assert(block.take(5)[d] == block[d]);
    }
    assert forall|i: int| 1 <= i < block.len() implies #[trigger] replace_facts::misfits(
        word,
        block,
        i,
    ) by {
        let d: int = if i == 1 { 2 } else if i == 2 { 1 } else { 0 };
        assert(word[d] != block[i + d]);
    }
    assert forall|k: int| 1 <= k < word.len() implies #[trigger] replace_facts::tail_is_foreign(
        word,
        pattern,
        block,
        k,
    ) by {
        let d: int = if k == 1 { 2 } else if k == 2 { 1 } else { 0 };
        assert(block[d] != word[k + d]);
    }
}

/// The attributes for `tonic::transport` have no part in a text that begins with a slash and has no `#`.
pub(crate) proof fn lemma_gate_is_foreign(word: Seq<char>)
    requires
        word.len() > 0,
        word[0] == '/',
        forall|i: int| 0 <= i < word.len() ==> #[trigger] word[i] != '#',
    ensures
        replace_facts::cannot_begin_in(word, config::TRANSPORT_GATE@),
        replace_facts::cannot_end_in(word, Seq::empty(), config::TRANSPORT_GATE@),
{
    let gate = config::TRANSPORT_GATE@;
    reveal_strlit(
        "#[cfg(feature = \"grpc-transport\")]\n    #[cfg_attr(docsrs, doc(cfg(feature = \"grpc-transport\")))]\n    ",
    );
    assert forall|i: int| 0 <= i < gate.len() implies #[trigger] replace_facts::misfits(
        word,
        gate,
        i,
    ) by {
        assert(word[0] != gate[i + 0]);
    }
    assert forall|k: int| 1 <= k < word.len() implies #[trigger] replace_facts::tail_is_foreign(
        word,
        Seq::empty(),
        gate,
        k,
    ) by {
        assert(gate[0] != word[k + 0]);
    }
}

/// The one `impl` in a gated comment is that of `implementations`, at the end of its line.
proof fn lemma_nothing_inserted_in_gated(gated: Seq<char>)
    requires
        gated == config::CLIENT_REPLACEMENT@ || gated == config::SERVER_REPLACEMENT@,
    ensures
        replace_facts::no_line_match_begins_in("impl"@, "tonic::transport"@, gated),
{
    reveal_strlit("impl");
    reveal_strlit("tonic::transport");
    reveal_strlit(
        "/// Generated server implementations.\n#[cfg(feature = \"grpc\")]\n#[cfg_attr(docsrs, doc(cfg(feature = \"grpc\")))]",
    );
    reveal_strlit(
        "/// Generated client implementations.\n#[cfg(feature = \"grpc\")]\n#[cfg_attr(docsrs, doc(cfg(feature = \"grpc\")))]",
    );
    assert forall|rest: Seq<char>, p: int| 0 <= p < gated.len() implies
        !#[trigger] replace::line_matches("impl"@, "tonic::transport"@, (gated + rest).skip(p)) by {
        let there = (gated + rest).skip(p);
        if replace::line_matches("impl"@, "tonic::transport"@, there) {
            replace_facts::lemma_prefix_index("impl"@, there, 0);
            replace_facts::lemma_prefix_index("impl"@, there, 1);
            assert(there[0] == gated[p]);
            assert(there[1] == gated[p + 1]);
            assert(p == 21);
            assert(there[16] == gated[37]);
            replace_facts::lemma_line_end(there);
        }
    }
}

/// Where a gRPC impl in a patched file uses `tonic::transport`, the feature attributes stand in front
/// of it in its line, right there or before another such impl, unless a server comment with its
/// feature gate stands between the two: then that comment is the last in front of it in its line.
pub proof fn law_transports_are_gated(text: Seq<char>, i: int)
    requires
        0 <= i <= patched(text).len(),
        replace::line_matches("impl"@, "tonic::transport"@, patched(text).skip(i)),
    ensures
        replace::is_under_block(config::TRANSPORT_GATE@, patched(text), i)
            <==> !replace::is_under_block(config::SERVER_REPLACEMENT@, patched(text), i),
{
    let gate = config::TRANSPORT_GATE@;
    let marker = config::SERVER_PATTERN@;
    let marked = config::SERVER_REPLACEMENT@;
    let source = clients_gated(tendermint_redirected(text));
    let gated = transports_gated(source);
    reveal_strlit("impl");
    reveal_strlit("tonic::transport");
    reveal_strlit("/// Generated server implementations.");
    reveal_strlit(
        "/// Generated server implementations.\n#[cfg(feature = \"grpc\")]\n#[cfg_attr(docsrs, doc(cfg(feature = \"grpc\")))]",
    );
    reveal_strlit(
        "#[cfg(feature = \"grpc-transport\")]\n    #[cfg_attr(docsrs, doc(cfg(feature = \"grpc-transport\")))]\n    ",
    );
    lemma_gate_is_separate();
    lemma_server_comment_is_mark();
    assert(gates::is_bait(marker.drop_last(), "impl"@, gate, 21)) by {
        assert(marker.drop_last().subrange(21, 25) =~= "impl"@);
    }
    assert forall|j: int|
        0 <= j <= gated.len() && replace::line_matches(
            "impl"@,
            "tonic::transport"@,
            #[trigger] gated.skip(j),
        ) implies gates::is_soundly_under(gate, marker.drop_last(), gated, j) by {
        gates::lemma_lines_under_block(
            "impl"@,
            "tonic::transport"@,
            gate,
            source,
            marker.drop_last(),
            21,
            j,
        );
    }
    gates::lemma_under_gate_or_block(
        "impl"@,
        "tonic::transport"@,
        gate,
        marker,
        marked,
        gated,
        i,
    );
    gates::lemma_not_under_both(gate, marked, patched(text), i, 96, 62);
}

/// The attributes for `tonic::transport` have no part in what they are put in front of.
proof fn lemma_gate_is_separate()
    ensures
        replace_facts::is_separate_block(
            "impl"@,
            "tonic::transport"@,
            config::TRANSPORT_GATE@,
        ),
{
    let gate = config::TRANSPORT_GATE@;
    reveal_strlit("impl");
    reveal_strlit("tonic::transport");
    reveal_strlit(
        "#[cfg(feature = \"grpc-transport\")]\n    #[cfg_attr(docsrs, doc(cfg(feature = \"grpc-transport\")))]\n    ",
    );
    assert forall|k: int| 0 <= k < gate.len() implies #[trigger] replace_facts::misfits(
        "impl"@,
        gate,
        k,
    ) by {
        assert("impl"@[0] != gate[k + 0]);
    }
    assert forall|k: int| 0 <= k < gate.len() implies #[trigger] replace_facts::misfits(
        "tonic::transport"@,
        gate,
        k,
    ) by {
        let d: int = if gate[k] == 't' { 1 } else { 0 };
        assert("tonic::transport"@[d] != gate[k + d]);
    }
    assert forall|k: int| 1 <= k < "impl"@.len() implies #[trigger] replace_facts::tail_is_foreign(
        "impl"@,
        Seq::empty(),
        gate,
        k,
    ) by {
        assert(gate[0] != "impl"@[k + 0]);
    }
    assert forall|k: int| 1 <= k < "tonic::transport"@.len() implies
        #[trigger] replace_facts::tail_is_foreign("tonic::transport"@, Seq::empty(), gate, k) by {
        assert(gate[0] != "tonic::transport"@[k + 0]);
    }
    assert(gate[34] == '\n');
}

/// A server comment with its feature gate has no part in an impl that uses `tonic::transport`.
proof fn lemma_server_comment_is_mark()
    ensures
        gates::is_mark(
            "impl"@,
            "tonic::transport"@,
            config::SERVER_PATTERN@,
            config::SERVER_REPLACEMENT@,
        ),
{
    let marker = config::SERVER_PATTERN@;
    let marked = config::SERVER_REPLACEMENT@;
    let tail = "tonic::transport"@;
    reveal_strlit("impl");
    reveal_strlit("tonic::transport");
    reveal_strlit("/// Generated server implementations.");
    reveal_strlit(
        "/// Generated server implementations.\n#[cfg(feature = \"grpc\")]\n#[cfg_attr(docsrs, doc(cfg(feature = \"grpc\")))]",
    );
    lemma_nothing_inserted_in_gated(marked);
    assert forall|k: int| 0 <= k < marked.len() implies #[trigger] replace_facts::misfits(
        tail,
        marked,
        k,
    ) by {
        let d: int = if marked[k] == 't' { 1 } else { 0 };
        assert(tail[d] != marked[k + d]);
    }
    assert forall|k: int| 1 <= k < "impl"@.len() implies #[trigger] replace_facts::tail_is_foreign(
        "impl"@,
        marker,
        marked,
        k,
    ) by {
        assert(marked[0] != "impl"@[k + 0]);
    }
    assert forall|k: int| 1 <= k < tail.len() implies #[trigger] replace_facts::tail_is_foreign(
        tail,
        marker,
        marked,
        k,
    ) by {
        assert(marked[0] != tail[k + 0]);
    }
}

/// After the patches the staking file neither declares nor uses the clashing name.
pub proof fn law_names_no_longer_clash(text: Seq<char>)
    ensures
        !text::occurs(config::VALIDATORS_ENUM_PATTERN@, staking_patched(text)),
        !text::occurs(config::VALIDATORS_PATH_PATTERN@, staking_patched(text)),
{
    let old_decl = config::VALIDATORS_ENUM_PATTERN@;
    let new_decl = config::VALIDATORS_ENUM_REPLACEMENT@;
    let old_path = config::VALIDATORS_PATH_PATTERN@;
    let new_path = config::VALIDATORS_PATH_REPLACEMENT@;
    reveal_strlit("enum Validators");
    reveal_strlit("enum Policy");
    reveal_strlit("stake_authorization::Validators");
    reveal_strlit("stake_authorization::Policy");
    assert(replace_facts::cannot_begin_in(old_decl, new_decl)) by {
        assert forall|i: int| 0 <= i < new_decl.len() implies #[trigger] replace_facts::misfits(
            old_decl,
            new_decl,
            i,
        ) by {
            let d: int = if i == 0 { 5 } else { 0 };
            assert(old_decl[d] != new_decl[i + d]);
        }
    }
    assert(replace_facts::cannot_end_in(old_decl, old_decl, new_decl)) by {
        assert forall|k: int| 1 <= k < old_decl.len() implies
            #[trigger] replace_facts::tail_is_foreign(old_decl, old_decl, new_decl, k) by {
            assert(new_decl[0] != old_decl[k + 0]);
        }
    }
    replace_facts::lemma_literal_removed(old_decl, text, new_decl);
    let declared = replace::replace_simple(old_decl, text, new_decl);
    assert(replace_facts::cannot_begin_in(old_path, new_path)) by {
        assert forall|i: int| 0 <= i < new_path.len() implies #[trigger] replace_facts::misfits(
            old_path,
            new_path,
            i,
        ) by {
            let d: int = if i == 0 { 21 } else { 0 };
            assert(old_path[d] != new_path[i + d]);
        }
    }
    assert(replace_facts::cannot_end_in(old_path, old_path, new_path)) by {
        assert forall|k: int| 1 <= k < old_path.len() implies
            #[trigger] replace_facts::tail_is_foreign(old_path, old_path, new_path, k) by {
            if k < old_path.len() - 1 {
                assert(new_path[0] != old_path[k + 0]);
            }
        }
    }
    replace_facts::lemma_literal_removed(old_path, declared, new_path);
    assert(replace_facts::cannot_begin_in(old_decl, new_path)) by {
        assert forall|i: int| 0 <= i < new_path.len() implies #[trigger] replace_facts::misfits(
            old_decl,
            new_path,
            i,
        ) by {
            let d: int = if i == 4 { 1 } else { 0 };
            assert(old_decl[d] != new_path[i + d]);
        }
    }
    assert(replace_facts::cannot_end_in(old_decl, old_path, new_path)) by {
        assert forall|k: int| 1 <= k < old_decl.len() implies
            #[trigger] replace_facts::tail_is_foreign(old_decl, old_path, new_path, k) by {
            if k < old_decl.len() - 1 {
                assert(new_path[0] != old_decl[k + 0]);
            }
        }
    }
    replace_facts::lemma_simple_keeps_out(old_decl, old_path, declared, new_path);
}

/// A staking file without the clashing name stays as it is.
pub proof fn law_clean_staking_file_is_untouched(text: Seq<char>)
    requires
        !text::occurs(config::VALIDATORS_ENUM_PATTERN@, text),
        !text::occurs(config::VALIDATORS_PATH_PATTERN@, text),
    ensures
        staking_patched(text) == text,
{
    reveal_strlit("enum Validators");
    reveal_strlit("stake_authorization::Validators");
    replace_facts::lemma_literal_absent(
        config::VALIDATORS_ENUM_PATTERN@,
        text,
        config::VALIDATORS_ENUM_REPLACEMENT@,
    );
    replace_facts::lemma_literal_absent(
        config::VALIDATORS_PATH_PATTERN@,
        text,
        config::VALIDATORS_PATH_REPLACEMENT@,
    );
}

/// To patch the staking file again changes nothing.
pub proof fn law_staking_patch_is_idempotent(text: Seq<char>)
    ensures
        staking_patched(staking_patched(text)) == staking_patched(text),
{
    law_names_no_longer_clash(text);
    law_clean_staking_file_is_untouched(staking_patched(text));
}

} // verus!

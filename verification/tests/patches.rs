use proto_build::config;
use proto_build::patch::{apply_patches, copy_and_patch, is_excluded, patch_file};
use proto_build::replace::PatternError;

const CLIENT_GATED: &str = "/// Generated client implementations.\n#[cfg(feature = \"grpc\")]\n#[cfg_attr(docsrs, doc(cfg(feature = \"grpc\")))]";
const SERVER_GATED: &str = "/// Generated server implementations.\n#[cfg(feature = \"grpc\")]\n#[cfg_attr(docsrs, doc(cfg(feature = \"grpc\")))]";
const GATE: &str = "#[cfg(feature = \"grpc-transport\")]\n    #[cfg_attr(docsrs, doc(cfg(feature = \"grpc-transport\")))]\n    ";

fn patched(text: &str) -> String {
    copy_and_patch(Some("cosmos.bank.v1beta1.rs"), text).unwrap()
}

#[test]
fn files_of_excluded_packages() {
    assert!(is_excluded(Some("gogoproto.rs")));
    assert!(is_excluded(Some("google.protobuf.rs")));
    assert!(is_excluded(Some("tendermint.types.rs")));
    assert!(is_excluded(Some("tendermint.")));
    assert!(!is_excluded(Some("tendermint")));
    assert!(!is_excluded(Some("tendermint_types.rs")));
    assert!(!is_excluded(Some("cosmos.base.tendermint.v1beta1.rs")));
    assert!(!is_excluded(Some("COSMOS_SDK_COMMIT")));
    assert!(!is_excluded(Some("")));
    assert!(!is_excluded(None));
}

#[test]
fn excluded_files_are_not_written() {
    assert_eq!(copy_and_patch(Some("google.api.rs"), "x"), None);
    assert_eq!(copy_and_patch(Some("ibc.core.rs"), "x"), Some("x".to_string()));
    assert_eq!(copy_and_patch(None, "super::tendermint"), Some("tendermint_proto".to_string()));
}

#[test]
fn tendermint_references_are_redirected() {
    assert_eq!(
        patched("pub key: super::super::super::tendermint::crypto::PublicKey,"),
        "pub key: tendermint_proto::crypto::PublicKey,"
    );
    assert_eq!(patched("super::tendermint super::cosmos"), "tendermint_proto super::cosmos");
    assert_eq!(patched("super::super::super::tender"), "super::super::super::tender");
    assert_eq!(patched("super::tendermintsuper::tendermint"), "tendermint_prototendermint_proto");
    assert_eq!(patched("tendermint::types"), "tendermint::types");
}

#[test]
fn a_reference_after_a_cut_one() {
    assert_eq!(
        patched("super::tenderminsuper::tendermint"),
        "super::tendermintendermint_proto"
    );
    assert_eq!(
        patched("/// Generated client implementationssuper::tenderminsuper::tendermint"),
        format!("{}uper::tendermintendermint_proto", CLIENT_GATED)
    );
    assert_eq!(
        patched("/// Generated server implementationssuper::tenderminsuper::tendermint"),
        format!("{}uper::tendermintendermint_proto", SERVER_GATED)
    );
}

#[test]
fn client_modules_are_gated() {
    assert_eq!(
        patched("/// Generated client implementations.\npub mod query_client {"),
        format!("{}\npub mod query_client {{", CLIENT_GATED)
    );
    assert_eq!(patched("/// Generated client implementations!"), CLIENT_GATED);
    assert_eq!(
        patched("/// Generated client implementations\n"),
        "/// Generated client implementations\n"
    );
}

#[test]
fn server_modules_are_gated() {
    assert_eq!(
        patched("a\n/// Generated server implementations.\nb"),
        format!("a\n{}\nb", SERVER_GATED)
    );
    assert_eq!(
        patched("/// Generated server implementations\n/// Generated server implementations."),
        format!("/// Generated server implementations\n{}", SERVER_GATED)
    );
}

#[test]
fn transport_impls_are_gated() {
    assert_eq!(
        patched("    impl QueryClient<tonic::transport::Channel> {\n        x\n"),
        format!("    {}impl QueryClient<tonic::transport::Channel> {{\n        x\n", GATE)
    );
    assert_eq!(patched("impltonic::transport::Channel"), "impltonic::transport::Channel");
    assert_eq!(patched("impl tonic::transport"), "impl tonic::transport");
    assert_eq!(patched("impl\ntonic::transport::Channel"), "impl\ntonic::transport::Channel");
    assert_eq!(
        patched("simple impl tonic::transport tonic::transport x\nimpl tonic::transport y"),
        format!(
            "s{}imple impl tonic::transport tonic::transport x\n{}impl tonic::transport y",
            GATE, GATE
        )
    );
    assert_eq!(
        patched("impl a impl b tonic::transport c"),
        format!("{}impl a impl b tonic::transport c", GATE)
    );
}

#[test]
fn a_server_comment_parts_an_impl_from_its_gate() {
    assert_eq!(
        patched("impl a tonic::transport /// Generated server implementations. b impl c tonic::transport d"),
        format!("{}impl a tonic::transport {} b impl c tonic::transport d", GATE, SERVER_GATED)
    );
    assert_eq!(
        patched("/// Generated server implementations. impl c tonic::transport d"),
        format!(
            "/// Generated server {}implementations. impl c tonic::transport d",
            GATE
        )
    );
}

#[test]
fn all_substitutions_together() {
    assert_eq!(
        patched("/// Generated client implementations.\nimpl X<super::tendermint, tonic::transport::Y>\n/// Generated server implementations.\n"),
        format!("{}\n{}impl X<tendermint_proto, tonic::transport::Y>\n{}\n", CLIENT_GATED, GATE, SERVER_GATED)
    );
}

#[test]
fn other_code_is_untouched() {
    let code = "pub struct Coin {\n    pub denom: String,\n}\n// caf\u{e9} $1 ${2}\n";
    assert_eq!(patched(code), code);
    assert_eq!(patched(""), "");
}

#[test]
fn staking_names_are_fixed() {
    let code = "pub validators: Option<stake_authorization::Validators>,\npub enum Validators {}\npub struct Validators {}\n";
    let fixed = "pub validators: Option<stake_authorization::Policy>,\npub enum Policy {}\npub struct Validators {}\n";
    assert_eq!(apply_patches(code), fixed);
    assert_eq!(apply_patches(fixed), fixed);
    assert_eq!(
        apply_patches("enum Validatorstake_authorization::Validators"),
        "enum Policytake_authorization::Validators"
    );
    assert_eq!(
        apply_patches("stake_authorization::Validatorstake_authorization::Validators"),
        "stake_authorization::Policytake_authorization::Validators"
    );
}

#[test]
fn patch_file_expands_groups() {
    assert_eq!(patch_file("a-b a-c", "a-(.)", "${1}!"), Ok("b! c!".to_string()));
    assert_eq!(patch_file("abc", "x", "y"), Ok("abc".to_string()));
    assert_eq!(patch_file("a.c abc a\nc", "a.c", "_"), Ok("_ _ a\nc".to_string()));
}

#[test]
fn a_long_literal_is_replaced() {
    let word = "ab_: /9Z".repeat(128);
    let text = format!("[{}]", word);
    assert_eq!(patch_file(&text, &word, "x"), Ok("[x]".to_string()));
    assert_eq!(patch_file(&text[..word.len()], &word, "x"), Ok(text[..word.len()].to_string()));
}

#[test]
fn small_patterns_compile() {
    let dots = ".".repeat(1024);
    let text = "\u{e9}".repeat(1024);
    assert_eq!(patch_file(&text, &dots, "x"), Ok("x".to_string()));
    let head = "h".repeat(507);
    let line = format!("{}(.+){}(.+)", head, head);
    assert_eq!(patch_file(&format!("{}-{}-\n", head, head), &line, "${1}${2}"), Ok("--\n".to_string()));
    let run = format!("({})+{}", "ab".repeat(255), "cd".repeat(255));
    let matched = format!("{}{}", "ab".repeat(510), "cd".repeat(255));
    assert_eq!(patch_file(&format!("<{}>", matched), &run, "x"), Ok("<x>".to_string()));
    for unit in [".*", ".+", ".?", "(.)", "a|", ".|", "(.|b)*", "(.?)+", "^", "$", "(a*)*", "(?i)k.", "(?R).$"] {
        let pattern = unit.repeat(1024 / unit.len());
        assert!(patch_file("", &pattern, "").is_ok(), "{}", unit);
    }
    assert_eq!(patch_file("a b a", "^a|b$", "x"), Ok("x b a".to_string()));
    assert_eq!(patch_file("a", "^*+?)", "x"), Err(PatternError::Malformed));
}

#[test]
fn malformed_pattern() {
    assert_eq!(patch_file("abc", "a(b", "y"), Err(PatternError::Malformed));
}

#[test]
fn pattern_over_the_size_limit() {
    assert_eq!(patch_file("abc", r"\w{1000}", "y"), Err(PatternError::TooBig));
}

#[test]
fn built_in_patterns_compile() {
    for pattern in [
        config::TENDERMINT_PATTERN,
        config::CLIENT_PATTERN,
        config::TRANSPORT_PATTERN,
        config::SERVER_PATTERN,
        config::VALIDATORS_ENUM_PATTERN,
        config::VALIDATORS_PATH_PATTERN,
    ] {
        assert_eq!(patch_file("", pattern, ""), Ok(String::new()));
    }
}

use proto_build::command::{
    command_output, next_step, run_cmd, update_submodules, Exit, Next, Output, Program, Step,
};
use proto_build::compile::{
    compile_ibc_protos_and_services, compile_juno_protos_and_services,
    compile_osmosis_protos_and_services, compile_sdk_protos_and_services,
    compile_wasmd_proto_and_services, CompileJob,
};
use proto_build::copy::{copy_errors, copy_generated_files, copy_message};
use proto_build::log::{
    commit_message, info, is_github, is_quiet, set_quiet, verbosity_for, Verbosity,
};
use proto_build::paths::join;
use proto_build::plan::{build_plan, Stage};
use proto_build::versions::{
    output_ibc_version, output_juno_version, output_osmosis_version, output_sdk_version,
    output_wasmd_version,
};
use proto_build::walk::{collect_protos, file_extension, run_rustfmt, Entry, Walk};

fn owned(list: &[&str]) -> Vec<String> {
    list.iter().map(|s| s.to_string()).collect()
}

fn file(path: &str, name: &str) -> Result<Entry<String>, String> {
    Ok(Entry { path: path.to_string(), name: name.to_string(), is_file: true })
}

fn dir(path: &str, name: &str) -> Result<Entry<String>, String> {
    Ok(Entry { path: path.to_string(), name: name.to_string(), is_file: false })
}

#[test]
fn quiet_suppresses_messages() {
    let mut v = Verbosity::new();
    assert!(!is_quiet(&v));
    assert_eq!(info(&v, "hello"), Some("[info] hello".to_string()));
    assert_eq!(command_output(&v), Output::Inherit);
    set_quiet(&mut v);
    assert!(is_quiet(&v));
    assert_eq!(info(&v, "hello"), None);
    assert_eq!(command_output(&v), Output::Null);
    set_quiet(&mut v);
    assert!(is_quiet(&v));
}

#[test]
fn github_flag() {
    assert!(is_github(&owned(&["proto-build", "--github"])));
    assert!(!is_github(&owned(&["proto-build", "--git", "github", "--github "])));
    assert!(!is_github(&owned(&[])));
    assert!(is_quiet(&verbosity_for(&owned(&["x", "--github"]))));
    assert!(!is_quiet(&verbosity_for(&owned(&["x"]))));
}

#[test]
fn commit_message_names_the_revisions() {
    assert_eq!(
        commit_message(),
        "Rebuild protos with proto-build (cosmos-sdk rev: v0.46.12 ibc-go rev: v5.2.0 wasmd rev: v0.29.2))"
    );
}

#[test]
fn a_failed_program_breaks_off() {
    assert_eq!(run_cmd(Program::Git, Exit { success: true, code: Some(0) }), Ok(()));
    for code in [Some(0), Some(1), Some(128), Some(-7), Some(i32::MAX), Some(i32::MIN), None] {
        assert_eq!(
            run_cmd(Program::Git, Exit { success: false, code }),
            Err(format!("{:?} exited with error code: {:?}", "git", code))
        );
        assert_eq!(
            run_cmd(Program::Rustfmt, Exit { success: false, code }),
            Err(format!("{:?} exited with error code: {:?}", "rustfmt", code))
        );
    }
}

#[test]
fn submodule_update() {
    let shown: Vec<String> = update_submodules()
        .into_iter()
        .map(|step| match step {
            Step::Info(message) => message,
            Step::Git(args) => format!("git {}", args.join(" ")),
        })
        .collect();
    assert_eq!(
        shown,
        [
            "Updating cosmos/cosmos-sdk submodule...",
            "git submodule update --init",
            "git -C ../dependencies/cosmos-sdk fetch",
            "git -C ../dependencies/cosmos-sdk reset --hard v0.46.12",
            "Updating cosmos/ibc-go submodule...",
            "git submodule update --init",
            "git -C ../dependencies/ibc-go fetch",
            "git -C ../dependencies/ibc-go reset --hard v5.2.0",
            "Updating wasmd submodule...",
            "git submodule update --init",
            "git -C ../dependencies/wasmd fetch",
            "git -C ../dependencies/wasmd reset --hard v0.29.2",
        ]
    );
}

/// Goes through the update with the git run number `failing`, counted from 1, failing; gives the
/// number of steps and of git runs, and the text that the update breaks off with.
fn run_update(failing: usize) -> (usize, usize, Option<String>) {
    let list = update_submodules();
    let mut done = 0;
    let mut runs = 0;
    let mut last = Ok(());
    loop {
        last = match next_step(&list, done, last) {
            Next::Do(Step::Info(_)) => Ok(()),
            Next::Do(Step::Git(_)) => {
                runs += 1;
                run_cmd(Program::Git, Exit { success: runs != failing, code: Some(128) })
            }
            Next::Finished => return (done, runs, None),
            Next::BreakOff(message) => return (done, runs, Some(message)),
        };
        done += 1;
    }
}

#[test]
fn a_failed_git_run_ends_the_update() {
    let message = Some("\"git\" exited with error code: Some(128)".to_string());
    let steps = [2, 3, 4, 6, 7, 8, 10, 11, 12];
    for k in 1..=9 {
        assert_eq!(run_update(k), (steps[k - 1], k, message.clone()));
    }
    assert_eq!(run_update(0), (12, 9, None));
}

#[test]
fn how_steps_go_on() {
    let list = update_submodules();
    assert!(matches!(
        next_step(&list, 0, Ok(())),
        Next::Do(Step::Info(message)) if message == "Updating cosmos/cosmos-sdk submodule..."
    ));
    assert!(matches!(next_step(&list, 11, Ok(())), Next::Do(Step::Git(_))));
    assert!(matches!(next_step(&list, 12, Ok(())), Next::Finished));
    assert!(matches!(next_step(&list, 13, Ok(())), Next::Finished));
    assert!(matches!(
        next_step(&list, 12, Err("no".to_string())),
        Next::BreakOff(message) if message == "no"
    ));
}

#[test]
fn paths_are_joined_as_std_joins_them() {
    for base in ["", "/", "a", "a/", "/tmp/tmp-protobuf/", "../x"] {
        for rest in ["", "b", "../proto", "/abs", "b/c.rs"] {
            let expected = std::path::Path::new(base).join(rest);
            assert_eq!(join(base, rest), expected.to_str().unwrap());
        }
    }
}

#[test]
fn version_files() {
    for (made, path, contents) in [
        (output_sdk_version("/t/x"), "/t/x/COSMOS_SDK_COMMIT", "v0.46.12"),
        (output_ibc_version("/t/x"), "/t/x/IBC_COMMIT", "v5.2.0"),
        (output_wasmd_version("/t/x"), "/t/x/WASMD_COMMIT", "v0.29.2"),
        (
            output_juno_version("/t/x/"),
            "/t/x/QUICKSILVER_COMMIT",
            "nguyen/replace-validate-claim-logic",
        ),
        (output_osmosis_version("/t/x"), "/t/x/OSMOSIS_COMMIT", "v10.0.0"),
    ] {
        assert_eq!(made.path, path);
        assert_eq!(made.contents, contents);
    }
}

fn below(tree: &str, mock: bool, packages: &[&str]) -> Vec<String> {
    let mut list = Vec::new();
    if mock {
        list.push("/root/../proto/definitions/mock".to_string());
    }
    for p in packages {
        list.push(format!("{}/proto/{}", tree, p));
    }
    list
}

fn check_tree(job: &CompileJob, tree: &str, server: bool, packages: &[&str]) {
    assert_eq!(job.sources, below(tree, true, packages));
    assert_eq!(
        job.includes,
        [
            "/root/../proto".to_string(),
            format!("{}/proto", tree),
            format!("{}/third_party/proto", tree),
        ]
    );
    assert_eq!(job.notice, "Compiling proto definitions and clients for GRPC services!");
    assert_eq!(job.out_dir, "/out");
    assert!(job.build_client);
    assert_eq!(job.build_server, server);
    let mapping = job.mapping.as_ref().unwrap();
    assert_eq!(mapping.proto_path, ".tendermint");
    assert_eq!(mapping.rust_path, "::tendermint_proto");
}

#[test]
fn sdk_run() {
    let job = compile_sdk_protos_and_services("/root", "/out");
    assert_eq!(
        job.opening.as_deref(),
        Some("Compiling cosmos-sdk .proto files to Rust into '/out'...")
    );
    check_tree(
        &job,
        "../dependencies/cosmos-sdk",
        true,
        &[
            "cosmos/auth",
            "cosmos/authz",
            "cosmos/bank",
            "cosmos/base",
            "cosmos/base/tendermint",
            "cosmos/capability",
            "cosmos/crisis",
            "cosmos/crypto",
            "cosmos/distribution",
            "cosmos/evidence",
            "cosmos/feegrant",
            "cosmos/genutil",
            "cosmos/gov",
            "cosmos/mint",
            "cosmos/params",
            "cosmos/slashing",
            "cosmos/staking",
            "cosmos/tx",
            "cosmos/upgrade",
            "cosmos/vesting",
        ],
    );
}

#[test]
fn juno_run() {
    let job = compile_juno_protos_and_services("/root", "/out");
    assert_eq!(
        job.opening.as_deref(),
        Some("Compiling cosmos-sdk .proto files to Rust into '/out'...")
    );
    check_tree(
        &job,
        "../dependencies/quicksilver",
        true,
        &[
            "quicksilver/airdrop",
            "quicksilver/claimsmanager",
            "quicksilver/epochs",
            "quicksilver/interchainquery",
            "quicksilver/interchainstaking",
            "quicksilver/mint",
            "quicksilver/participationrewards",
            "quicksilver/tokenfactory",
        ],
    );
}

#[test]
fn osmosis_run() {
    let job = compile_osmosis_protos_and_services("/root", "/out");
    assert_eq!(
        job.opening.as_deref(),
        Some("Compiling cosmos-sdk .proto files to Rust into '/out'...")
    );
    check_tree(
        &job,
        "../dependencies/osmosis",
        true,
        &[
            "osmosis/gamm/pool-models/balancer",
            "osmosis/gamm/pool-models/stableswap",
            "osmosis/gamm/v1beta1",
            "osmosis/lockup",
        ],
    );
}

#[test]
fn ibc_run() {
    let job = compile_ibc_protos_and_services("/root", "/out");
    assert_eq!(
        job.opening.as_deref(),
        Some("Compiling .proto files to Rust into '/out'...")
    );
    check_tree(
        &job,
        "../dependencies/ibc-go",
        false,
        &[
            "ibc/applications/interchain_accounts",
            "ibc/applications/transfer",
            "ibc/core/channel",
            "ibc/core/client",
            "ibc/core/commitment",
            "ibc/core/connection",
            "ibc/core/port",
            "ibc/core/types",
            "ibc/lightclients/localhost",
            "ibc/lightclients/solomachine",
            "ibc/lightclients/tendermint",
        ],
    );
}

#[test]
fn wasmd_run() {
    let job = compile_wasmd_proto_and_services("/root", "/out");
    assert_eq!(job.opening, None);
    assert_eq!(job.notice, "Compiling wasmd proto clients for GRPC services!");
    assert_eq!(job.sources, below("../dependencies/wasmd", false, &["cosmwasm/wasm"]));
    assert_eq!(
        job.includes,
        ["/root/../proto", "../dependencies/wasmd/proto", "../dependencies/wasmd/third_party/proto"]
    );
    assert_eq!(job.out_dir, "/out");
    assert!(job.build_client);
    assert!(!job.build_server);
    assert!(job.mapping.is_none());
}

#[test]
fn sources_lie_below_an_import_directory() {
    for job in [
        compile_sdk_protos_and_services("r", "o"),
        compile_juno_protos_and_services("r", "o"),
        compile_osmosis_protos_and_services("r", "o"),
        compile_ibc_protos_and_services("r", "o"),
        compile_wasmd_proto_and_services("r", "o"),
    ] {
        for source in &job.sources {
            assert!(job.includes.iter().any(|i| source.starts_with(&format!("{}/", i))));
        }
    }
}

#[test]
fn extensions_are_those_of_std() {
    for name in [
        "a.proto", "a.b.proto", ".proto", "proto", "a.", "..", "...", ".", "", "a..proto", "..a",
        "caf\u{e9}.proto", "a.prot\u{f6}",
    ] {
        let expected = std::path::Path::new(name).extension().map(|e| e.to_str().unwrap().to_string());
        assert_eq!(file_extension(name), expected, "{}", name);
    }
}

#[test]
fn protos_are_collected() {
    let walks = vec![
        Walk {
            root: "a".to_string(),
            entries: vec![
                dir("a", "a"),
                file("a/x.proto", "x.proto"),
                dir("a/d.proto", "d.proto"),
                file("a/d.proto/y.proto", "y.proto"),
                file("a/readme.md", "readme.md"),
                file("a/.proto", ".proto"),
            ],
        },
        Walk { root: "gone".to_string(), entries: vec![Err("no such directory".to_string())] },
        Walk {
            root: "b".to_string(),
            entries: vec![
                file("b/1.proto", "1.proto"),
                Err("first".to_string()),
                Err("second".to_string()),
                file("b/2.proto", "2.proto"),
            ],
        },
        Walk { root: "c".to_string(), entries: vec![file("c.proto", "c.proto")] },
    ];
    let earlier = "earlier".to_string();
    let mut protos = vec![&earlier];
    let failed = collect_protos(&walks, &mut protos);
    assert_eq!(protos, ["earlier", "a/x.proto", "a/d.proto/y.proto", "c.proto"]);
    let failed: Vec<(String, String)> = failed.into_iter().map(|f| (f.root, f.error)).collect();
    assert_eq!(
        failed,
        [
            ("gone".to_string(), "no such directory".to_string()),
            ("b".to_string(), "first".to_string()),
        ]
    );
}

#[test]
fn rust_files_are_formatted() {
    let items = vec![
        dir("src.rs", "src.rs"),
        file("src.rs/a.rs", "a.rs"),
        Err("unreadable".to_string()),
        file("src.rs/IBC_COMMIT", "IBC_COMMIT"),
        file("src.rs/b.rs", "b.rs"),
    ];
    let args = run_rustfmt(&items);
    assert_eq!(args.flags, ["--edition", "2021"]);
    assert_eq!(args.files, ["src.rs/a.rs", "src.rs/b.rs"]);
}

#[test]
fn emitted_files_are_copied() {
    let items = vec![
        dir("/tmp/x", "x"),
        file("/tmp/x/IBC_COMMIT", "IBC_COMMIT"),
        Err("unreadable".to_string()),
        file("/tmp/x/sub/ibc.core.rs", "ibc.core.rs"),
    ];
    let list: Vec<(String, String)> = copy_generated_files(&items, "../out")
        .into_iter()
        .map(|t| (t.source.clone(), t.destination))
        .collect();
    assert_eq!(
        list,
        [
            ("/tmp/x/IBC_COMMIT".to_string(), "../out/IBC_COMMIT".to_string()),
            ("/tmp/x/sub/ibc.core.rs".to_string(), "../out/ibc.core.rs".to_string()),
        ]
    );
    assert_eq!(copy_message("../out"), "Copying generated files into '../out'...");
}

#[test]
fn copy_errors_are_reported() {
    assert!(copy_errors(&vec![Ok(()), Ok(())]).is_empty());
    assert_eq!(
        copy_errors(&vec![Ok(()), Err("a".to_string()), Ok(()), Err("b".to_string())]),
        [
            "[error] Error while copying compiled file: a",
            "[error] Error while copying compiled file: b",
        ]
    );
}

fn shown(stage: &Stage) -> String {
    match stage {
        Stage::RemoveDir(d) => format!("remove {}", d),
        Stage::CreateDir(d) => format!("create {}", d),
        Stage::Write(f) => format!("write {} {}", f.path, f.contents),
        Stage::Compile(j) => format!("compile {} {}", j.sources[1], j.out_dir),
        Stage::Copy { from, to } => format!("copy {} {}", from, to),
        Stage::Patch(p) => format!("patch {}", p),
        Stage::Info(m) => format!("info {}", m),
        Stage::Format(d) => format!("format {}", d),
        Stage::Print(l) => format!("print {}", l),
    }
}

#[test]
fn the_whole_build() {
    let list: Vec<String> = build_plan("/root", &owned(&["x"])).iter().map(shown).collect();
    assert_eq!(
        list,
        [
            "remove /tmp/tmp-protobuf/",
            "create /tmp/tmp-protobuf/cosmos-sdk",
            "create /tmp/tmp-protobuf/ibc-go",
            "create /tmp/tmp-protobuf/wasmd",
            "create /tmp/tmp-protobuf/quicksilver",
            "create /tmp/tmp-protobuf/osmosis",
            "write /tmp/tmp-protobuf/cosmos-sdk/COSMOS_SDK_COMMIT v0.46.12",
            "write /tmp/tmp-protobuf/ibc-go/IBC_COMMIT v5.2.0",
            "write /tmp/tmp-protobuf/quicksilver/QUICKSILVER_COMMIT nguyen/replace-validate-claim-logic",
            "write /tmp/tmp-protobuf/osmosis/OSMOSIS_COMMIT v10.0.0",
            "compile ../dependencies/cosmos-sdk/proto/cosmos/auth /tmp/tmp-protobuf/cosmos-sdk",
            "compile ../dependencies/ibc-go/proto/ibc/applications/interchain_accounts /tmp/tmp-protobuf/ibc-go",
            "compile ../dependencies/quicksilver/proto/quicksilver/airdrop /tmp/tmp-protobuf/quicksilver",
            "compile ../dependencies/osmosis/proto/osmosis/gamm/pool-models/balancer /tmp/tmp-protobuf/osmosis",
            "copy /tmp/tmp-protobuf/cosmos-sdk ../juno-rust-proto/src/prost/cosmos-sdk",
            "copy /tmp/tmp-protobuf/ibc-go ../juno-rust-proto/src/prost/ibc-go",
            "copy /tmp/tmp-protobuf/quicksilver ../juno-rust-proto/src/prost/quicksilver",
            "copy /tmp/tmp-protobuf/osmosis ../juno-rust-proto/src/prost/osmosis",
            "patch ../juno-rust-proto/src/prost/cosmos-sdk/cosmos.staking.v1beta1.rs",
            "info Running rustfmt on prost/tonic-generated code",
            "format ../juno-rust-proto/src/prost/",
        ]
    );
    let github = build_plan("/root", &owned(&["x", "--github"]));
    assert_eq!(github.len(), list.len() + 1);
    assert_eq!(shown(&github[list.len()]), format!("print {}", commit_message()));
}

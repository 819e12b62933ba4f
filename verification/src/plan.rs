//! The build as a whole: what is done, and in which order.

use vstd::prelude::*;

use crate::compile;
use crate::compile::CompileJob;
use crate::compile::CompileJobView;
use crate::config;
use crate::log;
use crate::paths;
use crate::versions;
use crate::versions::VersionFile;
use crate::versions::VersionFileView;

verus! {

/// One stage of the build.
pub enum Stage {
    /// A directory is removed, with all that is in it, if it exists.
    RemoveDir(String),
    /// A directory is created, with the directories above it.
    CreateDir(String),
    /// A file is written.
    Write(VersionFile),
    /// The proto compiler is run.
    Compile(CompileJob),
    /// The emitted files in `from` are patched and brought to `to`, which is emptied first.
    Copy { from: String, to: String },
    /// Clashing names in the file are fixed.
    Patch(String),
    /// A message is logged.
    Info(String),
    /// The Rust files below the directory are formatted.
    Format(String),
    /// A line is printed.
    Print(String),
}

/// What a [`Stage`] holds.
pub enum StageView {
    RemoveDir(Seq<char>),
    CreateDir(Seq<char>),
    Write(VersionFileView),
    Compile(CompileJobView),
    Copy(Seq<char>, Seq<char>),
    Patch(Seq<char>),
    Info(Seq<char>),
    Format(Seq<char>),
    Print(Seq<char>),
}

impl View for Stage {
    type V = StageView;

    open spec fn view(&self) -> StageView {
        match self {
            Stage::RemoveDir(dir) => StageView::RemoveDir(dir@),
            Stage::CreateDir(dir) => StageView::CreateDir(dir@),
            Stage::Write(file) => StageView::Write(file@),
            Stage::Compile(job) => StageView::Compile(job@),
            Stage::Copy { from, to } => StageView::Copy(from@, to@),
            Stage::Patch(path) => StageView::Patch(path@),
            Stage::Info(message) => StageView::Info(message@),
            Stage::Format(dir) => StageView::Format(dir@),
            Stage::Print(line) => StageView::Print(line@),
        }
    }
}

/// What a list of stages holds.
pub open spec fn stages(list: Seq<Stage>) -> Seq<StageView> {
    list.map_values(|stage: Stage| stage@)
}

/// The directory that the code of a source tree is emitted into.
pub open spec fn temp_dir(tree: Seq<char>) -> Seq<char> {
    paths::joined(config::TMP_BUILD_DIR@, tree)
}

/// The directory that the code of a source tree is brought to.
pub open spec fn final_dir(tree: Seq<char>) -> Seq<char> {
    paths::joined(config::COSMOS_SDK_PROTO_DIR@, tree)
}

/// All the stages but the last.
pub open spec fn common_stages(root: Seq<char>) -> Seq<StageView> {
    seq![
        StageView::RemoveDir(config::TMP_BUILD_DIR@),
        StageView::CreateDir(temp_dir("cosmos-sdk"@)),
        StageView::CreateDir(temp_dir("ibc-go"@)),
        StageView::CreateDir(temp_dir("wasmd"@)),
        StageView::CreateDir(temp_dir("quicksilver"@)),
        StageView::CreateDir(temp_dir("osmosis"@)),
        StageView::Write(
            versions::version_file(
                temp_dir("cosmos-sdk"@),
                "COSMOS_SDK_COMMIT"@,
                config::COSMOS_SDK_REV@,
            ),
        ),
        StageView::Write(
            versions::version_file(temp_dir("ibc-go"@), "IBC_COMMIT"@, config::IBC_REV@),
        ),
        StageView::Write(
            versions::version_file(
                temp_dir("quicksilver"@),
                "QUICKSILVER_COMMIT"@,
                config::JUNO_REV@,
            ),
        ),
        StageView::Write(
            versions::version_file(temp_dir("osmosis"@), "OSMOSIS_COMMIT"@, config::OSMOSIS_REV@),
        ),
        StageView::Compile(compile::sdk_job(root, temp_dir("cosmos-sdk"@))),
        StageView::Compile(compile::ibc_job(root, temp_dir("ibc-go"@))),
        StageView::Compile(compile::juno_job(root, temp_dir("quicksilver"@))),
        StageView::Compile(compile::osmosis_job(root, temp_dir("osmosis"@))),
        StageView::Copy(temp_dir("cosmos-sdk"@), final_dir("cosmos-sdk"@)),
        StageView::Copy(temp_dir("ibc-go"@), final_dir("ibc-go"@)),
        StageView::Copy(temp_dir("quicksilver"@), final_dir("quicksilver"@)),
        StageView::Copy(temp_dir("osmosis"@), final_dir("osmosis"@)),
        StageView::Patch(final_dir("cosmos-sdk/cosmos.staking.v1beta1.rs"@)),
        StageView::Info("Running rustfmt on prost/tonic-generated code"@),
        StageView::Format(config::COSMOS_SDK_PROTO_DIR@),
    ]
}

/// The stages of the build. For GitHub the commit message is printed at the end.
pub open spec fn build_stages(root: Seq<char>, github: bool) -> Seq<StageView> {
    if github {
        common_stages(root).push(StageView::Print(log::commit_text()))
    } else {
        common_stages(root)
    }
}

/// The stages of the build, from the command line arguments. `root` is the directory of this
/// package.
pub fn build_plan(root: &str, args: &Vec<String>) -> (list: Vec<Stage>)
    ensures
        stages(list@) == build_stages(root@, log::has_github_flag(args@)),
{
    let sdk_dir = paths::join(config::TMP_BUILD_DIR, "cosmos-sdk");
    let ibc_dir = paths::join(config::TMP_BUILD_DIR, "ibc-go");
    let wasmd_dir = paths::join(config::TMP_BUILD_DIR, "wasmd");
    let juno_dir = paths::join(config::TMP_BUILD_DIR, "quicksilver");
    let osmosis_dir = paths::join(config::TMP_BUILD_DIR, "osmosis");
    let proto_dir = config::COSMOS_SDK_PROTO_DIR;
    let sdk = sdk_dir.as_str();
    let ibc = ibc_dir.as_str();
    let juno = juno_dir.as_str();
    let osmosis = osmosis_dir.as_str();

    let mut list: Vec<Stage> = Vec::new();
    list.push(Stage::RemoveDir(config::TMP_BUILD_DIR.to_owned()));
    list.push(Stage::CreateDir(sdk_dir.clone()));
    list.push(Stage::CreateDir(ibc_dir.clone()));
    list.push(Stage::CreateDir(wasmd_dir));
    list.push(Stage::CreateDir(juno_dir.clone()));
    list.push(Stage::CreateDir(osmosis_dir.clone()));
    list.push(Stage::Write(versions::output_sdk_version(sdk)));
    list.push(Stage::Write(versions::output_ibc_version(ibc)));
    list.push(Stage::Write(versions::output_juno_version(juno)));
    list.push(Stage::Write(versions::output_osmosis_version(osmosis)));
    list.push(Stage::Compile(compile::compile_sdk_protos_and_services(root, sdk)));
    list.push(Stage::Compile(compile::compile_ibc_protos_and_services(root, ibc)));
    list.push(Stage::Compile(compile::compile_juno_protos_and_services(root, juno)));
    list.push(Stage::Compile(compile::compile_osmosis_protos_and_services(root, osmosis)));
    list.push(Stage::Copy { from: sdk_dir.clone(), to: paths::join(proto_dir, "cosmos-sdk") });
    list.push(Stage::Copy { from: ibc_dir.clone(), to: paths::join(proto_dir, "ibc-go") });
    list.push(Stage::Copy { from: juno_dir.clone(), to: paths::join(proto_dir, "quicksilver") });
    list.push(Stage::Copy { from: osmosis_dir.clone(), to: paths::join(proto_dir, "osmosis") });
    list.push(Stage::Patch(paths::join(proto_dir, "cosmos-sdk/cosmos.staking.v1beta1.rs")));
    list.push(Stage::Info("Running rustfmt on prost/tonic-generated code".to_owned()));
    list.push(Stage::Format(proto_dir.to_owned()));
    proof {
        assert(stages(list@) =~= common_stages(root@));
    }
    if log::is_github(args) {
        let ghost before = list@;
        list.push(Stage::Print(log::commit_message()));
        proof {
            assert(stages(list@) =~= stages(before).push(StageView::Print(log::commit_text())));
        }
    }
    list
}

/// What a run of the compiler emits goes into a directory that was created before, and is brought
/// to its place after.
pub proof fn law_emitted_code_is_brought_to_its_place(root: Seq<char>, github: bool, k: int)
    requires
        0 <= k < build_stages(root, github).len(),
        build_stages(root, github)[k] is Compile,
    ensures
        ({
            let list = build_stages(root, github);
            let dir = list[k]->Compile_0.out_dir;
            &&& exists|i: int| 0 <= i < k && #[trigger] list[i] == StageView::CreateDir(dir)
            &&& exists|j: int|
                k < j < list.len() && (#[trigger] list[j] matches StageView::Copy(from, _) && from
                    == dir)
        }),
{
    let list = build_stages(root, github);
    let i: int = if k == 10 { 1 } else if k == 11 { 2 } else if k == 12 { 4 } else { 5 };
    assert(list[i] == StageView::CreateDir(list[k]->Compile_0.out_dir));
    assert(list[k + 4] is Copy);
}

/// Every file that goes to a directory is in place before a file there is patched, and all of it
/// before the code is formatted.
pub proof fn law_code_is_finished_in_order(root: Seq<char>, github: bool, i: int, j: int)
    requires
        0 <= i < build_stages(root, github).len(),
        0 <= j < build_stages(root, github).len(),
    ensures
        build_stages(root, github)[i] is Copy && build_stages(root, github)[j] is Patch ==> i < j,
        build_stages(root, github)[i] is Copy && build_stages(root, github)[j] is Format ==> i < j,
        build_stages(root, github)[i] is Patch && build_stages(root, github)[j] is Format ==> i < j,
{
}

/// The directories of the trees, written out.
proof fn lemma_dirs()
    ensures
        temp_dir("cosmos-sdk"@) == "/tmp/tmp-protobuf/cosmos-sdk"@,
        temp_dir("ibc-go"@) == "/tmp/tmp-protobuf/ibc-go"@,
        temp_dir("wasmd"@) == "/tmp/tmp-protobuf/wasmd"@,
        temp_dir("quicksilver"@) == "/tmp/tmp-protobuf/quicksilver"@,
        temp_dir("osmosis"@) == "/tmp/tmp-protobuf/osmosis"@,
        final_dir("cosmos-sdk"@) == "../juno-rust-proto/src/prost/cosmos-sdk"@,
        final_dir("ibc-go"@) == "../juno-rust-proto/src/prost/ibc-go"@,
        final_dir("quicksilver"@) == "../juno-rust-proto/src/prost/quicksilver"@,
        final_dir("osmosis"@) == "../juno-rust-proto/src/prost/osmosis"@,
{
    reveal_strlit("/tmp/tmp-protobuf/");
    reveal_strlit("../juno-rust-proto/src/prost/");
    assert(temp_dir("cosmos-sdk"@) == "/tmp/tmp-protobuf/cosmos-sdk"@) by {
        reveal_strlit("cosmos-sdk");
        reveal_strlit("/tmp/tmp-protobuf/cosmos-sdk");
        assert("/tmp/tmp-protobuf/"@ + "cosmos-sdk"@ =~= "/tmp/tmp-protobuf/cosmos-sdk"@);
    }
    assert(temp_dir("ibc-go"@) == "/tmp/tmp-protobuf/ibc-go"@) by {
        reveal_strlit("ibc-go");
        reveal_strlit("/tmp/tmp-protobuf/ibc-go");
        assert("/tmp/tmp-protobuf/"@ + "ibc-go"@ =~= "/tmp/tmp-protobuf/ibc-go"@);
    }
    assert(temp_dir("wasmd"@) == "/tmp/tmp-protobuf/wasmd"@) by {
        reveal_strlit("wasmd");
        reveal_strlit("/tmp/tmp-protobuf/wasmd");
        assert("/tmp/tmp-protobuf/"@ + "wasmd"@ =~= "/tmp/tmp-protobuf/wasmd"@);
    }
    assert(temp_dir("quicksilver"@) == "/tmp/tmp-protobuf/quicksilver"@) by {
        reveal_strlit("quicksilver");
        reveal_strlit("/tmp/tmp-protobuf/quicksilver");
        assert("/tmp/tmp-protobuf/"@ + "quicksilver"@ =~= "/tmp/tmp-protobuf/quicksilver"@);
    }
    assert(temp_dir("osmosis"@) == "/tmp/tmp-protobuf/osmosis"@) by {
        reveal_strlit("osmosis");
        reveal_strlit("/tmp/tmp-protobuf/osmosis");
        assert("/tmp/tmp-protobuf/"@ + "osmosis"@ =~= "/tmp/tmp-protobuf/osmosis"@);
    }
    assert(final_dir("cosmos-sdk"@) == "../juno-rust-proto/src/prost/cosmos-sdk"@) by {
        reveal_strlit("cosmos-sdk");
        reveal_strlit("../juno-rust-proto/src/prost/cosmos-sdk");
        assert("../juno-rust-proto/src/prost/"@ + "cosmos-sdk"@ =~= "../juno-rust-proto/src/prost/cosmos-sdk"@);
    }
    assert(final_dir("ibc-go"@) == "../juno-rust-proto/src/prost/ibc-go"@) by {
        reveal_strlit("ibc-go");
        reveal_strlit("../juno-rust-proto/src/prost/ibc-go");
        assert("../juno-rust-proto/src/prost/"@ + "ibc-go"@ =~= "../juno-rust-proto/src/prost/ibc-go"@);
    }
    assert(final_dir("quicksilver"@) == "../juno-rust-proto/src/prost/quicksilver"@) by {
        reveal_strlit("quicksilver");
        reveal_strlit("../juno-rust-proto/src/prost/quicksilver");
        assert("../juno-rust-proto/src/prost/"@ + "quicksilver"@ =~= "../juno-rust-proto/src/prost/quicksilver"@);
    }
    assert(final_dir("osmosis"@) == "../juno-rust-proto/src/prost/osmosis"@) by {
        reveal_strlit("osmosis");
        reveal_strlit("../juno-rust-proto/src/prost/osmosis");
        assert("../juno-rust-proto/src/prost/"@ + "osmosis"@ =~= "../juno-rust-proto/src/prost/osmosis"@);
    }
}

/// Where the version files and the staking file are.
proof fn lemma_files()
    ensures
        paths::joined("/tmp/tmp-protobuf/cosmos-sdk"@, "COSMOS_SDK_COMMIT"@) == "/tmp/tmp-protobuf/cosmos-sdk/COSMOS_SDK_COMMIT"@,
        paths::joined("/tmp/tmp-protobuf/ibc-go"@, "IBC_COMMIT"@) == "/tmp/tmp-protobuf/ibc-go/IBC_COMMIT"@,
        paths::joined("/tmp/tmp-protobuf/quicksilver"@, "QUICKSILVER_COMMIT"@) == "/tmp/tmp-protobuf/quicksilver/QUICKSILVER_COMMIT"@,
        paths::joined("/tmp/tmp-protobuf/osmosis"@, "OSMOSIS_COMMIT"@) == "/tmp/tmp-protobuf/osmosis/OSMOSIS_COMMIT"@,
        final_dir("cosmos-sdk/cosmos.staking.v1beta1.rs"@)
            == "../juno-rust-proto/src/prost/cosmos-sdk/cosmos.staking.v1beta1.rs"@,
{
    reveal_strlit("/");
    assert(paths::joined("/tmp/tmp-protobuf/cosmos-sdk"@, "COSMOS_SDK_COMMIT"@) == "/tmp/tmp-protobuf/cosmos-sdk/COSMOS_SDK_COMMIT"@) by {
        reveal_strlit("/tmp/tmp-protobuf/cosmos-sdk");
        reveal_strlit("COSMOS_SDK_COMMIT");
        reveal_strlit("/tmp/tmp-protobuf/cosmos-sdk/COSMOS_SDK_COMMIT");
        assert("/tmp/tmp-protobuf/cosmos-sdk"@ + "/"@ + "COSMOS_SDK_COMMIT"@ =~= "/tmp/tmp-protobuf/cosmos-sdk/COSMOS_SDK_COMMIT"@);
    }
    assert(paths::joined("/tmp/tmp-protobuf/ibc-go"@, "IBC_COMMIT"@) == "/tmp/tmp-protobuf/ibc-go/IBC_COMMIT"@) by {
        reveal_strlit("/tmp/tmp-protobuf/ibc-go");
        reveal_strlit("IBC_COMMIT");
        reveal_strlit("/tmp/tmp-protobuf/ibc-go/IBC_COMMIT");
        assert("/tmp/tmp-protobuf/ibc-go"@ + "/"@ + "IBC_COMMIT"@ =~= "/tmp/tmp-protobuf/ibc-go/IBC_COMMIT"@);
    }
    assert(paths::joined("/tmp/tmp-protobuf/quicksilver"@, "QUICKSILVER_COMMIT"@) == "/tmp/tmp-protobuf/quicksilver/QUICKSILVER_COMMIT"@) by {
        reveal_strlit("/tmp/tmp-protobuf/quicksilver");
        reveal_strlit("QUICKSILVER_COMMIT");
        reveal_strlit("/tmp/tmp-protobuf/quicksilver/QUICKSILVER_COMMIT");
        assert("/tmp/tmp-protobuf/quicksilver"@ + "/"@ + "QUICKSILVER_COMMIT"@ =~= "/tmp/tmp-protobuf/quicksilver/QUICKSILVER_COMMIT"@);
    }
    assert(paths::joined("/tmp/tmp-protobuf/osmosis"@, "OSMOSIS_COMMIT"@) == "/tmp/tmp-protobuf/osmosis/OSMOSIS_COMMIT"@) by {
        reveal_strlit("/tmp/tmp-protobuf/osmosis");
        reveal_strlit("OSMOSIS_COMMIT");
        reveal_strlit("/tmp/tmp-protobuf/osmosis/OSMOSIS_COMMIT");
        assert("/tmp/tmp-protobuf/osmosis"@ + "/"@ + "OSMOSIS_COMMIT"@ =~= "/tmp/tmp-protobuf/osmosis/OSMOSIS_COMMIT"@);
    }
    reveal_strlit("../juno-rust-proto/src/prost/");
    reveal_strlit("cosmos-sdk/cosmos.staking.v1beta1.rs");
    reveal_strlit("../juno-rust-proto/src/prost/cosmos-sdk/cosmos.staking.v1beta1.rs");
    assert("../juno-rust-proto/src/prost/"@ + "cosmos-sdk/cosmos.staking.v1beta1.rs"@
        =~= "../juno-rust-proto/src/prost/cosmos-sdk/cosmos.staking.v1beta1.rs"@);
}

/// What the commit message says, in full.
proof fn lemma_commit_text()
    ensures
        log::commit_text()
            == "Rebuild protos with proto-build (cosmos-sdk rev: v0.46.12 ibc-go rev: v5.2.0 wasmd rev: v0.29.2))"@,
{
    reveal_strlit("Rebuild protos with proto-build (cosmos-sdk rev: ");
    reveal_strlit("v0.46.12");
    reveal_strlit(" ibc-go rev: ");
    reveal_strlit("v5.2.0");
    reveal_strlit(" wasmd rev: ");
    reveal_strlit("v0.29.2");
    reveal_strlit("))");
    reveal_strlit(
        "Rebuild protos with proto-build (cosmos-sdk rev: v0.46.12 ibc-go rev: v5.2.0 wasmd rev: v0.29.2))",
    );
    assert(log::commit_text()
        =~= "Rebuild protos with proto-build (cosmos-sdk rev: v0.46.12 ibc-go rev: v5.2.0 wasmd rev: v0.29.2))"@);
}

/// What is done in a build, whatever the directory of this package is: these stages, each of them
/// once, and no others. The commit message is printed for GitHub only.
pub proof fn law_what_is_done(root: Seq<char>, github: bool, stage: StageView)
    ensures
        build_stages(root, github).len() == (if github {
            22int
        } else {
            21int
        }),
        build_stages(root, github).contains(stage) <==> (match stage {
            StageView::RemoveDir(dir) => dir == "/tmp/tmp-protobuf/"@,
            StageView::CreateDir(dir) => {
                ||| dir == "/tmp/tmp-protobuf/cosmos-sdk"@
                ||| dir == "/tmp/tmp-protobuf/ibc-go"@
                ||| dir == "/tmp/tmp-protobuf/wasmd"@
                ||| dir == "/tmp/tmp-protobuf/quicksilver"@
                ||| dir == "/tmp/tmp-protobuf/osmosis"@
            },
            StageView::Write(file) => {
                ||| file.path == "/tmp/tmp-protobuf/cosmos-sdk/COSMOS_SDK_COMMIT"@ && file.contents
                    == "v0.46.12"@
                ||| file.path == "/tmp/tmp-protobuf/ibc-go/IBC_COMMIT"@ && file.contents
                    == "v5.2.0"@
                ||| file.path == "/tmp/tmp-protobuf/quicksilver/QUICKSILVER_COMMIT"@ && file.contents
                    == "nguyen/replace-validate-claim-logic"@
                ||| file.path == "/tmp/tmp-protobuf/osmosis/OSMOSIS_COMMIT"@ && file.contents
                    == "v10.0.0"@
            },
            StageView::Compile(job) => {
                ||| job == compile::sdk_job(root, "/tmp/tmp-protobuf/cosmos-sdk"@)
                ||| job == compile::ibc_job(root, "/tmp/tmp-protobuf/ibc-go"@)
                ||| job == compile::juno_job(root, "/tmp/tmp-protobuf/quicksilver"@)
                ||| job == compile::osmosis_job(root, "/tmp/tmp-protobuf/osmosis"@)
            },
            StageView::Copy(from, to) => {
                ||| from == "/tmp/tmp-protobuf/cosmos-sdk"@ && to
                    == "../juno-rust-proto/src/prost/cosmos-sdk"@
                ||| from == "/tmp/tmp-protobuf/ibc-go"@ && to
                    == "../juno-rust-proto/src/prost/ibc-go"@
                ||| from == "/tmp/tmp-protobuf/quicksilver"@ && to
                    == "../juno-rust-proto/src/prost/quicksilver"@
                ||| from == "/tmp/tmp-protobuf/osmosis"@ && to
                    == "../juno-rust-proto/src/prost/osmosis"@
            },
            StageView::Patch(path) => path
                == "../juno-rust-proto/src/prost/cosmos-sdk/cosmos.staking.v1beta1.rs"@,
            StageView::Info(message) => message == "Running rustfmt on prost/tonic-generated code"@,
            StageView::Format(dir) => dir == "../juno-rust-proto/src/prost/"@,
            StageView::Print(line) => github && line
                == "Rebuild protos with proto-build (cosmos-sdk rev: v0.46.12 ibc-go rev: v5.2.0 wasmd rev: v0.29.2))"@,
        }),
{
    let list = build_stages(root, github);
    lemma_dirs();
    lemma_files();
    lemma_commit_text();
    match stage {
        StageView::RemoveDir(dir) => {
            if dir == "/tmp/tmp-protobuf/"@ {
                assert(list[0] == stage);
            }
        },
        StageView::CreateDir(dir) => {
            if dir == "/tmp/tmp-protobuf/cosmos-sdk"@ {
                assert(list[1] == stage);
            }
            if dir == "/tmp/tmp-protobuf/ibc-go"@ {
                assert(list[2] == stage);
            }
            if dir == "/tmp/tmp-protobuf/wasmd"@ {
                assert(list[3] == stage);
            }
            if dir == "/tmp/tmp-protobuf/quicksilver"@ {
                assert(list[4] == stage);
            }
            if dir == "/tmp/tmp-protobuf/osmosis"@ {
                assert(list[5] == stage);
            }
        },
        StageView::Write(file) => {
            if file.path == "/tmp/tmp-protobuf/cosmos-sdk/COSMOS_SDK_COMMIT"@ && file.contents == "v0.46.12"@ {
                assert(list[6] == stage);
            }
            if file.path == "/tmp/tmp-protobuf/ibc-go/IBC_COMMIT"@ && file.contents == "v5.2.0"@ {
                assert(list[7] == stage);
            }
            if file.path == "/tmp/tmp-protobuf/quicksilver/QUICKSILVER_COMMIT"@ && file.contents == "nguyen/replace-validate-claim-logic"@ {
                assert(list[8] == stage);
            }
            if file.path == "/tmp/tmp-protobuf/osmosis/OSMOSIS_COMMIT"@ && file.contents == "v10.0.0"@ {
                assert(list[9] == stage);
            }
        },
        StageView::Compile(job) => {
            if job == compile::sdk_job(root, "/tmp/tmp-protobuf/cosmos-sdk"@) {
                assert(list[10] == stage);
            }
            if job == compile::ibc_job(root, "/tmp/tmp-protobuf/ibc-go"@) {
                assert(list[11] == stage);
            }
            if job == compile::juno_job(root, "/tmp/tmp-protobuf/quicksilver"@) {
                assert(list[12] == stage);
            }
            if job == compile::osmosis_job(root, "/tmp/tmp-protobuf/osmosis"@) {
                assert(list[13] == stage);
            }
        },
        StageView::Copy(from, to) => {
            if from == "/tmp/tmp-protobuf/cosmos-sdk"@ && to == "../juno-rust-proto/src/prost/cosmos-sdk"@ {
                assert(list[14] == stage);
            }
            if from == "/tmp/tmp-protobuf/ibc-go"@ && to == "../juno-rust-proto/src/prost/ibc-go"@ {
                assert(list[15] == stage);
            }
            if from == "/tmp/tmp-protobuf/quicksilver"@ && to == "../juno-rust-proto/src/prost/quicksilver"@ {
                assert(list[16] == stage);
            }
            if from == "/tmp/tmp-protobuf/osmosis"@ && to == "../juno-rust-proto/src/prost/osmosis"@ {
                assert(list[17] == stage);
            }
        },
        StageView::Patch(path) => {
            if path == "../juno-rust-proto/src/prost/cosmos-sdk/cosmos.staking.v1beta1.rs"@ {
                assert(list[18] == stage);
            }
        },
        StageView::Info(message) => {
            if message == "Running rustfmt on prost/tonic-generated code"@ {
                assert(list[19] == stage);
            }
        },
        StageView::Format(dir) => {
            if dir == "../juno-rust-proto/src/prost/"@ {
                assert(list[20] == stage);
            }
        },
        StageView::Print(line) => {
            if github && line == "Rebuild protos with proto-build (cosmos-sdk rev: v0.46.12 ibc-go rev: v5.2.0 wasmd rev: v0.29.2))"@ {
                assert(list[21] == stage);
            }
        },
    }
}

/// The stages come in order: the old directory goes before new ones are made, versions are recorded
/// before anything is compiled, all is compiled before any of it is copied, copied before it is
/// patched, patched before it is formatted, and the commit message comes last.
pub proof fn law_phases_come_in_order(root: Seq<char>, github: bool, i: int, j: int)
    requires
        0 <= i < j < build_stages(root, github).len(),
    ensures
        ({
            let phase = |stage: StageView|
                match stage {
                    StageView::RemoveDir(_) => 0int,
                    StageView::CreateDir(_) => 1int,
                    StageView::Write(_) => 2int,
                    StageView::Compile(_) => 3int,
                    StageView::Copy(_, _) => 4int,
                    StageView::Patch(_) => 5int,
                    StageView::Info(_) => 6int,
                    StageView::Format(_) => 7int,
                    StageView::Print(_) => 8int,
                };
            phase(build_stages(root, github)[i]) <= phase(build_stages(root, github)[j])
        }),
{
}

/// The four trees are dealt with in the same order in each phase: the version of each is recorded
/// where its code is emitted to, and its code is brought from there to its place.
pub proof fn law_trees_come_in_order(root: Seq<char>, github: bool, t: int)
    requires
        0 <= t < 4,
    ensures
        ({
            let list = build_stages(root, github);
            let tree = seq!["cosmos-sdk"@, "ibc-go"@, "quicksilver"@, "osmosis"@][t];
            let dir = "/tmp/tmp-protobuf/"@ + tree;
            &&& list[6 + t] matches StageView::Write(file) && (dir + "/"@).is_prefix_of(file.path)
            &&& list[10 + t] matches StageView::Compile(job) && job.out_dir == dir
            &&& list[14 + t] == StageView::Copy(dir, "../juno-rust-proto/src/prost/"@ + tree)
        }),
{
    let list = build_stages(root, github);
    let tree = seq!["cosmos-sdk"@, "ibc-go"@, "quicksilver"@, "osmosis"@][t];
    let dir = "/tmp/tmp-protobuf/"@ + tree;
    reveal_strlit("/tmp/tmp-protobuf/");
    reveal_strlit("../juno-rust-proto/src/prost/");
    reveal_strlit("/");
    reveal_strlit("cosmos-sdk");
    reveal_strlit("ibc-go");
    reveal_strlit("quicksilver");
    reveal_strlit("osmosis");
    reveal_strlit("COSMOS_SDK_COMMIT");
    reveal_strlit("IBC_COMMIT");
    reveal_strlit("QUICKSILVER_COMMIT");
    reveal_strlit("OSMOSIS_COMMIT");
    assert(temp_dir(tree) == dir);
    assert(final_dir(tree) == "../juno-rust-proto/src/prost/"@ + tree);
    assert(dir.last() != '/');
    let path = list[6 + t]->Write_0.path;
    assert(path.subrange(0, (dir + "/"@).len() as int) =~= dir + "/"@);
}

/// Every run of the compiler begins with the protos of this repository: they are compiled, and
/// imports are looked up among them, below the directory of this package, wherever that is.
pub proof fn law_own_protos_come_first(root: Seq<char>, github: bool, k: int)
    requires
        0 <= k < build_stages(root, github).len(),
    ensures
        build_stages(root, github)[k] matches StageView::Compile(job) ==> job.sources.len() > 0
            && job.sources[0] == root + "/../proto/definitions/mock"@ && job.includes.len() > 0
            && job.includes[0] == root + "/../proto"@,
{
}

/// What a list of stages holds is what each of them holds, one for one and in order.
pub proof fn law_stages_hold_their_fields(list: Seq<Stage>, i: int)
    requires
        0 <= i < list.len(),
    ensures
        stages(list).len() == list.len(),
        stages(list)[i] == (match list[i] {
            Stage::RemoveDir(dir) => StageView::RemoveDir(dir@),
            Stage::CreateDir(dir) => StageView::CreateDir(dir@),
            Stage::Write(file) => StageView::Write(
                VersionFileView { path: file.path@, contents: file.contents@ },
            ),
            Stage::Compile(job) => StageView::Compile(job@),
            Stage::Copy { from, to } => StageView::Copy(from@, to@),
            Stage::Patch(path) => StageView::Patch(path@),
            Stage::Info(message) => StageView::Info(message@),
            Stage::Format(dir) => StageView::Format(dir@),
            Stage::Print(line) => StageView::Print(line@),
        }),
{
}

} // verus!

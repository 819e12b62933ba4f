//! What is handed to the proto compiler for each of the source trees.

use vstd::prelude::*;
use vstd::string::*;

use crate::config;
use crate::paths;
use crate::text;

verus! {

/// Rust code that stands for a Protobuf package instead of what the compiler would emit for it.
pub struct PackageMapping {
    pub proto_path: String,
    pub rust_path: String,
}

/// One run of the proto compiler.
pub struct CompileJob {
    /// What is logged before the proto files are looked for, if anything.
    pub opening: Option<String>,
    /// What is logged before the compiler is started.
    pub notice: String,
    /// The directories whose proto files are compiled, with everything below them.
    pub sources: Vec<String>,
    /// The directories that imports are looked up in.
    pub includes: Vec<String>,
    /// Where the emitted Rust code goes.
    pub out_dir: String,
    /// Whether gRPC clients are emitted.
    pub build_client: bool,
    /// Whether gRPC servers are emitted.
    pub build_server: bool,
    /// The package that is taken from elsewhere, if any.
    pub mapping: Option<PackageMapping>,
}

/// What a [`CompileJob`] holds.
#[verifier::ext_equal]
pub struct CompileJobView {
    pub opening: Option<Seq<char>>,
    pub notice: Seq<char>,
    pub sources: Seq<Seq<char>>,
    pub includes: Seq<Seq<char>>,
    pub out_dir: Seq<char>,
    pub build_client: bool,
    pub build_server: bool,
    pub mapping: Option<(Seq<char>, Seq<char>)>,
}

impl View for CompileJob {
    type V = CompileJobView;

    open spec fn view(&self) -> CompileJobView {
        CompileJobView {
            opening: match self.opening {
                Some(s) => Some(s@),
                None => None,
            },
            notice: self.notice@,
            sources: text::strings(self.sources@),
            includes: text::strings(self.includes@),
            out_dir: self.out_dir@,
            build_client: self.build_client,
            build_server: self.build_server,
            mapping: match self.mapping {
                Some(m) => Some((m.proto_path@, m.rust_path@)),
                None => None,
            },
        }
    }
}

/// What is logged when a run of the compiler is over.
pub const DONE: &'static str = "=> Done!";

/// The mock definitions of this repository, then the directories of the packages of one family.
pub open spec fn sources(
    root: Seq<char>,
    tree: Seq<char>,
    family: Seq<char>,
    packages: Seq<&str>,
) -> Seq<Seq<char>> {
    seq![root + "/../proto/definitions/mock"@] + packages.map_values(
        |p: &str| tree + "/proto/"@ + family + "/"@ + p@,
    )
}

/// The directories that the imports of a source tree are looked up in.
pub open spec fn includes(root: Seq<char>, tree: Seq<char>) -> Seq<Seq<char>> {
    seq![root + "/../proto"@, tree + "/proto"@, tree + "/third_party/proto"@]
}

/// The run for one source tree: clients always, `tendermint` taken from `tendermint_proto`.
pub open spec fn tree_job(
    root: Seq<char>,
    out_dir: Seq<char>,
    opening: Seq<char>,
    tree: Seq<char>,
    family: Seq<char>,
    packages: Seq<&str>,
    build_server: bool,
) -> CompileJobView {
    CompileJobView {
        opening: Some(opening + out_dir + "'..."@),
        notice: "Compiling proto definitions and clients for GRPC services!"@,
        sources: sources(root, tree, family, packages),
        includes: includes(root, tree),
        out_dir,
        build_client: true,
        build_server,
        mapping: Some((".tendermint"@, "::tendermint_proto"@)),
    }
}

/// The packages that are compiled from the Cosmos SDK tree.
pub open spec fn sdk_packages() -> Seq<&'static str> {
    seq![
        "auth",
        "authz",
        "bank",
        "base",
        "base/tendermint",
        "capability",
        "crisis",
        "crypto",
        "distribution",
        "evidence",
        "feegrant",
        "genutil",
        "gov",
        "mint",
        "params",
        "slashing",
        "staking",
        "tx",
        "upgrade",
        "vesting",
    ]
}

/// The run for the Cosmos SDK tree.
pub open spec fn sdk_job(root: Seq<char>, out_dir: Seq<char>) -> CompileJobView {
    tree_job(
        root,
        out_dir,
        "Compiling cosmos-sdk .proto files to Rust into '"@,
        config::COSMOS_SDK_DIR@,
        "cosmos"@,
        sdk_packages(),
        true,
    )
}

/// The packages that are compiled from the quicksilver tree.
pub open spec fn juno_packages() -> Seq<&'static str> {
    seq![
        "airdrop",
        "claimsmanager",
        "epochs",
        "interchainquery",
        "interchainstaking",
        "mint",
        "participationrewards",
        "tokenfactory",
    ]
}

/// The run for the quicksilver tree.
pub open spec fn juno_job(root: Seq<char>, out_dir: Seq<char>) -> CompileJobView {
    tree_job(
        root,
        out_dir,
        "Compiling cosmos-sdk .proto files to Rust into '"@,
        config::JUNO_DIR@,
        "quicksilver"@,
        juno_packages(),
        true,
    )
}

/// The packages that are compiled from the osmosis tree.
pub open spec fn osmosis_packages() -> Seq<&'static str> {
    seq![
        "gamm/pool-models/balancer",
        "gamm/pool-models/stableswap",
        "gamm/v1beta1",
        "lockup",
    ]
}

/// The run for the osmosis tree.
pub open spec fn osmosis_job(root: Seq<char>, out_dir: Seq<char>) -> CompileJobView {
    tree_job(
        root,
        out_dir,
        "Compiling cosmos-sdk .proto files to Rust into '"@,
        config::OSMOSIS_DIR@,
        "osmosis"@,
        osmosis_packages(),
        true,
    )
}

/// The packages that are compiled from the ibc-go tree.
pub open spec fn ibc_packages() -> Seq<&'static str> {
    seq![
        "applications/interchain_accounts",
        "applications/transfer",
        "core/channel",
        "core/client",
        "core/commitment",
        "core/connection",
        "core/port",
        "core/types",
        "lightclients/localhost",
        "lightclients/solomachine",
        "lightclients/tendermint",
    ]
}

/// The run for the ibc-go tree.
pub open spec fn ibc_job(root: Seq<char>, out_dir: Seq<char>) -> CompileJobView {
    tree_job(
        root,
        out_dir,
        "Compiling .proto files to Rust into '"@,
        config::IBC_DIR@,
        "ibc"@,
        ibc_packages(),
        false,
    )
}

/// The run for the wasmd tree.
pub open spec fn wasmd_job(root: Seq<char>, out_dir: Seq<char>) -> CompileJobView {
    CompileJobView {
        opening: None,
        notice: "Compiling wasmd proto clients for GRPC services!"@,
        sources: seq![config::WASMD_DIR@ + "/proto/cosmwasm/wasm"@],
        includes: seq![
            paths::joined(root, "../proto"@),
            paths::joined(config::WASMD_DIR@, "proto"@),
            paths::joined(config::WASMD_DIR@, "third_party/proto"@),
        ],
        out_dir,
        build_client: true,
        build_server: false,
        mapping: None,
    }
}

/// The directories of `packages` below a source tree.
fn source_list(root: &str, tree: &str, family: &str, packages: &Vec<&str>) -> (out: Vec<String>)
    ensures
        text::strings(out@) == sources(root@, tree@, family@, packages@),
{
    let mut out: Vec<String> = Vec::new();
    out.push(text::concat(root, "/../proto/definitions/mock"));
    let mut i: usize = 0;
    while i < packages.len()
        invariant
            i <= packages@.len(),
            text::strings(out@) == sources(root@, tree@, family@, packages@.take(i as int)),
        decreases packages@.len() - i,
    {
        let mut dir = text::concat(tree, "/proto/");
        dir.append(family);
        dir.append("/");
        dir.append(packages[i]);
        proof {
            let before = packages@.take(i as int);
            let after = packages@.take(i + 1);
            assert(after =~= before.push(packages@[i as int]));
            text::lemma_strings_push(out@, dir);
            assert(sources(root@, tree@, family@, after) =~= sources(
                root@,
                tree@,
                family@,
                before,
            ).push(dir@));
        }
        out.push(dir);
        i += 1;
    }
    proof {
        assert(packages@.take(packages@.len() as int) =~= packages@);
    }
    out
}

/// The run for one source tree.
fn tree_run(
    root: &str,
    out_dir: &str,
    opening: &str,
    tree: &str,
    family: &str,
    packages: &Vec<&str>,
    build_server: bool,
) -> (job: CompileJob)
    ensures
        job@ == tree_job(root@, out_dir@, opening@, tree@, family@, packages@, build_server),
{
    let mut message = text::concat(opening, out_dir);
    message.append("'...");
    let mut includes: Vec<String> = Vec::new();
    includes.push(text::concat(root, "/../proto"));
    includes.push(text::concat(tree, "/proto"));
    includes.push(text::concat(tree, "/third_party/proto"));
    proof {
        assert(text::strings(includes@) =~= self::includes(root@, tree@));
    }
    CompileJob {
        opening: Some(message),
        notice: "Compiling proto definitions and clients for GRPC services!".to_owned(),
        sources: source_list(root, tree, family, packages),
        includes,
        out_dir: out_dir.to_owned(),
        build_client: true,
        build_server,
        mapping: Some(
            PackageMapping {
                proto_path: ".tendermint".to_owned(),
                rust_path: "::tendermint_proto".to_owned(),
            },
        ),
    }
}

/// The run of the compiler for the Cosmos SDK tree. `root` is the directory of this package.
pub fn compile_sdk_protos_and_services(root: &str, out_dir: &str) -> (job: CompileJob)
    ensures
        job@ == sdk_job(root@, out_dir@),
{
    let packages: Vec<&str> = vec![
        "auth",
        "authz",
        "bank",
        "base",
        "base/tendermint",
        "capability",
        "crisis",
        "crypto",
        "distribution",
        "evidence",
        "feegrant",
        "genutil",
        "gov",
        "mint",
        "params",
        "slashing",
        "staking",
        "tx",
        "upgrade",
        "vesting",
    ];
    proof {
        assert(packages@ =~= sdk_packages());
    }
    tree_run(
        root,
        out_dir,
        "Compiling cosmos-sdk .proto files to Rust into '",
        config::COSMOS_SDK_DIR,
        "cosmos",
        &packages,
        true,
    )
}

/// The run of the compiler for the quicksilver tree. `root` is the directory of this package.
pub fn compile_juno_protos_and_services(root: &str, out_dir: &str) -> (job: CompileJob)
    ensures
        job@ == juno_job(root@, out_dir@),
{
    let packages: Vec<&str> = vec![
        "airdrop",
        "claimsmanager",
        "epochs",
        "interchainquery",
        "interchainstaking",
        "mint",
        "participationrewards",
        "tokenfactory",
    ];
    proof {
        assert(packages@ =~= juno_packages());
    }
    tree_run(
        root,
        out_dir,
        "Compiling cosmos-sdk .proto files to Rust into '",
        config::JUNO_DIR,
        "quicksilver",
        &packages,
        true,
    )
}

/// The run of the compiler for the osmosis tree. `root` is the directory of this package.
pub fn compile_osmosis_protos_and_services(root: &str, out_dir: &str) -> (job: CompileJob)
    ensures
        job@ == osmosis_job(root@, out_dir@),
{
    let packages: Vec<&str> = vec![
        "gamm/pool-models/balancer",
        "gamm/pool-models/stableswap",
        "gamm/v1beta1",
        "lockup",
    ];
    proof {
        assert(packages@ =~= osmosis_packages());
    }
    tree_run(
        root,
        out_dir,
        "Compiling cosmos-sdk .proto files to Rust into '",
        config::OSMOSIS_DIR,
        "osmosis",
        &packages,
        true,
    )
}

/// The run of the compiler for the ibc-go tree. `root` is the directory of this package.
pub fn compile_ibc_protos_and_services(root: &str, out_dir: &str) -> (job: CompileJob)
    ensures
        job@ == ibc_job(root@, out_dir@),
{
    let packages: Vec<&str> = vec![
        "applications/interchain_accounts",
        "applications/transfer",
        "core/channel",
        "core/client",
        "core/commitment",
        "core/connection",
        "core/port",
        "core/types",
        "lightclients/localhost",
        "lightclients/solomachine",
        "lightclients/tendermint",
    ];
    proof {
        assert(packages@ =~= ibc_packages());
    }
    tree_run(
        root,
        out_dir,
        "Compiling .proto files to Rust into '",
        config::IBC_DIR,
        "ibc",
        &packages,
        false,
    )
}

/// The run of the compiler for the wasmd tree. `root` is the directory of this package.
pub fn compile_wasmd_proto_and_services(root: &str, out_dir: &str) -> (job: CompileJob)
    ensures
        job@ == wasmd_job(root@, out_dir@),
{
    let mut includes: Vec<String> = Vec::new();
    includes.push(paths::join(root, "../proto"));
    includes.push(paths::join(config::WASMD_DIR, "proto"));
    includes.push(paths::join(config::WASMD_DIR, "third_party/proto"));
    let mut sources: Vec<String> = Vec::new();
    sources.push(text::concat(config::WASMD_DIR, "/proto/cosmwasm/wasm"));
    let job = CompileJob {
        opening: None,
        notice: "Compiling wasmd proto clients for GRPC services!".to_owned(),
        sources,
        includes,
        out_dir: out_dir.to_owned(),
        build_client: true,
        build_server: false,
        mapping: None,
    };
    proof {
        assert(job@.sources =~= wasmd_job(root@, out_dir@).sources);
        assert(job@.includes =~= wasmd_job(root@, out_dir@).includes);
    }
    job
}

/// Every directory that is compiled lies below a directory that imports are looked up in, as the
/// compiler wants it.
pub open spec fn sources_are_included(job: CompileJobView) -> bool {
    forall|k: int|
        0 <= k < job.sources.len() ==> exists|m: int|
            0 <= m < job.includes.len() && (#[trigger] job.includes[m] + "/"@).is_prefix_of(
                #[trigger] job.sources[k],
            )
}

/// In each run, every directory that is compiled lies below one that imports are looked up in.
pub proof fn law_sources_are_included(root: Seq<char>, out_dir: Seq<char>)
    ensures
        sources_are_included(sdk_job(root, out_dir)),
        sources_are_included(juno_job(root, out_dir)),
        sources_are_included(osmosis_job(root, out_dir)),
        sources_are_included(ibc_job(root, out_dir)),
        sources_are_included(wasmd_job(root, out_dir)),
{
    lemma_tree_sources_are_included(
        root,
        config::COSMOS_SDK_DIR@,
        "cosmos"@,
        sdk_packages(),
        sdk_job(root, out_dir),
    );
    lemma_tree_sources_are_included(
        root,
        config::JUNO_DIR@,
        "quicksilver"@,
        juno_packages(),
        juno_job(root, out_dir),
    );
    lemma_tree_sources_are_included(
        root,
        config::OSMOSIS_DIR@,
        "osmosis"@,
        osmosis_packages(),
        osmosis_job(root, out_dir),
    );
    lemma_tree_sources_are_included(
        root,
        config::IBC_DIR@,
        "ibc"@,
        ibc_packages(),
        ibc_job(root, out_dir),
    );
    let job = wasmd_job(root, out_dir);
    reveal_strlit("../dependencies/wasmd");
    reveal_strlit("proto");
    reveal_strlit("/");
    reveal_strlit("/proto/cosmwasm/wasm");
    let front = job.includes[1] + "/"@;
    assert(job.sources[0].subrange(0, front.len() as int) =~= front);
}

proof fn lemma_tree_sources_are_included(
    root: Seq<char>,
    tree: Seq<char>,
    family: Seq<char>,
    packages: Seq<&str>,
    job: CompileJobView,
)
    requires
        job.sources == sources(root, tree, family, packages),
        job.includes == includes(root, tree),
    ensures
        sources_are_included(job),
{
    reveal_strlit("/../proto/definitions/mock");
    reveal_strlit("/../proto");
    reveal_strlit("/proto/");
    reveal_strlit("/proto");
    reveal_strlit("/");
    assert forall|k: int| 0 <= k < job.sources.len() implies exists|m: int|
        0 <= m < job.includes.len() && (#[trigger] job.includes[m] + "/"@).is_prefix_of(
            #[trigger] job.sources[k],
        ) by {
        let m: int = if k == 0 { 0 } else { 1 };
        let front = job.includes[m] + "/"@;
        assert(job.sources[k].subrange(0, front.len() as int) =~= front);
        assert(front.is_prefix_of(job.sources[k]));
    }
}

/// What a run compiles and where it looks imports up, of a tree and with its packages in one
/// directory, from the parts that the paths are made of.
proof fn lemma_tree_paths(
    root: Seq<char>,
    tree: Seq<char>,
    family: Seq<char>,
    packages: Seq<&str>,
    names: Seq<Seq<char>>,
    front: Seq<char>,
    protos: Seq<char>,
    third_party: Seq<char>,
)
    requires
        packages.len() == names.len(),
        forall|i: int| 0 <= i < names.len() ==> (#[trigger] packages[i])@ == names[i],
        front == tree + "/proto/"@ + family + "/"@,
        protos == tree + "/proto"@,
        third_party == tree + "/third_party/proto"@,
    ensures
        sources(root, tree, family, packages) == seq![root + "/../proto/definitions/mock"@]
            + names.map_values(|name: Seq<char>| front + name),
        includes(root, tree) == seq![root + "/../proto"@, protos, third_party],
{
    assert forall|i: int| 0 <= i < names.len() implies tree + "/proto/"@ + family + "/"@
        + packages[i]@ == front + names[i] by {}
    assert(sources(root, tree, family, packages) =~= seq![root + "/../proto/definitions/mock"@]
        + names.map_values(|name: Seq<char>| front + name));
}

/// Whatever the directory of this package and the output directory are, the run for the Cosmos SDK
/// compiles the mock definitions of this repository and these packages, looks imports up in these
/// three directories, emits clients and servers into the output directory, and leaves
/// `tendermint` to `tendermint_proto`.
pub proof fn law_sdk_run(root: Seq<char>, out_dir: Seq<char>)
    ensures
        sdk_job(root, out_dir).sources == seq![root + "/../proto/definitions/mock"@] + seq![
            "auth"@,
            "authz"@,
            "bank"@,
            "base"@,
            "base/tendermint"@,
            "capability"@,
            "crisis"@,
            "crypto"@,
            "distribution"@,
            "evidence"@,
            "feegrant"@,
            "genutil"@,
            "gov"@,
            "mint"@,
            "params"@,
            "slashing"@,
            "staking"@,
            "tx"@,
            "upgrade"@,
            "vesting"@,
        ].map_values(|name: Seq<char>| "../dependencies/cosmos-sdk/proto/cosmos/"@ + name),
        sdk_job(root, out_dir).includes == seq![
            root + "/../proto"@,
            "../dependencies/cosmos-sdk/proto"@,
            "../dependencies/cosmos-sdk/third_party/proto"@,
        ],
        sdk_job(root, out_dir).out_dir == out_dir,
        sdk_job(root, out_dir).opening == Some(
            "Compiling cosmos-sdk .proto files to Rust into '"@ + out_dir + "'..."@,
        ),
        sdk_job(root, out_dir).notice
            == "Compiling proto definitions and clients for GRPC services!"@,
        sdk_job(root, out_dir).build_client,
        sdk_job(root, out_dir).build_server,
        sdk_job(root, out_dir).mapping == Some((".tendermint"@, "::tendermint_proto"@)),
{
    let tree = config::COSMOS_SDK_DIR@;
    let front = "../dependencies/cosmos-sdk/proto/cosmos/"@;
    let protos = "../dependencies/cosmos-sdk/proto"@;
    let third_party = "../dependencies/cosmos-sdk/third_party/proto"@;
    let names = seq![
        "auth"@,
        "authz"@,
        "bank"@,
        "base"@,
        "base/tendermint"@,
        "capability"@,
        "crisis"@,
        "crypto"@,
        "distribution"@,
        "evidence"@,
        "feegrant"@,
        "genutil"@,
        "gov"@,
        "mint"@,
        "params"@,
        "slashing"@,
        "staking"@,
        "tx"@,
        "upgrade"@,
        "vesting"@,
    ];
    assert(front == tree + "/proto/"@ + "cosmos"@ + "/"@ && protos == tree + "/proto"@
        && third_party == tree + "/third_party/proto"@) by {
        reveal_strlit("../dependencies/cosmos-sdk");
        reveal_strlit("../dependencies/cosmos-sdk/proto/cosmos/");
        reveal_strlit("../dependencies/cosmos-sdk/proto");
        reveal_strlit("../dependencies/cosmos-sdk/third_party/proto");
        reveal_strlit("/proto/");
        reveal_strlit("cosmos");
        reveal_strlit("/");
        reveal_strlit("/proto");
        reveal_strlit("/third_party/proto");
        assert(front =~= tree + "/proto/"@ + "cosmos"@ + "/"@);
        assert(protos =~= tree + "/proto"@);
        assert(third_party =~= tree + "/third_party/proto"@);
    }
    lemma_tree_paths(
        root,
        tree,
        "cosmos"@,
        sdk_packages(),
        names,
        front,
        protos,
        third_party,
    );
}

/// Whatever the directory of this package and the output directory are, the run for quicksilver
/// compiles the mock definitions of this repository and these packages, looks imports up in these
/// three directories, emits clients and servers into the output directory, and leaves
/// `tendermint` to `tendermint_proto`.
pub proof fn law_juno_run(root: Seq<char>, out_dir: Seq<char>)
    ensures
        juno_job(root, out_dir).sources == seq![root + "/../proto/definitions/mock"@] + seq![
            "airdrop"@,
            "claimsmanager"@,
            "epochs"@,
            "interchainquery"@,
            "interchainstaking"@,
            "mint"@,
            "participationrewards"@,
            "tokenfactory"@,
        ].map_values(|name: Seq<char>| "../dependencies/quicksilver/proto/quicksilver/"@ + name),
        juno_job(root, out_dir).includes == seq![
            root + "/../proto"@,
            "../dependencies/quicksilver/proto"@,
            "../dependencies/quicksilver/third_party/proto"@,
        ],
        juno_job(root, out_dir).out_dir == out_dir,
        juno_job(root, out_dir).opening == Some(
            "Compiling cosmos-sdk .proto files to Rust into '"@ + out_dir + "'..."@,
        ),
        juno_job(root, out_dir).notice
            == "Compiling proto definitions and clients for GRPC services!"@,
        juno_job(root, out_dir).build_client,
        juno_job(root, out_dir).build_server,
        juno_job(root, out_dir).mapping == Some((".tendermint"@, "::tendermint_proto"@)),
{
    let tree = config::JUNO_DIR@;
    let front = "../dependencies/quicksilver/proto/quicksilver/"@;
    let protos = "../dependencies/quicksilver/proto"@;
    let third_party = "../dependencies/quicksilver/third_party/proto"@;
    let names = seq![
        "airdrop"@,
        "claimsmanager"@,
        "epochs"@,
        "interchainquery"@,
        "interchainstaking"@,
        "mint"@,
        "participationrewards"@,
        "tokenfactory"@,
    ];
    assert(front == tree + "/proto/"@ + "quicksilver"@ + "/"@ && protos == tree + "/proto"@
        && third_party == tree + "/third_party/proto"@) by {
        reveal_strlit("../dependencies/quicksilver");
        reveal_strlit("../dependencies/quicksilver/proto/quicksilver/");
        reveal_strlit("../dependencies/quicksilver/proto");
        reveal_strlit("../dependencies/quicksilver/third_party/proto");
        reveal_strlit("/proto/");
        reveal_strlit("quicksilver");
        reveal_strlit("/");
        reveal_strlit("/proto");
        reveal_strlit("/third_party/proto");
        assert(front =~= tree + "/proto/"@ + "quicksilver"@ + "/"@);
        assert(protos =~= tree + "/proto"@);
        assert(third_party =~= tree + "/third_party/proto"@);
    }
    lemma_tree_paths(
        root,
        tree,
        "quicksilver"@,
        juno_packages(),
        names,
        front,
        protos,
        third_party,
    );
}

/// Whatever the directory of this package and the output directory are, the run for osmosis
/// compiles the mock definitions of this repository and these packages, looks imports up in these
/// three directories, emits clients and servers into the output directory, and leaves
/// `tendermint` to `tendermint_proto`.
pub proof fn law_osmosis_run(root: Seq<char>, out_dir: Seq<char>)
    ensures
        osmosis_job(root, out_dir).sources == seq![root + "/../proto/definitions/mock"@] + seq![
            "gamm/pool-models/balancer"@,
            "gamm/pool-models/stableswap"@,
            "gamm/v1beta1"@,
            "lockup"@,
        ].map_values(|name: Seq<char>| "../dependencies/osmosis/proto/osmosis/"@ + name),
        osmosis_job(root, out_dir).includes == seq![
            root + "/../proto"@,
            "../dependencies/osmosis/proto"@,
            "../dependencies/osmosis/third_party/proto"@,
        ],
        osmosis_job(root, out_dir).out_dir == out_dir,
        osmosis_job(root, out_dir).opening == Some(
            "Compiling cosmos-sdk .proto files to Rust into '"@ + out_dir + "'..."@,
        ),
        osmosis_job(root, out_dir).notice
            == "Compiling proto definitions and clients for GRPC services!"@,
        osmosis_job(root, out_dir).build_client,
        osmosis_job(root, out_dir).build_server,
        osmosis_job(root, out_dir).mapping == Some((".tendermint"@, "::tendermint_proto"@)),
{
    let tree = config::OSMOSIS_DIR@;
    let front = "../dependencies/osmosis/proto/osmosis/"@;
    let protos = "../dependencies/osmosis/proto"@;
    let third_party = "../dependencies/osmosis/third_party/proto"@;
    let names = seq![
        "gamm/pool-models/balancer"@,
        "gamm/pool-models/stableswap"@,
        "gamm/v1beta1"@,
        "lockup"@,
    ];
    assert(front == tree + "/proto/"@ + "osmosis"@ + "/"@ && protos == tree + "/proto"@
        && third_party == tree + "/third_party/proto"@) by {
        reveal_strlit("../dependencies/osmosis");
        reveal_strlit("../dependencies/osmosis/proto/osmosis/");
        reveal_strlit("../dependencies/osmosis/proto");
        reveal_strlit("../dependencies/osmosis/third_party/proto");
        reveal_strlit("/proto/");
        reveal_strlit("osmosis");
        reveal_strlit("/");
        reveal_strlit("/proto");
        reveal_strlit("/third_party/proto");
        assert(front =~= tree + "/proto/"@ + "osmosis"@ + "/"@);
        assert(protos =~= tree + "/proto"@);
        assert(third_party =~= tree + "/third_party/proto"@);
    }
    lemma_tree_paths(
        root,
        tree,
        "osmosis"@,
        osmosis_packages(),
        names,
        front,
        protos,
        third_party,
    );
}

/// Whatever the directory of this package and the output directory are, the run for ibc-go
/// compiles the mock definitions of this repository and these packages, looks imports up in these
/// three directories, emits clients and no servers into the output directory, and leaves
/// `tendermint` to `tendermint_proto`.
pub proof fn law_ibc_run(root: Seq<char>, out_dir: Seq<char>)
    ensures
        ibc_job(root, out_dir).sources == seq![root + "/../proto/definitions/mock"@] + seq![
            "applications/interchain_accounts"@,
            "applications/transfer"@,
            "core/channel"@,
            "core/client"@,
            "core/commitment"@,
            "core/connection"@,
            "core/port"@,
            "core/types"@,
            "lightclients/localhost"@,
            "lightclients/solomachine"@,
            "lightclients/tendermint"@,
        ].map_values(|name: Seq<char>| "../dependencies/ibc-go/proto/ibc/"@ + name),
        ibc_job(root, out_dir).includes == seq![
            root + "/../proto"@,
            "../dependencies/ibc-go/proto"@,
            "../dependencies/ibc-go/third_party/proto"@,
        ],
        ibc_job(root, out_dir).out_dir == out_dir,
        ibc_job(root, out_dir).opening == Some(
            "Compiling .proto files to Rust into '"@ + out_dir + "'..."@,
        ),
        ibc_job(root, out_dir).notice
            == "Compiling proto definitions and clients for GRPC services!"@,
        ibc_job(root, out_dir).build_client,
        !ibc_job(root, out_dir).build_server,
        ibc_job(root, out_dir).mapping == Some((".tendermint"@, "::tendermint_proto"@)),
{
    let tree = config::IBC_DIR@;
    let front = "../dependencies/ibc-go/proto/ibc/"@;
    let protos = "../dependencies/ibc-go/proto"@;
    let third_party = "../dependencies/ibc-go/third_party/proto"@;
    let names = seq![
        "applications/interchain_accounts"@,
        "applications/transfer"@,
        "core/channel"@,
        "core/client"@,
        "core/commitment"@,
        "core/connection"@,
        "core/port"@,
        "core/types"@,
        "lightclients/localhost"@,
        "lightclients/solomachine"@,
        "lightclients/tendermint"@,
    ];
    assert(front == tree + "/proto/"@ + "ibc"@ + "/"@ && protos == tree + "/proto"@
        && third_party == tree + "/third_party/proto"@) by {
        reveal_strlit("../dependencies/ibc-go");
        reveal_strlit("../dependencies/ibc-go/proto/ibc/");
        reveal_strlit("../dependencies/ibc-go/proto");
        reveal_strlit("../dependencies/ibc-go/third_party/proto");
        reveal_strlit("/proto/");
        reveal_strlit("ibc");
        reveal_strlit("/");
        reveal_strlit("/proto");
        reveal_strlit("/third_party/proto");
        assert(front =~= tree + "/proto/"@ + "ibc"@ + "/"@);
        assert(protos =~= tree + "/proto"@);
        assert(third_party =~= tree + "/third_party/proto"@);
    }
    lemma_tree_paths(
        root,
        tree,
        "ibc"@,
        ibc_packages(),
        names,
        front,
        protos,
        third_party,
    );
}

/// Whatever the directory of this package and the output directory are, the run for wasmd compiles
/// one package, emits clients and no servers into the output directory, and takes no package from
/// elsewhere.
pub proof fn law_wasmd_run(root: Seq<char>, out_dir: Seq<char>)
    ensures
        wasmd_job(root, out_dir).sources == seq!["../dependencies/wasmd/proto/cosmwasm/wasm"@],
        wasmd_job(root, out_dir).includes == seq![
            paths::joined(root, "../proto"@),
            "../dependencies/wasmd/proto"@,
            "../dependencies/wasmd/third_party/proto"@,
        ],
        wasmd_job(root, out_dir).out_dir == out_dir,
        wasmd_job(root, out_dir).opening is None,
        wasmd_job(root, out_dir).notice == "Compiling wasmd proto clients for GRPC services!"@,
        wasmd_job(root, out_dir).build_client,
        !wasmd_job(root, out_dir).build_server,
        wasmd_job(root, out_dir).mapping is None,
{
    let dir = "../dependencies/wasmd"@;
    assert(dir + "/proto/cosmwasm/wasm"@ == "../dependencies/wasmd/proto/cosmwasm/wasm"@
        && paths::joined(dir, "proto"@) == "../dependencies/wasmd/proto"@ && paths::joined(
        dir,
        "third_party/proto"@,
    ) == "../dependencies/wasmd/third_party/proto"@) by {
        reveal_strlit("../dependencies/wasmd");
        reveal_strlit("/proto/cosmwasm/wasm");
        reveal_strlit("../dependencies/wasmd/proto/cosmwasm/wasm");
        reveal_strlit("proto");
        reveal_strlit("/");
        reveal_strlit("../dependencies/wasmd/proto");
        reveal_strlit("third_party/proto");
        reveal_strlit("../dependencies/wasmd/third_party/proto");
        assert(dir + "/proto/cosmwasm/wasm"@ =~= "../dependencies/wasmd/proto/cosmwasm/wasm"@);
        assert(dir + "/"@ + "proto"@ =~= "../dependencies/wasmd/proto"@);
        assert(dir + "/"@ + "third_party/proto"@ =~= "../dependencies/wasmd/third_party/proto"@);
    }
}

/// What a job holds is what its fields hold.
pub proof fn law_job_holds_its_fields(job: CompileJob)
    ensures
        job@.sources == text::strings(job.sources@),
        job@.includes == text::strings(job.includes@),
        job@.out_dir == job.out_dir@,
        job@.notice == job.notice@,
        job@.opening is None <==> job.opening is None,
        job.opening matches Some(message) ==> job@.opening == Some(message@),
        job@.build_client == job.build_client,
        job@.build_server == job.build_server,
        job@.mapping is None <==> job.mapping is None,
        job.mapping matches Some(mapping) ==> job@.mapping == Some(
            (mapping.proto_path@, mapping.rust_path@),
        ),
{
}

} // verus!

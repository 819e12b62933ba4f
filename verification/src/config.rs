//! The fixed data of the build: revisions, directories, and the substitutions that are applied to
//! the Rust code that `prost` emits.

use vstd::prelude::*;

verus! {

/// The Cosmos SDK commit or tag that the proto files are built from.
pub const COSMOS_SDK_REV: &'static str = "v0.46.12";

/// The Cosmos ibc-go commit or tag that the proto files are built from.
pub const IBC_REV: &'static str = "v5.2.0";

/// The wasmd commit or tag that the proto files are built from.
pub const WASMD_REV: &'static str = "v0.29.2";

/// The quicksilver branch that the proto files are built from.
pub const JUNO_REV: &'static str = "nguyen/replace-validate-claim-logic";

/// The osmosis tag that the proto files are built from.
pub const OSMOSIS_REV: &'static str = "v10.0.0";

/// The directory that the finished Rust files go into.
pub const COSMOS_SDK_PROTO_DIR: &'static str = "../juno-rust-proto/src/prost/";

/// Where the cosmos-sdk submodule is located.
pub const COSMOS_SDK_DIR: &'static str = "../dependencies/cosmos-sdk";

/// Where the cosmos/ibc-go submodule is located.
pub const IBC_DIR: &'static str = "../dependencies/ibc-go";

/// Where the wasmd submodule is located.
pub const WASMD_DIR: &'static str = "../dependencies/wasmd";

/// Where the quicksilver submodule is located.
pub const JUNO_DIR: &'static str = "../dependencies/quicksilver";

/// Where the osmosis submodule is located.
pub const OSMOSIS_DIR: &'static str = "../dependencies/osmosis";

/// A temporary directory for proto building.
pub const TMP_BUILD_DIR: &'static str = "/tmp/tmp-protobuf/";

/// The Protobuf packages whose code is left out, because it comes from `tendermint-proto`.
pub open spec fn excluded_proto_packages() -> Seq<Seq<char>> {
    seq!["gogoproto"@, "google"@, "tendermint"@]
}

/// Matches a reference to a `tendermint` module at any height above the current one.
pub const TENDERMINT_PATTERN: &'static str = "(super::)+tendermint";

/// The crate that such a reference is redirected to.
pub const TENDERMINT_REPLACEMENT: &'static str = "tendermint_proto";

/// Matches the comment above a gRPC client module.
pub const CLIENT_PATTERN: &'static str = "/// Generated client implementations.";

/// The same comment with the feature gate below it.
pub const CLIENT_REPLACEMENT: &'static str =
    "/// Generated client implementations.\n#[cfg(feature = \"grpc\")]\n#[cfg_attr(docsrs, doc(cfg(feature = \"grpc\")))]";

/// Matches, up to the end of its line, a gRPC impl that uses `tonic::transport`.
pub const TRANSPORT_PATTERN: &'static str = "impl(.+)tonic::transport(.+)";

/// The feature gate for such an impl.
pub const TRANSPORT_GATE: &'static str =
    "#[cfg(feature = \"grpc-transport\")]\n    #[cfg_attr(docsrs, doc(cfg(feature = \"grpc-transport\")))]\n    ";

/// The same impl with the feature gate above it.
pub const TRANSPORT_REPLACEMENT: &'static str =
    "#[cfg(feature = \"grpc-transport\")]\n    #[cfg_attr(docsrs, doc(cfg(feature = \"grpc-transport\")))]\n    impl${1}tonic::transport${2}";

/// Matches the comment above a gRPC server module.
pub const SERVER_PATTERN: &'static str = "/// Generated server implementations.";

/// The same comment with the feature gate below it.
pub const SERVER_REPLACEMENT: &'static str =
    "/// Generated server implementations.\n#[cfg(feature = \"grpc\")]\n#[cfg_attr(docsrs, doc(cfg(feature = \"grpc\")))]";

/// Matches the declaration of the enum whose name clashes with a message.
pub const VALIDATORS_ENUM_PATTERN: &'static str = "enum Validators";

/// The declaration under the new name.
pub const VALIDATORS_ENUM_REPLACEMENT: &'static str = "enum Policy";

/// Matches the uses of that enum.
pub const VALIDATORS_PATH_PATTERN: &'static str = "stake_authorization::Validators";

/// The uses under the new name.
pub const VALIDATORS_PATH_REPLACEMENT: &'static str = "stake_authorization::Policy";

/// The six patterns above.
pub open spec fn built_in_patterns() -> Seq<Seq<char>> {
    seq![
        TENDERMINT_PATTERN@,
        CLIENT_PATTERN@,
        TRANSPORT_PATTERN@,
        SERVER_PATTERN@,
        VALIDATORS_ENUM_PATTERN@,
        VALIDATORS_PATH_PATTERN@,
    ]
}

} // verus!

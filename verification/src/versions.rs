//! The files that record which revisions the code was built from.

use vstd::prelude::*;

use crate::config;
use crate::paths;

verus! {

/// A file to be written.
pub struct VersionFile {
    pub path: String,
    pub contents: String,
}

/// What a [`VersionFile`] holds.
pub struct VersionFileView {
    pub path: Seq<char>,
    pub contents: Seq<char>,
}

impl View for VersionFile {
    type V = VersionFileView;

    open spec fn view(&self) -> VersionFileView {
        VersionFileView { path: self.path@, contents: self.contents@ }
    }
}

/// The file `name` in `out_dir` that holds `rev` and nothing else.
pub open spec fn version_file(
    out_dir: Seq<char>,
    name: Seq<char>,
    rev: Seq<char>,
) -> VersionFileView {
    VersionFileView { path: paths::joined(out_dir, name), contents: rev }
}

fn output_version(out_dir: &str, name: &str, rev: &str) -> (file: VersionFile)
    ensures
        file@ == version_file(out_dir@, name@, rev@),
{
    VersionFile { path: paths::join(out_dir, name), contents: rev.to_owned() }
}

/// Records the cosmos-sdk revision.
pub fn output_sdk_version(out_dir: &str) -> (file: VersionFile)
    ensures
        file@ == version_file(out_dir@, "COSMOS_SDK_COMMIT"@, config::COSMOS_SDK_REV@),
        file.path@ == paths::joined(out_dir@, "COSMOS_SDK_COMMIT"@),
        file.contents@ == config::COSMOS_SDK_REV@,
{
    output_version(out_dir, "COSMOS_SDK_COMMIT", config::COSMOS_SDK_REV)
}

/// Records the ibc-go revision.
pub fn output_ibc_version(out_dir: &str) -> (file: VersionFile)
    ensures
        file@ == version_file(out_dir@, "IBC_COMMIT"@, config::IBC_REV@),
        file.path@ == paths::joined(out_dir@, "IBC_COMMIT"@),
        file.contents@ == config::IBC_REV@,
{
    output_version(out_dir, "IBC_COMMIT", config::IBC_REV)
}

/// Records the wasmd revision.
pub fn output_wasmd_version(out_dir: &str) -> (file: VersionFile)
    ensures
        file@ == version_file(out_dir@, "WASMD_COMMIT"@, config::WASMD_REV@),
        file.path@ == paths::joined(out_dir@, "WASMD_COMMIT"@),
        file.contents@ == config::WASMD_REV@,
{
    output_version(out_dir, "WASMD_COMMIT", config::WASMD_REV)
}

/// Records the quicksilver revision.
pub fn output_juno_version(out_dir: &str) -> (file: VersionFile)
    ensures
        file@ == version_file(out_dir@, "QUICKSILVER_COMMIT"@, config::JUNO_REV@),
        file.path@ == paths::joined(out_dir@, "QUICKSILVER_COMMIT"@),
        file.contents@ == config::JUNO_REV@,
{
    output_version(out_dir, "QUICKSILVER_COMMIT", config::JUNO_REV)
}

/// Records the osmosis revision.
pub fn output_osmosis_version(out_dir: &str) -> (file: VersionFile)
    ensures
        file@ == version_file(out_dir@, "OSMOSIS_COMMIT"@, config::OSMOSIS_REV@),
        file.path@ == paths::joined(out_dir@, "OSMOSIS_COMMIT"@),
        file.contents@ == config::OSMOSIS_REV@,
{
    output_version(out_dir, "OSMOSIS_COMMIT", config::OSMOSIS_REV)
}

} // verus!

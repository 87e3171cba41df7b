//! The build driver's decisions: where the build output directory lives,
//! whether the build description must be regenerated, and what record is
//! persisted afterwards. The driver's surrounding steps (reading the
//! manifest, writing the files, invoking the toolchain) belong to the
//! caller; every decision between them is stated and proved here.

use vstd::prelude::*;

use crate::cmake::{spec_cmake_hash, CMake};
use crate::manifest::{spec_manifest_hash, Manifest};
use crate::manifest_metadata::{spec_metadata_path, ManifestMetadata, MetadataV};
use crate::text::{path_join, spec_path_join};

verus! {

/// Debug and release builds get distinct subdirectories under `build/`, so
/// their artifacts never collide.
pub open spec fn spec_build_dir(pwd: Seq<char>, release: bool) -> Seq<char> {
    spec_path_join(
        spec_path_join(pwd, "build"@),
        if release {
            "release"@
        } else {
            "debug"@
        },
    )
}

pub fn make_build_path(pwd: &str, release: bool) -> (r: String)
    ensures
        r@ == spec_build_dir(pwd@, release),
{
    let b = path_join(pwd, "build");
    if release {
        path_join(b.as_str(), "release")
    } else {
        path_join(b.as_str(), "debug")
    }
}

/// The record that is persisted after a successful regeneration: the
/// record's own canonical path and the two fresh content hashes.
pub open spec fn spec_fresh_record(
    base_dir: Seq<char>,
    manifest: crate::manifest::ManifestV,
    cmake: crate::cmake::CMakeV,
) -> MetadataV {
    MetadataV {
        path: spec_metadata_path(base_dir),
        cmake_hash: spec_cmake_hash(cmake),
        manifest_hash: spec_manifest_hash(manifest),
    }
}

pub open spec fn spec_metadata_view(m: Option<ManifestMetadata>) -> Option<MetadataV> {
    match m {
        Some(m) => Some(m@),
        None => None,
    }
}

/// Whether the description must be re-rendered: always when no record could
/// be loaded (the never-built state fails every check), and otherwise when
/// any one of the three staleness checks fails — manifest hash, description
/// hash, or the record's own path.
pub open spec fn spec_needs_regeneration(
    metadata: Option<MetadataV>,
    manifest: crate::manifest::ManifestV,
    cmake: crate::cmake::CMakeV,
    base_dir: Seq<char>,
) -> bool {
    match metadata {
        None => true,
        Some(m) => !(m.manifest_hash == spec_manifest_hash(manifest) && m.cmake_hash
            == spec_cmake_hash(cmake) && m.path == spec_metadata_path(base_dir)),
    }
}

pub fn needs_regeneration(
    metadata: &Option<ManifestMetadata>,
    manifest: &Manifest,
    cmake: &CMake,
    base_dir: &str,
) -> (r: bool)
    ensures
        r == spec_needs_regeneration(
            match metadata {
                Some(m) => Some(m@),
                None => None,
            },
            manifest@,
            cmake@,
            base_dir@,
        ),
{
    match metadata {
        None => true,
        Some(m) => !(m.is_manifest_valid(manifest) && m.is_cmake_valid(cmake)
            && m.is_path_valid(base_dir)),
    }
}

/// What the driver decided for this invocation: whether to re-render, and
/// the record to persist when it does.
pub struct BuildPlan {
    pub regenerate: bool,
    pub metadata: ManifestMetadata,
}

/// The cache evaluation step of the pipeline: decides regeneration and
/// produces the record that describes the build directory afterwards.
pub fn evaluate_cache(
    metadata: Option<ManifestMetadata>,
    manifest: &Manifest,
    cmake: &CMake,
    base_dir: &str,
) -> (r: BuildPlan)
    ensures
        r.regenerate == spec_needs_regeneration(
            spec_metadata_view(metadata),
            manifest@,
            cmake@,
            base_dir@,
        ),
        r.regenerate ==> r.metadata@ == spec_fresh_record(base_dir@, manifest@, cmake@),
        !r.regenerate ==> spec_metadata_view(metadata) == Some(r.metadata@),
{
    let regenerate = needs_regeneration(&metadata, manifest, cmake, base_dir);
    if regenerate {
        let mut record = ManifestMetadata::empty(base_dir);
        record.update_cmake_hash(cmake.hash());
        record.update_manifest_hash(manifest.hash());
        BuildPlan { regenerate: true, metadata: record }
    } else {
        let record = match metadata {
            Some(m) => m,
            None => ManifestMetadata::empty(base_dir),  // unreachable: no record regenerates
        };
        BuildPlan { regenerate: false, metadata: record }
    }
}

// ---------------------------------------------------------------------------
// The staleness laws.
// ---------------------------------------------------------------------------

/// With a record present, regeneration is skipped exactly when the manifest
/// hash, the description hash and the record path all match; flipping any
/// one of the three alone forces regeneration.
pub proof fn lemma_staleness_checks(
    m: MetadataV,
    manifest: crate::manifest::ManifestV,
    cmake: crate::cmake::CMakeV,
    base_dir: Seq<char>,
)
    ensures
        !spec_needs_regeneration(Some(m), manifest, cmake, base_dir) <==> (m.manifest_hash
            == spec_manifest_hash(manifest) && m.cmake_hash == spec_cmake_hash(cmake) && m.path
            == spec_metadata_path(base_dir)),
        m.manifest_hash != spec_manifest_hash(manifest) ==> spec_needs_regeneration(
            Some(m),
            manifest,
            cmake,
            base_dir,
        ),
        m.cmake_hash != spec_cmake_hash(cmake) ==> spec_needs_regeneration(
            Some(m),
            manifest,
            cmake,
            base_dir,
        ),
        m.path != spec_metadata_path(base_dir) ==> spec_needs_regeneration(
            Some(m),
            manifest,
            cmake,
            base_dir,
        ),
{
}

/// A first build in a fresh output directory always regenerates — without a
/// record every check fails — and the record persisted afterwards carries
/// the fresh manifest and description hashes and the directory's own path.
pub proof fn lemma_first_build_regenerates(
    manifest: crate::manifest::ManifestV,
    cmake: crate::cmake::CMakeV,
    base_dir: Seq<char>,
)
    ensures
        spec_needs_regeneration(None, manifest, cmake, base_dir),
        spec_fresh_record(base_dir, manifest, cmake).manifest_hash == spec_manifest_hash(
            manifest,
        ),
        spec_fresh_record(base_dir, manifest, cmake).cmake_hash == spec_cmake_hash(cmake),
        spec_fresh_record(base_dir, manifest, cmake).path == spec_metadata_path(base_dir),
{
}

/// Invoking the pipeline again with the manifest and the rendered
/// description unchanged skips regeneration: the record persisted by the
/// first run passes every staleness check.
pub proof fn lemma_second_invocation_skips(
    manifest: crate::manifest::ManifestV,
    cmake: crate::cmake::CMakeV,
    base_dir: Seq<char>,
)
    ensures
        !spec_needs_regeneration(
            Some(spec_fresh_record(base_dir, manifest, cmake)),
            manifest,
            cmake,
            base_dir,
        ),
{
}

} // verus!

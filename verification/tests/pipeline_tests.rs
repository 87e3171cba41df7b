use sha2::Digest;
use tailor::cmake::CMake;
use tailor::manifest_metadata::MetadataError;
use tailor::cmds::driver::{evaluate_cache, make_build_path, needs_regeneration};
use tailor::dependency_manager::DependencyManager;
use tailor::manifest::{Dependency, Edition, Manifest, PackageType};
use tailor::manifest_metadata::ManifestMetadata;

const WORKDIR: &str = "/workdir";

fn blinky() -> Manifest {
    let text = "[package]\n\
name = \"blinky\"\n\
version = \"0.1.0\"\n\
edition = \"2025.1\"\n\
\n\
[dependencies]\n\
zephyr = \"3.5.0\"\n\
rand = { path = \"../rand\" }\n\
backpack = { git = \"https://example.com/backpack.git\", version = \"1.0.0\" }\n";
    Manifest::from_text(text, WORKDIR).unwrap()
}

#[test]
fn test_resolver_orders_dependencies_by_name() {
    let manifest = blinky();
    let dm = DependencyManager::new().unwrap();
    let resolved = dm.resolve(manifest.dependencies());
    assert_eq!(resolved.len(), 3);
    let names: Vec<String> = resolved.iter().map(|r| r.declaration.name()).collect();
    assert_eq!(names, vec!["backpack", "rand", "zephyr"]);
    for r in &resolved {
        assert!(r.sources.is_empty());
        assert!(r.dirs.is_empty());
    }
    assert_eq!(manifest.src(), &["src/*.c".to_string()]);
    assert_eq!(manifest.includes(), &["src/".to_string()]);
}

#[test]
fn test_resolver_order_is_independent_of_declaration_order() {
    let a = vec![
        Dependency::Package { name: "zephyr".to_string(), version: "1".to_string() },
        Dependency::Package { name: "alpha".to_string(), version: "2".to_string() },
        Dependency::Package { name: "midl".to_string(), version: "3".to_string() },
    ];
    let mut b = a.clone();
    b.reverse();
    let dm = DependencyManager::new().unwrap();
    let ra: Vec<String> = dm.resolve(&a).iter().map(|r| r.declaration.name()).collect();
    let rb: Vec<String> = dm.resolve(&b).iter().map(|r| r.declaration.name()).collect();
    assert_eq!(ra, rb);
    assert_eq!(ra, vec!["alpha", "midl", "zephyr"]);
}

#[test]
fn test_fetch_succeeds() {
    let manifest = blinky();
    let dm = DependencyManager::new().unwrap();
    assert!(dm.fetch(manifest.dependencies()).is_ok());
    assert!(dm.get_sources("zephyr").is_empty());
    assert!(dm.get_includes("zephyr").is_empty());
}

#[test]
fn test_build_path_separates_modes() {
    assert_eq!(make_build_path("/proj", false), "/proj/build/debug");
    assert_eq!(make_build_path("/proj", true), "/proj/build/release");
}

#[test]
fn test_cmake_renders_expected_description() {
    let text = "[package]\n\
name = \"blinky\"\n\
version = \"0.1.0\"\n\
edition = \"2025.1\"\n";
    let manifest = Manifest::from_text(text, WORKDIR).unwrap();
    let dm = DependencyManager::new().unwrap();
    let cmake = CMake::new_binary("/proj/build/debug", &manifest, "/proj", &dm).unwrap();
    let expected = "cmake_minimum_required(VERSION 3.20)\n\
project(blinky C)\n\
add_executable(blinky\n\
\t\"/proj/src/*.c\"\n\
)\n\
target_include_directories(blinky PRIVATE\n\
\t\"/proj/src/\"\n\
)\n";
    assert_eq!(cmake.contents(), expected);
    assert_eq!(cmake.path(), "/proj/build/debug/CMakeLists.txt");
    assert_eq!(cmake.build_path(), "/proj/build/debug");
    assert_eq!(cmake.hash().len(), 32);
}

#[test]
fn test_cmake_hash_matches_reference_digest() {
    let manifest = blinky();
    let dm = DependencyManager::new().unwrap();
    let cmake = CMake::new_binary("/b", &manifest, "/proj", &dm).unwrap();
    let expected = sha2::Sha256::digest(cmake.contents().as_bytes()).to_vec();
    assert_eq!(cmake.hash(), expected);
}

#[test]
fn test_first_build_regenerates() {
    let manifest = blinky();
    let dm = DependencyManager::new().unwrap();
    let base = "/proj/build/debug";
    let cmake = CMake::new_binary(base, &manifest, "/proj", &dm).unwrap();
    // no record could be loaded: the never-built state
    let plan = evaluate_cache(None, &manifest, &cmake, base);
    assert!(plan.regenerate);
    // the persisted record is no longer the empty one
    let empty = ManifestMetadata::empty(base);
    assert_ne!(plan.metadata, empty);
    assert!(plan.metadata.is_manifest_valid(&manifest));
    assert!(plan.metadata.is_cmake_valid(&cmake));
    assert!(plan.metadata.is_path_valid(base));
}

#[test]
fn test_second_invocation_skips_regeneration() {
    let manifest = blinky();
    let dm = DependencyManager::new().unwrap();
    let base = "/proj/build/debug";
    let cmake = CMake::new_binary(base, &manifest, "/proj", &dm).unwrap();
    let first = evaluate_cache(None, &manifest, &cmake, base);
    assert!(first.regenerate);
    // second run: nothing changed, the stored record passes every check
    let second = evaluate_cache(Some(first.metadata), &manifest, &cmake, base);
    assert!(!second.regenerate);
}

#[test]
fn test_any_single_stale_check_forces_regeneration() {
    let manifest = blinky();
    let dm = DependencyManager::new().unwrap();
    let base = "/proj/build/debug";
    let cmake = CMake::new_binary(base, &manifest, "/proj", &dm).unwrap();
    let fresh = evaluate_cache(None, &manifest, &cmake, base).metadata;

    // all three match
    assert!(!needs_regeneration(&Some(fresh), &manifest, &cmake, base));

    // manifest hash differs
    let other_manifest =
        Manifest::from_text("[package]\nname = \"x\"\nversion = \"1\"\nedition = \"2025.1\"\n", WORKDIR)
            .unwrap();
    let fresh = evaluate_cache(None, &manifest, &cmake, base).metadata;
    assert!(needs_regeneration(&Some(fresh), &other_manifest, &cmake, base));

    // description hash differs
    let other_cmake = CMake::new_binary(base, &other_manifest, "/elsewhere", &dm).unwrap();
    let fresh = evaluate_cache(None, &manifest, &cmake, base).metadata;
    assert!(needs_regeneration(&Some(fresh), &manifest, &other_cmake, base));

    // record path differs: the build directory was copied or moved
    let fresh = evaluate_cache(None, &manifest, &cmake, base).metadata;
    assert!(needs_regeneration(&Some(fresh), &manifest, &cmake, "/proj/build/release"));
}

#[test]
fn test_metadata_round_trip() {
    let manifest = blinky();
    let dm = DependencyManager::new().unwrap();
    let base = "/proj/build/debug";
    let cmake = CMake::new_binary(base, &manifest, "/proj", &dm).unwrap();
    let mut record = ManifestMetadata::empty(base);
    record.update_cmake_hash(cmake.hash());
    record.update_manifest_hash(manifest.hash());
    let text = record.render();
    let reloaded = ManifestMetadata::from_text(&text).unwrap();
    assert_eq!(reloaded, record);
}

#[test]
fn test_metadata_round_trip_with_awkward_path() {
    let mut record = ManifestMetadata::empty("/tmp/od\td \"quoted\"/b\\ack\n");
    record.update_cmake_hash(vec![0xde, 0xad, 0xbe, 0xef]);
    record.update_manifest_hash(vec![]);
    let text = record.render();
    let reloaded = ManifestMetadata::from_text(&text).unwrap();
    assert_eq!(reloaded, record);
}

#[test]
fn test_metadata_errors() {
    let err = ManifestMetadata::from_text("cmake_hash = \"00\"\n").unwrap_err();
    assert_eq!(err, MetadataError::MissingPath);
    assert_eq!(err.message(), "Failed to get path from TailorMetadata.toml");

    let err =
        ManifestMetadata::from_text("path = \"/p\"\nmanifest_hash = \"00\"\n").unwrap_err();
    assert_eq!(err, MetadataError::MissingAttribute("cmake_hash".to_string()));
    assert_eq!(err.message(), "Attribute cmake_hash not found");

    let err = ManifestMetadata::from_text(
        "path = \"/p\"\ncmake_hash = \"zz\"\nmanifest_hash = \"00\"\n",
    )
    .unwrap_err();
    assert_eq!(err, MetadataError::InvalidHash);
    assert_eq!(err.message(), "Failed to parse hash");

    let err = ManifestMetadata::from_text("path = [\"p\"]\n").unwrap_err();
    assert_eq!(err, MetadataError::PathNotString);

    let err = ManifestMetadata::from_text("not a document").unwrap_err();
    assert_eq!(err, MetadataError::InvalidFormat);
    assert_eq!(err.message(), "Invalid TailorMetadata.toml format");
}

#[test]
fn test_empty_record_is_all_zeros() {
    let record = ManifestMetadata::empty("/b");
    let text = record.render();
    let hex_zero = "0".repeat(64);
    assert!(text.contains(&hex_zero));
    assert!(text.contains("path = \"/b/TailorMetadata.toml\""));
    let manifest = Manifest::from_text(
        "[package]\nname = \"x\"\nversion = \"1\"\nedition = \"2025.1\"\n",
        WORKDIR,
    )
    .unwrap();
    // a real content hash never matches the all-zero record
    assert!(!record.is_manifest_valid(&manifest));
}

#[test]
fn test_manifest_accessors() {
    let manifest = blinky();
    assert_eq!(manifest.name(), "blinky");
    assert_eq!(manifest.package_type(), PackageType::Binary);
    assert_eq!(manifest.dependencies().len(), 3);
    let m2 = Manifest::new(
        "x".to_string(),
        "1".to_string(),
        Edition::Edition2025_1,
        PackageType::SDK,
        vec![],
        vec!["a.c".to_string()],
        vec!["h/".to_string()],
    );
    assert_eq!(m2.package_type(), PackageType::SDK);
    assert_eq!(m2.src(), &["a.c".to_string()]);
    assert_eq!(m2.includes(), &["h/".to_string()]);
}

#[test]
fn test_metadata_hash_attribute_not_a_string() {
    let err = ManifestMetadata::from_text("path = \"/p\"\ncmake_hash = [\"x\"]\n").unwrap_err();
    assert_eq!(err, MetadataError::AttributeNotString("cmake_hash".to_string()));
    assert_eq!(err.message(), "cmake_hash must be a string");
}

use sha2::Digest;
use tailor::manifest::{Dependency, DepError, Edition, Manifest, PackageType, ParseError};

const BLINKY: &str = "[package]\n\
name = \"blinky\"\n\
version = \"0.1.0\"\n\
edition = \"2025.1\"\n\
\n\
[dependencies]\n\
zephyr = \"3.5.0\"\n\
rand = { path = \"../rand\" }\n\
backpack = { git = \"https://github.com/matheuswhite/backpack.git\", version = \"1.0.0\" }\n";

const WORKDIR: &str = "/workdir";

fn blinky_expected() -> Manifest {
    let dependencies = vec![
        Dependency::Git {
            name: "backpack".to_string(),
            repo: "https://github.com/matheuswhite/backpack.git".to_string(),
            version: Some("1.0.0".to_string()),
            revision: None,
        },
        Dependency::Local {
            name: "rand".to_string(),
            path: "/workdir/../rand".to_string(),
        },
        Dependency::Package {
            name: "zephyr".to_string(),
            version: "3.5.0".to_string(),
        },
    ];
    Manifest::new(
        "blinky".to_string(),
        "0.1.0".to_string(),
        Edition::Edition2025_1,
        PackageType::Binary,
        dependencies,
        vec!["src/*.c".to_string()],
        vec!["src/".to_string()],
    )
}

#[test]
fn test_manifest_from_file() {
    let manifest = Manifest::from_text(BLINKY, WORKDIR).unwrap();
    assert_eq!(manifest, blinky_expected());
}

#[test]
fn test_parse_is_idempotent() {
    let first = Manifest::from_text(BLINKY, WORKDIR).unwrap();
    let second = Manifest::from_text(BLINKY, WORKDIR).unwrap();
    assert_eq!(first, second);
}

#[test]
fn test_hash_ignores_whitespace_and_key_order() {
    let reordered = "[package]\n\
edition = \"2025.1\"   \n\
\t version   =    \"0.1.0\"\n\
# a comment line\n\
name = \"blinky\"\n\
\n\
[dependencies]\n\
backpack = {   version = \"1.0.0\" ,   git = \"https://github.com/matheuswhite/backpack.git\" }\n\
rand    = { path = \"../rand\" }\n\
zephyr = \"3.5.0\"\n";
    let a = Manifest::from_text(BLINKY, WORKDIR).unwrap();
    let b = Manifest::from_text(reordered, WORKDIR).unwrap();
    assert_eq!(a, b);
    assert_eq!(a.hash(), b.hash());
}

#[test]
fn test_hash_changes_with_content() {
    let other = BLINKY.replace("0.1.0", "0.2.0");
    let a = Manifest::from_text(BLINKY, WORKDIR).unwrap();
    let b = Manifest::from_text(&other, WORKDIR).unwrap();
    assert_ne!(a.hash(), b.hash());
    assert_eq!(a.hash().len(), 32);
}

#[test]
fn test_hash_matches_reference_digest() {
    let manifest = Manifest::from_text(BLINKY, WORKDIR).unwrap();

    let dep_digest = |parts: &[&str]| -> Vec<u8> {
        let mut h = sha2::Sha256::new();
        for p in parts {
            h.update(p.as_bytes());
        }
        h.finalize().to_vec()
    };
    let mut h = sha2::Sha256::new();
    h.update("blinky".as_bytes());
    h.update("0.1.0".as_bytes());
    h.update([0u8]);
    h.update(dep_digest(&[
        "backpack",
        "https://github.com/matheuswhite/backpack.git",
        "1.0.0",
    ]));
    h.update(dep_digest(&["rand", "/workdir/../rand"]));
    h.update(dep_digest(&["zephyr", "3.5.0"]));
    h.update("src/*.c".as_bytes());
    h.update("src/".as_bytes());
    let expected = h.finalize().to_vec();

    assert_eq!(manifest.hash(), expected);
}

#[test]
fn test_missing_package_section() {
    let err = Manifest::from_text("name = \"x\"\n", WORKDIR).unwrap_err();
    assert_eq!(err, ParseError::MissingPackage);
    assert_eq!(err.message(), "package is missing");
}

#[test]
fn test_package_not_a_table() {
    let err = Manifest::from_text("package = \"x\"\n", WORKDIR).unwrap_err();
    assert_eq!(err, ParseError::PackageNotTable);
}

#[test]
fn test_missing_mandatory_attributes() {
    let err = Manifest::from_text("[package]\n", WORKDIR).unwrap_err();
    assert_eq!(err, ParseError::MissingName);
    let err = Manifest::from_text("[package]\nname = \"x\"\n", WORKDIR).unwrap_err();
    assert_eq!(err, ParseError::MissingVersion);
    let err =
        Manifest::from_text("[package]\nname = \"x\"\nversion = \"1\"\n", WORKDIR).unwrap_err();
    assert_eq!(err, ParseError::MissingEdition);
}

#[test]
fn test_invalid_edition_and_type() {
    let err = Manifest::from_text(
        "[package]\nname = \"x\"\nversion = \"1\"\nedition = \"2024.1\"\n",
        WORKDIR,
    )
    .unwrap_err();
    assert_eq!(err, ParseError::InvalidEdition("2024.1".to_string()));
    assert_eq!(err.message(), "Invalid edition 2024.1");
    let err = Manifest::from_text(
        "[package]\nname = \"x\"\nversion = \"1\"\nedition = \"2025.1\"\ntype = \"exe\"\n",
        WORKDIR,
    )
    .unwrap_err();
    assert_eq!(err, ParseError::InvalidPackageType("exe".to_string()));
    assert_eq!(err.message(), "Invalid package type exe");
}

#[test]
fn test_invalid_package_name_in_manifest() {
    let err = Manifest::from_text(
        "[package]\nname = \"1x\"\nversion = \"1\"\nedition = \"2025.1\"\n",
        WORKDIR,
    )
    .unwrap_err();
    assert_eq!(err, ParseError::InvalidName("1x".to_string()));
    assert_eq!(err.message(), "Invalid package name 1x");
}

#[test]
fn test_src_not_a_list() {
    let err = Manifest::from_text(
        "[package]\nname = \"x\"\nversion = \"1\"\nedition = \"2025.1\"\nsrc = \"main.c\"\n",
        WORKDIR,
    )
    .unwrap_err();
    assert_eq!(err, ParseError::AttributeNotList("src".to_string()));
    assert_eq!(err.message(), "Package \"src\" is not a list");
}

#[test]
fn test_src_list_item_not_a_string() {
    let err = Manifest::from_text(
        "[package]\nname = \"x\"\nversion = \"1\"\nedition = \"2025.1\"\nsrc = [\"a.c\", 3]\n",
        WORKDIR,
    )
    .unwrap_err();
    assert_eq!(err, ParseError::ListItemNotString("src".to_string(), 1));
    assert_eq!(err.message(), "1st package \"src\" is not a string");
}

#[test]
fn test_ambiguous_dependency_shape_is_rejected() {
    let text = "[package]\n\
name = \"x\"\n\
version = \"1\"\n\
edition = \"2025.1\"\n\
\n\
[dependencies]\n\
both = { git = \"https://example.com/r.git\", path = \"../p\" }\n";
    let err = Manifest::from_text(text, WORKDIR).unwrap_err();
    assert_eq!(
        err,
        ParseError::Dependencies(vec![DepError::AmbiguousShape("both".to_string())])
    );
    assert!(err.message().contains("ambiguous dependency shape"));
}

#[test]
fn test_dependency_errors_are_aggregated() {
    let text = "[package]\n\
name = \"x\"\n\
version = \"1\"\n\
edition = \"2025.1\"\n\
\n\
[dependencies]\n\
alpha = { version = \"1\" }\n\
beta = 4\n";
    let err = Manifest::from_text(text, WORKDIR).unwrap_err();
    assert_eq!(
        err,
        ParseError::Dependencies(vec![
            DepError::MissingSource("alpha".to_string()),
            DepError::InvalidShape("beta".to_string()),
        ])
    );
    let msg = err.message();
    assert!(msg.starts_with("Multiple dependency errors:\n"));
    assert!(msg.contains("alpha"));
    assert!(msg.contains("beta"));
}

#[test]
fn test_duplicate_dependency_names_are_a_format_error() {
    let text = "[package]\n\
name = \"x\"\n\
version = \"1\"\n\
edition = \"2025.1\"\n\
\n\
[dependencies]\n\
dup = \"1.0\"\n\
dup = \"2.0\"\n";
    let err = Manifest::from_text(text, WORKDIR).unwrap_err();
    assert_eq!(err, ParseError::InvalidFormat);
    assert_eq!(err.message(), "Invalid Manifest format");
}

#[test]
fn test_dependency_name_accessor() {
    let d = Dependency::Package { name: "zephyr".to_string(), version: "3.5.0".to_string() };
    assert_eq!(d.name(), "zephyr");
    let d = Dependency::Local { name: "rand".to_string(), path: "/p".to_string() };
    assert_eq!(d.name(), "rand");
}

#[test]
fn test_edition_and_type_from_text() {
    assert_eq!(Edition::from_text("2025.1").unwrap(), Edition::Edition2025_1);
    assert!(Edition::from_text("2025.2").is_err());
    assert_eq!(PackageType::from_text("bin").unwrap(), PackageType::Binary);
    assert_eq!(PackageType::from_text("lib").unwrap(), PackageType::Library);
    assert_eq!(PackageType::from_text("sdk").unwrap(), PackageType::SDK);
    assert!(PackageType::from_text("dll").is_err());
}

#[test]
fn test_package_name_validity_matches_pattern() {
    let re = regex::Regex::new("^[_a-zA-Z][_a-zA-Z0-9]*").unwrap();
    for s in [
        "hello", "1hello", "", "_x", "h?", "Zed9", "9", "_", "a b", "-dash", "é",
    ] {
        assert_eq!(
            tailor::manifest::is_package_name_valid(s),
            re.is_match(s),
            "disagreement on {:?}",
            s
        );
    }
}

#[test]
fn test_dependency_field_type_errors() {
    let base = "[package]\nname = \"x\"\nversion = \"1\"\nedition = \"2025.1\"\n\n[dependencies]\n";
    let err = Manifest::from_text(&format!("{}d = {{ git = 5 }}\n", base), WORKDIR).unwrap_err();
    assert_eq!(err, ParseError::Dependencies(vec![DepError::GitNotString("d".to_string())]));
    assert_eq!(err.message(), "Dependency \"d\" git is not a string");

    let err = Manifest::from_text(
        &format!("{}d = {{ git = \"u\", version = 5 }}\n", base),
        WORKDIR,
    )
    .unwrap_err();
    assert_eq!(err, ParseError::Dependencies(vec![DepError::VersionNotString("d".to_string())]));

    let err = Manifest::from_text(
        &format!("{}d = {{ git = \"u\", revision = 5 }}\n", base),
        WORKDIR,
    )
    .unwrap_err();
    assert_eq!(err, ParseError::Dependencies(vec![DepError::RevisionNotString("d".to_string())]));

    let err =
        Manifest::from_text(&format!("{}d = {{ path = 5 }}\n", base), WORKDIR).unwrap_err();
    assert_eq!(err, ParseError::Dependencies(vec![DepError::PathNotString("d".to_string())]));
}

#[test]
fn test_git_dependency_with_revision() {
    let text = "[package]\n\
name = \"x\"\n\
version = \"1\"\n\
edition = \"2025.1\"\n\
\n\
[dependencies]\n\
d = { git = \"https://example.com/d.git\", revision = \"abc123\" }\n";
    let manifest = Manifest::from_text(text, WORKDIR).unwrap();
    assert_eq!(
        manifest.dependencies(),
        &[Dependency::Git {
            name: "d".to_string(),
            repo: "https://example.com/d.git".to_string(),
            version: None,
            revision: Some("abc123".to_string()),
        }]
    );
}

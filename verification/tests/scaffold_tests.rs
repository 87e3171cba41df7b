use tailor::cmds::new::cmd_new;
use tailor::manifest::PackageType;
use tailor::new_pkg::NewPkg;

#[test]
fn test_create_package_with_invalid_package_name() {
    let err = cmd_new("tmp1/1hello", false, false, 1, 2, 2026).unwrap_err();
    assert_eq!(err, "Invalid package name 1hello");
}

#[test]
fn test_create_package_with_all_flags() {
    let err = cmd_new("tmp2/hello", true, true, 1, 2, 2026).unwrap_err();
    assert_eq!(err, "You need to choose only one package template kind: bin or lib");
}

#[test]
fn test_create_package_with_bin_and_lib_flags() {
    let err = cmd_new("tmp3/hello", true, true, 1, 2, 2026).unwrap_err();
    assert_eq!(err, "You need to choose only one package template kind: bin or lib");
}

#[test]
fn test_create_bin_package_without_flag() {
    let plan = cmd_new("tmp4/hello", false, false, 1, 2, 2026).unwrap();
    assert_eq!(plan.package_name, "hello");
    assert_eq!(plan.package_type, PackageType::Binary);
    assert_eq!(plan.source_dir, "tmp4/hello/src");
    assert_eq!(plan.manifest_path, "tmp4/hello/Tailor.toml");
    assert_eq!(plan.source_path, "tmp4/hello/src/main.c");
    assert_eq!(plan.header_path, None);
    assert_eq!(
        plan.manifest_text,
        "[package]\nname = \"hello\"\nversion = \"0.1.0\"\nedition = \"2025.1\"\n"
    );
    assert_eq!(
        plan.message,
        "    \x1b[1;32mCreating\x1b[0m binary (application) `hello` package"
    );
}

#[test]
fn test_create_bin_package_with_flag() {
    let plan = cmd_new("tmp5/hello", true, false, 1, 2, 2026).unwrap();
    assert_eq!(plan.package_name, "hello");
    assert_eq!(plan.package_type, PackageType::Binary);
    assert_eq!(plan.source_path, "tmp5/hello/src/main.c");
    assert_eq!(
        plan.manifest_text,
        "[package]\nname = \"hello\"\nversion = \"0.1.0\"\nedition = \"2025.1\"\n"
    );
}

#[test]
fn test_create_lib_package() {
    let plan = cmd_new("tmp6/hello", false, true, 3, 7, 2026).unwrap();
    assert_eq!(plan.package_name, "hello");
    assert_eq!(plan.package_type, PackageType::Library);
    assert_eq!(plan.source_dir, "tmp6/hello/src/hello");
    assert_eq!(plan.manifest_path, "tmp6/hello/Tailor.toml");
    assert_eq!(plan.source_path, "tmp6/hello/src/hello.c");
    assert_eq!(plan.header_path, Some("tmp6/hello/src/hello/hello.h".to_string()));
    assert_eq!(plan.date_text, "03/07/2026");
    assert_eq!(
        plan.manifest_text,
        "[package]\nname = \"hello\"\nversion = \"0.1.0\"\nedition = \"2025.1\"\ntype = \"lib\"\n"
    );
    assert_eq!(plan.message, "    \x1b[1;32mCreating\x1b[0m library `hello` package");
}

#[test]
fn test_generated_manifest_parses_back() {
    let plan = cmd_new("tmp7/blinky", false, false, 1, 2, 2026).unwrap();
    let manifest = tailor::manifest::Manifest::from_text(&plan.manifest_text, "/w").unwrap();
    assert_eq!(manifest.name(), "blinky");
    assert_eq!(manifest.package_type(), PackageType::Binary);
    assert!(manifest.dependencies().is_empty());
    assert_eq!(manifest.src(), &["src/*.c".to_string()]);
}

#[test]
fn test_new_pkg_parse_args_plain() {
    let mut pkg = NewPkg::default();
    let args = vec!["new".to_string(), "dir/hello".to_string()];
    assert!(pkg.parse_args(&args).is_some());
    assert_eq!(pkg.path(), "dir/hello");
    assert_eq!(pkg.name(), "hello");
    assert_eq!(pkg.pkg_type(), PackageType::Binary);
}

#[test]
fn test_new_pkg_parse_args_with_kind() {
    let mut pkg = NewPkg::default();
    let args = vec!["new".to_string(), "--lib".to_string(), "x".to_string()];
    assert!(pkg.parse_args(&args).is_some());
    assert_eq!(pkg.name(), "x");
    assert_eq!(pkg.pkg_type(), PackageType::Library);

    let mut pkg = NewPkg::default();
    let args = vec!["new".to_string(), "--bin".to_string(), "y/".to_string()];
    assert!(pkg.parse_args(&args).is_some());
    assert_eq!(pkg.name(), "y");
    assert_eq!(pkg.pkg_type(), PackageType::Binary);
}

#[test]
fn test_new_pkg_parse_args_rejects_other_commands() {
    let mut pkg = NewPkg::default();
    assert!(pkg.parse_args(&["run".to_string(), "x".to_string()]).is_none());
    assert!(pkg.parse_args(&["new".to_string()]).is_none());
    assert!(
        pkg.parse_args(&["new".to_string(), "--exe".to_string(), "x".to_string()]).is_none()
    );
}

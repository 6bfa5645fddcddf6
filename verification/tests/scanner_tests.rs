use typst_bake::scanner::{
    collect_package_specs, deps_from_manifest, is_valid_identifier, is_valid_version,
    parse_package_specifier, parse_packages_from_source, resolve_dependencies, PackageSpec,
};

fn spec(ns: &str, name: &str, version: &str) -> PackageSpec {
    PackageSpec {
        namespace: ns.to_owned(),
        name: name.to_owned(),
        version: version.to_owned(),
    }
}

#[test]
fn test_parse_package_specifier_valid() {
    assert_eq!(
        parse_package_specifier("@preview/cetz:0.3.2"),
        Some(PackageSpec {
            namespace: "preview".to_owned(),
            name: "cetz".to_owned(),
            version: "0.3.2".to_owned(),
        })
    );
}

#[test]
fn test_parse_package_specifier_invalid() {
    assert_eq!(parse_package_specifier("preview/cetz:0.3.2"), None);
    assert_eq!(parse_package_specifier("@preview"), None);
    assert_eq!(parse_package_specifier("@preview/cetz"), None);
}

#[test]
fn test_is_downloadable() {
    let preview_pkg = PackageSpec {
        namespace: "preview".to_owned(),
        name: "cetz".to_owned(),
        version: "0.3.2".to_owned(),
    };
    assert!(preview_pkg.is_downloadable());

    let local_pkg = PackageSpec {
        namespace: "local".to_owned(),
        name: "mypkg".to_owned(),
        version: "0.1.0".to_owned(),
    };
    assert!(!local_pkg.is_downloadable());
}

#[test]
fn test_parse_packages_from_source() {
    let content = "#import \"@preview/cetz:0.3.2\"";
    let packages = parse_packages_from_source(content).unwrap();
    assert_eq!(packages.len(), 1);
    assert_eq!(packages[0].name, "cetz");
}

#[test]
fn parse_packages_ignores_malformed_imports() {
    let content = "#import \"utils.typ\"\n#import \"@preview/cetz\"\n#import \"@preview/oxifmt:0.2.1\"";
    let packages = parse_packages_from_source(content).unwrap();
    assert_eq!(packages.len(), 1);
    assert_eq!(packages[0], spec("preview", "oxifmt", "0.2.1"));
}

#[test]
fn identifier_and_version_validity() {
    assert!(is_valid_identifier("cetz-core_2"));
    assert!(!is_valid_identifier(""));
    assert!(!is_valid_identifier("a b"));
    assert!(is_valid_version("0.3.2"));
    assert!(!is_valid_version(""));
    assert!(!is_valid_version("1.0-rc"));
}

#[test]
fn package_dir_and_url() {
    let p = spec("preview", "cetz", "0.3.2");
    assert_eq!(p.package_dir("/cache"), "/cache/preview/cetz/0.3.2");
    assert_eq!(
        p.download_url(),
        "https://packages.typst.org/preview/cetz-0.3.2.tar.gz"
    );
}

#[test]
fn collect_specs_deduplicates_across_sources() {
    let sources = vec![
        "#import \"@preview/cetz:0.3.2\"".to_owned(),
        "#import \"@preview/cetz:0.3.2\"\n#import \"@preview/oxifmt:0.2.1\"".to_owned(),
    ];
    let specs = collect_package_specs(&sources);
    assert_eq!(specs.len(), 2);
    assert_eq!(specs[0], spec("preview", "cetz", "0.3.2"));
    assert_eq!(specs[1], spec("preview", "oxifmt", "0.2.1"));
}

#[test]
fn manifest_dependencies_are_extracted() {
    let manifest = "[package]\nname = \"demo\"\n\n[package.dependencies]\ncetz = \"preview:0.3.2\"\nbroken = \"nocolon\"\n";
    let deps = deps_from_manifest(manifest);
    assert_eq!(deps.len(), 1);
    assert_eq!(deps[0], spec("preview", "cetz", "0.3.2"));
}

#[test]
fn dependencies_combine_manifest_and_imports() {
    let manifest = "[package.dependencies]\ncetz = \"preview:0.3.2\"\n".to_owned();
    let sources = vec!["#import \"@preview/oxifmt:0.2.1\"".to_owned()];
    let deps = resolve_dependencies(Some(&manifest), &sources);
    assert_eq!(deps.len(), 2);
    assert_eq!(deps[0], spec("preview", "cetz", "0.3.2"));
    assert_eq!(deps[1], spec("preview", "oxifmt", "0.2.1"));
}

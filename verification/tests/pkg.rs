use vibelang::pkg::report::{audit_report, registry_has, render_lockfile, upgrade_report, Advisory, RegistryEntry};
use vibelang::pkg::resolve::{resolve, MirrorManifest, MirrorPackage, MirrorVersion};
use vibelang::pkg::versions::{order_registry_entries, versions_newest_first};
use vibelang::pkg::{semver_delta, Manifest, PackageSection, ResolvedPackage, Resolution, SemverDelta};

fn manifest(deps: &[(&str, &str)]) -> Manifest {
    Manifest {
        package: PackageSection { name: "root".to_string(), version: "0.1.0".to_string(), license: None },
        dependencies: deps.iter().map(|(n, r)| (n.to_string(), r.to_string())).collect(),
    }
}

fn version(v: &str, deps: &[(&str, &str)]) -> MirrorVersion {
    MirrorVersion {
        version: v.to_string(),
        manifest: Ok(MirrorManifest {
            license: None,
            dependencies: deps.iter().map(|(n, r)| (n.to_string(), r.to_string())).collect(),
        }),
    }
}

fn package(name: &str, versions: Vec<MirrorVersion>) -> MirrorPackage {
    MirrorPackage { name: name.to_string(), versions: Ok(versions) }
}

fn chosen(r: &Resolution) -> Vec<(String, String)> {
    r.packages.iter().map(|p| (p.name.clone(), p.version.clone())).collect()
}

#[test]
fn semver_delta_classifies_common_transitions() {
    assert_eq!(semver_delta("1.2.3", "1.2.4").expect("patch delta"), SemverDelta::Patch);
    assert_eq!(semver_delta("1.2.3", "1.3.0").expect("minor delta"), SemverDelta::Minor);
    assert_eq!(semver_delta("1.2.3", "2.0.0").expect("major delta"), SemverDelta::Major);
    assert_eq!(semver_delta("1.2.3", "1.2.3").expect("unchanged delta"), SemverDelta::Unchanged);
}

#[test]
fn semver_delta_reports_bad_versions_and_prerelease_changes() {
    let err = semver_delta("one", "1.0.0").unwrap_err();
    assert!(err.starts_with("invalid `--current` version `one`: "));
    let err = semver_delta("1.0.0", "x").unwrap_err();
    assert!(err.starts_with("invalid `--next` version `x`: "));
    assert_eq!(semver_delta("1.0.0-alpha", "1.0.0").unwrap(), SemverDelta::Patch);
}

#[test]
fn resolver_backtracks_to_satisfy_shared_dependency() {
    let m = manifest(&[("a", ">=1.0.0"), ("b", "^1.0.0")]);
    let mirror = vec![
        package("a", vec![version("2.0.0", &[("c", "^2.0.0")]), version("1.0.0", &[("c", "^1.0.0")])]),
        package("b", vec![version("1.0.0", &[("c", "^1.0.0")])]),
        package("c", vec![version("2.0.0", &[]), version("1.5.0", &[])]),
    ];
    let resolved = resolve(&m, &mirror).expect("resolve graph");
    assert_eq!(
        chosen(&resolved),
        vec![
            ("a".to_string(), "1.0.0".to_string()),
            ("b".to_string(), "1.0.0".to_string()),
            ("c".to_string(), "1.5.0".to_string()),
        ]
    );
    assert_eq!(resolved.packages[0].dependencies, vec![("c".to_string(), "1.5.0".to_string())]);
    assert_eq!(resolved.packages[0].source, "mirror");
    assert_eq!(resolved.root.name, "root");
}

#[test]
fn resolver_reports_conflict_when_no_solution_exists() {
    let m = manifest(&[("a", "^2.0.0"), ("b", "^1.0.0")]);
    let mirror = vec![
        package("a", vec![version("2.0.0", &[("c", "^2.0.0")])]),
        package("b", vec![version("1.0.0", &[("c", "^1.0.0")])]),
        package("c", vec![version("2.0.0", &[]), version("1.0.0", &[])]),
    ];
    let err = resolve(&m, &mirror).expect_err("conflict expected");
    assert!(err.contains("failed to resolve dependencies"));
    assert_eq!(err, "failed to resolve dependencies with deterministic backtracking");
}

#[test]
fn resolver_rejects_bad_requirements_and_unreadable_packages() {
    let err = resolve(&manifest(&[("a", "not a req"), ("b", "also bad")]), &vec![]).unwrap_err();
    assert!(err.starts_with("invalid version requirement `not a req`: "));
    let unlisted = vec![MirrorPackage { name: "a".to_string(), versions: Err("cannot list".to_string()) }];
    assert!(resolve(&manifest(&[("a", "*")]), &unlisted).is_err());
    let broken = vec![package(
        "a",
        vec![MirrorVersion { version: "1.0.0".to_string(), manifest: Err("bad".to_string()) }],
    )];
    assert!(resolve(&manifest(&[("a", "*")]), &broken).is_err());
    let empty = resolve(&manifest(&[]), &vec![]).unwrap();
    assert!(empty.packages.is_empty());
    let missing = resolve(&manifest(&[("zzz", "*")]), &vec![]).unwrap_err();
    assert_eq!(missing, "failed to resolve dependencies with deterministic backtracking");
}

#[test]
fn lockfile_is_deterministic_across_repeated_writes() {
    let m = manifest(&[("a", "^1.0.0"), ("b", "^1.0.0")]);
    let mirror = vec![
        package("b", vec![version("1.0.0", &[])]),
        package("a", vec![version("1.0.0", &[("b", "^1")])]),
    ];
    let resolved = resolve(&m, &mirror).expect("resolve graph");
    let first = render_lockfile(&resolved);
    let second = render_lockfile(&resolved);
    assert_eq!(first, second);
    assert_eq!(
        first,
        "version = 1\n\n[[package]]\nname = \"a\"\nversion = \"1.0.0\"\nsource = \"mirror\"\ndependencies = { b = \"1.0.0\" }\n\n[[package]]\nname = \"b\"\nversion = \"1.0.0\"\nsource = \"mirror\"\ndependencies = {}\n\n"
    );
}

#[test]
fn upgrade_plan_marks_major_jump_as_manifest_change() {
    let m = manifest(&[("demo", "^1.0.0")]);
    let mirror = vec![package("demo", vec![version("2.0.0", &[]), version("1.4.0", &[])])];
    let resolved = resolve(&m, &mirror).expect("resolve");
    let plan = upgrade_report(&m.dependencies, &resolved, &mirror).expect("upgrade plan");
    let entry = plan.entries.iter().find(|entry| entry.package == "demo").expect("demo entry");
    assert_eq!(entry.current, "1.4.0");
    assert_eq!(entry.latest_compatible, "1.4.0");
    assert_eq!(entry.latest_available, "2.0.0");
    assert!(entry.requires_manifest_change);
}

#[test]
fn upgrade_plan_skips_unresolved_and_reports_bad_requirements() {
    let resolution = Resolution {
        root: PackageSection { name: "r".to_string(), version: "1.0.0".to_string(), license: None },
        packages: vec![ResolvedPackage {
            name: "x".to_string(),
            version: "1.0.0".to_string(),
            source: "mirror".to_string(),
            dependencies: vec![],
        }],
    };
    let deps = vec![("w".to_string(), "^1".to_string()), ("x".to_string(), "^1".to_string())];
    let plan = upgrade_report(&deps, &resolution, &vec![]).unwrap();
    assert_eq!(plan.entries.len(), 1);
    assert_eq!(plan.entries[0].latest_available, "1.0.0");
    assert!(!plan.entries[0].requires_manifest_change);
    let bad = vec![("x".to_string(), "??".to_string())];
    let err = upgrade_report(&bad, &resolution, &vec![]).unwrap_err();
    assert!(err.starts_with("invalid dependency requirement `??` for `x`: "));
}

#[test]
fn audit_reports_license_and_advisory_findings() {
    let resolution = Resolution {
        root: PackageSection { name: "root".to_string(), version: "0.1.0".to_string(), license: None },
        packages: vec![ResolvedPackage {
            name: "demo".to_string(),
            version: "1.2.0".to_string(),
            source: "mirror".to_string(),
            dependencies: vec![],
        }],
    };
    let manifests = vec![Ok(MirrorManifest { license: Some("GPL-3.0".to_string()), dependencies: vec![] })];
    let advisories = vec![
        Advisory {
            id: "VIBESEC-2026-0001".to_string(),
            package: "demo".to_string(),
            affected: "<2.0.0".to_string(),
            severity: "high".to_string(),
        },
        Advisory {
            id: "OTHER".to_string(),
            package: "demo".to_string(),
            affected: ">=2.0.0".to_string(),
            severity: "".to_string(),
        },
    ];
    let report = audit_report(&resolution, &manifests, &vec!["GPL-3.0".to_string()], &advisories).expect("audit");
    assert_eq!(report.scanned, 1);
    assert!(report.findings.iter().any(|f| f.kind == "license"));
    assert!(report.findings.iter().any(|f| f.kind == "vulnerability"));
    assert_eq!(report.findings.len(), 2);
    assert_eq!(report.findings[0].detail, "license `GPL-3.0` is denied by policy");
    assert_eq!(report.findings[1].detail, "VIBESEC-2026-0001 matched affected range `<2.0.0` (severity=high)");
    let blank = vec![Advisory {
        id: "B".to_string(),
        package: "demo".to_string(),
        affected: "*".to_string(),
        severity: "  ".to_string(),
    }];
    let unspecified = vec![Ok(MirrorManifest { license: None, dependencies: vec![] })];
    let r2 = audit_report(&resolution, &unspecified, &vec!["UNSPECIFIED".to_string()], &blank).unwrap();
    assert_eq!(r2.findings[0].detail, "license `UNSPECIFIED` is denied by policy");
    assert_eq!(r2.findings[1].detail, "B matched affected range `*` (severity=unknown)");
}

#[test]
fn registry_lookup_matches_name_and_version() {
    let entries = vec![RegistryEntry {
        name: "a".to_string(),
        version: "1.0.0".to_string(),
        source: "local".to_string(),
    }];
    assert!(registry_has(&entries, "a", "1.0.0"));
    assert!(!registry_has(&entries, "a", "1.0.1"));
    assert!(!registry_has(&entries, "b", "1.0.0"));
}

#[test]
fn mirror_versions_are_listed_newest_first_without_unparseable_names() {
    let names: Vec<String> = vec![
        "0.9.0".to_string(),
        "notes".to_string(),
        "1.10.0".to_string(),
        "1.2.0".to_string(),
        "1.2.0-beta.1".to_string(),
        "2.0.0".to_string(),
    ];
    assert_eq!(
        versions_newest_first(&names),
        vec![
            "2.0.0".to_string(),
            "1.10.0".to_string(),
            "1.2.0".to_string(),
            "1.2.0-beta.1".to_string(),
            "0.9.0".to_string(),
        ]
    );
    assert!(versions_newest_first(&Vec::new()).is_empty());
}

fn entry(name: &str, version: &str, source: &str) -> RegistryEntry {
    RegistryEntry { name: name.to_string(), version: version.to_string(), source: source.to_string() }
}

#[test]
fn registry_entries_order_by_name_then_semver_with_unparseable_as_zero() {
    let ordered = order_registry_entries(vec![
        entry("zeta", "1.0.0", "local"),
        entry("alpha", "1.10.0", "local"),
        entry("alpha", "1.2.0", "local"),
        entry("alpha", "draft", "a"),
        entry("alpha", "0.0.0", "b"),
        entry("alpha", "0.1.0", "local"),
    ]);
    let pairs: Vec<(String, String, String)> =
        ordered.into_iter().map(|e| (e.name, e.version, e.source)).collect();
    let expected: Vec<(String, String, String)> = vec![
        ("alpha", "draft", "a"),
        ("alpha", "0.0.0", "b"),
        ("alpha", "0.1.0", "local"),
        ("alpha", "1.2.0", "local"),
        ("alpha", "1.10.0", "local"),
        ("zeta", "1.0.0", "local"),
    ]
    .into_iter()
    .map(|(a, b, c)| (a.to_string(), b.to_string(), c.to_string()))
    .collect();
    assert_eq!(pairs, expected);
}

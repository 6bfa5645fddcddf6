use std::collections::HashSet;
use typst_bake::downloader::{lock_file_path, temp_dir_path, Decision, ResolveFailure, Resolver};
use typst_bake::scanner::{PackageSpec, ResolvedPackage};

fn spec(ns: &str, name: &str, version: &str) -> PackageSpec {
    PackageSpec {
        namespace: ns.to_owned(),
        name: name.to_owned(),
        version: version.to_owned(),
    }
}

/// Drive a resolution against a simulated filesystem: `cached` holds the
/// package paths that exist in the cache directory, `local` those in the
/// data directory. Downloads succeed when `downloads_work`, populate the
/// cache, and are counted.
fn run(
    resolver: &mut Resolver,
    local: &HashSet<String>,
    cached: &mut HashSet<String>,
    deps: &[(PackageSpec, Vec<PackageSpec>)],
    downloads_work: bool,
    network_calls: &mut usize,
) {
    while let Some(pending) = resolver.next_pending() {
        let local_exists = pending
            .local_path
            .as_ref()
            .map(|p| local.contains(p))
            .unwrap_or(false);
        let cache_exists = cached.contains(&pending.cache_path);
        let mut resolved_here = false;
        match resolver.decide(local_exists, cache_exists) {
            Decision::UseLocal | Decision::UseCache => {
                resolved_here = true;
            }
            Decision::Download { url: _, dest } => {
                *network_calls += 1;
                if downloads_work {
                    cached.insert(dest);
                    resolver.on_downloaded(Ok(()));
                    resolved_here = true;
                } else {
                    resolver.on_downloaded(Err("connection refused".to_owned()));
                }
            }
            Decision::NotFound => {}
        }
        if resolved_here {
            for (of, ds) in deps {
                if *of == pending.spec {
                    resolver.add_dependencies(ds.clone());
                }
            }
        }
    }
}

#[test]
fn diamond_dependency_resolves_once() {
    // A and B both depend on C; C appears exactly once in the output.
    let a = spec("preview", "a", "1.0.0");
    let b = spec("preview", "b", "1.0.0");
    let c = spec("preview", "c", "1.0.0");
    let mut cached: HashSet<String> = [
        a.package_dir("/cache"),
        b.package_dir("/cache"),
        c.package_dir("/cache"),
    ]
    .into_iter()
    .collect();
    let deps = vec![
        (a.clone(), vec![c.clone()]),
        (b.clone(), vec![c.clone()]),
    ];
    let mut calls = 0;
    let mut resolver = Resolver::new(
        vec![a.clone(), b.clone()],
        None,
        "/cache".to_owned(),
        false,
    );
    run(&mut resolver, &HashSet::new(), &mut cached, &deps, true, &mut calls);
    let resolved = resolver.finish().unwrap();
    assert_eq!(resolved.len(), 3);
    let c_count = resolved.iter().filter(|r| r.spec == c).count();
    assert_eq!(c_count, 1);
    assert_eq!(calls, 0);
}

#[test]
fn resolution_is_idempotent_without_refresh() {
    // First run downloads; a second run over the now-populated cache
    // performs zero network calls and resolves the same set.
    let p = spec("preview", "cetz", "0.3.2");
    let mut cached: HashSet<String> = HashSet::new();
    let mut calls = 0;
    let mut first = Resolver::new(vec![p.clone()], None, "/cache".to_owned(), false);
    run(&mut first, &HashSet::new(), &mut cached, &[], true, &mut calls);
    let first_resolved = first.finish().unwrap();
    assert_eq!(first_resolved.len(), 1);
    assert_eq!(calls, 1);

    let mut second = Resolver::new(vec![p.clone()], None, "/cache".to_owned(), false);
    run(&mut second, &HashSet::new(), &mut cached, &[], true, &mut calls);
    let second_resolved = second.finish().unwrap();
    assert_eq!(calls, 1);
    assert_eq!(second_resolved.len(), first_resolved.len());
    assert_eq!(second_resolved[0].spec, first_resolved[0].spec);
    assert_eq!(second_resolved[0].path, first_resolved[0].path);
}

#[test]
fn refresh_forces_redownload() {
    let p = spec("preview", "cetz", "0.3.2");
    let mut cached: HashSet<String> = [p.package_dir("/cache")].into_iter().collect();
    let mut calls = 0;
    let mut resolver = Resolver::new(vec![p.clone()], None, "/cache".to_owned(), true);
    run(&mut resolver, &HashSet::new(), &mut cached, &[], true, &mut calls);
    assert!(resolver.finish().is_ok());
    assert_eq!(calls, 1);
}

#[test]
fn local_data_dir_wins_over_cache() {
    let p = spec("local", "mypkg", "0.1.0");
    let local: HashSet<String> = [p.package_dir("/data")].into_iter().collect();
    let mut cached: HashSet<String> = [p.package_dir("/cache")].into_iter().collect();
    let mut calls = 0;
    let mut resolver = Resolver::new(
        vec![p.clone()],
        Some("/data".to_owned()),
        "/cache".to_owned(),
        false,
    );
    run(&mut resolver, &local, &mut cached, &[], true, &mut calls);
    let resolved = resolver.finish().unwrap();
    assert_eq!(resolved[0].path, "/data/local/mypkg/0.1.0");
    assert_eq!(calls, 0);
}

#[test]
fn not_found_reports_every_searched_path() {
    // A non-downloadable package absent everywhere fails with all paths
    // searched, while an independent package still resolves.
    let missing = spec("local", "ghost", "0.1.0");
    let fine = spec("preview", "cetz", "0.3.2");
    let mut cached: HashSet<String> = [fine.package_dir("/cache")].into_iter().collect();
    let mut calls = 0;
    let mut resolver = Resolver::new(
        vec![missing.clone(), fine.clone()],
        Some("/data".to_owned()),
        "/cache".to_owned(),
        false,
    );
    run(&mut resolver, &HashSet::new(), &mut cached, &[], true, &mut calls);
    assert_eq!(resolver.resolved.len(), 1);
    assert_eq!(resolver.resolved[0].spec, fine);
    let failures = resolver.finish().unwrap_err();
    assert_eq!(failures.len(), 1);
    match &failures[0] {
        ResolveFailure::NotFound { spec: s, searched } => {
            assert_eq!(*s, missing);
            assert_eq!(
                *searched,
                vec![
                    "/data/local/ghost/0.1.0".to_owned(),
                    "/cache/local/ghost/0.1.0".to_owned(),
                ]
            );
        }
        other => panic!("expected a not-found failure, got {:?}", other),
    }
}

#[test]
fn failed_download_is_collected_not_fatal() {
    let bad = spec("preview", "gone", "9.9.9");
    let good = spec("preview", "cetz", "0.3.2");
    let mut cached: HashSet<String> = [good.package_dir("/cache")].into_iter().collect();
    let mut calls = 0;
    let mut resolver = Resolver::new(
        vec![bad.clone(), good.clone()],
        None,
        "/cache".to_owned(),
        false,
    );
    run(&mut resolver, &HashSet::new(), &mut cached, &[], false, &mut calls);
    assert_eq!(resolver.resolved.len(), 1);
    let failures = resolver.finish().unwrap_err();
    assert_eq!(failures.len(), 1);
    match &failures[0] {
        ResolveFailure::Download { spec: s, reason } => {
            assert_eq!(*s, bad);
            assert_eq!(reason, "connection refused");
        }
        other => panic!("expected a download failure, got {:?}", other),
    }
}

#[test]
fn empty_input_resolves_to_nothing() {
    let resolver = Resolver::new(Vec::new(), None, "/cache".to_owned(), false);
    let resolved: Vec<ResolvedPackage> = resolver.finish().unwrap();
    assert_eq!(resolved.len(), 0);
}

#[test]
fn failure_messages_list_reason_and_paths() {
    let nf = ResolveFailure::NotFound {
        spec: spec("local", "ghost", "0.1.0"),
        searched: vec!["/data/local/ghost/0.1.0".to_owned(), "/cache/local/ghost/0.1.0".to_owned()],
    };
    assert_eq!(
        nf.message(),
        "@local/ghost:0.1.0: not found, searched:\n      /data/local/ghost/0.1.0\n      /cache/local/ghost/0.1.0"
    );
    let dl = ResolveFailure::Download {
        spec: spec("preview", "gone", "9.9.9"),
        reason: "connection refused".to_owned(),
    };
    assert_eq!(dl.message(), "@preview/gone:9.9.9: download failed: connection refused");
    let all = typst_bake::downloader::describe_failures(&vec![dl, nf]);
    assert!(all.starts_with("Failed to resolve 2 package(s):\n  - @preview/gone:9.9.9"));
    assert!(all.contains("\n  - @local/ghost:0.1.0"));
}

#[test]
fn download_scratch_paths_leave_destination_alone() {
    // The lock file and the temporary extraction directory derived from a
    // destination are never the destination itself.
    let dest = "/cache/preview/cetz/0.3.2";
    assert_eq!(lock_file_path(dest), "/cache/preview/cetz/0.3.2.lock");
    assert_eq!(temp_dir_path(dest, 4242), "/cache/preview/cetz/0.3.2.tmp.4242");
    assert_ne!(lock_file_path(dest), dest);
    assert_ne!(temp_dir_path(dest, 4242), dest);
}

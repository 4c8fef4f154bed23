use wovensnake::dependencies::package::{
    artifacts_of, metadata_url, Digests, Info, PackageUrl, PypiPackageInfo,
};
use wovensnake::engine::lock::{build_lockfile, lock_package};
use wovensnake::engine::marker::{build_marker_environment, MarkerEnv};
use wovensnake::engine::resolver::{
    is_conflict, is_skipped, pinned, resolve, DependencyGraph, IndexCause, IndexSnapshot, Poll,
    ResolveError, Resolver,
};
use wovensnake::engine::strmap::StrMap;

fn env() -> MarkerEnv {
    build_marker_environment("3.12", "linux", "x86_64").ok().unwrap()
}

fn deps(pairs: &[(&str, &str)]) -> StrMap<String> {
    let mut m = StrMap::new();
    for (name, constraint) in pairs {
        m.insert(name.to_string(), constraint.to_string());
    }
    m
}

fn wheel(name: &str, version: &str) -> PackageUrl {
    let filename = format!("{name}-{version}-py3-none-any.whl");
    PackageUrl {
        url: format!("https://files.example/{filename}"),
        filename,
        packagetype: "bdist_wheel".into(),
        digests: Digests { sha256: "a".repeat(64) },
    }
}

fn release(name: &str, version: &str, requires: &[&str]) -> PypiPackageInfo {
    PypiPackageInfo {
        info: Info {
            name: name.into(),
            version: version.into(),
            summary: None,
            requires_dist: if requires.is_empty() {
                None
            } else {
                Some(requires.iter().map(|r| r.to_string()).collect())
            },
        },
        urls: vec![wheel(name, version)],
    }
}

fn keys(graph: &DependencyGraph) -> Vec<String> {
    (0..graph.packages.len()).map(|i| graph.packages.key_at(i).clone()).collect()
}

#[test]
fn fresh_install_with_one_pure_python_dependency() {
    let index = IndexSnapshot { releases: vec![release("six", "1.16.0", &[])] };
    let graph = resolve(&deps(&[("six", "1.16.0")]), env(), &index).ok().unwrap();
    assert_eq!(keys(&graph), ["six"]);
    let lock = build_lockfile("p", "0.0.1", "3.12", &graph, &index).ok().unwrap();
    assert_eq!(lock.name, "p");
    assert_eq!(lock.version, "0.0.1");
    assert_eq!(lock.python_version, "3.12");
    assert_eq!(lock.packages.len(), 1);
    let six = lock.packages.get("six").unwrap();
    assert_eq!(six.version, "1.16.0");
    assert_eq!(six.artifacts.len(), 1);
    assert_eq!(six.artifacts[0].platform, "any");
    assert!(six.dependencies.is_empty());
}

#[test]
fn cycles_are_tolerated() {
    let index = IndexSnapshot {
        releases: vec![release("a", "1", &["b"]), release("b", "1", &["a"])],
    };
    let graph = resolve(&deps(&[("a", "")]), env(), &index).ok().unwrap();
    assert_eq!(keys(&graph), ["a", "b"]);
    assert_eq!(graph.packages.get("a").unwrap().dependencies, ["b"]);
    assert_eq!(graph.packages.get("b").unwrap().dependencies, ["a"]);
}

#[test]
fn conflict_is_surfaced() {
    let index = IndexSnapshot { releases: vec![release("c", "1.9", &[])] };
    match resolve(&deps(&[("c", ">=2.0")]), env(), &index) {
        Err(ResolveError::Conflict { name, chosen, new_constraint }) => {
            assert_eq!(name, "c");
            assert_eq!(chosen, "1.9");
            assert_eq!(new_constraint, ">=2.0");
        }
        other => panic!("no conflict: {other:?}"),
    }
}

#[test]
fn later_constraint_is_checked_against_the_first_choice() {
    let index = IndexSnapshot {
        releases: vec![
            release("a", "1", &["shared>=1"]),
            release("b", "1", &["shared>=2"]),
            release("shared", "1.5", &[]),
        ],
    };
    match resolve(&deps(&[("a", ""), ("b", "")]), env(), &index) {
        Err(ResolveError::Conflict { name, chosen, new_constraint }) => {
            assert_eq!(name, "shared");
            assert_eq!(chosen, "1.5");
            assert_eq!(new_constraint, ">=2");
        }
        other => panic!("no conflict: {other:?}"),
    }
}

#[test]
fn first_seen_version_stays() {
    let index = IndexSnapshot {
        releases: vec![
            release("a", "1", &["shared==1.0"]),
            release("b", "1", &["shared>=1"]),
            release("shared", "2.0", &[]),
            release("shared", "1.0", &[]),
        ],
    };
    let graph = resolve(&deps(&[("a", ""), ("b", "")]), env(), &index).ok().unwrap();
    assert_eq!(keys(&graph), ["a", "b", "shared"]);
    assert_eq!(graph.packages.get("shared").unwrap().version, "1.0");
}

#[test]
fn every_dependency_of_a_node_is_a_node() {
    let index = IndexSnapshot {
        releases: vec![
            release("Flask", "2.0.0", &["Jinja2>=3.0", "Werkzeug>=2.0", "click>=7.1.2", "argparse", "dataclasses; python_version < '3.7'"]),
            release("Jinja2", "3.1.2", &["MarkupSafe>=2.0", "Babel>=2.7; extra == 'i18n'"]),
            release("Werkzeug", "2.3.0", &["MarkupSafe>=2.1.1"]),
            release("click", "8.1.0", &["colorama; platform_system == 'Windows'"]),
            release("MarkupSafe", "2.1.3", &[]),
        ],
    };
    let graph = resolve(&deps(&[("flask", "2.0.0")]), env(), &index).ok().unwrap();
    assert_eq!(keys(&graph), ["click", "flask", "jinja2", "markupsafe", "werkzeug"]);
    for i in 0..graph.packages.len() {
        for dep in &graph.packages.value_at(i).dependencies {
            assert!(graph.packages.contains_key(dep), "{dep} is missing");
        }
    }
    let flask = graph.packages.get("flask").unwrap();
    assert_eq!(flask.name, "Flask");
    assert_eq!(flask.dependencies, ["jinja2", "werkzeug", "click"]);
}

#[test]
fn resolving_twice_gives_the_same_graph() {
    let index = IndexSnapshot {
        releases: vec![
            release("a", "1", &["c", "b"]),
            release("b", "2", &["c"]),
            release("c", "3", &[]),
        ],
    };
    let roots = deps(&[("b", ""), ("a", "")]);
    let first = resolve(&roots, env(), &index).ok().unwrap();
    let second = resolve(&roots, env(), &index).ok().unwrap();
    assert_eq!(keys(&first), keys(&second));
    for i in 0..first.packages.len() {
        let (x, y) = (first.packages.value_at(i), second.packages.value_at(i));
        assert_eq!(x.name, y.name);
        assert_eq!(x.version, y.version);
        assert_eq!(x.dependencies, y.dependencies);
    }
}

#[test]
fn self_reference_blocked_and_empty_names_are_skipped() {
    let index = IndexSnapshot { releases: vec![release("a", "1", &["a", "A", "typing", "wsgiref>=0.1"])] };
    let graph = resolve(&deps(&[("a", ""), ("argparse", "1.0"), ("", "")]), env(), &index).ok().unwrap();
    assert_eq!(keys(&graph), ["a"]);
    assert!(graph.packages.get("a").unwrap().dependencies.is_empty());
    assert!(is_skipped(""));
    assert!(is_skipped("importlib"));
    assert!(is_skipped("asyncio"));
    assert!(is_skipped("pathlib"));
    assert!(!is_skipped("requests"));
}

#[test]
fn release_without_artifacts_cannot_be_resolved() {
    let mut bare = release("a", "1", &[]);
    bare.urls.clear();
    let index = IndexSnapshot { releases: vec![bare] };
    match resolve(&deps(&[("a", "")]), env(), &index) {
        Err(ResolveError::NoArtifacts { name, version }) => {
            assert_eq!(name, "a");
            assert_eq!(version, "1");
        }
        other => panic!("resolved: {other:?}"),
    }
    let mut odd = release("a", "1", &[]);
    odd.urls[0].packagetype = "bdist_egg".into();
    let index = IndexSnapshot { releases: vec![odd] };
    assert!(matches!(resolve(&deps(&[("a", "")]), env(), &index), Err(ResolveError::NoArtifacts { .. })));
}

#[test]
fn unknown_package_is_an_index_error() {
    let index = IndexSnapshot { releases: vec![release("a", "1", &["missing>=1"])] };
    match resolve(&deps(&[("a", "1")]), env(), &index) {
        Err(ResolveError::Index(e)) => {
            assert_eq!(e.name, "missing");
            assert_eq!(e.version, None);
            assert_eq!(e.cause, IndexCause::Status);
        }
        other => panic!("resolved: {other:?}"),
    }
    match resolve(&deps(&[("a", "2")]), env(), &index) {
        Err(ResolveError::Index(e)) => {
            assert_eq!(e.name, "a");
            assert_eq!(e.version.as_deref(), Some("2"));
        }
        other => panic!("resolved: {other:?}"),
    }
}

#[test]
fn pinned_version_is_fetched_and_latest_otherwise() {
    let index = IndexSnapshot {
        releases: vec![release("numpy", "1.26.0", &[]), release("numpy", "1.24.0", &[])],
    };
    let graph = resolve(&deps(&[("numpy", "=1.24.0")]), env(), &index).ok().unwrap();
    assert_eq!(graph.packages.get("numpy").unwrap().version, "1.24.0");
    let graph = resolve(&deps(&[("numpy", "==1.24.0")]), env(), &index).ok().unwrap();
    assert_eq!(graph.packages.get("numpy").unwrap().version, "1.24.0");
    let graph = resolve(&deps(&[("numpy", ">=1.20")]), env(), &index).ok().unwrap();
    assert_eq!(graph.packages.get("numpy").unwrap().version, "1.26.0");
    let graph = resolve(&deps(&[("NumPy", "")]), env(), &index).ok().unwrap();
    assert_eq!(keys(&graph), ["numpy"]);
}

#[test]
fn pinned_reads_bare_and_equal_versions() {
    assert_eq!(pinned("1.16.0").as_deref(), Some("1.16.0"));
    assert_eq!(pinned(" == 1.16.0 ").as_deref(), Some("1.16.0"));
    assert_eq!(pinned("=1.24.0").as_deref(), Some("1.24.0"));
    assert_eq!(pinned("===1.0").as_deref(), Some("1.0"));
    assert_eq!(pinned(">=2.0"), None);
    assert_eq!(pinned("==1.*"), None);
    assert_eq!(pinned("==1.0,<2"), None);
    assert_eq!(pinned("~=1.4"), None);
    assert_eq!(pinned(""), None);
    assert_eq!(pinned("=="), None);
    assert_eq!(pinned("1 0"), None);
}

#[test]
fn conflict_needs_a_constraint_that_parses_and_fails() {
    assert!(is_conflict(&Some(">=2.0".to_string()), "1.9"));
    assert!(!is_conflict(&Some(">=2.0".to_string()), "2.1"));
    assert!(!is_conflict(&Some("1.9".to_string()), "2.1"));
    assert!(!is_conflict(&Some(">=2.0".to_string()), "not-a-version"));
    assert!(!is_conflict(&Some("".to_string()), "1.0"));
    assert!(!is_conflict(&None, "1.0"));
    assert!(is_conflict(&Some("==1.*".to_string()), "2.0"));
}

#[test]
fn seed_order_is_by_canonical_name() {
    let mut resolver = Resolver::new(&deps(&[("b", ""), ("Zope.Interface", ""), ("a", ""), ("C", "")]), env());
    let mut asked = Vec::new();
    loop {
        match resolver.poll() {
            Poll::Fetch { name, version } => {
                assert_eq!(version, None);
                resolver.supply(&release(&name, "1", &[])).ok().unwrap();
                asked.push(name);
            }
            Poll::Done => break,
            Poll::Failed(e) => panic!("failed: {e:?}"),
        }
    }
    assert_eq!(asked, ["a", "b", "C", "Zope.Interface"]);
    assert!(resolver.is_done());
    assert_eq!(keys(&resolver.finish()), ["a", "b", "c", "zope_interface"]);
}

#[test]
fn poll_and_supply_walk_the_graph() {
    let mut resolver = Resolver::new(&deps(&[("flask", "2.0.0")]), env());
    match resolver.poll() {
        Poll::Fetch { name, version } => {
            assert_eq!(name, "flask");
            assert_eq!(version.as_deref(), Some("2.0.0"));
        }
        other => panic!("unexpected: {other:?}"),
    }
    assert!(matches!(resolver.poll(), Poll::Fetch { .. }));
    resolver.supply(&release("Flask", "2.0.0", &["Jinja2>=3.0"])).ok().unwrap();
    match resolver.poll() {
        Poll::Fetch { name, version } => {
            assert_eq!(name, "jinja2");
            assert_eq!(version, None);
        }
        other => panic!("unexpected: {other:?}"),
    }
    resolver.supply(&release("Jinja2", "3.1.2", &["flask"])).ok().unwrap();
    assert!(matches!(resolver.poll(), Poll::Done));
    assert!(resolver.supply(&release("other", "1", &[])).is_ok());
    let graph = resolver.finish();
    assert_eq!(keys(&graph), ["flask", "jinja2"]);
    assert_eq!(graph.packages.get("jinja2").unwrap().dependencies, ["flask"]);
}

#[test]
fn supply_refuses_the_release_of_another_package() {
    let mut resolver = Resolver::new(&deps(&[("flask", "")]), env());
    assert!(matches!(resolver.poll(), Poll::Fetch { .. }));
    match resolver.supply(&release("django", "4", &[])) {
        Err(ResolveError::Index(e)) => {
            assert_eq!(e.name, "flask");
            assert_eq!(e.cause, IndexCause::Parse);
        }
        other => panic!("accepted: {other:?}"),
    }
    assert!(matches!(resolver.poll(), Poll::Fetch { .. }));
}

#[test]
fn artifacts_are_derived_from_listed_files() {
    let urls = vec![
        PackageUrl {
            url: "u1".into(),
            filename: "numpy-1.24.0-cp311-cp311-win_amd64.whl".into(),
            packagetype: "bdist_wheel".into(),
            digests: Digests { sha256: "1".repeat(64) },
        },
        PackageUrl {
            url: "u2".into(),
            filename: "numpy-1.24.0.win_amd64.exe".into(),
            packagetype: "bdist_wininst".into(),
            digests: Digests { sha256: "2".repeat(64) },
        },
        PackageUrl {
            url: "u3".into(),
            filename: "numpy-1.24.0.tar.gz".into(),
            packagetype: "sdist".into(),
            digests: Digests { sha256: "3".repeat(64) },
        },
        PackageUrl {
            url: "u4".into(),
            filename: "numpy-1.24.0-py3-none-any.whl".into(),
            packagetype: "bdist_wheel".into(),
            digests: Digests { sha256: "ABCDEF".repeat(10) + "0000" },
        },
        PackageUrl {
            url: "u5".into(),
            filename: "numpy-1.24.0.zip".into(),
            packagetype: "sdist".into(),
            digests: Digests { sha256: "1234567890abcdef".into() },
        },
    ];
    let artifacts = artifacts_of(&urls);
    assert_eq!(artifacts.len(), 2);
    assert_eq!(artifacts[0].platform, "win_amd64");
    assert_eq!(artifacts[0].url, "u1");
    assert_eq!(artifacts[0].sha256, "1".repeat(64));
    assert_eq!(artifacts[1].platform, "source");
    assert_eq!(artifacts[1].filename, "numpy-1.24.0.tar.gz");
}

#[test]
fn release_with_malformed_digests_only_has_no_artifact() {
    let mut odd = release("a", "1", &[]);
    odd.urls[0].digests.sha256 = "not a digest".into();
    let index = IndexSnapshot { releases: vec![odd] };
    assert!(matches!(resolve(&deps(&[("a", "")]), env(), &index), Err(ResolveError::NoArtifacts { .. })));
}

#[test]
fn built_lockfiles_are_sound() {
    let index = IndexSnapshot { releases: vec![release("a", "1", &["b"]), release("b", "1", &[])] };
    let graph = resolve(&deps(&[("a", "")]), env(), &index).ok().unwrap();
    let mut lock = build_lockfile("p", "1", "3.12", &graph, &index).ok().unwrap();
    assert!(lock.is_sound());
    let mut entry = lock.packages.get("a").unwrap().clone();
    entry.artifacts[0].sha256 = "A".repeat(64);
    lock.packages.insert("a".into(), entry);
    assert!(!lock.is_sound());
    let mut entry = lock.packages.get("b").unwrap().clone();
    entry.artifacts.clear();
    let mut lock = build_lockfile("p", "1", "3.12", &graph, &index).ok().unwrap();
    lock.packages.insert("b".into(), entry);
    assert!(!lock.is_sound());
    let mut entry = lock.packages.get("a").unwrap().clone();
    entry.artifacts[0].platform = "amiga".into();
    let mut lock = build_lockfile("p", "1", "3.12", &graph, &index).ok().unwrap();
    lock.packages.insert("a".into(), entry);
    assert!(!lock.is_sound());
}

#[test]
fn lock_entry_needs_an_artifact() {
    let index = IndexSnapshot { releases: vec![release("a", "1", &["b"]), release("b", "1", &[])] };
    let graph = resolve(&deps(&[("a", "")]), env(), &index).ok().unwrap();
    let node = graph.packages.get("a").unwrap();
    let entry = lock_package(node, &index.releases[0]).ok().unwrap();
    assert_eq!(entry.version, "1");
    assert_eq!(entry.dependencies, ["b"]);
    assert_eq!(entry.artifacts.len(), 1);
    let mut bare = release("a", "1", &[]);
    bare.urls.clear();
    assert!(matches!(lock_package(node, &bare), Err(ResolveError::NoArtifacts { .. })));
}

#[test]
fn lockfile_keys_are_the_display_names_of_the_graph() {
    let index = IndexSnapshot {
        releases: vec![release("Flask", "2.0.0", &["Jinja2"]), release("Jinja2", "3.1.2", &[])],
    };
    let graph = resolve(&deps(&[("flask", "")]), env(), &index).ok().unwrap();
    let lock = build_lockfile("p", "1", "3.12", &graph, &index).ok().unwrap();
    assert_eq!(lock.packages.len(), 2);
    assert_eq!(lock.packages.key_at(0), "Flask");
    assert_eq!(lock.packages.key_at(1), "Jinja2");
    assert_eq!(lock.packages.get("Flask").unwrap().dependencies, ["jinja2"]);
    let empty = IndexSnapshot { releases: vec![] };
    assert!(matches!(build_lockfile("p", "1", "3.12", &graph, &empty), Err(ResolveError::Index(_))));
}

#[test]
fn metadata_url_of_the_index() {
    assert_eq!(metadata_url("six", None), "https://pypi.org/pypi/six/json");
    assert_eq!(metadata_url("six", Some("1.16.0")), "https://pypi.org/pypi/six/1.16.0/json");
}

#[test]
fn advance_walks_a_snapshot_and_rests_when_done() {
    let index = IndexSnapshot { releases: vec![release("a", "1", &["b"]), release("b", "1", &[])] };
    let mut resolver = Resolver::new(&deps(&[("a", "")]), env());
    let mut steps = 0;
    while !resolver.is_done() {
        resolver.advance(&index).ok().unwrap();
        steps += 1;
    }
    assert_eq!(steps, 2);
    assert!(resolver.advance(&index).is_ok());
    assert_eq!(keys(&resolver.finish()), ["a", "b"]);
}

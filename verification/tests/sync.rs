use sha2::{Digest, Sha256};
use wovensnake::engine::lock::{Artifact, LockedPackage, Lockfile};
use wovensnake::engine::project::{
    env_python, exit_code, install_mode, run_target, scripts_dir, search_path, site_packages_dir,
    Ending, InstallMode, RunTarget,
};
use wovensnake::engine::sync::{
    archive_kind, digest_matches, install_step, installed_names, key_of_entry,
    packages_to_install, prune_plan, sync_outcome, valid_digest, Action, ArtifactKind, Event,
    Failure, PackageResult, Phase, SiteEntry, SyncError,
};

fn hex(bytes: &[u8]) -> String {
    format!("{:x}", Sha256::digest(bytes))
}

fn dir(name: &str) -> SiteEntry {
    SiteEntry { name: name.to_string(), is_dir: true }
}

fn file(name: &str) -> SiteEntry {
    SiteEntry { name: name.to_string(), is_dir: false }
}

fn package(filename: &str, platform: &str, content: &[u8]) -> LockedPackage {
    LockedPackage {
        version: "1".into(),
        artifacts: vec![Artifact {
            url: format!("https://files.example/{filename}"),
            filename: filename.into(),
            sha256: hex(content),
            platform: platform.into(),
        }],
        dependencies: vec![],
    }
}

fn lockfile(names: &[&str]) -> Lockfile {
    let mut lock = Lockfile::new("p", "1", "3.12");
    for name in names {
        lock.packages.insert(name.to_string(), package("x-1-py3-none-any.whl", "any", b"x"));
    }
    lock
}

#[test]
fn digest_of_known_bytes() {
    assert!(digest_matches(b"abc", "ba7816bf8f01cfea414140de5dae2223b00361a396177a9cb410ff61f20015ad"));
    assert!(digest_matches(b"", "e3b0c44298fc1c149afbf4c8996fb92427ae41e4649b934ca495991b7852b855"));
    assert!(!digest_matches(b"abc", "BA7816BF8F01CFEA414140DE5DAE2223B00361A396177A9CB410FF61F20015AD"));
    assert!(!digest_matches(b"abd", "ba7816bf8f01cfea414140de5dae2223b00361a396177a9cb410ff61f20015ad"));
    assert!(!digest_matches(b"abc", "abc"));
}

#[test]
fn digest_form() {
    assert!(valid_digest(&"0123456789abcdef".repeat(4)));
    assert!(!valid_digest(&"0123456789ABCDEF".repeat(4)));
    assert!(!valid_digest("1234567890abcdef"));
    assert!(!valid_digest(&"g".repeat(64)));
    assert!(!valid_digest(&"a".repeat(65)));
}

#[test]
fn archive_kind_goes_by_suffix() {
    assert_eq!(archive_kind("six-1.16.0-py2.py3-none-any.whl"), ArtifactKind::Binary);
    assert_eq!(archive_kind("SIX-1.16.0.WHL"), ArtifactKind::Binary);
    assert_eq!(archive_kind("six-1.16.0.tar.gz"), ArtifactKind::Source);
    assert_eq!(archive_kind("whl"), ArtifactKind::Source);
}

#[test]
fn installed_names_come_from_dist_info_directories() {
    let listing = vec![
        dir("six"),
        dir("six-1.16.0.dist-info"),
        dir("Typing_Extensions-4.0.dist-info"),
        file("stray-1.0.dist-info"),
        dir("__pycache__"),
        file("six.py"),
    ];
    assert_eq!(installed_names(&listing), ["six", "typing_extensions"]);
    assert_eq!(key_of_entry(&dir("zope.interface-5.dist-info")).as_deref(), Some("zope_interface"));
    assert_eq!(key_of_entry(&dir("numpy.libs")).as_deref(), Some("numpy_libs"));
    assert_eq!(key_of_entry(&dir("foo-1.0.egg-info")).as_deref(), Some("foo_1_0_egg_info"));
    assert_eq!(key_of_entry(&file("numpy.libs")), None);
    assert_eq!(key_of_entry(&dir("My-Pkg")).as_deref(), Some("my_pkg"));
    assert_eq!(key_of_entry(&file("six")), None);
}

#[test]
fn only_what_is_not_installed_is_installed() {
    let lock = lockfile(&["Flask", "six", "typing-extensions"]);
    let installed = vec!["six".to_string()];
    assert_eq!(packages_to_install(&lock, &installed), ["Flask", "typing-extensions"]);
    let installed = vec!["typing_extensions".to_string(), "flask".to_string(), "six".to_string()];
    assert!(packages_to_install(&lock, &installed).is_empty());
    assert_eq!(packages_to_install(&lock, &vec![]).len(), 3);
}

#[test]
fn second_sync_installs_nothing() {
    let lock = lockfile(&["Flask", "six"]);
    let before = vec![dir("pip"), dir("pip-23.0.dist-info")];
    assert_eq!(packages_to_install(&lock, &installed_names(&before)), ["Flask", "six"]);
    let after = vec![
        dir("pip"),
        dir("pip-23.0.dist-info"),
        dir("flask"),
        dir("Flask-2.0.0.dist-info"),
        file("six.py"),
        dir("six-1.16.0.dist-info"),
    ];
    assert!(packages_to_install(&lock, &installed_names(&after)).is_empty());
    assert!(prune_plan(&after, &lock).is_empty());
}

#[test]
fn prune_removes_dropped_transitives_and_keeps_protected() {
    let listing = vec![
        dir("flask"),
        dir("Flask-2.0.0.dist-info"),
        dir("jinja2"),
        dir("Jinja2-3.1.2.dist-info"),
        dir("requests"),
        dir("requests-2.31.0.dist-info"),
        dir("pip"),
        dir("pip-23.0.dist-info"),
        dir("setuptools"),
        dir("setuptools-68.0.dist-info"),
        dir("pkg_resources"),
        dir("_distutils_hack"),
        dir("wheel"),
        dir("wheel-0.41.dist-info"),
        dir("numpy.libs"),
        file("distutils-precedence.pth"),
        file("jinja2.py"),
    ];
    let lock = lockfile(&["requests"]);
    assert_eq!(
        prune_plan(&listing, &lock),
        ["flask", "Flask-2.0.0.dist-info", "jinja2", "Jinja2-3.1.2.dist-info", "numpy.libs"]
    );
}

#[test]
fn prune_names_directories_with_a_dot_too() {
    let listing = vec![
        dir("foo.libs"),
        dir("foo-1.0.egg-info"),
        dir("requests.libs"),
        dir("requests"),
        file("foo.pth"),
    ];
    let lock = lockfile(&["requests"]);
    assert_eq!(prune_plan(&listing, &lock), ["foo.libs", "foo-1.0.egg-info", "requests.libs"]);
}

#[test]
fn prune_leaves_nothing_outside_lockfile_and_protected() {
    let listing = vec![dir("a"), dir("a-1.dist-info"), dir("B"), dir("b-2.dist-info"), dir("pip"), file("c")];
    let lock = lockfile(&["A"]);
    let doomed = prune_plan(&listing, &lock);
    let left: Vec<SiteEntry> = listing.into_iter().filter(|e| !doomed.contains(&e.name)).collect();
    for entry in &left {
        if let Some(key) = key_of_entry(entry) {
            assert!(key == "a" || key == "pip", "{key} was left");
        }
    }
    assert!(prune_plan(&left, &lock).is_empty());
    assert_eq!(left.len(), 4);
}

fn walk(package: &LockedPackage, host: &str, events: &[Event]) -> (Phase, Vec<Action>) {
    let mut phase = Phase::Selecting;
    let mut actions = Vec::new();
    for event in events {
        let (next, action) = install_step(phase, event, package, host);
        phase = next;
        actions.push(action);
    }
    (phase, actions)
}

#[test]
fn install_from_the_cache() {
    let pkg = package("six-1.16.0-py2.py3-none-any.whl", "any", b"wheel");
    let (phase, actions) = walk(&pkg, "manylinux", &[Event::Start, Event::CacheHit, Event::Done, Event::Done]);
    assert_eq!(phase, Phase::Installed);
    assert_eq!(
        actions,
        [Action::ProbeCache, Action::Materialize, Action::Extract(ArtifactKind::Binary), Action::Finish]
    );
}

#[test]
fn install_by_download() {
    let pkg = package("six-1.16.0-py2.py3-none-any.whl", "any", b"archive");
    let events = [Event::Start, Event::CacheMiss, Event::Downloaded(b"archive"), Event::Done, Event::Done];
    let (phase, actions) = walk(&pkg, "manylinux", &events);
    assert_eq!(phase, Phase::Installed);
    assert_eq!(
        actions,
        [
            Action::ProbeCache,
            Action::Download,
            Action::Save,
            Action::Extract(ArtifactKind::Binary),
            Action::Finish
        ]
    );
}

#[test]
fn source_archive_is_unpacked_and_flagged() {
    let pkg = package("six-1.16.0.tar.gz", "source", b"archive");
    let events = [Event::Start, Event::CacheMiss, Event::Downloaded(b"archive"), Event::Done, Event::Done];
    let (phase, actions) = walk(&pkg, "manylinux", &events);
    assert_eq!(phase, Phase::Failed(Failure::UnbuiltSource));
    assert_eq!(
        actions,
        [
            Action::ProbeCache,
            Action::Download,
            Action::Save,
            Action::Extract(ArtifactKind::Source),
            Action::Finish
        ]
    );
    let results = vec![PackageResult { name: "six".into(), phase }];
    match sync_outcome(&results) {
        Err(SyncError::Partial { failures }) => assert_eq!(failures[0].failure, Failure::UnbuiltSource),
        Ok(_) => panic!("not flagged"),
    }
}

#[test]
fn digest_mismatch_stops_before_anything_is_stored() {
    let pkg = package("six-1.16.0-py2.py3-none-any.whl", "any", b"wheel");
    let events = [Event::Start, Event::CacheMiss, Event::Downloaded(b"tampered"), Event::Done, Event::Done];
    let (phase, actions) = walk(&pkg, "manylinux", &events);
    assert_eq!(phase, Phase::Failed(Failure::DigestMismatch));
    assert_eq!(
        actions,
        [Action::ProbeCache, Action::Download, Action::Finish, Action::Finish, Action::Finish]
    );
    assert!(!actions.contains(&Action::Save));
    assert!(!actions.iter().any(|a| matches!(a, Action::Extract(_))));
}

#[test]
fn install_failures() {
    let pkg = package("p-1-win_amd64.whl", "win_amd64", b"wheel");
    let (phase, actions) = walk(&pkg, "manylinux", &[Event::Start]);
    assert_eq!(phase, Phase::Failed(Failure::NoCompatibleArtifact));
    assert_eq!(actions, [Action::Finish]);

    let pkg = package("p-1-py3-none-any.whl", "any", b"wheel");
    let (phase, _) = walk(&pkg, "manylinux", &[Event::Start, Event::CacheMiss, Event::Failed]);
    assert_eq!(phase, Phase::Failed(Failure::Download));

    let (phase, _) = walk(&pkg, "manylinux", &[Event::Start, Event::CacheHit, Event::Done, Event::Failed]);
    assert_eq!(phase, Phase::Failed(Failure::Extraction));

    let (phase, _) = walk(&pkg, "manylinux", &[Event::CacheHit]);
    assert_eq!(phase, Phase::Failed(Failure::Protocol));
    let (phase, _) = walk(&pkg, "manylinux", &[Event::Start, Event::Start]);
    assert_eq!(phase, Phase::Failed(Failure::Protocol));
}

#[test]
fn cache_operations_are_tried_twice() {
    let pkg = package("p-1-py3-none-any.whl", "any", b"wheel");
    let events = [Event::Start, Event::CacheHit, Event::Failed, Event::Done, Event::Done];
    let (phase, actions) = walk(&pkg, "manylinux", &events);
    assert_eq!(phase, Phase::Installed);
    assert_eq!(actions[2], Action::Materialize);
    let (phase, _) = walk(&pkg, "manylinux", &[Event::Start, Event::CacheHit, Event::Failed, Event::Failed]);
    assert_eq!(phase, Phase::Failed(Failure::Cache));

    let events = [Event::Start, Event::CacheMiss, Event::Downloaded(b"wheel"), Event::Failed, Event::Failed];
    let (phase, actions) = walk(&pkg, "manylinux", &events);
    assert_eq!(phase, Phase::Failed(Failure::Cache));
    assert_eq!(actions[3], Action::Save);
    assert_eq!(actions[4], Action::Finish);
}

#[test]
fn ended_installations_stay_ended() {
    let pkg = package("p-1-py3-none-any.whl", "any", b"wheel");
    for event in [Event::Start, Event::CacheHit, Event::Downloaded(b"wheel"), Event::Done, Event::Failed] {
        assert_eq!(install_step(Phase::Installed, &event, &pkg, "manylinux"), (Phase::Installed, Action::Finish));
        assert_eq!(
            install_step(Phase::Failed(Failure::Download), &event, &pkg, "manylinux"),
            (Phase::Failed(Failure::Download), Action::Finish)
        );
    }
}

#[test]
fn digest_mismatch_fails_that_package_only() {
    let good = package("good-1-py3-none-any.whl", "any", b"good");
    let bad = package("bad-1-py3-none-any.whl", "any", b"expected");
    let (good_end, _) = walk(
        &good,
        "manylinux",
        &[Event::Start, Event::CacheMiss, Event::Downloaded(b"good"), Event::Done, Event::Done],
    );
    let (bad_end, _) = walk(&bad, "manylinux", &[Event::Start, Event::CacheMiss, Event::Downloaded(b"other")]);
    let results = vec![
        PackageResult { name: "bad".into(), phase: bad_end },
        PackageResult { name: "good".into(), phase: good_end },
    ];
    match sync_outcome(&results) {
        Err(SyncError::Partial { failures }) => {
            assert_eq!(failures.len(), 1);
            assert_eq!(failures[0].name, "bad");
            assert_eq!(failures[0].failure, Failure::DigestMismatch);
        }
        Ok(count) => panic!("{count} installed"),
    }
    assert_eq!(exit_code(Ending::Failure), 1);
}

#[test]
fn sync_outcome_counts_installed_packages() {
    let results = vec![
        PackageResult { name: "a".into(), phase: Phase::Installed },
        PackageResult { name: "b".into(), phase: Phase::Installed },
    ];
    assert!(matches!(sync_outcome(&results), Ok(2)));
    assert!(matches!(sync_outcome(&vec![]), Ok(0)));
    let results = vec![PackageResult { name: "a".into(), phase: Phase::Downloading }];
    match sync_outcome(&results) {
        Err(SyncError::Partial { failures }) => assert_eq!(failures[0].failure, Failure::Protocol),
        Ok(_) => panic!("counted"),
    }
}

#[test]
fn project_paths() {
    assert_eq!(site_packages_dir(".venv", "3.12", false), ".venv/lib/python3.12/site-packages");
    assert_eq!(site_packages_dir(".venv", "3.12", true), ".venv/Lib/site-packages");
    assert_eq!(scripts_dir(".venv", false), ".venv/bin");
    assert_eq!(scripts_dir(".venv", true), ".venv/Scripts");
    assert_eq!(env_python(".venv", false), ".venv/bin/python");
    assert_eq!(env_python(".venv", true), ".venv/Scripts/python.exe");
    assert_eq!(search_path(".venv/bin", "/usr/bin", false), ".venv/bin:/usr/bin");
    assert_eq!(search_path(".venv/Scripts", "C:\\Windows", true), ".venv/Scripts;C:\\Windows");
}

#[test]
fn command_decisions() {
    assert_eq!(install_mode(true, false), InstallMode::SyncFromLock);
    assert_eq!(install_mode(true, true), InstallMode::ResolveThenSync);
    assert_eq!(install_mode(false, false), InstallMode::ResolveThenSync);
    assert_eq!(run_target("black", true, true, true), RunTarget::Script);
    assert_eq!(run_target("black", false, true, true), RunTarget::ScriptExe);
    assert_eq!(run_target("black", false, true, false), RunTarget::AsGiven);
    assert_eq!(run_target("python", false, false, false), RunTarget::EnvPython);
    assert_eq!(run_target("python3", false, false, true), RunTarget::EnvPython);
    assert_eq!(run_target("ls", false, false, false), RunTarget::AsGiven);
    assert_eq!(exit_code(Ending::Success), 0);
    assert_eq!(exit_code(Ending::Cancelled), 130);
}

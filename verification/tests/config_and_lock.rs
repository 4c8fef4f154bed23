use wovensnake::engine::config::{read_config, Config, ManifestError};
use wovensnake::engine::json::Json;
use wovensnake::engine::lock::{Artifact, LockError, LockedPackage, Lockfile};
use wovensnake::engine::strmap::StrMap;

fn deps(pairs: &[(&str, &str)]) -> StrMap<String> {
    let mut m = StrMap::new();
    for (name, constraint) in pairs {
        m.insert(name.to_string(), constraint.to_string());
    }
    m
}

fn sample_config() -> Config {
    Config {
        name: "test".into(),
        version: "0.1.0".into(),
        python_version: "3.10".into(),
        virtual_environment: "venv".into(),
        dependencies: deps(&[("flask", "2.0.0"), ("requests", "2.25.0")]),
    }
}

#[test]
fn test_config_model() {
    let conf = Config {
        name: "test".into(),
        version: "1.0".into(),
        python_version: "3.8".into(),
        virtual_environment: "env".into(),
        dependencies: deps(&[("pip", "20.0")]),
    };
    assert_eq!(conf.name, "test");
    assert!(conf.dependencies.contains_key("pip"));
}

#[test]
fn test_config_parsing() {
    let content = r#"{
        "name": "test-project",
        "version": "0.1.0",
        "python_version": "3.9",
        "virtualEnvironment": "venv",
        "dependencies": {
            "requests": "2.25.1",
            "numpy": "1.21.0"
        }
    }"#;
    let config = read_config(content).expect("Failed to read config");
    assert_eq!(config.name, "test-project");
    assert_eq!(config.version, "0.1.0");
    assert_eq!(config.python_version, "3.9");
    assert_eq!(config.virtual_environment, "venv");
    assert_eq!(config.dependencies.len(), 2);
    assert_eq!(config.dependencies.get("requests").unwrap(), "2.25.1");
}

#[test]
fn test_remove_logic_simulation() {
    let mut config = sample_config();
    let text = config.write().unwrap();
    assert!(read_config(&text).is_ok());

    let pkg_to_remove = "flask";
    assert!(config.dependencies.contains_key(pkg_to_remove));
    assert!(config.remove_dep(pkg_to_remove));
    assert!(!config.dependencies.contains_key(pkg_to_remove));
    assert!(config.dependencies.contains_key("requests"));

    let new_text = config.write().unwrap();
    let re_read = read_config(&new_text).unwrap();
    assert_eq!(re_read.dependencies.len(), 1);
    assert_eq!(re_read.dependencies.get("requests").unwrap(), "2.25.0");
}

#[test]
fn test_add_logic_simulation() {
    let mut config = Config {
        name: "test".into(),
        version: "0.1.0".into(),
        python_version: "3.10".into(),
        virtual_environment: "venv".into(),
        dependencies: deps(&[("requests", "2.25.0")]),
    };
    let text = config.write().unwrap();
    assert!(read_config(&text).is_ok());

    assert!(config.add_dep("flask", "2.0.0"));

    let new_text = config.write().unwrap();
    let re_read = read_config(&new_text).unwrap();
    assert_eq!(re_read.dependencies.len(), 2);
    assert_eq!(re_read.dependencies.get("flask").unwrap(), "2.0.0");
    assert_eq!(re_read.dependencies.get("requests").unwrap(), "2.25.0");
}

#[test]
fn add_dep_rejects_what_is_there() {
    let mut config = sample_config();
    assert!(!config.add_dep("flask", "3.0.0"));
    assert_eq!(config.dependencies.get("flask").unwrap(), "2.0.0");
    assert_eq!(config.dependencies.len(), 2);
}

#[test]
fn remove_dep_says_whether_there_was_one() {
    let mut config = sample_config();
    assert!(!config.remove_dep("django"));
    assert_eq!(config.dependencies.len(), 2);
    assert!(config.remove_dep("requests"));
    assert!(!config.remove_dep("requests"));
}

#[test]
fn new_project_manifest() {
    let config = Config::new_project();
    assert_eq!(config.name, "my-python-project");
    assert_eq!(config.version, "0.1.0");
    assert_eq!(config.python_version, "3.10");
    assert_eq!(config.virtual_environment, ".venv");
    assert!(config.dependencies.is_empty());
    let text = config.write().unwrap();
    assert!(text.contains("\"dependencies\": {}"));
}

#[test]
fn manifest_members_are_written_in_order() {
    let text = sample_config().write().unwrap();
    let places: Vec<usize> = ["\"name\"", "\"version\"", "\"python_version\"", "\"dependencies\"", "\"virtualEnvironment\""]
        .iter()
        .map(|key| text.find(key).unwrap())
        .collect();
    assert!(places.windows(2).all(|w| w[0] < w[1]));
    assert!(text.contains('\n'));
}

#[test]
fn manifest_without_a_required_member_is_refused() {
    let content = r#"{"name": "p", "version": "1", "dependencies": {}, "virtualEnvironment": "v"}"#;
    assert_eq!(read_config(content).err(), Some(ManifestError::Schema));
    let content = r#"{"name": "p", "version": "1", "python_version": "3.9", "virtualEnvironment": "v"}"#;
    assert_eq!(read_config(content).err(), Some(ManifestError::Schema));
    let content = r#"{"name": 1, "version": "1", "python_version": "3.9", "dependencies": {}, "virtualEnvironment": "v"}"#;
    assert_eq!(read_config(content).err(), Some(ManifestError::Schema));
    let content = r#"{"name": "p", "version": "1", "python_version": "3.9", "dependencies": {"a": 1}, "virtualEnvironment": "v"}"#;
    assert_eq!(read_config(content).err(), Some(ManifestError::Schema));
    assert_eq!(read_config("not json").err(), Some(ManifestError::Schema));
    assert_eq!(read_config("[]").err(), Some(ManifestError::Schema));
}

#[test]
fn manifest_ignores_members_it_does_not_know() {
    let content = r#"{"name": "p", "version": "1", "python_version": "3.9", "dependencies": {}, "virtualEnvironment": "v", "extra": [1, 2.5, null, true]}"#;
    let config = read_config(content).unwrap();
    assert_eq!(config.name, "p");
}

#[test]
fn test_python_version_parsing_logic() {
    let lock = Lockfile::new("test-project", "0.1.0", "3.12");
    assert_eq!(lock.python_version, "3.12");
}

#[test]
fn test_lockfile_integrity() {
    let mut lockfile = Lockfile::new("test-project", "0.1.0", "3.12");
    lockfile.packages.insert(
        "requests".to_string(),
        LockedPackage {
            version: "2.25.1".to_string(),
            artifacts: vec![],
            dependencies: vec!["urllib3".to_string(), "chardet".to_string()],
        },
    );

    let text = lockfile.write().expect("Failed to write lockfile");
    assert!(!text.is_empty());

    let loaded = Lockfile::read(&text).expect("Failed to read lockfile");
    assert_eq!(loaded.name, "test-project");
    assert_eq!(loaded.packages.len(), 1);

    let pkg = loaded.packages.get("requests").unwrap();
    assert_eq!(pkg.version, "2.25.1");
    assert_eq!(pkg.dependencies.len(), 2);
    assert_eq!(pkg.dependencies[0], "urllib3");
}

#[test]
fn test_lockfile_pruning_logic() {
    let mut lockfile = Lockfile::new("test", "0.1.0", "3.12");
    lockfile.packages.insert(
        "flask".into(),
        LockedPackage { version: "2.0".into(), artifacts: vec![], dependencies: vec![] },
    );
    lockfile.packages.insert(
        "requests".into(),
        LockedPackage { version: "2.25".into(), artifacts: vec![], dependencies: vec![] },
    );

    assert_eq!(lockfile.packages.len(), 2);

    lockfile.packages.remove("flask");

    assert_eq!(lockfile.packages.len(), 1);
    assert!(lockfile.packages.contains_key("requests"));
}

fn full_lockfile() -> Lockfile {
    let mut lockfile = Lockfile::new("p", "0.0.1", "3.12");
    lockfile.packages.insert(
        "six".into(),
        LockedPackage {
            version: "1.16.0".into(),
            artifacts: vec![
                Artifact {
                    url: "https://files.example/six-1.16.0-py2.py3-none-any.whl".into(),
                    filename: "six-1.16.0-py2.py3-none-any.whl".into(),
                    sha256: "8abb2f1d86890a2dfb989f9a77cfcfd3e47c2a354b01111771326f8aa26e0254".into(),
                    platform: "any".into(),
                },
                Artifact {
                    url: "https://files.example/six-1.16.0.tar.gz".into(),
                    filename: "six-1.16.0.tar.gz".into(),
                    sha256: "1e61c37477a1626458e36f7b1d82aa5c9b094fa4802892072e49de9c60c4c926".into(),
                    platform: "source".into(),
                },
            ],
            dependencies: vec![],
        },
    );
    lockfile.packages.insert(
        "Flask".into(),
        LockedPackage {
            version: "2.0.0".into(),
            artifacts: vec![],
            dependencies: vec!["jinja2".into(), "werkzeug".into()],
        },
    );
    lockfile.packages.insert(
        "a \"quoted\"\\name\n".into(),
        LockedPackage { version: "1".into(), artifacts: vec![], dependencies: vec!["é".into()] },
    );
    lockfile
}

fn assert_same_lockfile(a: &Lockfile, b: &Lockfile) {
    assert_eq!(a.name, b.name);
    assert_eq!(a.version, b.version);
    assert_eq!(a.python_version, b.python_version);
    assert_eq!(a.packages.len(), b.packages.len());
    for i in 0..a.packages.len() {
        assert_eq!(a.packages.key_at(i), b.packages.key_at(i));
        let (x, y) = (a.packages.value_at(i), b.packages.value_at(i));
        assert_eq!(x.version, y.version);
        assert_eq!(x.dependencies, y.dependencies);
        assert_eq!(x.artifacts.len(), y.artifacts.len());
        for (p, q) in x.artifacts.iter().zip(y.artifacts.iter()) {
            assert_eq!(p.url, q.url);
            assert_eq!(p.filename, q.filename);
            assert_eq!(p.sha256, q.sha256);
            assert_eq!(p.platform, q.platform);
        }
    }
}

#[test]
fn lockfile_round_trip_through_text() {
    let lockfile = full_lockfile();
    let text = lockfile.write().unwrap();
    let back = Lockfile::read(&text).unwrap();
    assert_same_lockfile(&lockfile, &back);
    assert_eq!(back.write().unwrap(), text);
}

#[test]
fn lockfile_round_trip_through_document() {
    let lockfile = full_lockfile();
    let back = Lockfile::from_json(&lockfile.to_json()).unwrap();
    assert_same_lockfile(&lockfile, &back);
}

#[test]
fn lockfile_text_has_members_and_packages_in_order() {
    let text = full_lockfile().write().unwrap();
    let places: Vec<usize> = ["\"name\"", "\"version\"", "\"python_version\"", "\"packages\""]
        .iter()
        .map(|key| text.find(key).unwrap())
        .collect();
    assert!(places.windows(2).all(|w| w[0] < w[1]));
    let flask = text.find("\"Flask\"").unwrap();
    let six = text.find("\"six\"").unwrap();
    assert!(flask < six);
    let url = text.find("\"url\"").unwrap();
    let filename = text.find("\"filename\"").unwrap();
    let sha = text.find("\"sha256\"").unwrap();
    let platform = text.find("\"platform\"").unwrap();
    assert!(url < filename && filename < sha && sha < platform);
}

#[test]
fn equal_lockfiles_give_the_same_text() {
    let a = full_lockfile();
    let mut b = Lockfile::new("p", "0.0.1", "3.12");
    for i in (0..a.packages.len()).rev() {
        b.packages.insert(a.packages.key_at(i).clone(), a.packages.value_at(i).clone());
    }
    assert_eq!(a.write().unwrap(), b.write().unwrap());
    let text = a.write().unwrap();
    let version = text.find("\"version\": \"1.16.0\"").unwrap();
    let artifacts = text.find("\"artifacts\"").unwrap();
    let dependencies = text.find("\"dependencies\"").unwrap();
    assert!(artifacts < dependencies);
    assert!(text[..version].contains("\"six\""));
}

#[test]
fn lockfile_document_shape() {
    match full_lockfile().to_json() {
        Json::Object(members) => {
            let names: Vec<&str> = members.iter().map(|m| m.0.as_str()).collect();
            assert_eq!(names, ["name", "version", "python_version", "packages"]);
            match &members[3].1 {
                Json::Object(entries) => {
                    let keys: Vec<&str> = entries.iter().map(|m| m.0.as_str()).collect();
                    assert_eq!(keys, ["Flask", "a \"quoted\"\\name\n", "six"]);
                }
                _ => panic!("packages is no object"),
            }
        }
        _ => panic!("no object"),
    }
}

#[test]
fn lockfile_without_python_version_is_refused() {
    let old = r#"{"name": "p", "version": "1", "packages": {}}"#;
    assert_eq!(Lockfile::read(old).err(), Some(LockError::Schema));
}

#[test]
fn lockfile_errors() {
    assert_eq!(Lockfile::read("{").err(), Some(LockError::Syntax));
    assert_eq!(Lockfile::read("").err(), Some(LockError::Syntax));
    assert_eq!(Lockfile::read("3").err(), Some(LockError::Schema));
    let bad_package = r#"{"name": "p", "version": "1", "python_version": "3.9", "packages": {"a": {"version": "1", "artifacts": []}}}"#;
    assert_eq!(Lockfile::read(bad_package).err(), Some(LockError::Schema));
    let bad_artifact = r#"{"name": "p", "version": "1", "python_version": "3.9", "packages": {"a": {"version": "1", "artifacts": [{"url": "u"}], "dependencies": []}}}"#;
    assert_eq!(Lockfile::read(bad_artifact).err(), Some(LockError::Schema));
    let bad_dependency = r#"{"name": "p", "version": "1", "python_version": "3.9", "packages": {"a": {"version": "1", "artifacts": [], "dependencies": [1]}}}"#;
    assert_eq!(Lockfile::read(bad_dependency).err(), Some(LockError::Schema));
    assert_eq!(Lockfile::from_document(None).err(), Some(LockError::Syntax));
}

#[test]
fn lockfile_read_sorts_packages() {
    let text = r#"{"name": "p", "version": "1", "python_version": "3.9", "packages": {
        "zeta": {"version": "1", "artifacts": [], "dependencies": []},
        "alpha": {"version": "2", "artifacts": [], "dependencies": []}}}"#;
    let lock = Lockfile::read(text).unwrap();
    assert_eq!(lock.packages.key_at(0), "alpha");
    assert_eq!(lock.packages.key_at(1), "zeta");
}

use wovensnake::dependencies::package::{
    parse_full_package_info, parse_package_info, PypiFullInfo,
};
use wovensnake::dependencies::scripts::{console_scripts, parse_script_line, script_files, split};
use wovensnake::engine::json::Json;
use wovensnake::engine::marker::extract_package_name;
use wovensnake::engine::python::{
    fallback_python_exe, get_download_url, get_managed_python_path, is_zip, managed_python_exe,
    version_answer, version_matches,
};
use wovensnake::engine::uninstall::{clean_rc_content, is_yes};

const SIX: &str = r#"{
  "info": {
    "name": "six",
    "version": "1.16.0",
    "summary": "Python 2 and 3 compatibility utilities",
    "requires_dist": null,
    "requires_python": ">=2.7, !=3.0.*",
    "downloads": {"last_day": -1}
  },
  "last_serial": 10000000,
  "urls": [
    {
      "filename": "six-1.16.0-py2.py3-none-any.whl",
      "packagetype": "bdist_wheel",
      "size": 11053,
      "upload_time": "2021-05-05T14:18:17",
      "url": "https://files.pythonhosted.org/packages/six-1.16.0-py2.py3-none-any.whl",
      "digests": {
        "md5": "529d7fd7e14612ccde86417b4402d6f3",
        "sha256": "8abb2f1d86890a2dfb989f9a77cfcfd3e47c2a354b01111771326f8aa26e0254"
      },
      "yanked": false
    }
  ],
  "vulnerabilities": []
}"#;

#[test]
fn index_answer_is_read() {
    let info = parse_package_info(SIX).unwrap();
    assert_eq!(info.info.name, "six");
    assert_eq!(info.info.version, "1.16.0");
    assert_eq!(info.info.summary.as_deref(), Some("Python 2 and 3 compatibility utilities"));
    assert_eq!(info.info.requires_dist, None);
    assert_eq!(info.urls.len(), 1);
    assert_eq!(info.urls[0].filename, "six-1.16.0-py2.py3-none-any.whl");
    assert_eq!(info.urls[0].packagetype, "bdist_wheel");
    assert_eq!(
        info.urls[0].digests.sha256,
        "8abb2f1d86890a2dfb989f9a77cfcfd3e47c2a354b01111771326f8aa26e0254"
    );
}

#[test]
fn index_answer_with_requirements() {
    let text = r#"{"info": {"name": "a", "version": "1", "requires_dist": ["b>=1", "c; extra == 'x'"]}, "urls": []}"#;
    let info = parse_package_info(text).unwrap();
    assert_eq!(info.info.summary, None);
    assert_eq!(info.info.requires_dist.unwrap(), ["b>=1", "c; extra == 'x'"]);
    assert!(info.urls.is_empty());
}

#[test]
fn malformed_index_answers_are_refused() {
    assert!(parse_package_info("<html>").is_none());
    assert!(parse_package_info("{}").is_none());
    assert!(parse_package_info(r#"{"info": {"name": "a"}, "urls": []}"#).is_none());
    assert!(parse_package_info(r#"{"info": {"name": "a", "version": "1"}}"#).is_none());
    assert!(parse_package_info(r#"{"info": {"name": "a", "version": "1", "summary": 3}, "urls": []}"#).is_none());
    assert!(parse_package_info(r#"{"info": {"name": "a", "version": "1", "requires_dist": [1]}, "urls": []}"#).is_none());
    assert!(parse_package_info(r#"{"info": {"name": "a", "version": "1"}, "urls": [{"url": "u"}]}"#).is_none());
    assert!(parse_package_info(
        r#"{"info": {"name": "a", "version": "1"}, "urls": [{"url": "u", "filename": "f", "packagetype": "sdist", "digests": {}}]}"#
    )
    .is_none());
}

fn text(s: &str) -> Json {
    Json::Text(s.to_string())
}

fn object(members: Vec<(&str, Json)>) -> Json {
    Json::Object(members.into_iter().map(|(k, v)| (k.to_string(), v)).collect())
}

#[test]
fn full_info_is_read_from_a_document() {
    let file = object(vec![
        ("url", text("u")),
        ("filename", text("a-1.tar.gz")),
        ("packagetype", text("sdist")),
        ("digests", object(vec![("sha256", text("d"))])),
    ]);
    let doc = object(vec![
        ("info", object(vec![("name", text("a")), ("version", text("2"))])),
        ("releases", object(vec![("2", Json::Array(vec![])), ("1", Json::Array(vec![file]))])),
    ]);
    let full = PypiFullInfo::from_json(&doc).unwrap();
    assert_eq!(full.info.name, "a");
    assert_eq!(full.releases.len(), 2);
    assert_eq!(full.releases.key_at(0), "1");
    assert_eq!(full.releases.get("1").unwrap()[0].filename, "a-1.tar.gz");
    assert!(full.releases.get("2").unwrap().is_empty());
    let bad = object(vec![("info", object(vec![("name", text("a")), ("version", text("2"))]))]);
    assert!(PypiFullInfo::from_json(&bad).is_none());
}

#[test]
fn full_info_is_read_from_text() {
    let text = r#"{"info": {"name": "a", "version": "2"}, "releases": {"1": [], "2": [
        {"url": "u", "filename": "a-2.tar.gz", "packagetype": "sdist", "digests": {"sha256": "d"}}]}}"#;
    let full = parse_full_package_info(text).unwrap();
    assert_eq!(full.releases.len(), 2);
    assert_eq!(full.releases.get("2").unwrap()[0].url, "u");
    assert!(parse_full_package_info("{}").is_none());
    assert!(parse_full_package_info("").is_none());
}

#[test]
fn json_lookup() {
    let doc = object(vec![("a", text("1")), ("b", Json::Null), ("a", text("2"))]);
    assert_eq!(doc.text("a").map(String::as_str), Some("1"));
    assert!(doc.text("b").is_none());
    assert!(doc.get("b").is_some());
    assert!(doc.get("c").is_none());
    assert!(doc.array("a").is_none());
    assert!(text("x").get("a").is_none());
    assert!(doc.as_object().is_some());
    assert!(doc.as_array().is_none());
}

#[test]
fn extracted_names_are_canonical() {
    assert_eq!(extract_package_name("Typing-Extensions>=4"), "typing_extensions");
    assert_eq!(extract_package_name("zope.interface"), "zope_interface");
    assert_eq!(extract_package_name("Bad Name"), "bad");
}

#[test]
fn console_scripts_of_an_entry_points_file() {
    let content = "[console_scripts]\nflask = flask.cli:main\n\nblack=black:patched_main [d]\nbroken line\nnofunc = module\n\n[gui_scripts]\nwin = app:run\n[console_scripts]\r\n  late =  pkg.mod:go  \r\n";
    let scripts = console_scripts(content);
    let found: Vec<(&str, &str, &str)> =
        scripts.iter().map(|s| (s.name.as_str(), s.module.as_str(), s.function.as_str())).collect();
    assert_eq!(
        found,
        [("flask", "flask.cli", "main"), ("black", "black", "patched_main"), ("late", "pkg.mod", "go")]
    );
    assert!(console_scripts("").is_empty());
    assert!(console_scripts("flask = flask.cli:main").is_empty());
}

#[test]
fn script_line_parts() {
    let line: Vec<char> = "a = b:c:d extra".chars().collect();
    let script = parse_script_line(&line).unwrap();
    assert_eq!(script.name, "a");
    assert_eq!(script.module, "b");
    assert_eq!(script.function, "c:d");
    let line: Vec<char> = "no equals".chars().collect();
    assert!(parse_script_line(&line).is_none());
}

#[test]
fn split_keeps_empty_pieces() {
    let pieces = split(&"a\n\nb\n".chars().collect(), '\n');
    let pieces: Vec<String> = pieces.iter().map(|p| p.iter().collect()).collect();
    assert_eq!(pieces, ["a", "", "b", ""]);
    assert_eq!(split(&Vec::new(), '\n').len(), 1);
}

#[test]
fn launcher_files() {
    let scripts = console_scripts("[console_scripts]\nflask = flask.cli:main\n");
    let (launcher, starter) = script_files(&scripts[0], "3.12", false);
    assert_eq!(launcher.name, "flask-script.py");
    assert_eq!(
        launcher.content,
        "import sys\nfrom flask.cli import main\nif __name__ == '__main__':\n    sys.exit(main())"
    );
    assert!(!launcher.executable);
    assert_eq!(starter.name, "flask");
    assert_eq!(
        starter.content,
        "#!/bin/sh\nexport PYTHONPATH=\"$(dirname \"$0\")/../lib/python3.12/site-packages:$PYTHONPATH\"\n\"$(dirname \"$0\")/python\" \"$(dirname \"$0\")/flask-script.py\" \"$@\""
    );
    assert!(starter.executable);
    let (_, starter) = script_files(&scripts[0], "3.12", true);
    assert_eq!(starter.name, "flask.bat");
    assert_eq!(
        starter.content,
        "@echo off\nset PYTHONPATH=%~dp0\\..\\Lib\\site-packages;%PYTHONPATH%\npython \"%~dp0\\flask-script.py\" %*"
    );
    assert!(!starter.executable);
}

#[test]
fn interpreter_version_answers() {
    assert_eq!(version_answer("Python 3.12.1\n", ""), "Python 3.12.1");
    assert_eq!(version_answer("  \n", "Python 2.7.18\n"), "Python 2.7.18");
    assert!(version_matches("Python 3.12.1", "3.12"));
    assert!(!version_matches("Python 3.11.1", "3.12"));
    assert!(version_matches("Python 3.1.12", "3.1"));
    assert!(version_matches("anything", ""));
}

#[test]
fn interpreter_downloads() {
    assert_eq!(
        get_download_url("3.12", "linux", "x86_64").as_deref(),
        Some("https://github.com/astral-sh/python-build-standalone/releases/download/20251217/cpython-3.12.8+20251217-x86_64-unknown-linux-gnu-install_only.tar.gz")
    );
    assert_eq!(
        get_download_url("3.9", "windows", "x86_64").as_deref(),
        Some("https://github.com/astral-sh/python-build-standalone/releases/download/20251217/cpython-3.9.21+20251217-x86_64-pc-windows-msvc-shared-install_only.zip")
    );
    assert_eq!(
        get_download_url("3.13.1", "macos", "aarch64").as_deref(),
        Some("https://github.com/astral-sh/python-build-standalone/releases/download/20251217/cpython-3.13.1+20251217-aarch64-apple-darwin-install_only.tar.gz")
    );
    assert!(get_download_url("3.11", "macos", "x86_64").unwrap().contains("cpython-3.11.11+"));
    assert!(get_download_url("3.10", "linux", "x86_64").unwrap().contains("cpython-3.10.16+"));
    assert_eq!(get_download_url("3.12", "linux", "aarch64"), None);
    assert_eq!(get_download_url("3.12", "freebsd", "x86_64"), None);
    assert_eq!(get_managed_python_path("/home/u", "3.12"), "/home/u/.woven/python/3.12");
    assert_eq!(managed_python_exe("/m", false), "/m/python/install/bin/python3");
    assert_eq!(managed_python_exe("/m", true), "/m/python/install/python.exe");
    assert_eq!(fallback_python_exe("/m", false), "/m/bin/python3");
    assert_eq!(fallback_python_exe("/m", true), "/m/python.exe");
    assert!(is_zip("cpython.zip"));
    assert!(!is_zip("cpython.tar.gz"));
}

#[test]
fn yes_answers() {
    assert!(is_yes("y\n"));
    assert!(is_yes("  YES  "));
    assert!(is_yes("Yes"));
    assert!(!is_yes("\n"));
    assert!(!is_yes("no"));
    assert!(!is_yes("yess"));
}

#[test]
fn installer_lines_are_taken_out_of_start_up_files() {
    let line = "export PATH=\"$HOME/.local/bin:$PATH\"";
    let content = format!("alias ll='ls -l'\n  {line}  \nexport EDITOR=vi\n{line} # added by woven installer\n");
    assert_eq!(clean_rc_content(&content).as_deref(), Some("alias ll='ls -l'\nexport EDITOR=vi\n"));
    assert_eq!(clean_rc_content("a\nb\n"), None);
    assert_eq!(clean_rc_content(""), None);
    assert_eq!(clean_rc_content("a\nb").as_deref(), Some("a\nb\n"));
    assert_eq!(clean_rc_content("a\r\nb\n").as_deref(), Some("a\nb\n"));
    assert_eq!(clean_rc_content(line).as_deref(), Some(""));
    let same: String = content.lines().filter(|l| l.trim() != line && !l.trim().ends_with("installer")).map(|l| format!("{l}\n")).collect();
    assert_eq!(clean_rc_content(&content).unwrap(), same);
}

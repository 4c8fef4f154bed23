use wovensnake::engine::lock::Artifact;
use wovensnake::engine::project::host_platform;
use wovensnake::engine::selection::{platform_tag, select_artifact};

fn artifact(filename: &str, platform: &str) -> Artifact {
    Artifact {
        url: format!("https://files.example/{filename}"),
        filename: filename.to_string(),
        sha256: "0".repeat(64),
        platform: platform.to_string(),
    }
}

fn numpy_wheels() -> Vec<Artifact> {
    vec![
        artifact("numpy-1.24.0-cp311-cp311-win_amd64.whl", "win_amd64"),
        artifact("numpy-1.24.0-cp311-cp311-macosx_11_0_arm64.whl", "macosx_arm64"),
        artifact("numpy-1.24.0-cp311-cp311-macosx_10_9_x86_64.whl", "macosx_x86_64"),
        artifact("numpy-1.24.0-cp311-cp311-manylinux_2_17_x86_64.whl", "manylinux"),
    ]
}

#[test]
fn platform_aware_selection_picks_the_host_platform() {
    let offered = numpy_wheels();
    assert_eq!(select_artifact(&offered, "macosx_arm64").unwrap().platform, "macosx_arm64");
    assert_eq!(select_artifact(&offered, "macosx_x86_64").unwrap().platform, "macosx_x86_64");
    assert_eq!(select_artifact(&offered, "win_amd64").unwrap().platform, "win_amd64");
    assert_eq!(select_artifact(&offered, "manylinux").unwrap().platform, "manylinux");
}

#[test]
fn universal_binary_is_chosen_when_nothing_fits() {
    let offered = vec![artifact("p-1-win_amd64.whl", "win_amd64"), artifact("p-1-py3-none-any.whl", "any")];
    assert_eq!(select_artifact(&offered, "macosx_arm64").unwrap().platform, "any");
}

#[test]
fn exact_platform_wins_over_fallback_even_if_listed_later() {
    let offered = vec![
        artifact("p-1-any.whl", "any"),
        artifact("p-1-x86.whl", "macosx_x86_64"),
        artifact("p-1-arm.whl", "macosx_arm64"),
    ];
    assert_eq!(select_artifact(&offered, "macosx_arm64").unwrap().filename, "p-1-arm.whl");
}

#[test]
fn family_fallback_comes_before_universal() {
    let offered = vec![artifact("p-1-any.whl", "any"), artifact("p-1-x86.whl", "macosx_x86_64")];
    assert_eq!(select_artifact(&offered, "macosx_arm64").unwrap().filename, "p-1-x86.whl");
    let offered = vec![artifact("p-1-any.whl", "any"), artifact("p-1-linux.whl", "manylinux")];
    assert_eq!(select_artifact(&offered, "manylinux_aarch64").unwrap().filename, "p-1-linux.whl");
}

#[test]
fn fallback_goes_one_way_only() {
    let offered = vec![artifact("p-1-arm.whl", "macosx_arm64")];
    assert!(select_artifact(&offered, "macosx_x86_64").is_none());
    let offered = vec![artifact("p-1-arm.whl", "manylinux_aarch64")];
    assert!(select_artifact(&offered, "manylinux").is_none());
}

#[test]
fn source_archive_is_the_last_resort() {
    let offered = vec![artifact("p-1.tar.gz", "source"), artifact("p-1-any.whl", "any")];
    assert_eq!(select_artifact(&offered, "manylinux").unwrap().platform, "any");
    let offered = vec![artifact("p-1-win.whl", "win_amd64"), artifact("p-1.tar.gz", "other")];
    assert_eq!(select_artifact(&offered, "manylinux").unwrap().filename, "p-1.tar.gz");
    let offered = vec![artifact("p-1.zip", "source")];
    assert_eq!(select_artifact(&offered, "manylinux").unwrap().filename, "p-1.zip");
}

#[test]
fn nothing_is_chosen_from_nothing_suitable() {
    assert!(select_artifact(&[], "manylinux").is_none());
    let offered = vec![artifact("p-1-win.whl", "win_amd64"), artifact("p-1-odd.whl", "other")];
    assert!(select_artifact(&offered, "manylinux").is_none());
}

#[test]
fn first_candidate_of_a_rung_is_taken() {
    let offered = vec![artifact("first.whl", "manylinux"), artifact("second.whl", "manylinux")];
    assert_eq!(select_artifact(&offered, "manylinux").unwrap().filename, "first.whl");
}

#[test]
fn tag_of_wheel_names() {
    assert_eq!(platform_tag("numpy-1.24.0-cp311-cp311-win_amd64.whl"), "win_amd64");
    assert_eq!(platform_tag("numpy-1.24.0-cp311-cp311-win32.whl"), "win_amd64");
    assert_eq!(platform_tag("numpy-1.24.0-cp311-cp311-macosx_11_0_arm64.whl"), "macosx_arm64");
    assert_eq!(platform_tag("x-1-cp311-macosx_11_0_aarch64.whl"), "macosx_arm64");
    assert_eq!(platform_tag("numpy-1.24.0-cp311-cp311-macosx_10_9_x86_64.whl"), "macosx_x86_64");
    assert_eq!(platform_tag("numpy-1.24.0-cp311-manylinux_2_17_aarch64.whl"), "manylinux_aarch64");
    assert_eq!(platform_tag("numpy-1.24.0-cp311-manylinux_2_17_x86_64.whl"), "manylinux");
    assert_eq!(platform_tag("six-1.16.0-py2.py3-none-any.whl"), "any");
    assert_eq!(platform_tag("x-1-py3-none-musllinux.whl"), "any");
    assert_eq!(platform_tag("x-1-cp311-musllinux_1_1_x86_64.whl"), "other");
}

#[test]
fn host_platform_of_the_five_hosts() {
    assert_eq!(host_platform("windows", "x86_64").as_deref(), Some("win_amd64"));
    assert_eq!(host_platform("macos", "aarch64").as_deref(), Some("macosx_arm64"));
    assert_eq!(host_platform("macos", "x86_64").as_deref(), Some("macosx_x86_64"));
    assert_eq!(host_platform("linux", "x86_64").as_deref(), Some("manylinux"));
    assert_eq!(host_platform("linux", "aarch64").as_deref(), Some("manylinux_aarch64"));
    assert_eq!(host_platform("freebsd", "x86_64"), None);
    assert_eq!(host_platform("windows", "aarch64"), None);
}

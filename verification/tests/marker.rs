use wovensnake::engine::marker::{
    build_marker_environment, extract_package_name, is_parse_safe, should_include_requirement,
    split_package_name, split_requirement, EnvError,
};

#[test]
fn test_build_marker_environment() {
    let env = build_marker_environment("3.12", "linux", "x86_64");
    assert!(env.is_ok());
}

#[test]
fn marker_environment_fields() {
    let env = build_marker_environment("3.12", "linux", "x86_64").ok().unwrap();
    assert_eq!(env.python_version, "3.12");
    assert_eq!(env.python_full_version, "3.12.0");
    assert_eq!(env.implementation_version, "3.12.0");
    assert_eq!(env.os_name, "posix");
    assert_eq!(env.sys_platform, "linux");
    assert_eq!(env.platform_system, "Linux");
    assert_eq!(env.platform_machine, "x86_64");
    assert_eq!(env.implementation_name, "cpython");
    assert_eq!(env.platform_python_implementation, "CPython");
    let env = build_marker_environment("3", "windows", "x86_64").ok().unwrap();
    assert_eq!(env.python_version, "3");
    assert_eq!(env.python_full_version, "3.0.0");
    assert_eq!(env.os_name, "nt");
    assert_eq!(env.sys_platform, "win32");
    assert_eq!(env.platform_system, "Windows");
    let env = build_marker_environment("3.11.4", "macos", "aarch64").ok().unwrap();
    assert_eq!(env.python_version, "3.11");
    assert_eq!(env.python_full_version, "3.11.4");
    assert_eq!(env.sys_platform, "darwin");
    assert_eq!(env.platform_system, "Darwin");
    let env = build_marker_environment("3.9", "freebsd", "x86_64").ok().unwrap();
    assert_eq!(env.sys_platform, "freebsd");
    assert_eq!(env.platform_system, "freebsd");
    assert_eq!(env.os_name, "posix");
}

#[test]
fn marker_environment_refuses_what_is_no_version() {
    match build_marker_environment("three.twelve", "linux", "x86_64") {
        Err(EnvError::InvalidVersion { text }) => assert_eq!(text, "three.twelve"),
        Ok(_) => panic!("accepted"),
    }
    assert!(build_marker_environment("", "linux", "x86_64").is_err());
}

#[test]
fn test_extract_package_name_simple() {
    assert_eq!(extract_package_name("requests"), "requests");
}

#[test]
fn test_extract_package_name_with_version() {
    assert_eq!(extract_package_name("requests>=2.0.0"), "requests");
}

#[test]
fn test_extract_package_name_with_marker() {
    assert_eq!(extract_package_name("requests>=2.0.0; python_version>='3.8'"), "requests");
}

#[test]
fn extract_package_name_uses_the_parser() {
    assert_eq!(extract_package_name("Requests [security] >= 2.8.1"), "requests");
    assert_eq!(extract_package_name("Typing_Extensions"), "typing_extensions");
    assert_eq!(extract_package_name("Typing-Extensions>=4.0"), "typing_extensions");
    assert_eq!(extract_package_name("zope.interface"), "zope_interface");
}

#[test]
fn extract_package_name_falls_back_to_splitting() {
    assert_eq!(extract_package_name("requests>>2"), "requests");
    assert_eq!(extract_package_name("\tname with space"), "name");
    assert_eq!(extract_package_name("pkg[extra"), "pkg");
    assert_eq!(extract_package_name(""), "");
    assert_eq!(split_package_name("a!b"), "a");
    assert_eq!(split_package_name("  "), "");
}

#[test]
fn names_that_end_in_a_separator_stay_away_from_the_parser() {
    assert!(!is_parse_safe("foo- >=1.0"));
    assert!(!is_parse_safe("foo[a-]"));
    assert!(!is_parse_safe("foo[a-"));
    assert!(!is_parse_safe("foo_;x"));
    assert!(is_parse_safe("foo==2.*"));
    assert!(is_parse_safe("zope.interface>=5 ; python_version < '3.8.'"));
    assert_eq!(extract_package_name("foo- >=1.0"), "foo_");
    assert_eq!(extract_package_name("foo_;x"), "foo_");
    assert_eq!(split_requirement("foo- >=1.0").0, "foo-");
    let env = build_marker_environment("3.12", "linux", "x86_64").ok().unwrap();
    assert!(should_include_requirement("foo- ; python_version < '3'", &env));
}

#[test]
fn texts_with_wide_characters_stay_away_from_the_parser() {
    let env = build_marker_environment("3.12", "linux", "x86_64").ok().unwrap();
    let texts = [
        "a; os_name == 'nt' \u{e9}",
        "a; os_name == 'nt' or\u{e9}",
        "a ; python_version > '3' \u{e9}\u{e9}\u{e9} and os_name == 'nt'",
        "a >= 1 ; extra == '\u{e9}'",
        "a @ https://example.org/\u{e9}.whl",
        "\u{e9}",
    ];
    for text in texts {
        assert!(!is_parse_safe(text), "{text}");
        assert!(should_include_requirement(text, &env));
        assert_eq!(split_requirement(text).1, None);
    }
    assert_eq!(extract_package_name("a; os_name == 'nt' \u{e9}"), "a");
    assert_eq!(extract_package_name("B\u{e9}ta>=1"), "b\u{e9}ta");
    assert!(is_parse_safe("a; os_name == 'nt' e"));
}

#[test]
fn split_requirement_gives_name_and_specifiers() {
    let (name, constraint) = split_requirement("urllib3 (>=1.21.1,<3)");
    assert_eq!(name, "urllib3");
    assert_eq!(constraint.as_deref(), Some(">=1.21.1, <3"));
    let (name, constraint) = split_requirement("idna");
    assert_eq!(name, "idna");
    assert_eq!(constraint, None);
    let (name, constraint) = split_requirement("pkg @ https://example.org/pkg.whl");
    assert_eq!(name, "pkg");
    assert_eq!(constraint, None);
    let (name, constraint) = split_requirement("not a requirement");
    assert_eq!(name, "not");
    assert_eq!(constraint, None);
}

#[test]
fn test_should_include_no_marker() {
    let env = build_marker_environment("3.12", "linux", "x86_64").ok().unwrap();
    assert!(should_include_requirement("requests>=2.0.0", &env));
}

#[test]
fn test_should_include_win32_on_windows() {
    let env = build_marker_environment("3.12", "windows", "x86_64").ok().unwrap();
    assert!(should_include_requirement("pywin32; sys_platform=='win32'", &env));
}

#[test]
fn test_should_exclude_linux_on_windows() {
    let env = build_marker_environment("3.12", "windows", "x86_64").ok().unwrap();
    assert!(!should_include_requirement("uvloop; sys_platform=='linux'", &env));
}

#[test]
fn test_should_include_python_version_match() {
    let env = build_marker_environment("3.12", "linux", "x86_64").ok().unwrap();
    assert!(should_include_requirement("package; python_version>='3.8'", &env));
}

#[test]
fn test_should_exclude_old_python_version() {
    let env = build_marker_environment("3.12", "linux", "x86_64").ok().unwrap();
    assert!(!should_include_requirement("package; python_version<'3.10'", &env));
}

#[test]
fn test_should_handle_combined_markers() {
    let text = "package; python_version>='3.8' and os_name=='nt'";
    let env = build_marker_environment("3.12", "windows", "x86_64").ok().unwrap();
    assert!(should_include_requirement(text, &env));
    let env = build_marker_environment("3.12", "linux", "x86_64").ok().unwrap();
    assert!(!should_include_requirement(text, &env));
}

#[test]
fn extras_are_not_active() {
    let env = build_marker_environment("3.12", "linux", "x86_64").ok().unwrap();
    assert!(!should_include_requirement("PySocks!=1.5.7,>=1.5.6; extra == 'socks'", &env));
}

#[test]
fn what_is_no_requirement_is_kept() {
    let env = build_marker_environment("3.12", "linux", "x86_64").ok().unwrap();
    assert!(should_include_requirement("???", &env));
}

#[test]
fn environment_variables_do_not_enter_a_requirement() {
    let (name, constraint) = split_requirement("pkg @ https://example.org/${HOME}/pkg.whl");
    assert_eq!(name, "pkg");
    assert_eq!(constraint, None);
}

//! Requirement strings: the package they name and whether their environment
//! marker admits the host.
//!
//! Parsing and marker evaluation are done by `pep508_rs`. What this module adds
//! is the environment description, the guard that keeps inputs on which that
//! parser aborts away from it, and the fallback for strings it rejects.

use vstd::prelude::*;
use std::str::FromStr;
use crate::engine::text::{
    canonical, canonical_name, chars_of, head_until, is_one_of, is_separator, joined,
    lemma_head_until, owned, same_text, separator, string_of, tail_from, take_until, trim, trimmed,
};

verus! {

/// The values that environment markers are evaluated against.
#[derive(Debug)]
pub struct MarkerEnv {
    pub implementation_name: String,
    pub implementation_version: String,
    pub os_name: String,
    pub platform_machine: String,
    pub platform_python_implementation: String,
    pub platform_release: String,
    pub platform_system: String,
    pub platform_version: String,
    pub python_full_version: String,
    pub python_version: String,
    pub sys_platform: String,
}

/// A `MarkerEnv` as plain text fields.
pub struct MarkerEnvView {
    pub implementation_name: Seq<char>,
    pub implementation_version: Seq<char>,
    pub os_name: Seq<char>,
    pub platform_machine: Seq<char>,
    pub platform_python_implementation: Seq<char>,
    pub platform_release: Seq<char>,
    pub platform_system: Seq<char>,
    pub platform_version: Seq<char>,
    pub python_full_version: Seq<char>,
    pub python_version: Seq<char>,
    pub sys_platform: Seq<char>,
}

impl View for MarkerEnv {
    type V = MarkerEnvView;

    open spec fn view(&self) -> MarkerEnvView {
        MarkerEnvView {
            implementation_name: self.implementation_name@,
            implementation_version: self.implementation_version@,
            os_name: self.os_name@,
            platform_machine: self.platform_machine@,
            platform_python_implementation: self.platform_python_implementation@,
            platform_release: self.platform_release@,
            platform_system: self.platform_system@,
            platform_version: self.platform_version@,
            python_full_version: self.python_full_version@,
            python_version: self.python_version@,
            sys_platform: self.sys_platform@,
        }
    }
}

/// Why no marker environment could be built.
#[derive(Debug)]
pub enum EnvError {
    /// The interpreter version is no PEP 440 version.
    InvalidVersion { text: String },
}

/// The part of `s` behind its first `.`, or nothing if it has none.
pub open spec fn after_first_dot(s: Seq<char>) -> Seq<char> {
    let major = head_until(s, seq!['.']);
    if major.len() < s.len() {
        s.skip(major.len() as int + 1)
    } else {
        Seq::empty()
    }
}

/// The interpreter version padded with zeros to three components.
pub open spec fn full_version(v: Seq<char>) -> Seq<char> {
    if !v.contains('.') {
        v + ".0.0"@
    } else if !after_first_dot(v).contains('.') {
        v + ".0"@
    } else {
        v
    }
}

/// The first two components of the interpreter version.
pub open spec fn short_version(v: Seq<char>) -> Seq<char> {
    if !v.contains('.') {
        v
    } else {
        head_until(v, seq!['.']).push('.') + head_until(after_first_dot(v), seq!['.'])
    }
}

/// `os.name` as the interpreter reports it on the given operating system.
pub open spec fn os_name_of(os: Seq<char>) -> Seq<char> {
    if os == "windows"@ {
        "nt"@
    } else {
        "posix"@
    }
}

/// `sys.platform` on the given operating system.
pub open spec fn sys_platform_of(os: Seq<char>) -> Seq<char> {
    if os == "windows"@ {
        "win32"@
    } else if os == "macos"@ {
        "darwin"@
    } else {
        os
    }
}

/// `platform.system()` on the given operating system.
pub open spec fn platform_system_of(os: Seq<char>) -> Seq<char> {
    if os == "windows"@ {
        "Windows"@
    } else if os == "macos"@ {
        "Darwin"@
    } else if os == "linux"@ {
        "Linux"@
    } else {
        os
    }
}

/// The marker environment of a CPython `python_version` on a host with the
/// given operating system and machine architecture.
pub open spec fn marker_env_for(
    python_version: Seq<char>,
    os: Seq<char>,
    arch: Seq<char>,
) -> MarkerEnvView {
    MarkerEnvView {
        implementation_name: "cpython"@,
        implementation_version: full_version(python_version),
        os_name: os_name_of(os),
        platform_machine: arch,
        platform_python_implementation: "CPython"@,
        platform_release: Seq::empty(),
        platform_system: platform_system_of(os),
        platform_version: Seq::empty(),
        python_full_version: full_version(python_version),
        python_version: short_version(python_version),
        sys_platform: sys_platform_of(os),
    }
}

/// Whether `pep440_rs` reads `text` as a version.
pub uninterp spec fn version_parses(text: Seq<char>) -> bool;

/// Asks `pep440_rs::Version::from_str` whether `text` is a version. The
/// answer depends on the text alone.
#[verifier::external_body]
fn is_version(text: &str) -> (r: bool)
    ensures
        r == version_parses(text@),
{
    pep508_rs::pep440_rs::Version::from_str(text).is_ok()
}

/// Builds the environment that markers are evaluated against, for a CPython
/// `python_version` on a host whose operating system and architecture are
/// named as `std::env::consts::OS` and `ARCH` name them.
///
/// The version is padded to MAJOR.MINOR.PATCH for `python_full_version` and
/// cut to MAJOR.MINOR for `python_version`. It is refused when either form is
/// no PEP 440 version.
pub fn build_marker_environment(python_version: &str, os: &str, arch: &str) -> (r: Result<
    MarkerEnv,
    EnvError,
>)
    ensures
        match r {
            Ok(env) => env@ == marker_env_for(python_version@, os@, arch@) && version_parses(
                full_version(python_version@),
            ) && version_parses(short_version(python_version@)),
            Err(EnvError::InvalidVersion { text }) => text@ == python_version@ && !(
            version_parses(full_version(python_version@)) && version_parses(
                short_version(python_version@),
            )),
        },
{
    let v = chars_of(python_version);
    let dot: Vec<char> = vec!['.'];
    assert(dot@ == seq!['.']);
    let major = take_until(&v, &dot);
    proof {
        lemma_head_until(v@, dot@);
    }
    let full: Vec<char>;
    let short: Vec<char>;
    if major.len() == v.len() {
        assert(!v@.contains('.')) by {
            if v@.contains('.') {
                let i = choose|i: int| 0 <= i < v@.len() && v@[i] == '.';
                assert(major@[i] == '.');
                assert(dot@[0] == '.');
                assert(dot@.contains(major@[i]));
            }
        }
        full = joined(&v, &chars_of(".0.0"));
        short = v;
    } else {
        assert(v@.contains('.')) by {
            assert(dot@.contains(v@[major.len() as int]));
            assert(v@[major.len() as int] == '.');
        }
        let rest = tail_from(&v, major.len() + 1);
        assert(rest@ == after_first_dot(v@));
        let minor = take_until(&rest, &dot);
        proof {
            lemma_head_until(rest@, dot@);
        }
        if minor.len() == rest.len() {
            assert(!rest@.contains('.')) by {
                if rest@.contains('.') {
                    let i = choose|i: int| 0 <= i < rest@.len() && rest@[i] == '.';
                    assert(minor@[i] == '.');
                    assert(dot@[0] == '.');
                    assert(dot@.contains(minor@[i]));
                }
            }
            full = joined(&v, &chars_of(".0"));
        } else {
            assert(rest@.contains('.')) by {
                assert(dot@.contains(rest@[minor.len() as int]));
                assert(rest@[minor.len() as int] == '.');
            }
            full = tail_from(&v, 0);
            assert(v@.skip(0) == v@);
        }
        let mut head = major;
        head.push('.');
        short = joined(&head, &minor);
    }
    let full_text = string_of(&full);
    let short_text = string_of(&short);
    if !is_version(full_text.as_str()) || !is_version(short_text.as_str()) {
        return Err(EnvError::InvalidVersion { text: owned(python_version) });
    }
    let windows = same_text(os, "windows");
    let macos = same_text(os, "macos");
    let linux = same_text(os, "linux");
    let env = MarkerEnv {
        implementation_name: owned("cpython"),
        implementation_version: full_text.clone(),
        os_name: if windows {
            owned("nt")
        } else {
            owned("posix")
        },
        platform_machine: owned(arch),
        platform_python_implementation: owned("CPython"),
        platform_release: String::new(),
        platform_system: if windows {
            owned("Windows")
        } else if macos {
            owned("Darwin")
        } else if linux {
            owned("Linux")
        } else {
            owned(os)
        },
        platform_version: String::new(),
        python_full_version: full_text,
        python_version: short_text,
        sys_platform: if windows {
            owned("win32")
        } else if macos {
            owned("darwin")
        } else {
            owned(os)
        },
    };
    Ok(env)
}

/// A character that may stand inside a package or extra name.
pub open spec fn is_name_char(c: char) -> bool {
    ('a' <= c && c <= 'z') || ('A' <= c && c <= 'Z') || ('0' <= c && c <= '9') || is_separator(c)
}

/// Tests whether `c` may stand inside a package or extra name.
pub fn name_char(c: char) -> (r: bool)
    ensures
        r == is_name_char(c),
{
    ('a' <= c && c <= 'z') || ('A' <= c && c <= 'Z') || ('0' <= c && c <= '9') || separator(c)
}

/// The characters that end the name-and-extras part of a requirement.
pub open spec fn head_delimiters() -> Seq<char> {
    seq![';', '@', '(', '<', '>', '=', '!', '~']
}

/// A character of one byte in UTF-8.
pub open spec fn is_plain_char(c: char) -> bool {
    c <= '\u{7f}'
}

/// Every separator in front of the first of `head_delimiters` is followed by
/// a name character.
pub open spec fn names_end_well(text: Seq<char>) -> bool {
    forall|i: int|
        0 <= i < head_until(text, head_delimiters()).len() && is_separator(#[trigger] text[i])
            ==> i + 1 < text.len() && is_name_char(text[i + 1])
}

/// What stands behind the first `;` of `text`: its marker, if it has one.
pub open spec fn marker_part(text: Seq<char>) -> Seq<char> {
    text.skip(head_until(text, seq![';']).len() as int)
}

/// A decimal digit.
pub open spec fn is_digit(c: char) -> bool {
    '0' <= c && c <= '9'
}

/// How many digits stand at the end of `s` in a row.
pub open spec fn digits_at_end(s: Seq<char>) -> nat
    decreases s.len(),
{
    if s.len() > 0 && is_digit(s.last()) {
        digits_at_end(s.drop_last()) + 1
    } else {
        0
    }
}

/// No more than nine digits stand in a row anywhere in `s`, so that every
/// number written in it is below a thousand millions.
pub open spec fn numbers_are_short(s: Seq<char>) -> bool {
    forall|n: int| 0 <= n <= s.len() ==> digits_at_end(#[trigger] s.take(n)) <= 9
}

/// Tests whether no more than nine digits stand in a row anywhere in `s`.
pub fn has_short_numbers(s: &Vec<char>) -> (r: bool)
    ensures
        r == numbers_are_short(s@),
{
    let mut run: usize = 0;
    let mut i: usize = 0;
    assert(s@.take(0).len() == 0);
    while i < s.len()
        invariant
            i <= s.len(),
            run == digits_at_end(s@.take(i as int)),
            run <= 9,
            forall|n: int| 0 <= n <= i ==> digits_at_end(#[trigger] s@.take(n)) <= 9,
        decreases s.len() - i,
    {
        proof {
            let t = s@.take(i + 1);
            assert(t.drop_last() == s@.take(i as int));
            assert(t.last() == s@[i as int]);
        }
        let c = s[i];
        if '0' <= c && c <= '9' {
            run += 1;
            if run > 9 {
                return false;
            }
        } else {
            run = 0;
        }
        i += 1;
    }
    true
}

/// How often `c` occurs in `s`.
pub open spec fn count_of(s: Seq<char>, c: char) -> nat
    decreases s.len(),
{
    if s.len() == 0 {
        0
    } else if s.last() == c {
        count_of(s.drop_last(), c) + 1
    } else {
        count_of(s.drop_last(), c)
    }
}

/// Counts how often `c` occurs in `s`.
pub fn count(s: &Vec<char>, c: char) -> (n: usize)
    ensures
        n == count_of(s@, c),
{
    let mut n: usize = 0;
    let mut i: usize = 0;
    assert(s@.take(0).len() == 0);
    while i < s.len()
        invariant
            i <= s.len(),
            n <= i,
            n == count_of(s@.take(i as int), c),
        decreases s.len() - i,
    {
        proof {
            let t = s@.take(i + 1);
            assert(t.drop_last() == s@.take(i as int));
            assert(t.last() == s@[i as int]);
        }
        if s[i] == c {
            n += 1;
        }
        i += 1;
    }
    assert(s@.take(s.len() as int) == s@);
    n
}

/// A marker is of moderate size: at most 2048 characters with at most 32
/// opening brackets.
pub open spec fn is_moderate(marker: Seq<char>) -> bool {
    marker.len() <= 2048 && count_of(marker, '(') <= 32
}

/// Whether the requirement parser can be handed `text`.
///
/// `pep508_rs` aborts on several kinds of text. One is a package or extra name
/// that ends in `-`, `_` or `.` with something other than a name character
/// behind it; both names stand before the first of `head_delimiters`. One is
/// a character of more than one byte where the parser counts characters and
/// then cuts by bytes, as it does behind a marker expression. One is a marker
/// that compares a quoted text with an environment text by `~=`. Its marker
/// algebra also adds one to the numbers of a version without looking at their
/// size, and its marker parser calls itself for every opening bracket, so
/// that a long row of them exhausts the stack. A text is safe when its names
/// end well, it holds one-byte characters only, and behind its first `;`
/// stands a marker of moderate size without `~` and without a number of more
/// than nine digits.
pub open spec fn parse_safe(text: Seq<char>) -> bool {
    &&& names_end_well(text)
    &&& forall|i: int| 0 <= i < text.len() ==> is_plain_char(#[trigger] text[i])
    &&& !marker_part(text).contains('~')
    &&& numbers_are_short(marker_part(text))
    &&& is_moderate(marker_part(text))
}

/// Tests whether the requirement parser can be handed `text`.
pub fn is_parse_safe(text: &str) -> (r: bool)
    ensures
        r == parse_safe(text@),
{
    let v = chars_of(text);
    let mut k: usize = 0;
    while k < v.len()
        invariant
            k <= v.len(),
            v@ == text@,
            forall|j: int| 0 <= j < k ==> is_plain_char(#[trigger] v@[j]),
        decreases v.len() - k,
    {
        if v[k] > '\u{7f}' {
            return false;
        }
        k += 1;
    }
    let semicolon: Vec<char> = vec![';'];
    assert(semicolon@ == seq![';']);
    let before_marker = take_until(&v, &semicolon);
    proof {
        lemma_head_until(v@, semicolon@);
    }
    let marker = tail_from(&v, before_marker.len());
    if is_one_of('~', &marker) || !has_short_numbers(&marker) {
        return false;
    }
    if marker.len() > 2048 || count(&marker, '(') > 32 {
        return false;
    }
    let delims: Vec<char> = vec![';', '@', '(', '<', '>', '=', '!', '~'];
    assert(delims@ == head_delimiters());
    let head = take_until(&v, &delims);
    proof {
        lemma_head_until(v@, delims@);
    }
    let mut i: usize = 0;
    while i < head.len()
        invariant
            i <= head.len() <= v.len(),
            v@ == text@,
            head@ == head_until(text@, head_delimiters()),
            forall|k: int|
                0 <= k < i && is_separator(#[trigger] v@[k]) ==> k + 1 < v.len() && is_name_char(
                    v@[k + 1],
                ),
        decreases head.len() - i,
    {
        if separator(v[i]) {
            if i + 1 >= v.len() {
                return false;
            }
            if !name_char(v[i + 1]) {
                return false;
            }
        }
        i += 1;
    }
    true
}

/// What `pep508_rs` reads from a requirement: the normalised package name and
/// the version specifiers, if it has any; nothing if it rejects the text.
pub uninterp spec fn parsed_requirement(text: Seq<char>) -> Option<(Seq<char>, Option<Seq<char>>)>;

/// The constraint of a parsed requirement as text.
pub open spec fn constraint_view(constraint: Option<String>) -> Option<Seq<char>> {
    match constraint {
        Some(c) => Some(c@),
        None => None,
    }
}

/// Parses `text` with `pep508_rs::Requirement::from_str` and hands back the
/// name and the version specifiers. URLs are read as plain `url::Url`, so
/// nothing of the process environment enters the result.
#[verifier::external_body]
fn parse_requirement(text: &str) -> (r: Option<(String, Option<String>)>)
    requires
        parse_safe(text@),
    ensures
        match r {
            Some((name, constraint)) => parsed_requirement(text@) == Some(
                (name@, constraint_view(constraint)),
            ),
            None => parsed_requirement(text@) is None,
        },
{
    let parsed = pep508_rs::Requirement::<url::Url>::from_str(text).ok()?;
    let constraint = match parsed.version_or_url {
        Some(pep508_rs::VersionOrUrl::VersionSpecifier(specifiers)) => Some(specifiers.to_string()),
        Some(pep508_rs::VersionOrUrl::Url(_)) => None,
        None => None,
    };
    Some((parsed.name.to_string(), constraint))
}

/// `pep508_rs::ExtraName`, the name of an extra that is active.
#[verifier::external_type_specification]
#[verifier::external_body]
pub struct ExExtraName(pep508_rs::ExtraName);

/// What `pep508_rs` decides about the marker of a requirement in an
/// environment where no extra is active: whether it admits the environment,
/// or nothing where the requirement or one of the environment's versions
/// does not parse.
pub uninterp spec fn marker_verdict(requirement: Seq<char>, env: MarkerEnvView) -> Option<bool>;

/// Evaluates the marker of `requirement` against `env` and the active
/// `extras` with `pep508_rs::Requirement::evaluate_markers`. The environment
/// goes through `MarkerEnvironment::try_from` and the text through
/// `Requirement::from_str`; where either refuses, there is no verdict. The
/// result is named for the call without extras only.
#[verifier::external_body]
fn evaluate_marker(
    requirement: &str,
    env: &MarkerEnv,
    extras: &Vec<pep508_rs::ExtraName>,
) -> (r: Option<bool>)
    requires
        parse_safe(requirement@),
    ensures
        extras@.len() == 0 ==> r == marker_verdict(requirement@, env@),
{
    let builder = pep508_rs::MarkerEnvironmentBuilder {
        implementation_name: &env.implementation_name,
        implementation_version: &env.implementation_version,
        os_name: &env.os_name, platform_machine: &env.platform_machine,
        platform_python_implementation: &env.platform_python_implementation,
        platform_release: &env.platform_release, platform_system: &env.platform_system,
        platform_version: &env.platform_version,
        python_full_version: &env.python_full_version,
        python_version: &env.python_version, sys_platform: &env.sys_platform,
    };
    let outside = pep508_rs::MarkerEnvironment::try_from(builder).ok()?;
    let parsed = pep508_rs::Requirement::<url::Url>::from_str(requirement).ok()?;
    Some(parsed.evaluate_markers(&outside, extras))
}

/// Whether a requirement is to be installed in an environment: it is, unless
/// it parses and its marker rejects the environment.
pub open spec fn applies(requirement: Seq<char>, env: MarkerEnvView) -> bool {
    !(parse_safe(requirement) && marker_verdict(requirement, env) == Some(false))
}

/// Decides from the marker verdict whether a requirement is kept.
pub fn keep_on_verdict(verdict: Option<bool>) -> (r: bool)
    ensures
        r == (verdict != Some(false)),
{
    match verdict {
        Some(holds) => holds,
        None => true,
    }
}

/// Tests whether `requirement_str` is to be installed in `marker_env`.
///
/// A requirement without marker always is; one with a marker is when the
/// marker holds in the environment with no extra active. A text that is no
/// requirement is kept.
pub fn should_include_requirement(requirement_str: &str, marker_env: &MarkerEnv) -> (r: bool)
    ensures
        r == applies(requirement_str@, marker_env@),
{
    if !is_parse_safe(requirement_str) {
        return true;
    }
    let no_extras: Vec<pep508_rs::ExtraName> = Vec::new();
    keep_on_verdict(evaluate_marker(requirement_str, marker_env, &no_extras))
}

/// The characters that end a package name where the parser gave up.
pub open spec fn name_delimiters() -> Seq<char> {
    seq![';', '(', '<', '>', '=', '!', ' ', '[']
}

/// The package name where the parser gave up: what stands before the first
/// delimiter, without surrounding white space.
pub open spec fn fallback_name(text: Seq<char>) -> Seq<char> {
    trimmed(head_until(text, name_delimiters()))
}

/// Cuts the package name off the front of a text that is no requirement.
pub fn split_package_name(text: &str) -> (r: String)
    ensures
        r@ == fallback_name(text@),
{
    let delims: Vec<char> = vec![';', '(', '<', '>', '=', '!', ' ', '['];
    assert(delims@ == name_delimiters());
    let head = take_until(&chars_of(text), &delims);
    string_of(&trim(&head))
}

/// The name and constraint that a requirement contributes: those the parser
/// reads, or the fallback name and no constraint.
pub open spec fn requirement_parts(text: Seq<char>) -> (Seq<char>, Option<Seq<char>>) {
    if parse_safe(text) && parsed_requirement(text) is Some {
        parsed_requirement(text).unwrap()
    } else {
        (fallback_name(text), None)
    }
}

/// The package name and the version constraint of a requirement.
pub fn split_requirement(requirement_str: &str) -> (r: (String, Option<String>))
    ensures
        (r.0@, constraint_view(r.1)) == requirement_parts(requirement_str@),
{
    if is_parse_safe(requirement_str) {
        match parse_requirement(requirement_str) {
            Some(parts) => {
                return parts;
            },
            None => {},
        }
    }
    (split_package_name(requirement_str), None)
}

/// The canonical name of the package that a requirement names.
///
/// The name is taken from the parsed requirement where the text parses, and
/// otherwise cut off before the first of `; ( < > = ! [` and blank. It is
/// handed back in canonical form, the form that packages are keyed by.
pub fn extract_package_name(requirement_str: &str) -> (r: String)
    ensures
        r@ == canonical(requirement_parts(requirement_str@).0),
{
    canonical_name(split_requirement(requirement_str).0.as_str())
}

} // verus!

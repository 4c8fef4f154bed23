//! Choosing the artifact to install on a host, and naming an artifact's platform.

use vstd::prelude::*;
use crate::engine::lock::{artifact_views, Artifact, ArtifactView};
use crate::engine::text::{chars_of, contains, ends_with, has_infix, has_suffix, owned, same_text};

verus! {

/// The position of the first artifact tagged `tag`, or `items.len()` if none is.
pub open spec fn first_tagged(items: Seq<ArtifactView>, tag: Seq<char>) -> int
    decreases items.len(),
{
    if items.len() == 0 {
        0
    } else {
        let before = first_tagged(items.drop_last(), tag);
        if before < items.len() - 1 {
            before
        } else if items.last().platform == tag {
            items.len() - 1
        } else {
            items.len() as int
        }
    }
}

/// An artifact that holds a source archive.
pub open spec fn is_source(a: ArtifactView) -> bool {
    a.platform == "source"@ || has_suffix(a.filename, ".tar.gz"@)
}

/// The position of the first source archive, or `items.len()` if there is none.
pub open spec fn first_source(items: Seq<ArtifactView>) -> int
    decreases items.len(),
{
    if items.len() == 0 {
        0
    } else {
        let before = first_source(items.drop_last());
        if before < items.len() - 1 {
            before
        } else if is_source(items.last()) {
            items.len() - 1
        } else {
            items.len() as int
        }
    }
}

/// The platform whose binaries a host can run besides its own.
pub open spec fn family_fallback(host: Seq<char>) -> Option<Seq<char>> {
    if host == "macosx_arm64"@ {
        Some("macosx_x86_64"@)
    } else if host == "manylinux_aarch64"@ {
        Some("manylinux"@)
    } else {
        None
    }
}

/// The position of the first artifact built for the fallback platform of `host`.
pub open spec fn first_fallback(items: Seq<ArtifactView>, host: Seq<char>) -> int {
    match family_fallback(host) {
        Some(tag) => first_tagged(items, tag),
        None => items.len() as int,
    }
}

/// The artifact to install on `host`: the first exact match, else the first of
/// the fallback platform, else the first universal binary, else the first
/// source archive.
pub open spec fn selected(items: Seq<ArtifactView>, host: Seq<char>) -> Option<int> {
    if first_tagged(items, host) < items.len() {
        Some(first_tagged(items, host))
    } else if first_fallback(items, host) < items.len() {
        Some(first_fallback(items, host))
    } else if first_tagged(items, "any"@) < items.len() {
        Some(first_tagged(items, "any"@))
    } else if first_source(items) < items.len() {
        Some(first_source(items))
    } else {
        None
    }
}

/// `first_tagged` is the least position that carries the tag.
pub proof fn lemma_first_tagged(items: Seq<ArtifactView>, tag: Seq<char>)
    ensures
        0 <= first_tagged(items, tag) <= items.len(),
        forall|k: int| 0 <= k < first_tagged(items, tag) ==> (#[trigger] items[k]).platform != tag,
        first_tagged(items, tag) < items.len() ==> items[first_tagged(items, tag)].platform == tag,
    decreases items.len(),
{
    if items.len() > 0 {
        let t = items.drop_last();
        lemma_first_tagged(t, tag);
        assert forall|k: int| 0 <= k < first_tagged(items, tag) implies (#[trigger] items[k]).platform
            != tag by {
            if k < t.len() {
                assert(t[k] == items[k]);
            }
        }
        if first_tagged(t, tag) < t.len() {
            assert(t[first_tagged(t, tag)] == items[first_tagged(t, tag)]);
        }
    }
}

/// `first_source` is the least position that holds a source archive.
pub proof fn lemma_first_source(items: Seq<ArtifactView>)
    ensures
        0 <= first_source(items) <= items.len(),
        forall|k: int| 0 <= k < first_source(items) ==> !is_source(#[trigger] items[k]),
        first_source(items) < items.len() ==> is_source(items[first_source(items)]),
    decreases items.len(),
{
    if items.len() > 0 {
        let t = items.drop_last();
        lemma_first_source(t);
        assert forall|k: int| 0 <= k < first_source(items) implies !is_source(
            #[trigger] items[k],
        ) by {
            if k < t.len() {
                assert(t[k] == items[k]);
            }
        }
        if first_source(t) < t.len() {
            assert(t[first_source(t)] == items[first_source(t)]);
        }
    }
}

/// Where an artifact built for the host itself is on offer, one of those is
/// selected, whatever else is on offer.
pub proof fn lemma_exact_match_preferred(items: Seq<ArtifactView>, host: Seq<char>, i: int)
    requires
        0 <= i < items.len(),
        items[i].platform == host,
    ensures
        selected(items, host) is Some,
        items[selected(items, host).unwrap()].platform == host,
        selected(items, host).unwrap() <= i,
{
    lemma_first_tagged(items, host);
}

/// A selection is always one of the artifacts on offer, and one of the four
/// kinds the ladder admits.
pub proof fn lemma_selected_in_range(items: Seq<ArtifactView>, host: Seq<char>)
    ensures
        selected(items, host) matches Some(i) ==> 0 <= i < items.len() && (items[i].platform
            == host || family_fallback(host) == Some(items[i].platform) || items[i].platform
            == "any"@ || is_source(items[i])),
        selected(items, host) is None ==> forall|k: int|
            0 <= k < items.len() ==> (#[trigger] items[k]).platform != host && !is_source(items[k])
                && items[k].platform != "any"@,
{
    lemma_first_tagged(items, host);
    lemma_first_tagged(items, "any"@);
    lemma_first_source(items);
    if family_fallback(host) is Some {
        lemma_first_tagged(items, family_fallback(host).unwrap());
    }
}

/// The position of the first artifact tagged `tag`.
fn find_tagged(artifacts: &[Artifact], tag: &str) -> (r: usize)
    ensures
        r == first_tagged(artifact_views(artifacts@), tag@),
        r <= artifacts.len(),
{
    let ghost items = artifact_views(artifacts@);
    let mut i: usize = 0;
    let mut found: usize = 0;
    assert(items.take(0) =~= Seq::empty());
    while i < artifacts.len()
        invariant
            i <= artifacts.len(),
            items == artifact_views(artifacts@),
            found == first_tagged(items.take(i as int), tag@),
            found <= i,
        decreases artifacts.len() - i,
    {
        proof {
            let t = items.take(i + 1);
            assert(t.drop_last() =~= items.take(i as int));
            assert(t.last() == artifacts@[i as int]@);
        }
        if found < i {
        } else if same_text(artifacts[i].platform.as_str(), tag) {
            found = i;
        } else {
            found = i + 1;
        }
        i += 1;
    }
    assert(items.take(artifacts.len() as int) =~= items);
    found
}

/// Tests whether `artifact` holds a source archive.
fn source_archive(artifact: &Artifact) -> (r: bool)
    ensures
        r == is_source(artifact@),
{
    if same_text(artifact.platform.as_str(), "source") {
        return true;
    }
    ends_with(&chars_of(artifact.filename.as_str()), &chars_of(".tar.gz"))
}

/// The position of the first source archive.
fn find_source(artifacts: &[Artifact]) -> (r: usize)
    ensures
        r == first_source(artifact_views(artifacts@)),
        r <= artifacts.len(),
{
    let ghost items = artifact_views(artifacts@);
    let mut i: usize = 0;
    let mut found: usize = 0;
    assert(items.take(0) =~= Seq::empty());
    while i < artifacts.len()
        invariant
            i <= artifacts.len(),
            items == artifact_views(artifacts@),
            found == first_source(items.take(i as int)),
            found <= i,
        decreases artifacts.len() - i,
    {
        proof {
            let t = items.take(i + 1);
            assert(t.drop_last() =~= items.take(i as int));
            assert(t.last() == artifacts@[i as int]@);
        }
        if found < i {
        } else if source_archive(&artifacts[i]) {
            found = i;
        } else {
            found = i + 1;
        }
        i += 1;
    }
    assert(items.take(artifacts.len() as int) =~= items);
    found
}

/// The position of the first artifact of the fallback platform of `host`.
fn find_fallback(artifacts: &[Artifact], host: &str) -> (r: usize)
    ensures
        r == first_fallback(artifact_views(artifacts@), host@),
        r <= artifacts.len(),
{
    if same_text(host, "macosx_arm64") {
        find_tagged(artifacts, "macosx_x86_64")
    } else if same_text(host, "manylinux_aarch64") {
        find_tagged(artifacts, "manylinux")
    } else {
        artifacts.len()
    }
}

/// Picks the artifact to install on `platform` from `artifacts`.
///
/// The first rung of this ladder that has a candidate decides, and within a
/// rung the first candidate in the list: an artifact tagged with the platform
/// itself; one tagged with the platform's fallback (`macosx_x86_64` on
/// `macosx_arm64`, `manylinux` on `manylinux_aarch64`); one tagged `any`; a
/// source archive (tagged `source`, or a file name ending in `.tar.gz`).
pub fn select_artifact<'a>(artifacts: &'a [Artifact], platform: &str) -> (chosen: Option<
    &'a Artifact,
>)
    ensures
        match chosen {
            Some(a) => selected(artifact_views(artifacts@), platform@) matches Some(i) && 0 <= i
                < artifacts.len() && *a == artifacts@[i],
            None => selected(artifact_views(artifacts@), platform@) is None,
        },
{
    let n = artifacts.len();
    let exact = find_tagged(artifacts, platform);
    if exact < n {
        return Some(&artifacts[exact]);
    }
    let family = find_fallback(artifacts, platform);
    if family < n {
        return Some(&artifacts[family]);
    }
    let universal = find_tagged(artifacts, "any");
    if universal < n {
        return Some(&artifacts[universal]);
    }
    let source = find_source(artifacts);
    if source < n {
        return Some(&artifacts[source]);
    }
    None
}

/// The platform tag that a binary archive's file name stands for.
pub open spec fn platform_of(filename: Seq<char>) -> Seq<char> {
    if has_infix(filename, "win_amd64"@) || has_infix(filename, "win32"@) {
        "win_amd64"@
    } else if has_infix(filename, "macosx"@) && (has_infix(filename, "arm64"@) || has_infix(
        filename,
        "aarch64"@,
    )) {
        "macosx_arm64"@
    } else if has_infix(filename, "macosx"@) {
        "macosx_x86_64"@
    } else if has_infix(filename, "manylinux"@) && has_infix(filename, "aarch64"@) {
        "manylinux_aarch64"@
    } else if has_infix(filename, "manylinux"@) {
        "manylinux"@
    } else if has_infix(filename, "none-any"@) || has_infix(filename, "py3-none"@) || has_infix(
        filename,
        "py2.py3"@,
    ) {
        "any"@
    } else {
        "other"@
    }
}

/// Tests whether the literal `pattern` occurs in `text`.
fn mentions(text: &Vec<char>, pattern: &str) -> (r: bool)
    ensures
        r == has_infix(text@, pattern@),
{
    contains(text, &chars_of(pattern))
}

/// Derives the platform tag of a binary archive from its file name.
pub fn platform_tag(filename: &str) -> (tag: String)
    ensures
        tag@ == platform_of(filename@),
{
    let name = chars_of(filename);
    if mentions(&name, "win_amd64") || mentions(&name, "win32") {
        owned("win_amd64")
    } else if mentions(&name, "macosx") {
        if mentions(&name, "arm64") || mentions(&name, "aarch64") {
            owned("macosx_arm64")
        } else {
            owned("macosx_x86_64")
        }
    } else if mentions(&name, "manylinux") {
        if mentions(&name, "aarch64") {
            owned("manylinux_aarch64")
        } else {
            owned("manylinux")
        }
    } else if mentions(&name, "none-any") || mentions(&name, "py3-none") || mentions(
        &name,
        "py2.py3",
    ) {
        owned("any")
    } else {
        owned("other")
    }
}

/// The closed set of platform tags an artifact can carry.
pub open spec fn is_platform_tag(tag: Seq<char>) -> bool {
    tag == "win_amd64"@ || tag == "macosx_arm64"@ || tag == "macosx_x86_64"@ || tag
        == "manylinux"@ || tag == "manylinux_aarch64"@ || tag == "any"@ || tag == "source"@ || tag
        == "other"@
}

/// Every derived tag belongs to the closed set.
pub proof fn lemma_platform_of_is_tag(filename: Seq<char>)
    ensures
        is_platform_tag(platform_of(filename)),
        platform_of(filename) != "source"@,
{
    reveal_strlit("win_amd64");
    reveal_strlit("macosx_arm64");
    reveal_strlit("macosx_x86_64");
    reveal_strlit("manylinux");
    reveal_strlit("manylinux_aarch64");
    reveal_strlit("any");
    reveal_strlit("source");
    reveal_strlit("other");
    assert("source"@.len() == 6 && "other"@.len() == 5 && "any"@.len() == 3);
    assert("win_amd64"@.len() == 9 && "manylinux"@.len() == 9);
    assert("macosx_arm64"@.len() == 12 && "macosx_x86_64"@.len() == 13);
    assert("manylinux_aarch64"@.len() == 17);
}

/// Tests whether `tag` belongs to the closed set of platform tags.
pub fn is_known_tag(tag: &str) -> (r: bool)
    ensures
        r == is_platform_tag(tag@),
{
    same_text(tag, "win_amd64") || same_text(tag, "macosx_arm64") || same_text(
        tag,
        "macosx_x86_64",
    ) || same_text(tag, "manylinux") || same_text(tag, "manylinux_aarch64") || same_text(
        tag,
        "any",
    ) || same_text(tag, "source") || same_text(tag, "other")
}

} // verus!

//! Bringing an environment in line with a lockfile: what is installed, what
//! has to be installed, how one package is installed, and what is pruned.
//!
//! Nothing here touches the disk. The caller lists the site directory, does
//! what the actions say and reports back what happened.

use vstd::prelude::*;
use sha2::Digest;
use crate::engine::lock::{Artifact, ArtifactView, LockedPackage, LockedPackageView, Lockfile};
use crate::engine::selection::{is_known_tag, is_platform_tag, select_artifact, selected};
use crate::engine::text::{
    canonical, canonical_name, chars_of, ends_with, has_suffix, head_until, lists,
    lowercase, lowercased, same_text, string_of, take_until, texts,
};

verus! {

/// What `sha2` computes as the SHA-256 of a byte string, in lower-case hex.
pub uninterp spec fn sha256_hex(bytes: Seq<u8>) -> Seq<char>;

/// A lower-case hexadecimal digit.
pub open spec fn is_hex_digit(c: char) -> bool {
    ('0' <= c && c <= '9') || ('a' <= c && c <= 'f')
}

/// The form of a digest: 64 lower-case hexadecimal digits.
pub open spec fn is_digest(s: Seq<char>) -> bool {
    s.len() == 64 && forall|i: int| 0 <= i < s.len() ==> is_hex_digit(#[trigger] s[i])
}

/// Computes the SHA-256 of `bytes` with `sha2::Sha256::digest` and writes its
/// 32 bytes as 64 lower-case hexadecimal digits.
#[verifier::external_body]
fn digest_of(bytes: &[u8]) -> (r: String)
    ensures
        r@ == sha256_hex(bytes@),
        is_digest(r@),
{
    format!("{:x}", sha2::Sha256::digest(bytes))
}

/// Tests whether `text` has the form of a digest.
pub fn valid_digest(text: &str) -> (r: bool)
    ensures
        r == is_digest(text@),
{
    let v = chars_of(text);
    if v.len() != 64 {
        return false;
    }
    let mut i: usize = 0;
    while i < v.len()
        invariant
            i <= v.len(),
            v@ == text@,
            forall|k: int| 0 <= k < i ==> is_hex_digit(#[trigger] v@[k]),
        decreases v.len() - i,
    {
        let c = v[i];
        if !(('0' <= c && c <= '9') || ('a' <= c && c <= 'f')) {
            return false;
        }
        i += 1;
    }
    true
}

/// An artifact as the data model wants it: its digest has the form of a
/// digest and its platform tag belongs to the closed set.
pub open spec fn is_sound_artifact(a: ArtifactView) -> bool {
    is_digest(a.sha256) && is_platform_tag(a.platform)
}

/// Tests whether `artifact` is as the data model wants it.
pub fn sound_artifact(artifact: &Artifact) -> (r: bool)
    ensures
        r == is_sound_artifact(artifact@),
{
    valid_digest(artifact.sha256.as_str()) && is_known_tag(artifact.platform.as_str())
}

/// Tests whether `bytes` hash to the digest `claimed`.
pub fn digest_matches(bytes: &[u8], claimed: &str) -> (r: bool)
    ensures
        r == (sha256_hex(bytes@) == claimed@),
        r ==> is_digest(claimed@),
{
    let actual = digest_of(bytes);
    same_text(actual.as_str(), claimed)
}

/// The two kinds of archive.
#[derive(Clone, Copy, Debug, PartialEq, Eq, Structural)]
pub enum ArtifactKind {
    /// A pre-built archive, unpacked as it is.
    Binary,
    /// A source archive.
    Source,
}

/// The kind of archive that a file name stands for: binary where it ends in
/// `.whl`, in any letter case, and source otherwise.
pub open spec fn kind_of(filename: Seq<char>) -> ArtifactKind {
    if has_suffix(lowercased(filename), ".whl"@) {
        ArtifactKind::Binary
    } else {
        ArtifactKind::Source
    }
}

/// Decides from the lower-cased file name how an archive is unpacked.
pub fn kind_of_lowered(lowered: &str) -> (r: ArtifactKind)
    ensures
        r == if has_suffix(lowered@, ".whl"@) {
            ArtifactKind::Binary
        } else {
            ArtifactKind::Source
        },
{
    if ends_with(&chars_of(lowered), &chars_of(".whl")) {
        ArtifactKind::Binary
    } else {
        ArtifactKind::Source
    }
}

/// Decides how the archive `filename` is unpacked.
pub fn archive_kind(filename: &str) -> (r: ArtifactKind)
    ensures
        r == kind_of(filename@),
{
    kind_of_lowered(lowercase(filename).as_str())
}

/// An entry of the site directory.
#[derive(Debug)]
pub struct SiteEntry {
    pub name: String,
    pub is_dir: bool,
}

/// A `SiteEntry` as plain values.
pub struct SiteEntryView {
    pub name: Seq<char>,
    pub is_dir: bool,
}

impl View for SiteEntry {
    type V = SiteEntryView;

    open spec fn view(&self) -> SiteEntryView {
        SiteEntryView { name: self.name@, is_dir: self.is_dir }
    }
}

/// Each entry of `items` as plain values.
pub open spec fn entry_views(items: Seq<SiteEntry>) -> Seq<SiteEntryView> {
    items.map_values(|e: SiteEntry| e@)
}

/// The canonical name of the package that a `*.dist-info` name belongs to:
/// what stands before the first `-`.
pub open spec fn dist_info_key(name: Seq<char>) -> Seq<char> {
    canonical(head_until(name, seq!['-']))
}

/// The directory records an installed package.
pub open spec fn is_record(e: SiteEntryView) -> bool {
    e.is_dir && has_suffix(e.name, ".dist-info"@)
}

/// The package that an entry belongs to: a `*.dist-info` directory to the
/// package it records, any other directory to the package of its name, and
/// what is no directory to none.
pub open spec fn entry_key(e: SiteEntryView) -> Option<Seq<char>> {
    if is_record(e) {
        Some(dist_info_key(e.name))
    } else if e.is_dir {
        Some(canonical(e.name))
    } else {
        None
    }
}

/// The package that `entry` belongs to.
pub fn key_of_entry(entry: &SiteEntry) -> (r: Option<String>)
    ensures
        match r {
            Some(k) => entry_key(entry@) == Some(k@),
            None => entry_key(entry@).is_none(),
        },
{
    if !entry.is_dir {
        return None;
    }
    let name = chars_of(entry.name.as_str());
    if ends_with(&name, &chars_of(".dist-info")) {
        let dash: Vec<char> = vec!['-'];
        assert(dash@ == seq!['-']);
        let base = string_of(&take_until(&name, &dash));
        return Some(canonical_name(base.as_str()));
    }
    Some(canonical_name(entry.name.as_str()))
}

/// The canonical names of the packages that the site directory records as
/// installed, in listing order.
pub open spec fn installed_keys(entries: Seq<SiteEntryView>) -> Seq<Seq<char>>
    decreases entries.len(),
{
    if entries.len() == 0 {
        Seq::empty()
    } else {
        let head = installed_keys(entries.drop_last());
        if is_record(entries.last()) {
            head.push(dist_info_key(entries.last().name))
        } else {
            head
        }
    }
}

/// Collects the canonical names of the installed packages from a listing of
/// the site directory.
pub fn installed_names(entries: &Vec<SiteEntry>) -> (r: Vec<String>)
    ensures
        texts(r@) == installed_keys(entry_views(entries@)),
{
    let ghost all = entry_views(entries@);
    let mut out: Vec<String> = Vec::new();
    let mut i: usize = 0;
    assert(all.take(0) =~= Seq::empty());
    assert(texts(out@) =~= Seq::empty());
    while i < entries.len()
        invariant
            i <= entries.len(),
            all == entry_views(entries@),
            texts(out@) == installed_keys(all.take(i as int)),
        decreases entries.len() - i,
    {
        proof {
            let t = all.take(i + 1);
            assert(t.drop_last() =~= all.take(i as int));
            assert(t.last() == entries@[i as int]@);
        }
        let entry = &entries[i];
        if entry.is_dir && ends_with(&chars_of(entry.name.as_str()), &chars_of(".dist-info")) {
            match key_of_entry(entry) {
                Some(k) => {
                    let ghost before = out@;
                    out.push(k);
                    assert(texts(out@) =~= texts(before).push(k@));
                },
                None => {},
            }
        }
        i += 1;
    }
    assert(all.take(entries.len() as int) =~= all);
    out
}

/// The names of `names` whose canonical form is not among `installed`, in order.
pub open spec fn missing(names: Seq<Seq<char>>, installed: Seq<Seq<char>>) -> Seq<Seq<char>>
    decreases names.len(),
{
    if names.len() == 0 {
        Seq::empty()
    } else {
        let head = missing(names.drop_last(), installed);
        if installed.contains(canonical(names.last())) {
            head
        } else {
            head.push(names.last())
        }
    }
}

/// The display names of the packages of a lockfile, in key order.
pub open spec fn package_names(packages: Seq<(Seq<char>, LockedPackageView)>) -> Seq<Seq<char>> {
    packages.map_values(|p: (Seq<char>, LockedPackageView)| p.0)
}

/// The packages of the lockfile that are not installed yet: those whose
/// canonical name is not among `installed`.
pub fn packages_to_install(lockfile: &Lockfile, installed: &Vec<String>) -> (r: Vec<String>)
    ensures
        texts(r@) == missing(package_names(lockfile@.packages), texts(installed@)),
{
    let ghost names = package_names(lockfile@.packages);
    let mut out: Vec<String> = Vec::new();
    let mut i: usize = 0;
    assert(names.take(0) =~= Seq::empty());
    assert(texts(out@) =~= Seq::empty());
    while i < lockfile.packages.len()
        invariant
            i <= lockfile.packages.pairs().len(),
            names == package_names(lockfile@.packages),
            names.len() == lockfile.packages.pairs().len(),
            texts(out@) == missing(names.take(i as int), texts(installed@)),
        decreases lockfile.packages.pairs().len() - i,
    {
        proof {
            let t = names.take(i + 1);
            assert(t.drop_last() =~= names.take(i as int));
            assert(t.last() == lockfile.packages.pairs()[i as int].0);
        }
        let name = lockfile.packages.key_at(i);
        let key = canonical_name(name.as_str());
        if !lists(installed, key.as_str()) {
            let ghost before = out@;
            out.push(name.clone());
            assert(texts(out@) =~= texts(before).push(name@));
        }
        i += 1;
    }
    assert(names.take(lockfile.packages.pairs().len() as int) =~= names);
    out
}

/// Where every package is installed, nothing is missing.
pub proof fn lemma_nothing_missing(names: Seq<Seq<char>>, installed: Seq<Seq<char>>)
    requires
        forall|i: int| 0 <= i < names.len() ==> installed.contains(canonical(#[trigger] names[i])),
    ensures
        missing(names, installed) == Seq::<Seq<char>>::empty(),
    decreases names.len(),
{
    if names.len() > 0 {
        let t = names.drop_last();
        assert forall|i: int| 0 <= i < t.len() implies installed.contains(
            canonical(#[trigger] t[i]),
        ) by {
            assert(t[i] == names[i]);
        }
        lemma_nothing_missing(t, installed);
        assert(installed.contains(canonical(names[names.len() - 1])));
    }
}

/// What is missing is in the lockfile and not installed, and nothing else is left out.
pub proof fn lemma_missing(names: Seq<Seq<char>>, installed: Seq<Seq<char>>)
    ensures
        forall|k: int|
            0 <= k < missing(names, installed).len() ==> names.contains(
                #[trigger] missing(names, installed)[k],
            ) && !installed.contains(canonical(missing(names, installed)[k])),
        forall|i: int|
            0 <= i < names.len() && !installed.contains(canonical(#[trigger] names[i]))
                ==> missing(names, installed).contains(names[i]),
    decreases names.len(),
{
    if names.len() > 0 {
        let t = names.drop_last();
        let head = missing(t, installed);
        let all = missing(names, installed);
        lemma_missing(t, installed);
        assert forall|k: int| 0 <= k < all.len() implies names.contains(#[trigger] all[k])
            && !installed.contains(canonical(all[k])) by {
            if k < head.len() {
                assert(all[k] == head[k]);
                let j = choose|j: int| 0 <= j < t.len() && t[j] == head[k];
                assert(names[j] == head[k]);
            } else {
                assert(all[k] == names[names.len() - 1]);
            }
        }
        assert forall|i: int|
            0 <= i < names.len() && !installed.contains(
                canonical(#[trigger] names[i]),
            ) implies all.contains(names[i]) by {
            if i < t.len() {
                assert(t[i] == names[i]);
                let k = choose|k: int| 0 <= k < head.len() && head[k] == t[i];
                assert(all[k] == names[i]);
            } else {
                assert(all[all.len() - 1] == names[i]);
            }
        }
    }
}

/// The packages that pruning never deletes: the installer, the builder, the
/// package-resources helper, the distutils shim and the wheel tool.
pub open spec fn is_protected(key: Seq<char>) -> bool {
    key == "pip"@ || key == "setuptools"@ || key == "pkg_resources"@ || key == "_distutils_hack"@
        || key == "wheel"@
}

/// Tests whether the package with canonical name `key` is protected.
pub fn protected(key: &str) -> (r: bool)
    ensures
        r == is_protected(key@),
{
    same_text(key, "pip") || same_text(key, "setuptools") || same_text(key, "pkg_resources")
        || same_text(key, "_distutils_hack") || same_text(key, "wheel")
}

/// The canonical forms of `names`.
pub open spec fn canonical_keys(names: Seq<Seq<char>>) -> Seq<Seq<char>> {
    names.map_values(|n: Seq<char>| canonical(n))
}

/// The entry is pruned: it belongs to a package that is neither protected nor
/// one of `keys`.
pub open spec fn is_stray(e: SiteEntryView, keys: Seq<Seq<char>>) -> bool {
    entry_key(e) matches Some(k) && !is_protected(k) && !keys.contains(k)
}

/// The names of the entries that are pruned, in listing order.
pub open spec fn strays(entries: Seq<SiteEntryView>, keys: Seq<Seq<char>>) -> Seq<Seq<char>>
    decreases entries.len(),
{
    if entries.len() == 0 {
        Seq::empty()
    } else {
        let head = strays(entries.drop_last(), keys);
        if is_stray(entries.last(), keys) {
            head.push(entries.last().name)
        } else {
            head
        }
    }
}

/// The entries that pruning leaves, in listing order.
pub open spec fn survivors(entries: Seq<SiteEntryView>, keys: Seq<Seq<char>>) -> Seq<SiteEntryView>
    decreases entries.len(),
{
    if entries.len() == 0 {
        Seq::empty()
    } else {
        let head = survivors(entries.drop_last(), keys);
        if is_stray(entries.last(), keys) {
            head
        } else {
            head.push(entries.last())
        }
    }
}

/// After pruning, every entry that belongs to a package belongs to one of
/// the lockfile or to a protected one, and every entry that was left out of
/// the plan is still there.
pub proof fn lemma_prune_safe(entries: Seq<SiteEntryView>, keys: Seq<Seq<char>>)
    ensures
        forall|i: int|
            0 <= i < survivors(entries, keys).len() ==> (entry_key(
                #[trigger] survivors(entries, keys)[i],
            ) matches Some(k) ==> is_protected(k) || keys.contains(k)),
        forall|i: int|
            0 <= i < entries.len() && !is_stray(#[trigger] entries[i], keys) ==> survivors(
                entries,
                keys,
            ).contains(entries[i]),
    decreases entries.len(),
{
    if entries.len() > 0 {
        let t = entries.drop_last();
        let head = survivors(t, keys);
        let all = survivors(entries, keys);
        lemma_prune_safe(t, keys);
        assert forall|i: int| 0 <= i < all.len() implies (entry_key(
            #[trigger] all[i],
        ) matches Some(k) ==> is_protected(k) || keys.contains(k)) by {
            if i < head.len() {
                assert(all[i] == head[i]);
            }
        }
        assert forall|i: int|
            0 <= i < entries.len() && !is_stray(#[trigger] entries[i], keys) implies all.contains(
            entries[i],
        ) by {
            if i < t.len() {
                assert(t[i] == entries[i]);
                let k = choose|k: int| 0 <= k < head.len() && head[k] == t[i];
                assert(all[k] == entries[i]);
            } else {
                assert(all[all.len() - 1] == entries[i]);
            }
        }
    }
}

/// Some stray among the entries is called `name`.
pub open spec fn names_stray(
    entries: Seq<SiteEntryView>,
    keys: Seq<Seq<char>>,
    name: Seq<char>,
) -> bool {
    exists|i: int| 0 <= i < entries.len() && is_stray(#[trigger] entries[i], keys) && entries[i].name == name
}

/// Only strays are pruned: every name in the plan is that of an entry which
/// belongs to a package that is neither protected nor in the lockfile.
pub proof fn lemma_prune_only_strays(entries: Seq<SiteEntryView>, keys: Seq<Seq<char>>)
    ensures
        forall|k: int|
            0 <= k < strays(entries, keys).len() ==> names_stray(
                entries,
                keys,
                #[trigger] strays(entries, keys)[k],
            ),
    decreases entries.len(),
{
    if entries.len() > 0 {
        let t = entries.drop_last();
        let head = strays(t, keys);
        let all = strays(entries, keys);
        lemma_prune_only_strays(t, keys);
        assert forall|k: int| 0 <= k < all.len() implies names_stray(
            entries,
            keys,
            #[trigger] all[k],
        ) by {
            if k < head.len() {
                assert(all[k] == head[k]);
                assert(names_stray(t, keys, head[k]));
                let i = choose|i: int|
                    0 <= i < t.len() && is_stray(#[trigger] t[i], keys) && t[i].name == head[k];
                assert(entries[i] == t[i]);
            } else {
                assert(is_stray(entries[entries.len() - 1], keys));
            }
        }
    }
}

/// Pruning what pruning has left finds nothing more.
pub proof fn lemma_prune_settles(entries: Seq<SiteEntryView>, keys: Seq<Seq<char>>)
    ensures
        strays(survivors(entries, keys), keys) == Seq::<Seq<char>>::empty(),
    decreases entries.len(),
{
    if entries.len() > 0 {
        let t = entries.drop_last();
        lemma_prune_settles(t, keys);
        if !is_stray(entries.last(), keys) {
            let all = survivors(entries, keys);
            assert(all.drop_last() =~= survivors(t, keys));
        }
    }
}

/// The canonical names of the packages of the lockfile.
fn lock_keys(lockfile: &Lockfile) -> (r: Vec<String>)
    ensures
        texts(r@) == canonical_keys(package_names(lockfile@.packages)),
{
    let ghost names = package_names(lockfile@.packages);
    let mut out: Vec<String> = Vec::new();
    let mut i: usize = 0;
    assert(texts(out@) =~= canonical_keys(names).take(0));
    while i < lockfile.packages.len()
        invariant
            i <= lockfile.packages.pairs().len(),
            names == package_names(lockfile@.packages),
            names.len() == lockfile.packages.pairs().len(),
            texts(out@) == canonical_keys(names).take(i as int),
        decreases lockfile.packages.pairs().len() - i,
    {
        let key = canonical_name(lockfile.packages.key_at(i).as_str());
        let ghost before = out@;
        out.push(key);
        proof {
            assert(names[i as int] == lockfile.packages.pairs()[i as int].0);
            assert(texts(out@) =~= texts(before).push(key@));
            assert(canonical_keys(names).take(i + 1) =~= canonical_keys(names).take(
                i as int,
            ).push(canonical(names[i as int])));
        }
        i += 1;
    }
    assert(canonical_keys(names).take(names.len() as int) =~= canonical_keys(names));
    out
}

/// Names the entries of the site directory that are to be deleted: every
/// directory that belongs to a package which is neither in the lockfile nor
/// protected, a `*.dist-info` directory going by what stands before its first
/// `-` and any other directory by its whole name.
pub fn prune_plan(entries: &Vec<SiteEntry>, lockfile: &Lockfile) -> (r: Vec<String>)
    ensures
        texts(r@) == strays(
            entry_views(entries@),
            canonical_keys(package_names(lockfile@.packages)),
        ),
{
    let keys = lock_keys(lockfile);
    let ghost all = entry_views(entries@);
    let ghost wanted = canonical_keys(package_names(lockfile@.packages));
    let mut out: Vec<String> = Vec::new();
    let mut i: usize = 0;
    assert(all.take(0) =~= Seq::empty());
    assert(texts(out@) =~= Seq::empty());
    while i < entries.len()
        invariant
            i <= entries.len(),
            all == entry_views(entries@),
            texts(keys@) == wanted,
            texts(out@) == strays(all.take(i as int), wanted),
        decreases entries.len() - i,
    {
        proof {
            let t = all.take(i + 1);
            assert(t.drop_last() =~= all.take(i as int));
            assert(t.last() == entries@[i as int]@);
        }
        match key_of_entry(&entries[i]) {
            Some(k) => {
                if !protected(k.as_str()) && !lists(&keys, k.as_str()) {
                    let ghost before = out@;
                    out.push(entries[i].name.clone());
                    assert(texts(out@) =~= texts(before).push(entries@[i as int].name@));
                }
            },
            None => {},
        }
        i += 1;
    }
    assert(all.take(entries.len() as int) =~= all);
    out
}

/// Why a package was not installed.
#[derive(Clone, Copy, Debug, PartialEq, Eq, Structural)]
pub enum Failure {
    /// No artifact of the package fits the host.
    NoCompatibleArtifact,
    /// The bytes that came do not hash to the digest of the artifact.
    DigestMismatch,
    /// The artifact could not be downloaded.
    Download,
    /// The cache could not be read or written, twice in a row.
    Cache,
    /// The archive could not be unpacked.
    Extraction,
    /// Something was reported that the installation was not waiting for.
    Protocol,
    /// The archive was a source archive. Its content stands in the site
    /// directory as it was packed, which need not make a working package.
    UnbuiltSource,
}

/// How far the installation of one package has come.
#[derive(Clone, Copy, Debug, PartialEq, Eq, Structural)]
pub enum Phase {
    /// Nothing has been done yet.
    Selecting,
    /// The cache is being asked for the chosen artifact.
    Probing,
    /// The cached file is being placed in the staging directory.
    Materializing { retried: bool },
    /// The artifact is being downloaded.
    Downloading,
    /// The verified bytes are being stored in the cache and the staging directory.
    Saving { retried: bool },
    /// The archive is being unpacked into the site directory.
    Extracting,
    /// The package is installed.
    Installed,
    /// The installation has failed.
    Failed(Failure),
}

/// What the caller is to do next for the package.
#[derive(Clone, Copy, Debug, PartialEq, Eq, Structural)]
pub enum Action {
    /// Ask the cache whether it holds the chosen artifact.
    ProbeCache,
    /// Place the cached file in the staging directory.
    Materialize,
    /// Download the chosen artifact.
    Download,
    /// Store the downloaded bytes in the cache, then in the staging directory.
    Save,
    /// Unpack the staged archive into the site directory.
    Extract(ArtifactKind),
    /// Nothing: the installation has ended.
    Finish,
}

/// What the caller reports back.
pub enum Event<'a> {
    /// The installation is to begin.
    Start,
    /// The cache holds the artifact.
    CacheHit,
    /// The cache does not hold the artifact.
    CacheMiss,
    /// These bytes were downloaded.
    Downloaded(&'a [u8]),
    /// The last action was carried out.
    Done,
    /// The last action could not be carried out.
    Failed,
}

/// An `Event` as plain values.
pub enum EventView {
    Start,
    CacheHit,
    CacheMiss,
    Downloaded(Seq<u8>),
    Done,
    Failed,
}

impl<'a> View for Event<'a> {
    type V = EventView;

    open spec fn view(&self) -> EventView {
        match self {
            Event::Start => EventView::Start,
            Event::CacheHit => EventView::CacheHit,
            Event::CacheMiss => EventView::CacheMiss,
            Event::Downloaded(bytes) => EventView::Downloaded(bytes@),
            Event::Done => EventView::Done,
            Event::Failed => EventView::Failed,
        }
    }
}

/// The kind of the artifact chosen for the host; source where none is.
pub open spec fn chosen_kind(artifacts: Seq<ArtifactView>, host: Seq<char>) -> ArtifactKind {
    match selected(artifacts, host) {
        Some(i) => kind_of(artifacts[i].filename),
        None => ArtifactKind::Source,
    }
}

/// The downloaded bytes are those of the artifact chosen for the host.
pub open spec fn digest_holds(
    bytes: Seq<u8>,
    artifacts: Seq<ArtifactView>,
    host: Seq<char>,
) -> bool {
    selected(artifacts, host) matches Some(i) && sha256_hex(bytes) == artifacts[i].sha256
}

/// The transition of the installation of one package.
///
/// An artifact is chosen for the host. It is taken from the cache if the
/// cache holds it, and downloaded otherwise; downloaded bytes are stored only
/// if they hash to the artifact's digest. The staged archive is unpacked
/// according to its kind. A binary archive that was unpacked is installed; a
/// source archive is unpacked as it is and reported as `UnbuiltSource`, since
/// nothing builds it. A cache operation that fails is tried once more. An
/// ended installation stays as it is, and a report that the phase does not
/// wait for ends it.
pub open spec fn install_next(
    phase: Phase,
    event: EventView,
    artifacts: Seq<ArtifactView>,
    host: Seq<char>,
) -> (Phase, Action) {
    match (phase, event) {
        (Phase::Installed, _) => (Phase::Installed, Action::Finish),
        (Phase::Failed(f), _) => (Phase::Failed(f), Action::Finish),
        (Phase::Selecting, EventView::Start) => if selected(artifacts, host) is Some {
            (Phase::Probing, Action::ProbeCache)
        } else {
            (Phase::Failed(Failure::NoCompatibleArtifact), Action::Finish)
        },
        (Phase::Probing, EventView::CacheHit) => (
            Phase::Materializing { retried: false },
            Action::Materialize,
        ),
        (Phase::Probing, EventView::CacheMiss) => (Phase::Downloading, Action::Download),
        (Phase::Materializing { retried }, EventView::Done) => (
            Phase::Extracting,
            Action::Extract(chosen_kind(artifacts, host)),
        ),
        (Phase::Materializing { retried }, EventView::Failed) => if retried {
            (Phase::Failed(Failure::Cache), Action::Finish)
        } else {
            (Phase::Materializing { retried: true }, Action::Materialize)
        },
        (Phase::Downloading, EventView::Downloaded(bytes)) => if digest_holds(
            bytes,
            artifacts,
            host,
        ) {
            (Phase::Saving { retried: false }, Action::Save)
        } else {
            (Phase::Failed(Failure::DigestMismatch), Action::Finish)
        },
        (Phase::Downloading, EventView::Failed) => (
            Phase::Failed(Failure::Download),
            Action::Finish,
        ),
        (Phase::Saving { retried }, EventView::Done) => (
            Phase::Extracting,
            Action::Extract(chosen_kind(artifacts, host)),
        ),
        (Phase::Saving { retried }, EventView::Failed) => if retried {
            (Phase::Failed(Failure::Cache), Action::Finish)
        } else {
            (Phase::Saving { retried: true }, Action::Save)
        },
        (Phase::Extracting, EventView::Done) => if chosen_kind(artifacts, host)
            == ArtifactKind::Binary {
            (Phase::Installed, Action::Finish)
        } else {
            (Phase::Failed(Failure::UnbuiltSource), Action::Finish)
        },
        (Phase::Extracting, EventView::Failed) => (
            Phase::Failed(Failure::Extraction),
            Action::Finish,
        ),
        _ => (Phase::Failed(Failure::Protocol), Action::Finish),
    }
}

/// Makes one transition of the installation of `package` on `host`.
pub fn install_step(phase: Phase, event: &Event, package: &LockedPackage, host: &str) -> (r: (
    Phase,
    Action,
))
    ensures
        r == install_next(phase, event@, package@.artifacts, host@),
{
    match phase {
        Phase::Installed => (Phase::Installed, Action::Finish),
        Phase::Failed(f) => (Phase::Failed(f), Action::Finish),
        Phase::Selecting => match event {
            Event::Start => match select_artifact(package.artifacts.as_slice(), host) {
                Some(a) => (Phase::Probing, Action::ProbeCache),
                None => (Phase::Failed(Failure::NoCompatibleArtifact), Action::Finish),
            },
            _ => (Phase::Failed(Failure::Protocol), Action::Finish),
        },
        Phase::Probing => match event {
            Event::CacheHit => (Phase::Materializing { retried: false }, Action::Materialize),
            Event::CacheMiss => (Phase::Downloading, Action::Download),
            _ => (Phase::Failed(Failure::Protocol), Action::Finish),
        },
        Phase::Materializing { retried } => match event {
            Event::Done => (Phase::Extracting, Action::Extract(extraction_kind(package, host))),
            Event::Failed => if retried {
                (Phase::Failed(Failure::Cache), Action::Finish)
            } else {
                (Phase::Materializing { retried: true }, Action::Materialize)
            },
            _ => (Phase::Failed(Failure::Protocol), Action::Finish),
        },
        Phase::Downloading => match event {
            Event::Downloaded(bytes) => {
                let fits = match select_artifact(package.artifacts.as_slice(), host) {
                    Some(a) => digest_matches(bytes, a.sha256.as_str()),
                    None => false,
                };
                if fits {
                    (Phase::Saving { retried: false }, Action::Save)
                } else {
                    (Phase::Failed(Failure::DigestMismatch), Action::Finish)
                }
            },
            Event::Failed => (Phase::Failed(Failure::Download), Action::Finish),
            _ => (Phase::Failed(Failure::Protocol), Action::Finish),
        },
        Phase::Saving { retried } => match event {
            Event::Done => (Phase::Extracting, Action::Extract(extraction_kind(package, host))),
            Event::Failed => if retried {
                (Phase::Failed(Failure::Cache), Action::Finish)
            } else {
                (Phase::Saving { retried: true }, Action::Save)
            },
            _ => (Phase::Failed(Failure::Protocol), Action::Finish),
        },
        Phase::Extracting => match event {
            Event::Done => match extraction_kind(package, host) {
                ArtifactKind::Binary => (Phase::Installed, Action::Finish),
                ArtifactKind::Source => (Phase::Failed(Failure::UnbuiltSource), Action::Finish),
            },
            Event::Failed => (Phase::Failed(Failure::Extraction), Action::Finish),
            _ => (Phase::Failed(Failure::Protocol), Action::Finish),
        },
    }
}

/// How the artifact chosen for `host` is unpacked.
pub fn extraction_kind(package: &LockedPackage, host: &str) -> (r: ArtifactKind)
    ensures
        r == chosen_kind(package@.artifacts, host@),
{
    match select_artifact(package.artifacts.as_slice(), host) {
        Some(a) => archive_kind(a.filename.as_str()),
        None => ArtifactKind::Source,
    }
}

/// The event reports downloaded bytes that hash to the chosen artifact's digest.
pub open spec fn is_verified_download(
    event: EventView,
    artifacts: Seq<ArtifactView>,
    host: Seq<char>,
) -> bool {
    match event {
        EventView::Downloaded(bytes) => digest_holds(bytes, artifacts, host),
        _ => false,
    }
}

/// Bytes that do not hash to the digest of the chosen artifact end the
/// installation: nothing is stored and nothing is unpacked.
pub proof fn lemma_wrong_digest_ends(bytes: Seq<u8>, artifacts: Seq<ArtifactView>, host: Seq<char>)
    requires
        !digest_holds(bytes, artifacts, host),
    ensures
        install_next(Phase::Downloading, EventView::Downloaded(bytes), artifacts, host) == (
            Phase::Failed(Failure::DigestMismatch),
            Action::Finish,
        ),
{
}

/// Bytes are stored only once verified: the action `Save` is given on
/// downloaded bytes that hash to the digest of the chosen artifact, or to
/// repeat a `Save` that was given before.
pub proof fn lemma_save_needs_digest(
    phase: Phase,
    event: EventView,
    artifacts: Seq<ArtifactView>,
    host: Seq<char>,
)
    requires
        install_next(phase, event, artifacts, host).1 == Action::Save,
    ensures
        (phase == Phase::Downloading && is_verified_download(event, artifacts, host)) || (phase
            == (Phase::Saving { retried: false }) && event is Failed),
        install_next(phase, event, artifacts, host).0 is Saving,
{
}

/// An archive is unpacked only after it came from the cache or was
/// verified: the action `Extract` is given when a `Materialize` or a `Save`
/// is reported done, and at no other time.
pub proof fn lemma_extract_needs_staging(
    phase: Phase,
    event: EventView,
    artifacts: Seq<ArtifactView>,
    host: Seq<char>,
)
    requires
        install_next(phase, event, artifacts, host).1 is Extract,
    ensures
        (phase is Materializing || phase is Saving) && event is Done,
        install_next(phase, event, artifacts, host).0 == Phase::Extracting,
{
}

/// The phase `Saving` is entered only on verified bytes or from itself, and
/// `Materializing` only on a cache hit or from itself.
pub proof fn lemma_phase_origins(
    phase: Phase,
    event: EventView,
    artifacts: Seq<ArtifactView>,
    host: Seq<char>,
)
    ensures
        install_next(phase, event, artifacts, host).0 is Saving ==> phase is Saving || (phase
            == Phase::Downloading && is_verified_download(event, artifacts, host)),
        install_next(phase, event, artifacts, host).0 is Materializing ==> phase is Materializing
            || (phase == Phase::Probing && event is CacheHit),
        install_next(phase, event, artifacts, host).0 == Phase::Installed ==> phase
            == Phase::Installed || (phase == Phase::Extracting && event is Done),
{
}

/// The result of one package's installation.
#[derive(Debug)]
pub struct PackageResult {
    pub name: String,
    pub phase: Phase,
}

/// A package that was not installed, and why.
#[derive(Debug)]
pub struct PackageFailure {
    pub name: String,
    pub failure: Failure,
}

/// Why a synchronisation did not succeed.
#[derive(Debug)]
pub enum SyncError {
    /// Some packages were not installed. The others were.
    Partial { failures: Vec<PackageFailure> },
}

/// The failure that a phase stands for at the end of an installation: none
/// for an installed package, its own for a failed one, and for one that did
/// not end a breach of protocol.
pub open spec fn failure_of(phase: Phase) -> Option<Failure> {
    match phase {
        Phase::Installed => None,
        Phase::Failed(f) => Some(f),
        _ => Some(Failure::Protocol),
    }
}

/// The packages among `results` that were not installed, in order.
pub open spec fn failures_of(results: Seq<(Seq<char>, Phase)>) -> Seq<(Seq<char>, Failure)>
    decreases results.len(),
{
    if results.len() == 0 {
        Seq::empty()
    } else {
        let head = failures_of(results.drop_last());
        match failure_of(results.last().1) {
            Some(f) => head.push((results.last().0, f)),
            None => head,
        }
    }
}

/// Each result as plain values.
pub open spec fn result_views(items: Seq<PackageResult>) -> Seq<(Seq<char>, Phase)> {
    items.map_values(|r: PackageResult| (r.name@, r.phase))
}

/// Each failure as plain values.
pub open spec fn failure_views(items: Seq<PackageFailure>) -> Seq<(Seq<char>, Failure)> {
    items.map_values(|f: PackageFailure| (f.name@, f.failure))
}

/// Sums up a synchronisation once every installation has ended: the number
/// of packages installed where all were, and otherwise those that were not.
pub fn sync_outcome(results: &Vec<PackageResult>) -> (r: Result<usize, SyncError>)
    ensures
        match r {
            Ok(count) => failures_of(result_views(results@)).len() == 0 && count == results@.len(),
            Err(SyncError::Partial { failures }) => failure_views(failures@) == failures_of(
                result_views(results@),
            ) && failures@.len() > 0,
        },
{
    let ghost all = result_views(results@);
    let mut failures: Vec<PackageFailure> = Vec::new();
    let mut i: usize = 0;
    assert(all.take(0) =~= Seq::empty());
    assert(failure_views(failures@) =~= Seq::empty());
    while i < results.len()
        invariant
            i <= results.len(),
            all == result_views(results@),
            failure_views(failures@) == failures_of(all.take(i as int)),
        decreases results.len() - i,
    {
        proof {
            let t = all.take(i + 1);
            assert(t.drop_last() =~= all.take(i as int));
            assert(t.last() == (results@[i as int].name@, results@[i as int].phase));
        }
        let failure = match results[i].phase {
            Phase::Installed => None,
            Phase::Failed(f) => Some(f),
            _ => Some(Failure::Protocol),
        };
        match failure {
            Some(f) => {
                let ghost before = failures@;
                let entry = PackageFailure { name: results[i].name.clone(), failure: f };
                failures.push(entry);
                assert(failure_views(failures@) =~= failure_views(before).push((entry.name@, f)));
            },
            None => {},
        }
        i += 1;
    }
    assert(all.take(results.len() as int) =~= all);
    if failures.len() == 0 {
        Ok(results.len())
    } else {
        Err(SyncError::Partial { failures })
    }
}

} // verus!

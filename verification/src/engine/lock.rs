//! The lockfile: every resolved package with every artifact the index offers for it.

use vstd::prelude::*;
use crate::dependencies::package::{
    artifacts_from, artifacts_of, PackageUrlView, PypiPackageInfo, PypiPackageInfoView,
};
use crate::engine::json::{
    array_field, document_views, json_parsed, json_rendered, lemma_array_view, lemma_member_at,
    lemma_object_view, lemma_text_documents, member_views, object_field, parse_json, parsed_view,
    render_json, text_documents, text_field, text_member, texts_from_json, texts_of_json,
    texts_to_json, Json, JsonView,
};
use crate::engine::resolver::{
    find_release, keyed_by_name, DependencyGraph, GraphView, IndexCause, IndexError,
    IndexSnapshot, ResolutionNode, ResolutionNodeView, ResolveError, ResolveErrorView,
};
use crate::engine::selection::{is_platform_tag, lemma_platform_of_is_tag};
use crate::engine::sync::{is_sound_artifact, sound_artifact};
use crate::engine::strmap::{
    ascending, holds, lemma_holds_at, lemma_lookup_stored, lemma_rank_bounds, lemma_same_keys,
    lemma_stored_above, lemma_stored_ascending, lemma_stored_entries, rank, same_keys, stored,
    StrMap,
};
use crate::engine::text::{canonical, canonical_name, copy_strings, lex_lt, owned, texts};

verus! {

/// One downloadable file of a package at a version.
#[derive(Debug, Clone)]
pub struct Artifact {
    pub url: String,
    pub filename: String,
    pub sha256: String,
    pub platform: String,
}

/// An `Artifact` as plain text fields.
pub struct ArtifactView {
    pub url: Seq<char>,
    pub filename: Seq<char>,
    pub sha256: Seq<char>,
    pub platform: Seq<char>,
}

impl View for Artifact {
    type V = ArtifactView;

    open spec fn view(&self) -> ArtifactView {
        ArtifactView {
            url: self.url@,
            filename: self.filename@,
            sha256: self.sha256@,
            platform: self.platform@,
        }
    }
}

/// Each artifact of `items` as plain text fields.
pub open spec fn artifact_views(items: Seq<Artifact>) -> Seq<ArtifactView> {
    items.map_values(|a: Artifact| a@)
}

/// The lockfile entry of one package.
#[derive(Debug, Clone)]
pub struct LockedPackage {
    pub version: String,
    pub artifacts: Vec<Artifact>,
    pub dependencies: Vec<String>,
}

/// A `LockedPackage` as plain values.
pub struct LockedPackageView {
    pub version: Seq<char>,
    pub artifacts: Seq<ArtifactView>,
    pub dependencies: Seq<Seq<char>>,
}

impl View for LockedPackage {
    type V = LockedPackageView;

    open spec fn view(&self) -> LockedPackageView {
        LockedPackageView {
            version: self.version@,
            artifacts: artifact_views(self.artifacts@),
            dependencies: texts(self.dependencies@),
        }
    }
}

/// The resolved state of a project.
#[derive(Debug, Clone)]
pub struct Lockfile {
    pub name: String,
    pub version: String,
    pub python_version: String,
    pub packages: StrMap<LockedPackage>,
}

/// The packages of a lockfile as (display name, entry) pairs in key order.
pub open spec fn package_views(pairs: Seq<(Seq<char>, LockedPackage)>) -> Seq<
    (Seq<char>, LockedPackageView),
> {
    pairs.map_values(|p: (Seq<char>, LockedPackage)| (p.0, p.1@))
}

/// A `Lockfile` as plain values.
pub struct LockfileView {
    pub name: Seq<char>,
    pub version: Seq<char>,
    pub python_version: Seq<char>,
    pub packages: Seq<(Seq<char>, LockedPackageView)>,
}

impl View for Lockfile {
    type V = LockfileView;

    open spec fn view(&self) -> LockfileView {
        LockfileView {
            name: self.name@,
            version: self.version@,
            python_version: self.python_version@,
            packages: package_views(self.packages.pairs()),
        }
    }
}

impl Lockfile {
    /// A lockfile for the named project that holds no package yet.
    pub fn new(name: &str, version: &str, python_version: &str) -> (lock: Self)
        ensures
            lock@ == (LockfileView {
                name: name@,
                version: version@,
                python_version: python_version@,
                packages: Seq::empty(),
            }),
    {
        let lock = Lockfile {
            name: owned(name),
            version: owned(version),
            python_version: owned(python_version),
            packages: StrMap::new(),
        };
        assert(lock@.packages =~= Seq::empty());
        lock
    }
}

/// Reading the entries as plain values changes neither keys nor membership.
pub proof fn lemma_package_views(pairs: Seq<(Seq<char>, LockedPackage)>, key: Seq<char>)
    ensures
        same_keys(pairs, package_views(pairs)),
        ascending(package_views(pairs)) == ascending(pairs),
        holds(package_views(pairs), key) == holds(pairs, key),
{
    assert(same_keys(pairs, package_views(pairs)));
    lemma_same_keys(pairs, package_views(pairs), key);
}

/// Storing an entry and then reading the entries as plain values is storing
/// the entry's plain value.
pub proof fn lemma_package_views_stored(
    pairs: Seq<(Seq<char>, LockedPackage)>,
    key: Seq<char>,
    entry: LockedPackage,
)
    ensures
        package_views(stored(pairs, key, entry)) == stored(package_views(pairs), key, entry@),
{
    lemma_package_views(pairs, key);
    lemma_same_keys(pairs, package_views(pairs), key);
    let r = rank(pairs, key);
    let a = package_views(stored(pairs, key, entry));
    let b = stored(package_views(pairs), key, entry@);
    if !holds(pairs, key) {
        pairs.insert_ensures(r, (key, entry));
        package_views(pairs).insert_ensures(r, (key, entry@));
        assert forall|i: int| 0 <= i < a.len() implies a[i] == b[i] by {
            if i < r {
                assert(stored(pairs, key, entry)[i] == pairs[i]);
            } else if i > r {
                assert(stored(pairs, key, entry)[i] == pairs[i - 1]);
                assert(b[i] == package_views(pairs)[i - 1]);
            }
        }
    }
    assert(a =~= b);
}

/// The lockfile entry of a node, given the index's answer for the node's
/// release: the node's version and dependencies with every artifact that the
/// release offers. A release that offers none cannot be locked.
pub open spec fn locked_package(node: ResolutionNodeView, info: PypiPackageInfoView) -> Result<
    LockedPackageView,
    ResolveErrorView,
> {
    if artifacts_from(info.urls).len() == 0 {
        Err(ResolveErrorView::NoArtifacts { name: node.name, version: node.version })
    } else {
        Ok(
            LockedPackageView {
                version: node.version,
                artifacts: artifacts_from(info.urls),
                dependencies: node.dependencies,
            },
        )
    }
}

/// Assembles the lockfile entry of `node` from the index's answer `info`.
pub fn lock_package(node: &ResolutionNode, info: &PypiPackageInfo) -> (r: Result<
    LockedPackage,
    ResolveError,
>)
    ensures
        match locked_package(node@, info@) {
            Ok(p) => r matches Ok(entry) && entry@ == p,
            Err(e) => r matches Err(x) && x@ == e,
        },
{
    let artifacts = artifacts_of(&info.urls);
    if artifacts.len() == 0 {
        return Err(
            ResolveError::NoArtifacts { name: node.name.clone(), version: node.version.clone() },
        );
    }
    Ok(
        LockedPackage {
            version: node.version.clone(),
            artifacts,
            dependencies: copy_strings(&node.dependencies),
        },
    )
}

/// The lockfile entry of a node against a snapshot of the index: the entry
/// built from the release of the node's name and version, which has to be
/// there.
pub open spec fn locked_from(node: ResolutionNodeView, index: Seq<PypiPackageInfoView>) -> Result<
    LockedPackageView,
    ResolveErrorView,
> {
    let at = find_release(index, canonical(node.name), Some(node.version));
    if at < index.len() {
        locked_package(node, index[at])
    } else {
        Err(
            ResolveErrorView::Index {
                name: node.name,
                version: Some(node.version),
                cause: IndexCause::Status,
            },
        )
    }
}

/// The packages of the lockfile of a graph: each node's entry under the
/// node's display name, or the failure of the first node that cannot be locked.
pub open spec fn locked_packages(g: GraphView, index: Seq<PypiPackageInfoView>) -> Result<
    Seq<(Seq<char>, LockedPackageView)>,
    ResolveErrorView,
>
    decreases g.len(),
{
    if g.len() == 0 {
        Ok(Seq::empty())
    } else {
        match locked_packages(g.drop_last(), index) {
            Err(e) => Err(e),
            Ok(head) => match locked_from(g.last().1, index) {
                Err(e) => Err(e),
                Ok(entry) => Ok(stored(head, g.last().1.name, entry)),
            },
        }
    }
}

/// The packages of a lockfile are those of the graph it was built from: every
/// key of the lockfile is the display name of a node, every node's display
/// name is a key, and the keys ascend.
pub proof fn lemma_locked_packages_cover(g: GraphView, index: Seq<PypiPackageInfoView>)
    ensures
        locked_packages(g, index) matches Ok(packages) ==> ascending(packages) && (forall|
            i: int,
        |
            0 <= i < g.len() ==> holds(packages, (#[trigger] g[i]).1.name)) && (forall|
            name: Seq<char>,
        | #[trigger]
            holds(packages, name) ==> exists|i: int| 0 <= i < g.len() && (#[trigger] g[i]).1.name
                == name),
    decreases g.len(),
{
    if g.len() > 0 {
        let t = g.drop_last();
        lemma_locked_packages_cover(t, index);
        match locked_packages(t, index) {
            Err(e) => {},
            Ok(head) => match locked_from(g.last().1, index) {
                Err(e) => {},
                Ok(entry) => {
                    let packages = stored(head, g.last().1.name, entry);
                    lemma_stored_ascending(head, g.last().1.name, entry);
                    assert forall|i: int| 0 <= i < g.len() implies holds(
                        packages,
                        (#[trigger] g[i]).1.name,
                    ) by {
                        lemma_lookup_stored(head, g.last().1.name, entry, g[i].1.name);
                        if i < t.len() {
                            assert(t[i] == g[i]);
                        }
                    }
                    assert forall|name: Seq<char>| #[trigger] holds(packages, name) implies exists|
                        i: int,
                    |
                        0 <= i < g.len() && (#[trigger] g[i]).1.name == name by {
                        lemma_lookup_stored(head, g.last().1.name, entry, name);
                        if name == g.last().1.name {
                            assert(g[g.len() - 1].1.name == name);
                        } else {
                            let i = choose|i: int| 0 <= i < t.len() && (#[trigger] t[i]).1.name == name;
                            assert(t[i] == g[i]);
                        }
                    }
                },
            },
        }
    }
}

/// Every artifact of a release that the index lists has a digest of the form
/// of a digest and carries a tag of the closed set.
pub proof fn lemma_artifacts_sound(urls: Seq<PackageUrlView>)
    ensures
        forall|j: int|
            0 <= j < artifacts_from(urls).len() ==> is_sound_artifact(
                #[trigger] artifacts_from(urls)[j],
            ),
    decreases urls.len(),
{
    if urls.len() > 0 {
        let head = artifacts_from(urls.drop_last());
        let all = artifacts_from(urls);
        lemma_artifacts_sound(urls.drop_last());
        lemma_platform_of_is_tag(urls.last().filename);
        assert(is_platform_tag("source"@));
        assert forall|j: int| 0 <= j < all.len() implies is_sound_artifact(#[trigger] all[j]) by {
            if j < head.len() {
                assert(all[j] == head[j]);
            }
        }
    }
}

/// An entry as a lockfile is built with: at least one artifact, each with a
/// digest of 64 lower-case hexadecimal digits and a tag of the closed set.
pub open spec fn is_sound_entry(p: LockedPackageView) -> bool {
    p.artifacts.len() > 0 && forall|j: int|
        0 <= j < p.artifacts.len() ==> is_sound_artifact(#[trigger] p.artifacts[j])
}

/// Every entry of the lockfile is sound.
pub open spec fn is_sound_lockfile(l: LockfileView) -> bool {
    forall|i: int| 0 <= i < l.packages.len() ==> is_sound_entry((#[trigger] l.packages[i]).1)
}

/// Tests whether `entry` is as a lockfile is built with.
pub fn sound_entry(entry: &LockedPackage) -> (r: bool)
    ensures
        r == is_sound_entry(entry@),
{
    if entry.artifacts.len() == 0 {
        return false;
    }
    let mut j: usize = 0;
    while j < entry.artifacts.len()
        invariant
            j <= entry.artifacts.len(),
            entry@.artifacts.len() == entry.artifacts.len(),
            forall|k: int| 0 <= k < j ==> is_sound_artifact(#[trigger] entry@.artifacts[k]),
        decreases entry.artifacts.len() - j,
    {
        assert(entry@.artifacts[j as int] == entry.artifacts@[j as int]@);
        if !sound_artifact(&entry.artifacts[j]) {
            return false;
        }
        j += 1;
    }
    true
}

impl Lockfile {
    /// Tests whether the lockfile is as one that was built: whether every
    /// package has an artifact and every artifact a digest of the form of a
    /// digest and a tag of the closed set.
    pub fn is_sound(&self) -> (r: bool)
        ensures
            r == is_sound_lockfile(self@),
    {
        let mut i: usize = 0;
        while i < self.packages.len()
            invariant
                i <= self.packages.pairs().len(),
                self@.packages.len() == self.packages.pairs().len(),
                forall|k: int| 0 <= k < i ==> is_sound_entry((#[trigger] self@.packages[k]).1),
            decreases self.packages.pairs().len() - i,
        {
            assert(self@.packages[i as int].1 == self.packages.pairs()[i as int].1@);
            if !sound_entry(self.packages.value_at(i)) {
                return false;
            }
            i += 1;
        }
        true
    }
}

/// Every entry of a lockfile that was built holds at least one artifact, and
/// every artifact has a digest of the form of a digest and carries a tag of
/// the closed set.
pub proof fn lemma_locked_packages_sound(g: GraphView, index: Seq<PypiPackageInfoView>)
    ensures
        locked_packages(g, index) matches Ok(packages) ==> forall|i: int|
            0 <= i < packages.len() ==> is_sound_entry((#[trigger] packages[i]).1),
    decreases g.len(),
{
    if g.len() > 0 {
        lemma_locked_packages_sound(g.drop_last(), index);
        match locked_packages(g.drop_last(), index) {
            Err(e) => {},
            Ok(head) => match locked_from(g.last().1, index) {
                Err(e) => {},
                Ok(entry) => {
                    let packages = stored(head, g.last().1.name, entry);
                    let at = find_release(index, canonical(g.last().1.name), Some(g.last().1.version));
                    lemma_artifacts_sound(index[at].urls);
                    assert(is_sound_entry(entry));
                    assert forall|i: int| 0 <= i < packages.len() implies is_sound_entry(
                        (#[trigger] packages[i]).1,
                    ) by {
                        lemma_stored_entries(head, g.last().1.name, entry, i);
                        if packages[i] != (g.last().1.name, entry) {
                            let k = choose|k: int| 0 <= k < head.len() && head[k] == packages[i];
                            assert(is_sound_entry(head[k].1));
                        }
                    }
                },
            },
        }
    }
}

/// Some package of `packages` has the canonical name `key`.
pub open spec fn locks_key(packages: Seq<(Seq<char>, LockedPackageView)>, key: Seq<char>) -> bool {
    exists|i: int| 0 <= i < packages.len() && canonical((#[trigger] packages[i]).0) == key
}

/// The canonical names of the packages of a lockfile are the keys of the
/// graph it was built from.
pub proof fn lemma_lock_keys_are_graph_keys(
    g: GraphView,
    index: Seq<PypiPackageInfoView>,
    key: Seq<char>,
)
    requires
        ascending(g),
        keyed_by_name(g),
    ensures
        locked_packages(g, index) matches Ok(packages) ==> (locks_key(packages, key) <==> holds(
            g,
            key,
        )),
{
    lemma_locked_packages_cover(g, index);
    match locked_packages(g, index) {
        Err(e) => {},
        Ok(packages) => {
            if locks_key(packages, key) {
                let i = choose|i: int|
                    0 <= i < packages.len() && canonical((#[trigger] packages[i]).0) == key;
                lemma_holds_at(packages, i);
                let j = choose|j: int| 0 <= j < g.len() && (#[trigger] g[j]).1.name == packages[i].0;
                lemma_holds_at(g, j);
            }
            if holds(g, key) {
                let j = rank(g, key);
                lemma_rank_bounds(g, key);
                assert(g[j].0 == key);
                assert(holds(packages, g[j].1.name));
                let i = rank(packages, g[j].1.name);
                lemma_rank_bounds(packages, g[j].1.name);
                assert(canonical(packages[i].0) == key);
            }
        },
    }
}

/// The lockfile of a project whose dependencies resolved to `g`.
pub open spec fn lockfile_for(
    name: Seq<char>,
    version: Seq<char>,
    python_version: Seq<char>,
    g: GraphView,
    index: Seq<PypiPackageInfoView>,
) -> Result<LockfileView, ResolveErrorView> {
    match locked_packages(g, index) {
        Ok(packages) => Ok(LockfileView { name, version, python_version, packages }),
        Err(e) => Err(e),
    }
}

/// Builds the lockfile of a project from its resolved graph and a snapshot of
/// the index, which is asked for the release of each node.
pub fn build_lockfile(
    name: &str,
    version: &str,
    python_version: &str,
    graph: &DependencyGraph,
    index: &IndexSnapshot,
) -> (r: Result<Lockfile, ResolveError>)
    ensures
        match lockfile_for(name@, version@, python_version@, graph@, index@) {
            Ok(l) => r matches Ok(lock) && lock@ == l,
            Err(e) => r matches Err(x) && x@ == e,
        },
        r matches Ok(lock) ==> is_sound_lockfile(lock@),
{
    let mut lock = Lockfile::new(name, version, python_version);
    let ghost g = graph@;
    proof {
        lemma_locked_packages_sound(g, index@);
    }
    let mut i: usize = 0;
    assert(g.take(0) =~= Seq::empty());
    while i < graph.packages.len()
        invariant
            i <= graph.packages.pairs().len(),
            g == graph@,
            g.len() == graph.packages.pairs().len(),
            lock.name@ == name@,
            lock.version@ == version@,
            lock.python_version@ == python_version@,
            locked_packages(g.take(i as int), index@) == Ok::<
                Seq<(Seq<char>, LockedPackageView)>,
                ResolveErrorView,
            >(lock@.packages),
        decreases graph.packages.pairs().len() - i,
    {
        let node = graph.packages.value_at(i);
        proof {
            let t = g.take(i + 1);
            assert(t.drop_last() =~= g.take(i as int));
            assert(t.last() == g[i as int]);
            assert(g[i as int].1 == node@);
            lemma_later_failure(g, index@, i as int + 1);
        }
        let key = canonical_name(node.name.as_str());
        let wanted = Some(node.version.clone());
        let at = index.find(key.as_str(), &wanted);
        if at >= index.releases.len() {
            return Err(
                ResolveError::Index(
                    IndexError {
                        name: node.name.clone(),
                        version: wanted,
                        cause: IndexCause::Status,
                    },
                ),
            );
        }
        assert(index@[at as int] == index.releases@[at as int]@);
        match lock_package(node, &index.releases[at]) {
            Err(e) => {
                return Err(e);
            },
            Ok(entry) => {
                proof {
                    lemma_package_views_stored(lock.packages.pairs(), node.name@, entry);
                }
                lock.packages.insert(node.name.clone(), entry);
            },
        }
        i += 1;
    }
    assert(g.take(graph.packages.pairs().len() as int) =~= g);
    Ok(lock)
}

/// A failure while locking the first `n` nodes is the failure of locking all.
proof fn lemma_later_failure(g: GraphView, index: Seq<PypiPackageInfoView>, n: int)
    requires
        0 <= n <= g.len(),
    ensures
        locked_packages(g.take(n), index) matches Err(e) ==> locked_packages(g, index) == Err::<
            Seq<(Seq<char>, LockedPackageView)>,
            ResolveErrorView,
        >(e),
    decreases g.len() - n,
{
    if n < g.len() {
        assert(g.take(n + 1).drop_last() =~= g.take(n));
        lemma_later_failure(g, index, n + 1);
    } else {
        assert(g.take(n) =~= g);
    }
}

/// The artifact that a JSON object with the string members `url`,
/// `filename`, `sha256` and `platform` stands for.
pub open spec fn artifact_of_json(value: JsonView) -> Option<ArtifactView> {
    match (
        text_field(value, "url"@),
        text_field(value, "filename"@),
        text_field(value, "sha256"@),
        text_field(value, "platform"@),
    ) {
        (Some(url), Some(filename), Some(sha256), Some(platform)) => Some(
            ArtifactView { url, filename, sha256, platform },
        ),
        _ => None,
    }
}

/// The artifacts that a list of JSON objects stands for; nothing if one of
/// them is no artifact.
pub open spec fn artifacts_of_json(items: Seq<JsonView>) -> Option<Seq<ArtifactView>>
    decreases items.len(),
{
    if items.len() == 0 {
        Some(Seq::empty())
    } else {
        match (artifacts_of_json(items.drop_last()), artifact_of_json(items.last())) {
            (Some(head), Some(a)) => Some(head.push(a)),
            _ => None,
        }
    }
}

/// The lockfile entry that a JSON object with the members `version`,
/// `artifacts` and `dependencies` stands for.
pub open spec fn package_of_json(value: JsonView) -> Option<LockedPackageView> {
    match (
        text_field(value, "version"@),
        array_field(value, "artifacts"@),
        array_field(value, "dependencies"@),
    ) {
        (Some(version), Some(artifacts), Some(dependencies)) => match (
            artifacts_of_json(artifacts),
            texts_of_json(dependencies),
        ) {
            (Some(a), Some(d)) => Some(
                LockedPackageView { version, artifacts: a, dependencies: d },
            ),
            _ => None,
        },
        _ => None,
    }
}

/// The packages that the members of a JSON object stand for, each under its
/// member name; nothing if one of them is no lockfile entry.
pub open spec fn packages_of_json(members: Seq<(Seq<char>, JsonView)>) -> Option<
    Seq<(Seq<char>, LockedPackageView)>,
>
    decreases members.len(),
{
    if members.len() == 0 {
        Some(Seq::empty())
    } else {
        match (packages_of_json(members.drop_last()), package_of_json(members.last().1)) {
            (Some(head), Some(p)) => Some(stored(head, members.last().0, p)),
            _ => None,
        }
    }
}

/// The lockfile that a JSON document stands for: an object with the string
/// members `name`, `version` and `python_version` and the object member
/// `packages`. A document that lacks one of them stands for none.
pub open spec fn lockfile_of_json(value: JsonView) -> Option<LockfileView> {
    match (
        text_field(value, "name"@),
        text_field(value, "version"@),
        text_field(value, "python_version"@),
        object_field(value, "packages"@),
    ) {
        (Some(name), Some(version), Some(python_version), Some(members)) => match packages_of_json(
            members,
        ) {
            Some(packages) => Some(LockfileView { name, version, python_version, packages }),
            None => None,
        },
        _ => None,
    }
}

/// An artifact written as a JSON object: the string members `url`,
/// `filename`, `sha256` and `platform`, in that order.
pub open spec fn artifact_document(a: ArtifactView) -> JsonView {
    JsonView::Object(
        seq![
            ("url"@, JsonView::Text(a.url)),
            ("filename"@, JsonView::Text(a.filename)),
            ("sha256"@, JsonView::Text(a.sha256)),
            ("platform"@, JsonView::Text(a.platform)),
        ],
    )
}

/// The artifacts of an entry written as JSON objects, in their order.
pub open spec fn artifact_documents(artifacts: Seq<ArtifactView>) -> Seq<JsonView> {
    artifacts.map_values(|a: ArtifactView| artifact_document(a))
}

/// A lockfile entry written as a JSON object: the string member `version`
/// and the array members `artifacts` and `dependencies`, in that order, the
/// arrays in the order of the entry.
pub open spec fn package_document(p: LockedPackageView) -> JsonView {
    JsonView::Object(
        seq![
            ("version"@, JsonView::Text(p.version)),
            ("artifacts"@, JsonView::Array(artifact_documents(p.artifacts))),
            ("dependencies"@, JsonView::Array(text_documents(p.dependencies))),
        ],
    )
}

/// The packages of a lockfile written as the members of a JSON object, each
/// entry under its display name, in key order.
pub open spec fn package_members(packages: Seq<(Seq<char>, LockedPackageView)>) -> Seq<
    (Seq<char>, JsonView),
> {
    packages.map_values(|p: (Seq<char>, LockedPackageView)| (p.0, package_document(p.1)))
}

/// The document that a lockfile is written as: an object with the string
/// members `name`, `version` and `python_version` and the object member
/// `packages`, in that order.
pub open spec fn lockfile_document(l: LockfileView) -> JsonView {
    JsonView::Object(
        seq![
            ("name"@, JsonView::Text(l.name)),
            ("version"@, JsonView::Text(l.version)),
            ("python_version"@, JsonView::Text(l.python_version)),
            ("packages"@, JsonView::Object(package_members(l.packages))),
        ],
    )
}

/// The member names of the lockfile format differ from one another.
proof fn lemma_member_names()
    ensures
        "url"@ != "filename"@,
        "url"@ != "sha256"@,
        "url"@ != "platform"@,
        "filename"@ != "sha256"@,
        "filename"@ != "platform"@,
        "sha256"@ != "platform"@,
        "version"@ != "artifacts"@,
        "version"@ != "dependencies"@,
        "artifacts"@ != "dependencies"@,
        "name"@ != "version"@,
        "name"@ != "python_version"@,
        "name"@ != "packages"@,
        "version"@ != "python_version"@,
        "version"@ != "packages"@,
        "python_version"@ != "packages"@,
{
    reveal_strlit("url");
    reveal_strlit("filename");
    reveal_strlit("sha256");
    reveal_strlit("platform");
    reveal_strlit("version");
    reveal_strlit("artifacts");
    reveal_strlit("dependencies");
    reveal_strlit("name");
    reveal_strlit("python_version");
    reveal_strlit("packages");
    assert("url"@.len() == 3 && "filename"@.len() == 8 && "sha256"@.len() == 6);
    assert("platform"@.len() == 8 && "filename"@[0] != "platform"@[0]);
    assert("version"@.len() == 7 && "artifacts"@.len() == 9 && "dependencies"@.len() == 12);
    assert("name"@.len() == 4 && "python_version"@.len() == 14 && "packages"@.len() == 8);
}

/// An artifact that was written is read back as it was.
pub proof fn lemma_artifact_round_trip(a: ArtifactView)
    ensures
        artifact_of_json(artifact_document(a)) == Some(a),
{
    let members = artifact_document(a)->Object_0;
    lemma_member_names();
    lemma_member_at(members, 0);
    lemma_member_at(members, 1);
    lemma_member_at(members, 2);
    lemma_member_at(members, 3);
}

/// Artifacts that were written are read back as they were, in their order.
pub proof fn lemma_artifacts_round_trip(artifacts: Seq<ArtifactView>)
    ensures
        artifacts_of_json(artifact_documents(artifacts)) == Some(artifacts),
    decreases artifacts.len(),
{
    if artifacts.len() > 0 {
        lemma_artifacts_round_trip(artifacts.drop_last());
        lemma_artifact_round_trip(artifacts.last());
        assert(artifact_documents(artifacts).drop_last() =~= artifact_documents(
            artifacts.drop_last(),
        ));
        assert(artifacts.drop_last().push(artifacts.last()) =~= artifacts);
    } else {
        assert(artifact_documents(artifacts) =~= Seq::empty());
        assert(artifacts =~= Seq::empty());
    }
}

/// A lockfile entry that was written is read back as it was.
pub proof fn lemma_package_round_trip(p: LockedPackageView)
    ensures
        package_of_json(package_document(p)) == Some(p),
{
    let members = package_document(p)->Object_0;
    lemma_member_names();
    lemma_member_at(members, 0);
    lemma_member_at(members, 1);
    lemma_member_at(members, 2);
    lemma_artifacts_round_trip(p.artifacts);
    lemma_text_documents(p.dependencies);
}

/// Packages that were written in key order are read back as they were.
pub proof fn lemma_packages_round_trip(packages: Seq<(Seq<char>, LockedPackageView)>)
    requires
        ascending(packages),
    ensures
        packages_of_json(package_members(packages)) == Some(packages),
    decreases packages.len(),
{
    if packages.len() > 0 {
        let head = packages.drop_last();
        let last = packages.last();
        assert forall|a: int, b: int| 0 <= a < b < head.len() implies lex_lt(
            #[trigger] head[a].0,
            #[trigger] head[b].0,
        ) by {
            assert(head[a] == packages[a] && head[b] == packages[b]);
        }
        assert forall|k: int| 0 <= k < head.len() implies lex_lt(#[trigger] head[k].0, last.0) by {
            assert(head[k] == packages[k]);
        }
        lemma_packages_round_trip(head);
        lemma_package_round_trip(last.1);
        lemma_stored_above(head, last.0, last.1);
        assert(package_members(packages).drop_last() =~= package_members(head));
        assert(head.push(last) =~= packages);
    } else {
        assert(package_members(packages) =~= Seq::empty());
        assert(packages =~= Seq::empty());
    }
}

/// A lockfile that is written and read back is the lockfile it was:
/// reading the document that a lockfile is written as gives that lockfile,
/// with its packages in their order.
pub proof fn lemma_lockfile_round_trip(l: LockfileView)
    requires
        ascending(l.packages),
    ensures
        lockfile_of_json(lockfile_document(l)) == Some(l),
{
    let members = lockfile_document(l)->Object_0;
    lemma_member_names();
    lemma_member_at(members, 0);
    lemma_member_at(members, 1);
    lemma_member_at(members, 2);
    lemma_member_at(members, 3);
    lemma_packages_round_trip(l.packages);
}

/// Why a lockfile could not be read or written.
#[derive(Clone, Copy, Debug, PartialEq, Eq, Structural)]
pub enum LockError {
    /// The text is no JSON document.
    Syntax,
    /// The document is no lockfile; one without `python_version` is none.
    Schema,
    /// The lockfile could not be put into text.
    Unprintable,
}

/// Writes an artifact as a JSON object.
fn artifact_to_json(a: &Artifact) -> (r: Json)
    ensures
        r@ == artifact_document(a@),
{
    let mut members: Vec<(String, Json)> = Vec::new();
    members.push(text_member("url", a.url.as_str()));
    members.push(text_member("filename", a.filename.as_str()));
    members.push(text_member("sha256", a.sha256.as_str()));
    members.push(text_member("platform", a.platform.as_str()));
    proof {
        lemma_object_view(members);
        assert(member_views(members@) =~= artifact_document(a@)->Object_0);
    }
    Json::Object(members)
}

/// Reads an artifact from a JSON object.
fn artifact_from_json(value: &Json) -> (r: Option<Artifact>)
    ensures
        match r {
            Some(a) => artifact_of_json(value@) == Some(a@),
            None => artifact_of_json(value@).is_none(),
        },
{
    let url = value.text("url");
    let filename = value.text("filename");
    let sha256 = value.text("sha256");
    let platform = value.text("platform");
    match (url, filename, sha256, platform) {
        (Some(u), Some(f), Some(s), Some(p)) => Some(
            Artifact { url: u.clone(), filename: f.clone(), sha256: s.clone(), platform: p.clone() },
        ),
        _ => None,
    }
}

/// Where a prefix of a list holds a value that is no artifact, so does the list.
proof fn lemma_artifacts_failure(items: Seq<JsonView>, n: int)
    requires
        0 <= n <= items.len(),
    ensures
        artifacts_of_json(items.take(n)).is_none() ==> artifacts_of_json(items).is_none(),
    decreases items.len() - n,
{
    if n < items.len() {
        assert(items.take(n + 1).drop_last() =~= items.take(n));
        lemma_artifacts_failure(items, n + 1);
    } else {
        assert(items.take(n) =~= items);
    }
}

/// Reads a list of artifacts.
fn artifacts_from_json(items: &Vec<Json>) -> (r: Option<Vec<Artifact>>)
    ensures
        match r {
            Some(list) => artifacts_of_json(document_views(items@)) == Some(artifact_views(list@)),
            None => artifacts_of_json(document_views(items@)).is_none(),
        },
{
    let ghost all = document_views(items@);
    let mut out: Vec<Artifact> = Vec::new();
    let mut i: usize = 0;
    assert(all.take(0) =~= Seq::empty());
    assert(artifact_views(out@) =~= Seq::empty());
    while i < items.len()
        invariant
            i <= items.len(),
            all == document_views(items@),
            artifacts_of_json(all.take(i as int)) == Some(artifact_views(out@)),
        decreases items.len() - i,
    {
        proof {
            let t = all.take(i + 1);
            assert(t.drop_last() =~= all.take(i as int));
            assert(t.last() == items@[i as int]@);
            lemma_artifacts_failure(all, i as int + 1);
        }
        match artifact_from_json(&items[i]) {
            Some(a) => {
                let ghost before = out@;
                out.push(a);
                assert(artifact_views(out@) =~= artifact_views(before).push(a@));
            },
            None => {
                return None;
            },
        }
        i += 1;
    }
    assert(all.take(items.len() as int) =~= all);
    Some(out)
}

/// Writes a list of artifacts.
fn artifacts_to_json(list: &Vec<Artifact>) -> (r: Vec<Json>)
    ensures
        document_views(r@) == artifact_documents(artifact_views(list@)),
{
    let mut out: Vec<Json> = Vec::new();
    let mut i: usize = 0;
    assert(document_views(out@) =~= artifact_documents(artifact_views(list@).take(0)));
    while i < list.len()
        invariant
            i <= list.len(),
            document_views(out@) == artifact_documents(artifact_views(list@).take(i as int)),
        decreases list.len() - i,
    {
        let ghost before = out@;
        let item = artifact_to_json(&list[i]);
        out.push(item);
        proof {
            assert(artifact_views(list@).take(i + 1) =~= artifact_views(list@).take(
                i as int,
            ).push(list@[i as int]@));
            assert(document_views(out@) =~= document_views(before).push(item@));
            assert(artifact_documents(artifact_views(list@).take(i + 1)) =~= artifact_documents(
                artifact_views(list@).take(i as int),
            ).push(artifact_document(list@[i as int]@)));
        }
        i += 1;
    }
    assert(artifact_views(list@).take(list.len() as int) =~= artifact_views(list@));
    out
}

/// Writes a lockfile entry as a JSON object.
fn package_to_json(p: &LockedPackage) -> (r: Json)
    ensures
        r@ == package_document(p@),
{
    let mut members: Vec<(String, Json)> = Vec::new();
    members.push(text_member("version", p.version.as_str()));
    let artifacts = artifacts_to_json(&p.artifacts);
    let dependencies = texts_to_json(&p.dependencies);
    proof {
        lemma_array_view(artifacts);
        lemma_array_view(dependencies);
    }
    members.push((owned("artifacts"), Json::Array(artifacts)));
    members.push((owned("dependencies"), Json::Array(dependencies)));
    proof {
        lemma_object_view(members);
        assert(member_views(members@) =~= package_document(p@)->Object_0);
    }
    Json::Object(members)
}

/// Reads a lockfile entry from a JSON object.
fn package_from_json(value: &Json) -> (r: Option<LockedPackage>)
    ensures
        match r {
            Some(p) => package_of_json(value@) == Some(p@),
            None => package_of_json(value@).is_none(),
        },
{
    let version = value.text("version");
    let artifacts = value.array("artifacts");
    let dependencies = value.array("dependencies");
    match (version, artifacts, dependencies) {
        (Some(v), Some(a), Some(d)) => {
            match (artifacts_from_json(a), texts_from_json(d)) {
                (Some(artifacts), Some(dependencies)) => Some(
                    LockedPackage { version: v.clone(), artifacts, dependencies },
                ),
                _ => None,
            }
        },
        _ => None,
    }
}

/// Where a prefix of the members holds a value that is no entry, so do the members.
proof fn lemma_packages_failure(members: Seq<(Seq<char>, JsonView)>, n: int)
    requires
        0 <= n <= members.len(),
    ensures
        packages_of_json(members.take(n)).is_none() ==> packages_of_json(members).is_none(),
    decreases members.len() - n,
{
    if n < members.len() {
        assert(members.take(n + 1).drop_last() =~= members.take(n));
        lemma_packages_failure(members, n + 1);
    } else {
        assert(members.take(n) =~= members);
    }
}

/// Reads the packages of a lockfile from the members of a JSON object.
fn packages_from_json(members: &Vec<(String, Json)>) -> (r: Option<StrMap<LockedPackage>>)
    ensures
        match r {
            Some(map) => packages_of_json(member_views(members@)) == Some(
                package_views(map.pairs()),
            ),
            None => packages_of_json(member_views(members@)).is_none(),
        },
{
    let ghost all = member_views(members@);
    let mut out: StrMap<LockedPackage> = StrMap::new();
    let mut i: usize = 0;
    assert(all.take(0) =~= Seq::empty());
    assert(package_views(out.pairs()) =~= Seq::empty());
    while i < members.len()
        invariant
            i <= members.len(),
            all == member_views(members@),
            packages_of_json(all.take(i as int)) == Some(package_views(out.pairs())),
        decreases members.len() - i,
    {
        proof {
            let t = all.take(i + 1);
            assert(t.drop_last() =~= all.take(i as int));
            assert(t.last() == (members@[i as int].0@, members@[i as int].1@));
            lemma_packages_failure(all, i as int + 1);
        }
        match package_from_json(&members[i].1) {
            Some(p) => {
                proof {
                    lemma_package_views_stored(out.pairs(), members@[i as int].0@, p);
                }
                out.insert(members[i].0.clone(), p);
            },
            None => {
                return None;
            },
        }
        i += 1;
    }
    assert(all.take(members.len() as int) =~= all);
    Some(out)
}

/// Writes the packages of a lockfile as the members of a JSON object, in key order.
fn packages_to_json(map: &StrMap<LockedPackage>) -> (r: Vec<(String, Json)>)
    ensures
        member_views(r@) == package_members(package_views(map.pairs())),
{
    let ghost all = package_views(map.pairs());
    let mut out: Vec<(String, Json)> = Vec::new();
    let mut i: usize = 0;
    assert(member_views(out@) =~= package_members(all.take(0)));
    while i < map.len()
        invariant
            i <= map.pairs().len(),
            all == package_views(map.pairs()),
            member_views(out@) == package_members(all.take(i as int)),
        decreases map.pairs().len() - i,
    {
        let ghost before = out@;
        let key = map.key_at(i).clone();
        let entry = package_to_json(map.value_at(i));
        out.push((key, entry));
        proof {
            assert(all[i as int] == (map.pairs()[i as int].0, map.pairs()[i as int].1@));
            assert(member_views(out@) =~= member_views(before).push((key@, entry@)));
            assert(package_members(all.take(i + 1)) =~= package_members(all.take(i as int)).push(
                (all[i as int].0, package_document(all[i as int].1)),
            ));
        }
        i += 1;
    }
    assert(all.take(map.pairs().len() as int) =~= all);
    out
}

/// The lockfile that a parsed text stands for.
pub open spec fn lockfile_of_document(parsed: Option<JsonView>) -> Result<LockfileView, LockError> {
    match parsed {
        None => Err(LockError::Syntax),
        Some(doc) => match lockfile_of_json(doc) {
            Some(l) => Ok(l),
            None => Err(LockError::Schema),
        },
    }
}

impl Lockfile {
    /// Writes the lockfile as a JSON document: the document
    /// `lockfile_document`, member for member. Reading the document back
    /// gives this lockfile.
    pub fn to_json(&self) -> (r: Json)
        ensures
            r@ == lockfile_document(self@),
            lockfile_of_json(r@) == Some(self@),
    {
        let mut members: Vec<(String, Json)> = Vec::new();
        members.push(text_member("name", self.name.as_str()));
        members.push(text_member("version", self.version.as_str()));
        members.push(text_member("python_version", self.python_version.as_str()));
        let entries = packages_to_json(&self.packages);
        proof {
            lemma_object_view(entries);
        }
        members.push((owned("packages"), Json::Object(entries)));
        proof {
            lemma_object_view(members);
            assert(member_views(members@) =~= lockfile_document(self@)->Object_0);
            use_type_invariant(&self.packages);
            lemma_package_views(self.packages.pairs(), Seq::empty());
            lemma_lockfile_round_trip(self@);
        }
        Json::Object(members)
    }

    /// Reads a lockfile from a JSON document.
    pub fn from_json(value: &Json) -> (r: Result<Lockfile, LockError>)
        ensures
            match lockfile_of_json(value@) {
                Some(l) => r matches Ok(lock) && lock@ == l,
                None => r matches Err(e) && e == LockError::Schema,
            },
    {
        let name = value.text("name");
        let version = value.text("version");
        let python_version = value.text("python_version");
        let members = value.object("packages");
        match (name, version, python_version, members) {
            (Some(n), Some(v), Some(p), Some(m)) => {
                match packages_from_json(m) {
                    Some(packages) => Ok(
                        Lockfile {
                            name: n.clone(),
                            version: v.clone(),
                            python_version: p.clone(),
                            packages,
                        },
                    ),
                    None => Err(LockError::Schema),
                }
            },
            _ => Err(LockError::Schema),
        }
    }

    /// Reads a lockfile from what parsing the text of a lockfile file gave.
    pub fn from_document(parsed: Option<Json>) -> (r: Result<Lockfile, LockError>)
        ensures
            match lockfile_of_document(parsed_view(parsed)) {
                Ok(l) => r matches Ok(lock) && lock@ == l,
                Err(e) => r matches Err(x) && x == e,
            },
    {
        match parsed {
            None => Err(LockError::Syntax),
            Some(doc) => Self::from_json(&doc),
        }
    }

    /// The text of the lockfile file: the rendering of the document that
    /// the lockfile is written as. Equal lockfiles give the same text.
    pub fn write(&self) -> (r: Result<String, LockError>)
        ensures
            match r {
                Ok(text) => json_rendered(lockfile_document(self@)) == Some(text@),
                Err(e) => e == LockError::Unprintable && json_rendered(
                    lockfile_document(self@),
                ).is_none(),
            },
    {
        let doc = self.to_json();
        match render_json(&doc) {
            Some(text) => Ok(text),
            None => Err(LockError::Unprintable),
        }
    }

    /// Reads a lockfile from the text of a lockfile file.
    pub fn read(content: &str) -> (r: Result<Lockfile, LockError>)
        ensures
            match lockfile_of_document(json_parsed(content@)) {
                Ok(l) => r matches Ok(lock) && lock@ == l,
                Err(e) => r matches Err(x) && x == e,
            },
    {
        Self::from_document(parse_json(content))
    }
}

} // verus!

//! The dependency resolver: a breadth-first walk over requirement strings in
//! which the first version seen for a package stays and later constraints on
//! it are only checked.
//!
//! The walk is a state machine. `step` is its transition against a snapshot of
//! the index; `Resolver::poll` and `Resolver::supply` are the same transition
//! cut in two, for a caller that fetches releases itself.

use vstd::prelude::*;
use std::collections::VecDeque;
use std::str::FromStr;
use crate::dependencies::package::{
    artifacts_from, artifacts_of, requirements_of, PypiPackageInfo, PypiPackageInfoView,
};
use crate::engine::marker::{
    applies, constraint_view, requirement_parts, should_include_requirement, split_requirement,
    MarkerEnv, MarkerEnvView,
};
use crate::engine::strmap::{
    ascending, holds, lemma_lookup_stored, lemma_rank_bounds, lemma_same_keys,
    lemma_stored_ascending, lookup, rank, same_keys, stored, StrMap,
};
use crate::engine::text::{
    canonical, canonical_name, chars_of, is_space, lemma_lex_total, lemma_lex_transitive, less,
    lex_lt, same_text, space, string_of, texts, trim, trimmed,
};

verus! {

/// One package of the resolved graph.
#[derive(Debug, Clone)]
pub struct ResolutionNode {
    pub name: String,
    pub version: String,
    pub dependencies: Vec<String>,
}

/// A `ResolutionNode` as plain values: the display name, the chosen version
/// and the canonical names of the direct dependencies.
pub struct ResolutionNodeView {
    pub name: Seq<char>,
    pub version: Seq<char>,
    pub dependencies: Seq<Seq<char>>,
}

impl View for ResolutionNode {
    type V = ResolutionNodeView;

    open spec fn view(&self) -> ResolutionNodeView {
        ResolutionNodeView {
            name: self.name@,
            version: self.version@,
            dependencies: texts(self.dependencies@),
        }
    }
}

/// The resolved graph as (canonical name, node) pairs in key order.
pub type GraphView = Seq<(Seq<char>, ResolutionNodeView)>;

/// The nodes of stored pairs as plain values.
pub open spec fn node_views(pairs: Seq<(Seq<char>, ResolutionNode)>) -> GraphView {
    pairs.map_values(|p: (Seq<char>, ResolutionNode)| (p.0, p.1@))
}

/// The resolved packages, keyed by canonical name.
#[derive(Debug)]
pub struct DependencyGraph {
    pub packages: StrMap<ResolutionNode>,
}

impl View for DependencyGraph {
    type V = GraphView;

    open spec fn view(&self) -> GraphView {
        node_views(self.packages.pairs())
    }
}

/// What went wrong between the resolver and the index.
#[derive(Clone, Copy, Debug, PartialEq, Eq, Structural)]
pub enum IndexCause {
    Network,
    Status,
    Parse,
    Timeout,
}

/// A failed lookup in the index.
#[derive(Debug)]
pub struct IndexError {
    pub name: String,
    pub version: Option<String>,
    pub cause: IndexCause,
}

/// Why a resolution stopped.
#[derive(Debug)]
pub enum ResolveError {
    /// A constraint met a version chosen earlier that does not satisfy it.
    Conflict { name: String, chosen: String, new_constraint: String },
    /// The release has no file that could be installed.
    NoArtifacts { name: String, version: String },
    /// The index gave no usable answer.
    Index(IndexError),
}

/// A `ResolveError` as plain values.
#[allow(inconsistent_fields)]
pub enum ResolveErrorView {
    Conflict { name: Seq<char>, chosen: Seq<char>, new_constraint: Seq<char> },
    NoArtifacts { name: Seq<char>, version: Seq<char> },
    Index { name: Seq<char>, version: Option<Seq<char>>, cause: IndexCause },
}

impl View for ResolveError {
    type V = ResolveErrorView;

    open spec fn view(&self) -> ResolveErrorView {
        match self {
            ResolveError::Conflict { name, chosen, new_constraint } => ResolveErrorView::Conflict {
                name: name@,
                chosen: chosen@,
                new_constraint: new_constraint@,
            },
            ResolveError::NoArtifacts { name, version } => ResolveErrorView::NoArtifacts {
                name: name@,
                version: version@,
            },
            ResolveError::Index(e) => ResolveErrorView::Index {
                name: e.name@,
                version: constraint_view(e.version),
                cause: e.cause,
            },
        }
    }
}

/// What `pep440_rs` decides about a version under a constraint: whether the
/// specifiers contain the version, or nothing where either does not parse.
pub uninterp spec fn constraint_verdict(constraint: Seq<char>, version: Seq<char>) -> Option<bool>;

/// Checks `version` against `constraint` with
/// `pep440_rs::VersionSpecifiers::contains`.
#[verifier::external_body]
fn check_constraint(constraint: &str, version: &str) -> (r: Option<bool>)
    ensures
        r == constraint_verdict(constraint@, version@),
{
    let specifiers = pep508_rs::pep440_rs::VersionSpecifiers::from_str(constraint).ok()?;
    let parsed = pep508_rs::pep440_rs::Version::from_str(version).ok()?;
    Some(specifiers.contains(&parsed))
}

/// A constraint is supplied and the version provably fails it.
pub open spec fn conflicts(constraint: Option<Seq<char>>, version: Seq<char>) -> bool {
    constraint matches Some(c) && constraint_verdict(c, version) == Some(false)
}

/// Decides from the verdict of the constraint check whether there is a conflict.
pub fn conflict_on_verdict(verdict: Option<bool>) -> (r: bool)
    ensures
        r == (verdict == Some(false)),
{
    match verdict {
        Some(contained) => !contained,
        None => false,
    }
}

/// Tests whether a supplied constraint rules out `version`.
pub fn is_conflict(constraint: &Option<String>, version: &str) -> (r: bool)
    ensures
        r == conflicts(constraint_view(*constraint), version@),
{
    match constraint {
        Some(c) => conflict_on_verdict(check_constraint(c.as_str(), version)),
        None => false,
    }
}

/// A character that can stand in a bare version.
pub open spec fn is_plain(c: char) -> bool {
    !is_space(c) && c != ',' && c != '*' && c != '<' && c != '>' && c != '!' && c != '~' && c
        != '=' && c != ';' && c != '(' && c != ')'
}

/// `s` without its leading `=` signs.
pub open spec fn after_equals(s: Seq<char>) -> Seq<char>
    decreases s.len(),
{
    if s.len() > 0 && s[0] == '=' {
        after_equals(s.drop_first())
    } else {
        s
    }
}

/// The one version that a constraint pins: the constraint is a bare version,
/// or one behind `=` signs, and holds no other operator, list or wildcard.
pub open spec fn pinned_version(constraint: Seq<char>) -> Option<Seq<char>> {
    let body = trimmed(after_equals(trimmed(constraint)));
    if body.len() > 0 && (forall|i: int| 0 <= i < body.len() ==> is_plain(#[trigger] body[i])) {
        Some(body)
    } else {
        None
    }
}

/// The version to ask the index for: the pinned one, if a constraint is
/// supplied and pins one.
pub open spec fn wanted_version(constraint: Option<Seq<char>>) -> Option<Seq<char>> {
    match constraint {
        Some(c) => pinned_version(c),
        None => None,
    }
}

/// Tests whether `c` can stand in a bare version.
fn plain(c: char) -> (r: bool)
    ensures
        r == is_plain(c),
{
    !space(c) && c != ',' && c != '*' && c != '<' && c != '>' && c != '!' && c != '~' && c != '='
        && c != ';' && c != '(' && c != ')'
}

/// The version that `constraint` pins, if it pins one.
pub fn pinned(constraint: &str) -> (r: Option<String>)
    ensures
        constraint_view(r) == pinned_version(constraint@),
{
    let outer = trim(&chars_of(constraint));
    let mut start: usize = 0;
    assert(outer@.skip(0) == outer@);
    while start < outer.len() && outer[start] == '='
        invariant
            start <= outer.len(),
            after_equals(outer@) == after_equals(outer@.skip(start as int)),
        decreases outer.len() - start,
    {
        proof {
            assert(outer@.skip(start as int).drop_first() == outer@.skip(start + 1));
        }
        start += 1;
    }
    let mut rest: Vec<char> = Vec::new();
    let mut i: usize = start;
    while i < outer.len()
        invariant
            start <= i <= outer.len(),
            rest@ == outer@.subrange(start as int, i as int),
        decreases outer.len() - i,
    {
        rest.push(outer[i]);
        i += 1;
    }
    assert(outer@.subrange(start as int, outer.len() as int) == outer@.skip(start as int));
    let body = trim(&rest);
    if body.len() == 0 {
        return None;
    }
    let mut k: usize = 0;
    while k < body.len()
        invariant
            k <= body.len(),
            body@ == trimmed(after_equals(trimmed(constraint@))),
            forall|j: int| 0 <= j < k ==> is_plain(#[trigger] body@[j]),
        decreases body.len() - k,
    {
        if !plain(body[k]) {
            return None;
        }
        k += 1;
    }
    Some(string_of(&body))
}

/// The canonical names of historical packages that have since become part of
/// the interpreter. They are never resolved.
pub open spec fn is_blocked(key: Seq<char>) -> bool {
    key == "argparse"@ || key == "asyncio"@ || key == "importlib"@ || key == "pathlib"@ || key
        == "typing"@ || key == "wsgiref"@
}

/// A canonical name that the resolver passes over: the empty name and the
/// blocked ones.
pub open spec fn skipped(key: Seq<char>) -> bool {
    key.len() == 0 || is_blocked(key)
}

/// Tests whether the resolver passes over the canonical name `key`.
pub fn is_skipped(key: &str) -> (r: bool)
    ensures
        r == skipped(key@),
{
    if same_text(key, "") {
        proof {
            reveal_strlit("");
        }
        return true;
    }
    proof {
        reveal_strlit("");
        assert(key@.len() != 0) by {
            if key@.len() == 0 {
                assert(key@ =~= ""@);
            }
        }
    }
    same_text(key, "argparse") || same_text(key, "asyncio") || same_text(key, "importlib")
        || same_text(key, "pathlib") || same_text(key, "typing") || same_text(key, "wsgiref")
}

/// A package waiting to be resolved: its name as written and the constraint
/// that came with it.
#[derive(Debug)]
pub struct WorkItem {
    pub name: String,
    pub constraint: Option<String>,
}

/// A `WorkItem` as plain values.
pub type ItemView = (Seq<char>, Option<Seq<char>>);

impl View for WorkItem {
    type V = ItemView;

    open spec fn view(&self) -> ItemView {
        (self.name@, constraint_view(self.constraint))
    }
}

/// Each work item of `items` as plain values.
pub open spec fn item_views(items: Seq<WorkItem>) -> Seq<ItemView> {
    items.map_values(|w: WorkItem| w@)
}

/// The canonical names of the packages that `items` name.
pub open spec fn item_keys(items: Seq<ItemView>) -> Seq<Seq<char>> {
    items.map_values(|p: ItemView| canonical(p.0))
}

/// The work that the requirement strings of a release add: one item for each
/// requirement that applies in `env`, unless it names the release itself or a
/// name that is passed over.
pub open spec fn sub_items(
    requirements: Seq<Seq<char>>,
    env: MarkerEnvView,
    own_key: Seq<char>,
) -> Seq<ItemView>
    decreases requirements.len(),
{
    if requirements.len() == 0 {
        Seq::empty()
    } else {
        let head = sub_items(requirements.drop_last(), env, own_key);
        let parts = requirement_parts(requirements.last());
        if !applies(requirements.last(), env) || skipped(canonical(parts.0)) || canonical(parts.0)
            == own_key {
            head
        } else {
            head.push(parts)
        }
    }
}

/// Every item of `sub_items` names a package that is not passed over.
pub proof fn lemma_sub_items_admissible(
    requirements: Seq<Seq<char>>,
    env: MarkerEnvView,
    own_key: Seq<char>,
)
    ensures
        forall|i: int|
            0 <= i < sub_items(requirements, env, own_key).len() ==> !skipped(
                canonical((#[trigger] sub_items(requirements, env, own_key)[i]).0),
            ),
    decreases requirements.len(),
{
    if requirements.len() > 0 {
        let head = sub_items(requirements.drop_last(), env, own_key);
        let all = sub_items(requirements, env, own_key);
        lemma_sub_items_admissible(requirements.drop_last(), env, own_key);
        assert forall|i: int| 0 <= i < all.len() implies !skipped(canonical((#[trigger] all[i]).0)) by {
            if i < head.len() {
                assert(all[i] == head[i]);
            }
        }
    }
}

/// The state of a resolution: what is resolved and what waits.
pub struct ResolverView {
    pub resolved: GraphView,
    pub queue: Seq<ItemView>,
}

/// What the item at the head of the queue asks for.
pub enum HeadView {
    /// Nothing: it is passed over, or resolved already and compatible.
    Skip,
    /// It is resolved already and its constraint rules the chosen version out.
    Conflict { name: Seq<char>, chosen: Seq<char>, new_constraint: Seq<char> },
    /// A release has to be fetched: that version, or else the newest.
    Fetch { name: Seq<char>, version: Option<Seq<char>> },
}

/// What the head of a non-empty queue asks for.
pub open spec fn head_of(s: ResolverView) -> HeadView {
    let name = s.queue[0].0;
    let constraint = s.queue[0].1;
    let key = canonical(name);
    if skipped(key) {
        HeadView::Skip
    } else if holds(s.resolved, key) {
        let chosen = lookup(s.resolved, key).unwrap().version;
        if conflicts(constraint, chosen) {
            HeadView::Conflict { name, chosen, new_constraint: constraint.unwrap() }
        } else {
            HeadView::Skip
        }
    } else {
        HeadView::Fetch { name, version: wanted_version(constraint) }
    }
}

/// The state without the head of its queue.
pub open spec fn popped(s: ResolverView) -> ResolverView {
    ResolverView { resolved: s.resolved, queue: s.queue.skip(1) }
}

/// The result of one transition.
pub enum Outcome {
    Advanced(ResolverView),
    Failed(ResolveErrorView),
}

/// The node that a fetched release becomes under the key `key`.
pub open spec fn node_for(
    info: PypiPackageInfoView,
    env: MarkerEnvView,
    key: Seq<char>,
) -> ResolutionNodeView {
    ResolutionNodeView {
        name: info.info.name,
        version: info.info.version,
        dependencies: item_keys(sub_items(requirements_of(info.info), env, key)),
    }
}

/// The transition on a fetched release, where the head of the queue asked for one.
///
/// The release has to be of the package asked for, offer an artifact and
/// satisfy the constraint that came with the request. It then becomes a node,
/// and its applicable requirements join the queue.
pub open spec fn accepted(
    s: ResolverView,
    info: PypiPackageInfoView,
    env: MarkerEnvView,
) -> Outcome {
    let name = s.queue[0].0;
    let constraint = s.queue[0].1;
    let key = canonical(name);
    if canonical(info.info.name) != key {
        Outcome::Failed(
            ResolveErrorView::Index {
                name,
                version: wanted_version(constraint),
                cause: IndexCause::Parse,
            },
        )
    } else if artifacts_from(info.urls).len() == 0 {
        Outcome::Failed(
            ResolveErrorView::NoArtifacts { name: info.info.name, version: info.info.version },
        )
    } else if conflicts(constraint, info.info.version) {
        Outcome::Failed(
            ResolveErrorView::Conflict {
                name,
                chosen: info.info.version,
                new_constraint: constraint.unwrap(),
            },
        )
    } else {
        Outcome::Advanced(
            ResolverView {
                resolved: stored(s.resolved, key, node_for(info, env, key)),
                queue: s.queue.skip(1) + sub_items(requirements_of(info.info), env, key),
            },
        )
    }
}

/// The position of the release that a snapshot of the index answers a request
/// with: the first release of the package, of that version if one is asked
/// for; `index.len()` if there is none.
pub open spec fn find_release(
    index: Seq<PypiPackageInfoView>,
    key: Seq<char>,
    version: Option<Seq<char>>,
) -> int
    decreases index.len(),
{
    if index.len() == 0 {
        0
    } else {
        let before = find_release(index.drop_last(), key, version);
        if before < index.len() - 1 {
            before
        } else if answers(index.last(), key, version) {
            index.len() - 1
        } else {
            index.len() as int
        }
    }
}

/// The release is one of the package `key`, and of `version` if one is asked for.
pub open spec fn answers(
    info: PypiPackageInfoView,
    key: Seq<char>,
    version: Option<Seq<char>>,
) -> bool {
    canonical(info.info.name) == key && (version matches Some(v) ==> info.info.version == v)
}

/// `find_release` is the least position whose release answers the request.
pub proof fn lemma_find_release(
    index: Seq<PypiPackageInfoView>,
    key: Seq<char>,
    version: Option<Seq<char>>,
)
    ensures
        0 <= find_release(index, key, version) <= index.len(),
        forall|k: int|
            0 <= k < find_release(index, key, version) ==> !answers(
                #[trigger] index[k],
                key,
                version,
            ),
        find_release(index, key, version) < index.len() ==> answers(
            index[find_release(index, key, version)],
            key,
            version,
        ),
    decreases index.len(),
{
    if index.len() > 0 {
        let t = index.drop_last();
        lemma_find_release(t, key, version);
        assert forall|k: int| 0 <= k < find_release(index, key, version) implies !answers(
            #[trigger] index[k],
            key,
            version,
        ) by {
            if k < t.len() {
                assert(t[k] == index[k]);
            }
        }
        if find_release(t, key, version) < t.len() {
            assert(t[find_release(t, key, version)] == index[find_release(t, key, version)]);
        }
    }
}

/// One transition against a snapshot of the index. A state with nothing in
/// its queue stays as it is.
pub open spec fn step(
    s: ResolverView,
    index: Seq<PypiPackageInfoView>,
    env: MarkerEnvView,
) -> Outcome {
    if s.queue.len() == 0 {
        Outcome::Advanced(s)
    } else {
        transition(s, index, env)
    }
}

/// One transition against a snapshot of the index, from a state whose queue
/// is not empty.
pub open spec fn transition(
    s: ResolverView,
    index: Seq<PypiPackageInfoView>,
    env: MarkerEnvView,
) -> Outcome {
    match head_of(s) {
        HeadView::Skip => Outcome::Advanced(popped(s)),
        HeadView::Conflict { name, chosen, new_constraint } => Outcome::Failed(
            ResolveErrorView::Conflict { name, chosen, new_constraint },
        ),
        HeadView::Fetch { name, version } => {
            let at = find_release(index, canonical(name), version);
            if at < index.len() {
                accepted(s, index[at], env)
            } else {
                Outcome::Failed(
                    ResolveErrorView::Index { name, version, cause: IndexCause::Status },
                )
            }
        },
    }
}

/// How many releases of the snapshot belong to packages not yet resolved.
pub open spec fn fresh(index: Seq<PypiPackageInfoView>, resolved: GraphView) -> nat
    decreases index.len(),
{
    if index.len() == 0 {
        0
    } else {
        let rest = fresh(index.drop_last(), resolved);
        if holds(resolved, canonical(index.last().info.name)) {
            rest
        } else {
            rest + 1
        }
    }
}

/// Resolving one more package leaves no more releases fresh than before.
proof fn lemma_fresh_monotone(
    index: Seq<PypiPackageInfoView>,
    resolved: GraphView,
    key: Seq<char>,
    node: ResolutionNodeView,
)
    requires
        ascending(resolved),
    ensures
        fresh(index, stored(resolved, key, node)) <= fresh(index, resolved),
    decreases index.len(),
{
    if index.len() > 0 {
        lemma_fresh_monotone(index.drop_last(), resolved, key, node);
        lemma_lookup_stored(resolved, key, node, canonical(index.last().info.name));
    }
}

/// Resolving a package that the snapshot holds a release of leaves fewer
/// releases fresh.
proof fn lemma_fresh_shrinks(
    index: Seq<PypiPackageInfoView>,
    resolved: GraphView,
    key: Seq<char>,
    node: ResolutionNodeView,
    at: int,
)
    requires
        ascending(resolved),
        !holds(resolved, key),
        0 <= at < index.len(),
        canonical(index[at].info.name) == key,
    ensures
        fresh(index, stored(resolved, key, node)) < fresh(index, resolved),
    decreases index.len(),
{
    let rest = index.drop_last();
    lemma_lookup_stored(resolved, key, node, canonical(index.last().info.name));
    if at == index.len() - 1 {
        lemma_fresh_monotone(rest, resolved, key, node);
    } else {
        assert(rest[at] == index[at]);
        lemma_fresh_shrinks(rest, resolved, key, node, at);
    }
}

/// Every transition that advances keeps the keys ascending and lowers the
/// measure that `run` descends on.
pub proof fn lemma_step_descends(
    s: ResolverView,
    index: Seq<PypiPackageInfoView>,
    env: MarkerEnvView,
)
    requires
        ascending(s.resolved),
        s.queue.len() > 0,
        step(s, index, env) is Advanced,
    ensures
        ascending(step(s, index, env)->Advanced_0.resolved),
        fresh(index, step(s, index, env)->Advanced_0.resolved) < fresh(index, s.resolved) || (fresh(
            index,
            step(s, index, env)->Advanced_0.resolved,
        ) == fresh(index, s.resolved) && step(s, index, env)->Advanced_0.queue.len()
            < s.queue.len()),
{
    match head_of(s) {
        HeadView::Fetch { name, version } => {
            let key = canonical(name);
            let at = find_release(index, key, version);
            lemma_find_release(index, key, version);
            let node = node_for(index[at], env, key);
            lemma_stored_ascending(s.resolved, key, node);
            lemma_fresh_shrinks(index, s.resolved, key, node, at);
        },
        _ => {},
    }
}

/// The graph that the transitions lead to from `s`, or the failure they stop at.
pub open spec fn run(
    s: ResolverView,
    index: Seq<PypiPackageInfoView>,
    env: MarkerEnvView,
) -> Result<
    GraphView,
    ResolveErrorView,
>
    decreases fresh(index, s.resolved), s.queue.len(),
    when ascending(s.resolved)
{
    if s.queue.len() == 0 {
        Ok(s.resolved)
    } else {
        match step(s, index, env) {
            Outcome::Failed(e) => Err(e),
            Outcome::Advanced(t) => {
                proof {
                    lemma_step_descends(s, index, env);
                }
                run(t, index, env)
            },
        }
    }
}

/// Reading the nodes as plain values changes neither keys nor membership.
pub proof fn lemma_node_views(pairs: Seq<(Seq<char>, ResolutionNode)>, key: Seq<char>)
    ensures
        same_keys(pairs, node_views(pairs)),
        ascending(node_views(pairs)) == ascending(pairs),
        holds(node_views(pairs), key) == holds(pairs, key),
        holds(pairs, key) ==> lookup(node_views(pairs), key) == Some(
            lookup(pairs, key).unwrap()@,
        ),
{
    assert(same_keys(pairs, node_views(pairs)));
    lemma_same_keys(pairs, node_views(pairs), key);
}

/// Storing a node and then reading the nodes as plain values is storing the
/// node's plain value.
pub proof fn lemma_node_views_stored(
    pairs: Seq<(Seq<char>, ResolutionNode)>,
    key: Seq<char>,
    node: ResolutionNode,
)
    ensures
        node_views(stored(pairs, key, node)) == stored(node_views(pairs), key, node@),
{
    lemma_node_views(pairs, key);
    lemma_same_keys(pairs, node_views(pairs), key);
    let r = rank(pairs, key);
    let a = node_views(stored(pairs, key, node));
    let b = stored(node_views(pairs), key, node@);
    if !holds(pairs, key) {
        pairs.insert_ensures(r, (key, node));
        node_views(pairs).insert_ensures(r, (key, node@));
        assert(a.len() == b.len());
        assert forall|i: int| 0 <= i < a.len() implies a[i] == b[i] by {
            if i < r {
                assert(stored(pairs, key, node)[i] == pairs[i]);
            } else if i > r {
                assert(stored(pairs, key, node)[i] == pairs[i - 1]);
                assert(b[i] == node_views(pairs)[i - 1]);
            }
        }
    }
    assert(a =~= b);
}

/// A snapshot of the package index: the releases it would answer with, the
/// newest release of a package before its older ones.
#[derive(Debug)]
pub struct IndexSnapshot {
    pub releases: Vec<PypiPackageInfo>,
}

/// Each release of `items` as plain values.
pub open spec fn release_views(items: Seq<PypiPackageInfo>) -> Seq<PypiPackageInfoView> {
    items.map_values(|r: PypiPackageInfo| r@)
}

impl View for IndexSnapshot {
    type V = Seq<PypiPackageInfoView>;

    open spec fn view(&self) -> Seq<PypiPackageInfoView> {
        release_views(self.releases@)
    }
}

impl IndexSnapshot {
    /// The position of the release that answers a request for the package
    /// with canonical name `key`, or the number of releases if none does.
    pub fn find(&self, key: &str, version: &Option<String>) -> (at: usize)
        ensures
            at == find_release(self@, key@, constraint_view(*version)),
            at <= self.releases.len(),
    {
        let ghost index = self@;
        let mut i: usize = 0;
        let mut found: usize = 0;
        assert(index.take(0) =~= Seq::empty());
        while i < self.releases.len()
            invariant
                i <= self.releases.len(),
                index == self@,
                found == find_release(index.take(i as int), key@, constraint_view(*version)),
                found <= i,
            decreases self.releases.len() - i,
        {
            proof {
                let t = index.take(i + 1);
                assert(t.drop_last() =~= index.take(i as int));
                assert(t.last() == self.releases@[i as int]@);
            }
            let release = &self.releases[i];
            if found < i {
            } else {
                let named = canonical_name(release.info.name.as_str());
                let fits = same_text(named.as_str(), key) && match version {
                    Some(v) => same_text(release.info.version.as_str(), v.as_str()),
                    None => true,
                };
                if fits {
                    found = i;
                } else {
                    found = i + 1;
                }
            }
            i += 1;
        }
        assert(index.take(self.releases.len() as int) =~= index);
        found
    }
}

/// A copy of an optional string.
fn copy_constraint(c: &Option<String>) -> (r: Option<String>)
    ensures
        constraint_view(r) == constraint_view(*c),
{
    match c {
        Some(text) => Some(text.clone()),
        None => None,
    }
}

/// Collects the work items of the requirement strings of a release, and the
/// canonical names they stand for.
fn collect_sub_items(requirements: &Option<Vec<String>>, env: &MarkerEnv, own_key: &str) -> (r: (
    Vec<WorkItem>,
    Vec<String>,
))
    ensures
        item_views(r.0@) == sub_items(
            match requirements {
                Some(list) => texts(list@),
                None => Seq::empty(),
            },
            env@,
            own_key@,
        ),
        texts(r.1@) == item_keys(item_views(r.0@)),
{
    let mut items: Vec<WorkItem> = Vec::new();
    let mut keys: Vec<String> = Vec::new();
    assert(item_views(items@) =~= Seq::empty());
    assert(texts(keys@) =~= item_keys(item_views(items@)));
    match requirements {
        None => {},
        Some(list) => {
            let ghost all = texts(list@);
            let mut i: usize = 0;
            assert(all.take(0) =~= Seq::empty());
            while i < list.len()
                invariant
                    i <= list.len(),
                    all == texts(list@),
                    item_views(items@) == sub_items(all.take(i as int), env@, own_key@),
                    texts(keys@) == item_keys(item_views(items@)),
                decreases list.len() - i,
            {
                proof {
                    let t = all.take(i + 1);
                    assert(t.drop_last() =~= all.take(i as int));
                    assert(t.last() == list@[i as int]@);
                }
                let text = list[i].as_str();
                if should_include_requirement(text, env) {
                    let parts = split_requirement(text);
                    let key = canonical_name(parts.0.as_str());
                    if !is_skipped(key.as_str()) && !same_text(key.as_str(), own_key) {
                        let ghost before_items = items@;
                        let ghost before_keys = keys@;
                        let item = WorkItem { name: parts.0, constraint: parts.1 };
                        items.push(item);
                        keys.push(key);
                        assert(item_views(items@) =~= item_views(before_items).push(item@));
                        assert(texts(keys@) =~= texts(before_keys).push(key@));
                        assert(item_keys(item_views(items@)) =~= item_keys(
                            item_views(before_items),
                        ).push(canonical(item@.0)));
                    }
                }
                i += 1;
            }
            assert(all.take(list.len() as int) =~= all);
        },
    }
    (items, keys)
}

/// What the head of the queue asks for.
enum Head {
    Skip,
    Conflict { name: String, chosen: String, new_constraint: String },
    Fetch { name: String, version: Option<String> },
}

/// A `Head` as plain values.
spec fn head_view(head: Head) -> HeadView {
    match head {
        Head::Skip => HeadView::Skip,
        Head::Conflict { name, chosen, new_constraint } => HeadView::Conflict {
            name: name@,
            chosen: chosen@,
            new_constraint: new_constraint@,
        },
        Head::Fetch { name, version } => HeadView::Fetch {
            name: name@,
            version: constraint_view(version),
        },
    }
}

/// What a poll of the resolver asks of its caller.
#[derive(Debug)]
pub enum Poll {
    /// Fetch a release of `name`: that `version`, or else the newest. The
    /// answer goes to `Resolver::supply`.
    Fetch { name: String, version: Option<String> },
    /// Nothing is left to resolve.
    Done,
    /// The resolution has failed.
    Failed(ResolveError),
}

/// A `Poll` as plain values.
pub enum PollView {
    Fetch { name: Seq<char>, version: Option<Seq<char>> },
    Done,
    Failed(ResolveErrorView),
}

impl View for Poll {
    type V = PollView;

    open spec fn view(&self) -> PollView {
        match self {
            Poll::Fetch { name, version } => PollView::Fetch {
                name: name@,
                version: constraint_view(*version),
            },
            Poll::Done => PollView::Done,
            Poll::Failed(e) => PollView::Failed(e@),
        }
    }
}

/// The state after the items that ask for nothing have left the head of the
/// queue, and what the head then asks for.
pub open spec fn polled(s: ResolverView) -> (ResolverView, PollView)
    decreases s.queue.len(),
{
    if s.queue.len() == 0 {
        (s, PollView::Done)
    } else {
        match head_of(s) {
            HeadView::Skip => polled(popped(s)),
            HeadView::Conflict { name, chosen, new_constraint } => (
                s,
                PollView::Failed(ResolveErrorView::Conflict { name, chosen, new_constraint }),
            ),
            HeadView::Fetch { name, version } => (s, PollView::Fetch { name, version }),
        }
    }
}

/// The transition on a release handed in from outside: it is taken where the
/// head of the queue asks for a release, and otherwise changes nothing.
pub open spec fn supplied(
    s: ResolverView,
    info: PypiPackageInfoView,
    env: MarkerEnvView,
) -> Outcome {
    if s.queue.len() > 0 && head_of(s) is Fetch {
        accepted(s, info, env)
    } else {
        Outcome::Advanced(s)
    }
}

/// Where `key` goes in a queue ordered by canonical name: behind the last item
/// that does not come after it.
pub open spec fn slot(items: Seq<ItemView>, key: Seq<char>) -> int
    decreases items.len(),
{
    if items.len() == 0 {
        0
    } else if lex_lt(key, canonical(items.last().0)) {
        slot(items.drop_last(), key)
    } else {
        items.len() as int
    }
}

/// The direct dependencies as plain (name, constraint) pairs.
pub open spec fn dependency_views(pairs: Seq<(Seq<char>, String)>) -> Seq<(Seq<char>, Seq<char>)> {
    pairs.map_values(|p: (Seq<char>, String)| (p.0, p.1@))
}

/// The queue that a resolution starts from: one item for each direct
/// dependency, ordered by canonical name.
pub open spec fn seeded(deps: Seq<(Seq<char>, Seq<char>)>) -> Seq<ItemView>
    decreases deps.len(),
{
    if deps.len() == 0 {
        Seq::empty()
    } else {
        let head = seeded(deps.drop_last());
        let d = deps.last();
        head.insert(slot(head, canonical(d.0)), (d.0, Some(d.1)))
    }
}

/// The state that a resolution of the given direct dependencies starts from.
pub open spec fn initial(deps: Seq<(Seq<char>, Seq<char>)>) -> ResolverView {
    ResolverView { resolved: Seq::empty(), queue: seeded(deps) }
}

/// A resolution in progress.
pub struct Resolver {
    resolved: StrMap<ResolutionNode>,
    queue: VecDeque<WorkItem>,
    env: MarkerEnv,
}

impl View for Resolver {
    type V = ResolverView;

    closed spec fn view(&self) -> ResolverView {
        ResolverView {
            resolved: node_views(self.resolved.pairs()),
            queue: item_views(self.queue@),
        }
    }
}

impl Resolver {
    /// The environment that markers are evaluated against.
    pub closed spec fn env(&self) -> MarkerEnvView {
        self.env@
    }

    /// The position `slot(item_views(queue@), key@)`.
    fn slot_of(queue: &VecDeque<WorkItem>, key: &str) -> (at: usize)
        ensures
            at == slot(item_views(queue@), key@),
            at <= queue.len(),
    {
        let ghost items = item_views(queue@);
        let wanted = chars_of(key);
        let mut at: usize = queue.len();
        assert(items.take(at as int) =~= items);
        while at > 0
            invariant
                at <= queue.len(),
                wanted@ == key@,
                items == item_views(queue@),
                slot(items, key@) == slot(items.take(at as int), key@),
            decreases at,
        {
            let here = canonical_name(queue[at - 1].name.as_str());
            proof {
                let t = items.take(at as int);
                assert(t.last() == queue@[at - 1]@);
                assert(t.drop_last() =~= items.take(at - 1));
            }
            if less(&wanted, &chars_of(here.as_str())) {
                at -= 1;
            } else {
                return at;
            }
        }
        assert(items.take(0) =~= Seq::empty());
        at
    }

    /// Starts a resolution of the direct dependencies `root_deps`, a map from
    /// package name to version constraint, for the environment `env`.
    pub fn new(root_deps: &StrMap<String>, env: MarkerEnv) -> (r: Self)
        ensures
            r@ == initial(dependency_views(root_deps.pairs())),
            r.env() == env@,
    {
        let ghost deps = dependency_views(root_deps.pairs());
        let mut queue: VecDeque<WorkItem> = VecDeque::new();
        let mut i: usize = 0;
        assert(deps.take(0) =~= Seq::empty());
        assert(item_views(queue@) =~= Seq::empty());
        while i < root_deps.len()
            invariant
                i <= root_deps.pairs().len(),
                deps == dependency_views(root_deps.pairs()),
                item_views(queue@) == seeded(deps.take(i as int)),
            decreases root_deps.pairs().len() - i,
        {
            proof {
                let t = deps.take(i + 1);
                assert(t.drop_last() =~= deps.take(i as int));
                assert(t.last() == (root_deps.pairs()[i as int].0, root_deps.pairs()[i as int].1@));
            }
            let name = root_deps.key_at(i).clone();
            let constraint = root_deps.value_at(i).clone();
            let key = canonical_name(name.as_str());
            let at = Self::slot_of(&queue, key.as_str());
            let ghost before = queue@;
            let item = WorkItem { name, constraint: Some(constraint) };
            queue.insert(at, item);
            assert(item_views(queue@) =~= item_views(before).insert(at as int, item@));
            i += 1;
        }
        assert(deps.take(root_deps.pairs().len() as int) =~= deps);
        let resolved: StrMap<ResolutionNode> = StrMap::new();
        assert(node_views(resolved.pairs()) =~= Seq::empty());
        Resolver { resolved, queue, env }
    }

    /// What the head of the non-empty queue asks for.
    fn head(&self) -> (r: Head)
        requires
            self@.queue.len() > 0,
        ensures
            head_view(r) == head_of(self@),
    {
        let item = &self.queue[0];
        assert(self@.queue[0] == item@);
        let key = canonical_name(item.name.as_str());
        if is_skipped(key.as_str()) {
            return Head::Skip;
        }
        proof {
            lemma_node_views(self.resolved.pairs(), key@);
        }
        match self.resolved.get(key.as_str()) {
            Some(node) => {
                if is_conflict(&item.constraint, node.version.as_str()) {
                    match &item.constraint {
                        Some(c) => Head::Conflict {
                            name: item.name.clone(),
                            chosen: node.version.clone(),
                            new_constraint: c.clone(),
                        },
                        None => Head::Skip,
                    }
                } else {
                    Head::Skip
                }
            },
            None => {
                let version = match &item.constraint {
                    Some(c) => pinned(c.as_str()),
                    None => None,
                };
                Head::Fetch { name: item.name.clone(), version }
            },
        }
    }

    /// Moves on to the next item that needs the caller: passes over the ones
    /// that ask for nothing and says what the first other one asks for.
    pub fn poll(&mut self) -> (r: Poll)
        ensures
            (final(self)@, r@) == polled(old(self)@),
            final(self).env() == old(self).env(),
    {
        loop
            invariant
                polled(self@) == polled(old(self)@),
                self.env() == old(self).env(),
            decreases self.queue.len(),
        {
            if self.queue.len() == 0 {
                return Poll::Done;
            }
            match self.head() {
                Head::Skip => {
                    let ghost before = self.queue@;
                    let gone = self.queue.pop_front();
                    assert(item_views(self.queue@) =~= item_views(before).skip(1));
                },
                Head::Conflict { name, chosen, new_constraint } => {
                    return Poll::Failed(ResolveError::Conflict { name, chosen, new_constraint });
                },
                Head::Fetch { name, version } => {
                    return Poll::Fetch { name, version };
                },
            }
        }
    }

    /// Takes the release `info` for the head of the queue.
    fn accept(&mut self, info: &PypiPackageInfo) -> (r: Result<(), ResolveError>)
        requires
            old(self)@.queue.len() > 0,
        ensures
            match accepted(old(self)@, info@, old(self).env()) {
                Outcome::Advanced(t) => r is Ok && final(self)@ == t,
                Outcome::Failed(e) => r matches Err(x) && x@ == e && final(self)@ == old(self)@,
            },
            final(self).env() == old(self).env(),
    {
        let item = &self.queue[0];
        assert(self@.queue[0] == item@);
        let name = item.name.clone();
        let constraint = copy_constraint(&item.constraint);
        let key = canonical_name(name.as_str());
        let answered = canonical_name(info.info.name.as_str());
        if !same_text(answered.as_str(), key.as_str()) {
            let version = match &constraint {
                Some(c) => pinned(c.as_str()),
                None => None,
            };
            return Err(ResolveError::Index(IndexError { name, version, cause: IndexCause::Parse }));
        }
        let artifacts = artifacts_of(&info.urls);
        if artifacts.len() == 0 {
            return Err(
                ResolveError::NoArtifacts {
                    name: info.info.name.clone(),
                    version: info.info.version.clone(),
                },
            );
        }
        if is_conflict(&constraint, info.info.version.as_str()) {
            match constraint {
                Some(c) => {
                    return Err(
                        ResolveError::Conflict {
                            name,
                            chosen: info.info.version.clone(),
                            new_constraint: c,
                        },
                    );
                },
                None => {},
            }
        }
        let (items, keys) = collect_sub_items(&info.info.requires_dist, &self.env, key.as_str());
        let ghost subs = item_views(items@);
        let ghost before = self.queue@;
        let gone = self.queue.pop_front();
        assert(item_views(self.queue@) =~= item_views(before).skip(1));
        let mut items = items;
        let mut k: usize = 0;
        let ghost rest = item_views(self.queue@);
        assert(subs.take(0) =~= Seq::empty());
        while k < items.len()
            invariant
                k <= items.len(),
                item_views(items@) == subs,
                item_views(self.queue@) == rest + subs.take(k as int),
                self.resolved == old(self).resolved,
                self.env == old(self).env,
            decreases items.len() - k,
        {
            let ghost queue_before = self.queue@;
            let copy = WorkItem {
                name: items[k].name.clone(),
                constraint: copy_constraint(&items[k].constraint),
            };
            assert(copy@ == subs[k as int]);
            self.queue.push_back(copy);
            assert(item_views(self.queue@) =~= item_views(queue_before).push(copy@));
            assert(subs.take(k + 1) =~= subs.take(k as int).push(subs[k as int]));
            k += 1;
        }
        assert(subs.take(items.len() as int) =~= subs);
        let node = ResolutionNode {
            name: info.info.name.clone(),
            version: info.info.version.clone(),
            dependencies: keys,
        };
        proof {
            lemma_node_views_stored(self.resolved.pairs(), key@, node);
        }
        self.resolved.insert(key, node);
        Ok(())
    }

    /// Hands in the release that the last poll asked for.
    ///
    /// Where the head of the queue asks for a release, `info` is taken for
    /// it: it becomes a node and its requirements join the queue, or the
    /// resolution fails and the state stays. Otherwise nothing changes.
    pub fn supply(&mut self, info: &PypiPackageInfo) -> (r: Result<(), ResolveError>)
        ensures
            match supplied(old(self)@, info@, old(self).env()) {
                Outcome::Advanced(t) => r is Ok && final(self)@ == t,
                Outcome::Failed(e) => r matches Err(x) && x@ == e && final(self)@ == old(self)@,
            },
            final(self).env() == old(self).env(),
    {
        if self.queue.len() == 0 {
            return Ok(());
        }
        match self.head() {
            Head::Fetch { name, version } => self.accept(info),
            _ => Ok(()),
        }
    }

    /// Makes one transition against a snapshot of the index.
    pub fn advance(&mut self, index: &IndexSnapshot) -> (r: Result<(), ResolveError>)
        ensures
            match step(old(self)@, index@, old(self).env()) {
                Outcome::Advanced(t) => r is Ok && final(self)@ == t,
                Outcome::Failed(e) => r matches Err(x) && x@ == e && final(self)@ == old(self)@,
            },
            final(self).env() == old(self).env(),
    {
        if self.queue.len() == 0 {
            return Ok(());
        }
        match self.head() {
            Head::Skip => {
                let ghost before = self.queue@;
                let gone = self.queue.pop_front();
                assert(item_views(self.queue@) =~= item_views(before).skip(1));
                Ok(())
            },
            Head::Conflict { name, chosen, new_constraint } => Err(
                ResolveError::Conflict { name, chosen, new_constraint },
            ),
            Head::Fetch { name, version } => {
                let key = canonical_name(name.as_str());
                let at = index.find(key.as_str(), &version);
                if at < index.releases.len() {
                    assert(index@[at as int] == index.releases@[at as int]@);
                    self.accept(&index.releases[at])
                } else {
                    Err(ResolveError::Index(IndexError { name, version, cause: IndexCause::Status }))
                }
            },
        }
    }

    /// Tests whether nothing waits to be resolved.
    pub fn is_done(&self) -> (r: bool)
        ensures
            r == (self@.queue.len() == 0),
    {
        self.queue.len() == 0
    }

    /// The graph resolved so far.
    pub fn finish(self) -> (g: DependencyGraph)
        ensures
            g@ == self@.resolved,
    {
        DependencyGraph { packages: self.resolved }
    }
}

/// The graph that resolving the direct dependencies `deps` against the
/// snapshot `index` leads to, or the failure it stops at.
pub open spec fn resolution(
    deps: Seq<(Seq<char>, Seq<char>)>,
    index: Seq<PypiPackageInfoView>,
    env: MarkerEnvView,
) -> Result<GraphView, ResolveErrorView> {
    run(initial(deps), index, env)
}

/// Every dependency that a node lists is a key of the graph.
pub open spec fn closed_graph(g: GraphView) -> bool {
    forall|i: int, j: int|
        0 <= i < g.len() && 0 <= j < g[i].1.dependencies.len() ==> holds(
            g,
            #[trigger] g[i].1.dependencies[j],
        )
}

/// Every node is stored under the canonical form of its display name.
pub open spec fn keyed_by_name(g: GraphView) -> bool {
    forall|i: int| 0 <= i < g.len() ==> canonical((#[trigger] g[i]).1.name) == g[i].0
}

/// Some item of the queue names the package `key`.
pub open spec fn awaits(queue: Seq<ItemView>, key: Seq<char>) -> bool {
    exists|k: int| 0 <= k < queue.len() && canonical((#[trigger] queue[k]).0) == key
}

/// Every dependency that a node lists is resolved or waits in the queue, and
/// none is a name that would be passed over.
pub open spec fn on_track(s: ResolverView) -> bool {
    &&& keyed_by_name(s.resolved)
    &&& forall|i: int, j: int|
        0 <= i < s.resolved.len() && 0 <= j < s.resolved[i].1.dependencies.len() ==> {
            let dep = #[trigger] s.resolved[i].1.dependencies[j];
            !skipped(dep) && (holds(s.resolved, dep) || awaits(s.queue, dep))
        }
}

/// A transition keeps the resolution on track.
proof fn lemma_step_on_track(s: ResolverView, index: Seq<PypiPackageInfoView>, env: MarkerEnvView)
    requires
        ascending(s.resolved),
        on_track(s),
        s.queue.len() > 0,
        step(s, index, env) is Advanced,
    ensures
        on_track(step(s, index, env)->Advanced_0),
{
    let t = step(s, index, env)->Advanced_0;
    let head_key = canonical(s.queue[0].0);
    match head_of(s) {
        HeadView::Skip => {
            assert forall|i: int, j: int|
                0 <= i < t.resolved.len() && 0 <= j < t.resolved[i].1.dependencies.len() implies {
                let dep = #[trigger] t.resolved[i].1.dependencies[j];
                !skipped(dep) && (holds(t.resolved, dep) || awaits(t.queue, dep))
            } by {
                let dep = s.resolved[i].1.dependencies[j];
                if !holds(s.resolved, dep) {
                    let k = choose|k: int|
                        0 <= k < s.queue.len() && canonical((#[trigger] s.queue[k]).0) == dep;
                    assert(k > 0);
                    assert(canonical(t.queue[k - 1].0) == dep);
                }
            }
        },
        HeadView::Fetch { name, version } => {
            let key = canonical(name);
            let at = find_release(index, key, version);
            lemma_find_release(index, key, version);
            let info = index[at];
            let subs = sub_items(requirements_of(info.info), env, key);
            let node = node_for(info, env, key);
            let r = rank(s.resolved, key);
            lemma_rank_bounds(s.resolved, key);
            s.resolved.insert_ensures(r, (key, node));
            lemma_sub_items_admissible(requirements_of(info.info), env, key);
            assert(t.resolved == s.resolved.insert(r, (key, node)));
            assert(t.queue == s.queue.skip(1) + subs);
            assert forall|i: int| 0 <= i < t.resolved.len() implies canonical(
                (#[trigger] t.resolved[i]).1.name,
            ) == t.resolved[i].0 by {
                if i < r {
                    assert(t.resolved[i] == s.resolved[i]);
                } else if i > r {
                    assert(t.resolved[i] == s.resolved[i - 1]);
                }
            }
            assert forall|i: int, j: int|
                0 <= i < t.resolved.len() && 0 <= j < t.resolved[i].1.dependencies.len() implies {
                let dep = #[trigger] t.resolved[i].1.dependencies[j];
                !skipped(dep) && (holds(t.resolved, dep) || awaits(t.queue, dep))
            } by {
                let dep = t.resolved[i].1.dependencies[j];
                lemma_lookup_stored(s.resolved, key, node, dep);
                if i == r {
                    assert(dep == canonical(subs[j].0));
                    let k = s.queue.len() - 1 + j;
                    assert(t.queue[k] == subs[j]);
                    assert(canonical(t.queue[k].0) == dep);
                } else {
                    let before = if i < r {
                        i
                    } else {
                        i - 1
                    };
                    assert(t.resolved[i] == s.resolved[before]);
                    assert(dep == s.resolved[before].1.dependencies[j]);
                    if !holds(s.resolved, dep) && dep != key {
                        let k = choose|k: int|
                            0 <= k < s.queue.len() && canonical((#[trigger] s.queue[k]).0) == dep;
                        assert(k > 0);
                        assert(t.queue[k - 1] == s.queue[k]);
                        assert(canonical(t.queue[k - 1].0) == dep);
                    }
                }
            }
        },
        _ => {},
    }
}

/// From a state that is on track the transitions end in a closed graph.
proof fn lemma_run_closed(s: ResolverView, index: Seq<PypiPackageInfoView>, env: MarkerEnvView)
    requires
        ascending(s.resolved),
        on_track(s),
    ensures
        run(s, index, env) matches Ok(g) ==> closed_graph(g) && ascending(g) && keyed_by_name(g),
    decreases fresh(index, s.resolved), s.queue.len(),
{
    if s.queue.len() > 0 {
        match step(s, index, env) {
            Outcome::Failed(e) => {},
            Outcome::Advanced(t) => {
                lemma_step_descends(s, index, env);
                lemma_step_on_track(s, index, env);
                lemma_run_closed(t, index, env);
            },
        }
    }
}

/// A resolution that succeeds yields a graph in which every dependency that
/// a node lists is itself a node, with one node for each canonical name,
/// stored under the canonical form of its display name.
pub proof fn lemma_resolution_complete(
    deps: Seq<(Seq<char>, Seq<char>)>,
    index: Seq<PypiPackageInfoView>,
    env: MarkerEnvView,
)
    ensures
        resolution(deps, index, env) matches Ok(g) ==> closed_graph(g) && ascending(g)
            && keyed_by_name(g),
{
    lemma_run_closed(initial(deps), index, env);
}

/// Resolves the direct dependencies `root_deps`, a map from package name to
/// version constraint, against a snapshot of the index.
///
/// The work queue starts with the direct dependencies in the order of their
/// canonical names. It is worked off from the front: a name that is resolved
/// already is only checked against the constraint that came with it; any
/// other is looked up in the snapshot (the pinned version where the
/// constraint pins one, else the first release listed), becomes a node, and
/// its requirements that apply in `env` are appended. The first failure ends
/// the resolution.
pub fn resolve(root_deps: &StrMap<String>, env: MarkerEnv, index: &IndexSnapshot) -> (r: Result<
    DependencyGraph,
    ResolveError,
>)
    ensures
        match resolution(dependency_views(root_deps.pairs()), index@, env@) {
            Ok(g) => r matches Ok(graph) && graph@ == g,
            Err(e) => r matches Err(x) && x@ == e,
        },
        r matches Ok(graph) ==> closed_graph(graph@) && ascending(graph@) && keyed_by_name(graph@),
{
    let ghost deps = dependency_views(root_deps.pairs());
    let ghost e = env@;
    let mut resolver = Resolver::new(root_deps, env);
    proof {
        lemma_resolution_complete(deps, index@, e);
    }
    while !resolver.is_done()
        invariant
            resolver.env() == e,
            e == env@,
            deps == dependency_views(root_deps.pairs()),
            ascending(resolver@.resolved),
            run(resolver@, index@, e) == resolution(deps, index@, e),
        decreases fresh(index@, resolver@.resolved), resolver@.queue.len(),
    {
        proof {
            match step(resolver@, index@, e) {
                Outcome::Advanced(t) => {
                    lemma_step_descends(resolver@, index@, e);
                    assert(run(resolver@, index@, e) == run(t, index@, e));
                },
                Outcome::Failed(x) => {
                    assert(run(resolver@, index@, e) == Err::<GraphView, ResolveErrorView>(x));
                },
            }
        }
        match resolver.advance(index) {
            Err(x) => {
                return Err(x);
            },
            Ok(()) => {},
        }
    }
    Ok(resolver.finish())
}

/// No item comes before one with a smaller canonical name.
pub open spec fn ordered_by_key(items: Seq<ItemView>) -> bool {
    forall|i: int, j: int|
        0 <= i < j < items.len() ==> !lex_lt(
            canonical((#[trigger] items[j]).0),
            canonical((#[trigger] items[i]).0),
        )
}

/// In an ordered queue the slot of `key` has the items that do not come
/// after `key` before it and the ones that do behind it.
proof fn lemma_slot(items: Seq<ItemView>, key: Seq<char>)
    requires
        ordered_by_key(items),
    ensures
        0 <= slot(items, key) <= items.len(),
        forall|i: int| 0 <= i < slot(items, key) ==> !lex_lt(key, canonical((#[trigger] items[i]).0)),
        forall|i: int|
            slot(items, key) <= i < items.len() ==> lex_lt(key, canonical((#[trigger] items[i]).0)),
    decreases items.len(),
{
    if items.len() > 0 {
        let n = items.len() - 1;
        let t = items.drop_last();
        let last = canonical(items[n].0);
        assert forall|i: int, j: int| 0 <= i < j < t.len() implies !lex_lt(
            canonical((#[trigger] t[j]).0),
            canonical((#[trigger] t[i]).0),
        ) by {
            assert(t[i] == items[i] && t[j] == items[j]);
        }
        if lex_lt(key, last) {
            lemma_slot(t, key);
            assert forall|i: int| 0 <= i < slot(items, key) implies !lex_lt(
                key,
                canonical((#[trigger] items[i]).0),
            ) by {
                assert(t[i] == items[i]);
            }
            assert forall|i: int| slot(items, key) <= i < items.len() implies lex_lt(
                key,
                canonical((#[trigger] items[i]).0),
            ) by {
                if i < n {
                    assert(t[i] == items[i]);
                }
            }
        } else {
            assert forall|i: int| 0 <= i < items.len() implies !lex_lt(
                key,
                canonical((#[trigger] items[i]).0),
            ) by {
                let here = canonical(items[i].0);
                if i < n && lex_lt(key, here) {
                    assert(!lex_lt(last, here));
                    lemma_lex_total(here, last);
                    if here != last {
                        lemma_lex_transitive(key, here, last);
                    }
                }
            }
        }
    }
}

/// A resolution starts with one item for each direct dependency, and the
/// items stand in the order of their canonical names.
pub proof fn lemma_seeded_ordered(deps: Seq<(Seq<char>, Seq<char>)>)
    ensures
        ordered_by_key(seeded(deps)),
        seeded(deps).len() == deps.len(),
        forall|k: int|
            0 <= k < deps.len() ==> seeded(deps).contains(
                ((#[trigger] deps[k]).0, Some(deps[k].1)),
            ),
    decreases deps.len(),
{
    if deps.len() > 0 {
        let t = deps.drop_last();
        let head = seeded(t);
        let d = deps.last();
        let key = canonical(d.0);
        let at = slot(head, key);
        let all = seeded(deps);
        lemma_seeded_ordered(t);
        lemma_slot(head, key);
        head.insert_ensures(at, (d.0, Some(d.1)));
        assert forall|i: int, j: int| 0 <= i < j < all.len() implies !lex_lt(
            canonical((#[trigger] all[j]).0),
            canonical((#[trigger] all[i]).0),
        ) by {
            if j < at {
                assert(all[i] == head[i] && all[j] == head[j]);
            } else if j == at {
                assert(all[i] == head[i]);
                // `all[i]` does not come after `key`, so `key` is not below it
            } else if i == at {
                assert(all[j] == head[j - 1]);
                let there = canonical(head[j - 1].0);
                assert(lex_lt(key, there));
                if lex_lt(there, key) {
                    lemma_lex_transitive(key, there, key);
                    crate::engine::text::lemma_lex_irreflexive(key);
                }
            } else if i < at {
                assert(all[i] == head[i] && all[j] == head[j - 1]);
            } else {
                assert(all[i] == head[i - 1] && all[j] == head[j - 1]);
            }
        }
        assert forall|k: int| 0 <= k < deps.len() implies all.contains(
            ((#[trigger] deps[k]).0, Some(deps[k].1)),
        ) by {
            if k < t.len() {
                assert(t[k] == deps[k]);
                let item = (deps[k].0, Some(deps[k].1));
                let m = choose|m: int| 0 <= m < head.len() && head[m] == item;
                if m < at {
                    assert(all[m] == item);
                } else {
                    assert(all[m + 1] == item);
                }
            } else {
                assert(all[at] == (d.0, Some(d.1)));
            }
        }
    }
}

/// Polling and supplying make the same transitions as `step`.
///
/// Polling passes over what `step` would pass over. Where it ends the
/// resolution, `run` ends the same way; where it asks for a release, the head
/// of the queue asks for it, and supplying the release that the snapshot
/// answers with is the transition that `step` makes.
pub proof fn lemma_poll_then_supply(
    s: ResolverView,
    index: Seq<PypiPackageInfoView>,
    env: MarkerEnvView,
)
    requires
        ascending(s.resolved),
    ensures
        polled(s).0.resolved == s.resolved,
        match polled(s).1 {
            PollView::Done => run(s, index, env) == Ok::<GraphView, ResolveErrorView>(s.resolved),
            PollView::Failed(e) => run(s, index, env) == Err::<GraphView, ResolveErrorView>(e),
            PollView::Fetch { name, version } => {
                let p = polled(s).0;
                let at = find_release(index, canonical(name), version);
                &&& p.queue.len() > 0
                &&& head_of(p) == (HeadView::Fetch { name, version })
                &&& run(s, index, env) == run(p, index, env)
                &&& at < index.len() ==> step(p, index, env) == supplied(p, index[at], env)
            },
        },
    decreases s.queue.len(),
{
    if s.queue.len() > 0 {
        match head_of(s) {
            HeadView::Skip => {
                lemma_poll_then_supply(popped(s), index, env);
                assert(step(s, index, env) == Outcome::Advanced(popped(s)));
                assert(run(s, index, env) == run(popped(s), index, env));
            },
            HeadView::Conflict { name, chosen, new_constraint } => {
                assert(step(s, index, env) == Outcome::Failed(
                    ResolveErrorView::Conflict { name, chosen, new_constraint },
                ));
            },
            HeadView::Fetch { name, version } => {},
        }
    }
}

/// A release is fetched for a package at most once: the head of the queue
/// asks for a release only while the package has no node, a transition on
/// that release gives it one, and what has a node keeps it.
pub proof fn lemma_fetched_once(
    s: ResolverView,
    index: Seq<PypiPackageInfoView>,
    env: MarkerEnvView,
    key: Seq<char>,
)
    requires
        ascending(s.resolved),
        s.queue.len() > 0,
    ensures
        head_of(s) is Fetch ==> !holds(s.resolved, canonical(s.queue[0].0)),
        step(s, index, env) matches Outcome::Advanced(t) ==> (holds(s.resolved, key) ==> holds(
            t.resolved,
            key,
        )) && (head_of(s) is Fetch ==> holds(t.resolved, canonical(s.queue[0].0))),
{
    match head_of(s) {
        HeadView::Fetch { name, version } => {
            let head_key = canonical(name);
            let at = find_release(index, head_key, version);
            lemma_find_release(index, head_key, version);
            if at < index.len() {
                let node = node_for(index[at], env, head_key);
                lemma_lookup_stored(s.resolved, head_key, node, key);
                lemma_lookup_stored(s.resolved, head_key, node, head_key);
            }
        },
        _ => {},
    }
}

/// Each of `keys` is passed over, resolved or waiting.
pub open spec fn in_hand(s: ResolverView, keys: Seq<Seq<char>>) -> bool {
    forall|k: int|
        0 <= k < keys.len() ==> skipped(#[trigger] keys[k]) || holds(s.resolved, keys[k]) || awaits(
            s.queue,
            keys[k],
        )
}

/// A transition keeps in hand what was in hand.
proof fn lemma_step_in_hand(
    s: ResolverView,
    index: Seq<PypiPackageInfoView>,
    env: MarkerEnvView,
    keys: Seq<Seq<char>>,
)
    requires
        ascending(s.resolved),
        in_hand(s, keys),
        s.queue.len() > 0,
        step(s, index, env) is Advanced,
    ensures
        in_hand(step(s, index, env)->Advanced_0, keys),
{
    let t = step(s, index, env)->Advanced_0;
    let head_key = canonical(s.queue[0].0);
    assert forall|k: int| 0 <= k < keys.len() implies skipped(#[trigger] keys[k]) || holds(
        t.resolved,
        keys[k],
    ) || awaits(t.queue, keys[k]) by {
        let key = keys[k];
        if !skipped(key) && !holds(s.resolved, key) {
            let m = choose|m: int| 0 <= m < s.queue.len() && canonical((#[trigger] s.queue[m]).0) == key;
            match head_of(s) {
                HeadView::Fetch { name, version } => {
                    let at = find_release(index, head_key, version);
                    lemma_lookup_stored(s.resolved, head_key, node_for(index[at], env, head_key), key);
                    if m > 0 {
                        assert(t.queue[m - 1] == s.queue[m]);
                        assert(canonical(t.queue[m - 1].0) == key);
                    }
                },
                _ => {
                    assert(m > 0);
                    assert(canonical(t.queue[m - 1].0) == key);
                },
            }
        } else if holds(s.resolved, key) {
            match head_of(s) {
                HeadView::Fetch { name, version } => {
                    let at = find_release(index, head_key, version);
                    lemma_lookup_stored(s.resolved, head_key, node_for(index[at], env, head_key), key);
                },
                _ => {},
            }
        }
    }
}

/// From a state that has `keys` in hand the transitions end in a graph that
/// holds each of them, unless it is one that is passed over.
proof fn lemma_run_in_hand(
    s: ResolverView,
    index: Seq<PypiPackageInfoView>,
    env: MarkerEnvView,
    keys: Seq<Seq<char>>,
)
    requires
        ascending(s.resolved),
        in_hand(s, keys),
    ensures
        run(s, index, env) matches Ok(g) ==> forall|k: int|
            0 <= k < keys.len() ==> skipped(#[trigger] keys[k]) || holds(g, keys[k]),
    decreases fresh(index, s.resolved), s.queue.len(),
{
    if s.queue.len() > 0 {
        match step(s, index, env) {
            Outcome::Failed(e) => {},
            Outcome::Advanced(t) => {
                lemma_step_descends(s, index, env);
                lemma_step_in_hand(s, index, env, keys);
                lemma_run_in_hand(t, index, env, keys);
            },
        }
    }
}

/// A resolution that succeeds holds a node for every direct dependency,
/// unless its name is one that is passed over.
pub proof fn lemma_resolution_covers_roots(
    deps: Seq<(Seq<char>, Seq<char>)>,
    index: Seq<PypiPackageInfoView>,
    env: MarkerEnvView,
)
    ensures
        resolution(deps, index, env) matches Ok(g) ==> forall|k: int|
            0 <= k < deps.len() ==> skipped(canonical((#[trigger] deps[k]).0)) || holds(
                g,
                canonical(deps[k].0),
            ),
{
    let keys = Seq::new(deps.len(), |k: int| canonical(deps[k].0));
    let s = initial(deps);
    lemma_seeded_ordered(deps);
    assert forall|k: int| 0 <= k < keys.len() implies skipped(#[trigger] keys[k]) || holds(
        s.resolved,
        keys[k],
    ) || awaits(s.queue, keys[k]) by {
        let item = (deps[k].0, Some(deps[k].1));
        let m = choose|m: int| 0 <= m < s.queue.len() && s.queue[m] == item;
        assert(canonical(s.queue[m].0) == keys[k]);
    }
    lemma_run_in_hand(s, index, env, keys);
    match resolution(deps, index, env) {
        Ok(g) => {
            assert forall|k: int| 0 <= k < deps.len() implies skipped(
                canonical((#[trigger] deps[k]).0),
            ) || holds(g, canonical(deps[k].0)) by {
                assert(keys[k] == canonical(deps[k].0));
            }
        },
        Err(e) => {},
    }
}

} // verus!

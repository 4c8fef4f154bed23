//! The project manifest: what the project is called and what it depends on.

use vstd::prelude::*;
use crate::engine::json::{
    json_parsed, json_rendered, lemma_member_at, lemma_object_view, member_views, object_field,
    parse_json, parsed_view, render_json, text_field, text_member, text_of, Json, JsonView,
};
use crate::engine::resolver::dependency_views;
use crate::engine::strmap::{
    ascending, dropped, holds, lemma_same_keys, lemma_stored_above, rank, same_keys, stored,
    StrMap,
};
use crate::engine::text::{lex_lt, owned};

verus! {

/// The manifest of a project.
#[derive(Debug)]
pub struct Config {
    pub name: String,
    pub version: String,
    pub python_version: String,
    pub dependencies: StrMap<String>,
    pub virtual_environment: String,
}

/// A `Config` as plain values; the dependencies as (name, constraint) pairs
/// in key order.
pub struct ConfigView {
    pub name: Seq<char>,
    pub version: Seq<char>,
    pub python_version: Seq<char>,
    pub dependencies: Seq<(Seq<char>, Seq<char>)>,
    pub virtual_environment: Seq<char>,
}

impl View for Config {
    type V = ConfigView;

    open spec fn view(&self) -> ConfigView {
        ConfigView {
            name: self.name@,
            version: self.version@,
            python_version: self.python_version@,
            dependencies: dependency_views(self.dependencies.pairs()),
            virtual_environment: self.virtual_environment@,
        }
    }
}

/// Why a manifest could not be had.
#[derive(Clone, Copy, Debug, PartialEq, Eq, Structural)]
pub enum ManifestError {
    /// There is no manifest.
    Missing,
    /// The text is no manifest: no JSON, or a member is missing or of the wrong kind.
    Schema,
    /// The manifest could not be read or written.
    Io,
}

/// Reading the constraints as text changes neither keys nor membership.
pub proof fn lemma_dependency_views(pairs: Seq<(Seq<char>, String)>, key: Seq<char>)
    ensures
        same_keys(pairs, dependency_views(pairs)),
        ascending(dependency_views(pairs)) == ascending(pairs),
        holds(dependency_views(pairs), key) == holds(pairs, key),
        rank(dependency_views(pairs), key) == rank(pairs, key),
        0 <= rank(pairs, key) <= pairs.len(),
{
    assert(same_keys(pairs, dependency_views(pairs)));
    lemma_same_keys(pairs, dependency_views(pairs), key);
}

/// Storing a constraint and then reading the constraints as text is storing
/// the constraint's text.
pub proof fn lemma_dependency_views_stored(
    pairs: Seq<(Seq<char>, String)>,
    key: Seq<char>,
    constraint: String,
)
    ensures
        dependency_views(stored(pairs, key, constraint)) == stored(
            dependency_views(pairs),
            key,
            constraint@,
        ),
{
    lemma_dependency_views(pairs, key);
    let r = rank(pairs, key);
    let a = dependency_views(stored(pairs, key, constraint));
    let b = stored(dependency_views(pairs), key, constraint@);
    if !holds(pairs, key) {
        pairs.insert_ensures(r, (key, constraint));
        dependency_views(pairs).insert_ensures(r, (key, constraint@));
        assert forall|i: int| 0 <= i < a.len() implies a[i] == b[i] by {
            if i < r {
                assert(stored(pairs, key, constraint)[i] == pairs[i]);
            } else if i > r {
                assert(stored(pairs, key, constraint)[i] == pairs[i - 1]);
                assert(b[i] == dependency_views(pairs)[i - 1]);
            }
        }
    }
    assert(a =~= b);
}

/// Dropping a dependency and then reading the constraints as text is
/// dropping it from the text pairs.
pub proof fn lemma_dependency_views_dropped(pairs: Seq<(Seq<char>, String)>, key: Seq<char>)
    ensures
        dependency_views(dropped(pairs, key)) == dropped(dependency_views(pairs), key),
{
    lemma_dependency_views(pairs, key);
    let r = rank(pairs, key);
    if holds(pairs, key) {
        pairs.remove_ensures(r);
        dependency_views(pairs).remove_ensures(r);
    }
    assert(dependency_views(dropped(pairs, key)) =~= dropped(dependency_views(pairs), key));
}

/// The dependencies that the members of a JSON object stand for, each member
/// a package name with its constraint; nothing if a member is no string.
pub open spec fn dependencies_of_json(members: Seq<(Seq<char>, JsonView)>) -> Option<
    Seq<(Seq<char>, Seq<char>)>,
>
    decreases members.len(),
{
    if members.len() == 0 {
        Some(Seq::empty())
    } else {
        match (dependencies_of_json(members.drop_last()), text_of(members.last().1)) {
            (Some(head), Some(constraint)) => Some(stored(head, members.last().0, constraint)),
            _ => None,
        }
    }
}

/// The manifest that a JSON document stands for: an object with the string
/// members `name`, `version`, `python_version` and `virtualEnvironment` and
/// the object member `dependencies`.
pub open spec fn config_of_json(value: JsonView) -> Option<ConfigView> {
    match (
        text_field(value, "name"@),
        text_field(value, "version"@),
        text_field(value, "python_version"@),
        object_field(value, "dependencies"@),
        text_field(value, "virtualEnvironment"@),
    ) {
        (
            Some(name),
            Some(version),
            Some(python_version),
            Some(members),
            Some(virtual_environment),
        ) => match dependencies_of_json(members) {
            Some(dependencies) => Some(
                ConfigView { name, version, python_version, dependencies, virtual_environment },
            ),
            None => None,
        },
        _ => None,
    }
}

/// The dependencies written as the members of a JSON object, each name with
/// its constraint as a string, in key order.
pub open spec fn dependency_members(dependencies: Seq<(Seq<char>, Seq<char>)>) -> Seq<
    (Seq<char>, JsonView),
> {
    dependencies.map_values(|d: (Seq<char>, Seq<char>)| (d.0, JsonView::Text(d.1)))
}

/// The document that a manifest is written as: an object with the members
/// `name`, `version`, `python_version`, `dependencies` and
/// `virtualEnvironment`, in that order.
pub open spec fn config_document(c: ConfigView) -> JsonView {
    JsonView::Object(
        seq![
            ("name"@, JsonView::Text(c.name)),
            ("version"@, JsonView::Text(c.version)),
            ("python_version"@, JsonView::Text(c.python_version)),
            ("dependencies"@, JsonView::Object(dependency_members(c.dependencies))),
            ("virtualEnvironment"@, JsonView::Text(c.virtual_environment)),
        ],
    )
}


/// The manifest that a parsed text stands for.
pub open spec fn config_of_document(parsed: Option<JsonView>) -> Result<
    ConfigView,
    ManifestError,
> {
    match parsed {
        None => Err(ManifestError::Schema),
        Some(doc) => match config_of_json(doc) {
            Some(c) => Ok(c),
            None => Err(ManifestError::Schema),
        },
    }
}

/// The member names of the manifest format differ from one another.
proof fn lemma_member_names()
    ensures
        "name"@ != "version"@,
        "name"@ != "python_version"@,
        "name"@ != "dependencies"@,
        "name"@ != "virtualEnvironment"@,
        "version"@ != "python_version"@,
        "version"@ != "dependencies"@,
        "version"@ != "virtualEnvironment"@,
        "python_version"@ != "dependencies"@,
        "python_version"@ != "virtualEnvironment"@,
        "dependencies"@ != "virtualEnvironment"@,
{
    reveal_strlit("name");
    reveal_strlit("version");
    reveal_strlit("python_version");
    reveal_strlit("dependencies");
    reveal_strlit("virtualEnvironment");
    assert("name"@.len() == 4 && "version"@.len() == 7 && "python_version"@.len() == 14);
    assert("dependencies"@.len() == 12 && "virtualEnvironment"@.len() == 18);
}

/// Dependencies that were written in key order are read back as they were.
pub proof fn lemma_dependencies_round_trip(dependencies: Seq<(Seq<char>, Seq<char>)>)
    requires
        ascending(dependencies),
    ensures
        dependencies_of_json(dependency_members(dependencies)) == Some(dependencies),
    decreases dependencies.len(),
{
    if dependencies.len() > 0 {
        let head = dependencies.drop_last();
        let last = dependencies.last();
        assert forall|a: int, b: int| 0 <= a < b < head.len() implies lex_lt(
            #[trigger] head[a].0,
            #[trigger] head[b].0,
        ) by {
            assert(head[a] == dependencies[a] && head[b] == dependencies[b]);
        }
        assert forall|k: int| 0 <= k < head.len() implies lex_lt(#[trigger] head[k].0, last.0) by {
            assert(head[k] == dependencies[k]);
        }
        lemma_dependencies_round_trip(head);
        lemma_stored_above(head, last.0, last.1);
        assert(dependency_members(dependencies).drop_last() =~= dependency_members(head));
        assert(head.push(last) =~= dependencies);
    } else {
        assert(dependency_members(dependencies) =~= Seq::empty());
        assert(dependencies =~= Seq::empty());
    }
}

/// A manifest that is written and read back is the manifest it was.
pub proof fn lemma_config_round_trip(c: ConfigView)
    requires
        ascending(c.dependencies),
    ensures
        config_of_json(config_document(c)) == Some(c),
{
    let members = config_document(c)->Object_0;
    lemma_member_names();
    lemma_member_at(members, 0);
    lemma_member_at(members, 1);
    lemma_member_at(members, 2);
    lemma_member_at(members, 3);
    lemma_member_at(members, 4);
    lemma_dependencies_round_trip(c.dependencies);
}

/// Where a prefix of the members holds a value that is no string, so do the members.
proof fn lemma_dependencies_failure(members: Seq<(Seq<char>, JsonView)>, n: int)
    requires
        0 <= n <= members.len(),
    ensures
        dependencies_of_json(members.take(n)).is_none() ==> dependencies_of_json(
            members,
        ).is_none(),
    decreases members.len() - n,
{
    if n < members.len() {
        assert(members.take(n + 1).drop_last() =~= members.take(n));
        lemma_dependencies_failure(members, n + 1);
    } else {
        assert(members.take(n) =~= members);
    }
}

/// Reads the dependencies from the members of a JSON object.
fn dependencies_from_json(members: &Vec<(String, Json)>) -> (r: Option<StrMap<String>>)
    ensures
        match r {
            Some(map) => dependencies_of_json(member_views(members@)) == Some(
                dependency_views(map.pairs()),
            ),
            None => dependencies_of_json(member_views(members@)).is_none(),
        },
{
    let ghost all = member_views(members@);
    let mut out: StrMap<String> = StrMap::new();
    let mut i: usize = 0;
    assert(all.take(0) =~= Seq::empty());
    assert(dependency_views(out.pairs()) =~= Seq::empty());
    while i < members.len()
        invariant
            i <= members.len(),
            all == member_views(members@),
            dependencies_of_json(all.take(i as int)) == Some(dependency_views(out.pairs())),
        decreases members.len() - i,
    {
        proof {
            let t = all.take(i + 1);
            assert(t.drop_last() =~= all.take(i as int));
            assert(t.last() == (members@[i as int].0@, members@[i as int].1@));
            lemma_dependencies_failure(all, i as int + 1);
        }
        match members[i].1.as_text() {
            Some(constraint) => {
                let copy = constraint.clone();
                proof {
                    lemma_dependency_views_stored(out.pairs(), members@[i as int].0@, copy);
                }
                out.insert(members[i].0.clone(), copy);
            },
            None => {
                return None;
            },
        }
        i += 1;
    }
    assert(all.take(members.len() as int) =~= all);
    Some(out)
}

/// Writes the dependencies as the members of a JSON object, in key order.
fn dependencies_to_json(map: &StrMap<String>) -> (r: Vec<(String, Json)>)
    ensures
        member_views(r@) == dependency_members(dependency_views(map.pairs())),
{
    let ghost all = dependency_views(map.pairs());
    let mut out: Vec<(String, Json)> = Vec::new();
    let mut i: usize = 0;
    assert(member_views(out@) =~= dependency_members(all.take(0)));
    while i < map.len()
        invariant
            i <= map.pairs().len(),
            all == dependency_views(map.pairs()),
            member_views(out@) == dependency_members(all.take(i as int)),
        decreases map.pairs().len() - i,
    {
        let ghost before = out@;
        let member = text_member(map.key_at(i).as_str(), map.value_at(i).as_str());
        out.push(member);
        proof {
            assert(all[i as int] == (map.pairs()[i as int].0, map.pairs()[i as int].1@));
            assert(member_views(out@) =~= member_views(before).push((member.0@, member.1@)));
            assert(dependency_members(all.take(i + 1)) =~= dependency_members(
                all.take(i as int),
            ).push((all[i as int].0, JsonView::Text(all[i as int].1))));
        }
        i += 1;
    }
    assert(all.take(map.pairs().len() as int) =~= all);
    out
}

impl Config {
    /// The manifest that a new project starts with: no dependencies, Python
    /// 3.10 and the environment directory `.venv`.
    pub fn new_project() -> (c: Self)
        ensures
            c@ == (ConfigView {
                name: "my-python-project"@,
                version: "0.1.0"@,
                python_version: "3.10"@,
                dependencies: Seq::empty(),
                virtual_environment: ".venv"@,
            }),
    {
        let c = Config {
            name: owned("my-python-project"),
            version: owned("0.1.0"),
            python_version: owned("3.10"),
            dependencies: StrMap::new(),
            virtual_environment: owned(".venv"),
        };
        assert(c@.dependencies =~= Seq::empty());
        c
    }

    /// Adds the direct dependency `name` with the constraint `version`,
    /// unless the manifest has a dependency of that name already. Says
    /// whether it was added.
    pub fn add_dep(&mut self, name: &str, version: &str) -> (added: bool)
        ensures
            added == !holds(old(self)@.dependencies, name@),
            final(self)@ == if added {
                ConfigView {
                    dependencies: stored(old(self)@.dependencies, name@, version@),
                    ..old(self)@
                }
            } else {
                old(self)@
            },
    {
        proof {
            lemma_dependency_views(self.dependencies.pairs(), name@);
        }
        if self.dependencies.contains_key(name) {
            return false;
        }
        let constraint = owned(version);
        proof {
            lemma_dependency_views_stored(self.dependencies.pairs(), name@, constraint);
        }
        self.dependencies.insert(owned(name), constraint);
        true
    }

    /// Removes the direct dependency `name`. Says whether there was one.
    pub fn remove_dep(&mut self, name: &str) -> (removed: bool)
        ensures
            removed == holds(old(self)@.dependencies, name@),
            final(self)@ == (ConfigView {
                dependencies: dropped(old(self)@.dependencies, name@),
                ..old(self)@
            }),
    {
        proof {
            lemma_dependency_views(self.dependencies.pairs(), name@);
            lemma_dependency_views_dropped(self.dependencies.pairs(), name@);
        }
        self.dependencies.remove(name).is_some()
    }

    /// Writes the manifest as a JSON document: the document
    /// `config_document`, member for member. Reading the document back gives
    /// this manifest.
    pub fn to_json(&self) -> (r: Json)
        ensures
            r@ == config_document(self@),
            config_of_json(r@) == Some(self@),
    {
        let mut members: Vec<(String, Json)> = Vec::new();
        members.push(text_member("name", self.name.as_str()));
        members.push(text_member("version", self.version.as_str()));
        members.push(text_member("python_version", self.python_version.as_str()));
        let dependencies = dependencies_to_json(&self.dependencies);
        proof {
            lemma_object_view(dependencies);
        }
        members.push((owned("dependencies"), Json::Object(dependencies)));
        members.push(text_member("virtualEnvironment", self.virtual_environment.as_str()));
        proof {
            lemma_object_view(members);
            assert(member_views(members@) =~= config_document(self@)->Object_0);
            use_type_invariant(&self.dependencies);
            lemma_dependency_views(self.dependencies.pairs(), Seq::empty());
            lemma_config_round_trip(self@);
        }
        Json::Object(members)
    }

    /// Reads a manifest from a JSON document.
    pub fn from_json(value: &Json) -> (r: Result<Config, ManifestError>)
        ensures
            match config_of_json(value@) {
                Some(c) => r matches Ok(config) && config@ == c,
                None => r matches Err(e) && e == ManifestError::Schema,
            },
    {
        let name = value.text("name");
        let version = value.text("version");
        let python_version = value.text("python_version");
        let members = value.object("dependencies");
        let virtual_environment = value.text("virtualEnvironment");
        match (name, version, python_version, members, virtual_environment) {
            (Some(n), Some(v), Some(p), Some(m), Some(e)) => {
                match dependencies_from_json(m) {
                    Some(dependencies) => Ok(
                        Config {
                            name: n.clone(),
                            version: v.clone(),
                            python_version: p.clone(),
                            dependencies,
                            virtual_environment: e.clone(),
                        },
                    ),
                    None => Err(ManifestError::Schema),
                }
            },
            _ => Err(ManifestError::Schema),
        }
    }

    /// Reads a manifest from what parsing the text of a manifest file gave.
    pub fn from_document(parsed: Option<Json>) -> (r: Result<Config, ManifestError>)
        ensures
            match config_of_document(parsed_view(parsed)) {
                Ok(c) => r matches Ok(config) && config@ == c,
                Err(e) => r matches Err(x) && x == e,
            },
    {
        match parsed {
            None => Err(ManifestError::Schema),
            Some(doc) => Self::from_json(&doc),
        }
    }

    /// The text of the manifest file: the rendering of the document that
    /// the manifest is written as. Equal manifests give the same text.
    pub fn write(&self) -> (r: Result<String, ManifestError>)
        ensures
            match r {
                Ok(text) => json_rendered(config_document(self@)) == Some(text@),
                Err(e) => e == ManifestError::Io && json_rendered(
                    config_document(self@),
                ).is_none(),
            },
    {
        let doc = self.to_json();
        match render_json(&doc) {
            Some(text) => Ok(text),
            None => Err(ManifestError::Io),
        }
    }
}

/// Reads a manifest from the text of a manifest file.
pub fn read_config(content: &str) -> (r: Result<Config, ManifestError>)
    ensures
        match config_of_document(json_parsed(content@)) {
            Ok(c) => r matches Ok(config) && config@ == c,
            Err(e) => r matches Err(x) && x == e,
        },
{
    Config::from_document(parse_json(content))
}

} // verus!

//! What the package index tells about a release.

use vstd::prelude::*;
use crate::engine::lock::{artifact_views, Artifact, ArtifactView};
use crate::engine::selection::{platform_of, platform_tag};
use crate::engine::json::{
    array_field, array_of, document_views, field, json_parsed, lemma_array_view, member_views,
    object_field, parse_json, text_field, texts_from_json, texts_of_json, Json, JsonView,
};
use crate::engine::strmap::{images, lemma_images_stored, stored, StrMap};
use crate::engine::sync::{is_digest, valid_digest};
use crate::engine::text::{concat, owned, same_text, texts};

verus! {

/// The digests of one file.
#[derive(Debug)]
pub struct Digests {
    pub sha256: String,
}

/// One file of a release as the index lists it.
#[derive(Debug)]
pub struct PackageUrl {
    pub url: String,
    pub filename: String,
    pub packagetype: String,
    pub digests: Digests,
}

/// A `PackageUrl` as plain text fields.
pub struct PackageUrlView {
    pub url: Seq<char>,
    pub filename: Seq<char>,
    pub packagetype: Seq<char>,
    pub sha256: Seq<char>,
}

impl View for PackageUrl {
    type V = PackageUrlView;

    open spec fn view(&self) -> PackageUrlView {
        PackageUrlView {
            url: self.url@,
            filename: self.filename@,
            packagetype: self.packagetype@,
            sha256: self.digests.sha256@,
        }
    }
}

/// Each file of `items` as plain text fields.
pub open spec fn url_views(items: Seq<PackageUrl>) -> Seq<PackageUrlView> {
    items.map_values(|u: PackageUrl| u@)
}

/// The descriptive part of a release.
#[derive(Debug)]
pub struct Info {
    pub name: String,
    pub version: String,
    pub summary: Option<String>,
    pub requires_dist: Option<Vec<String>>,
}

/// An `Info` as plain values.
pub struct InfoView {
    pub name: Seq<char>,
    pub version: Seq<char>,
    pub summary: Option<Seq<char>>,
    pub requires_dist: Option<Seq<Seq<char>>>,
}

impl View for Info {
    type V = InfoView;

    open spec fn view(&self) -> InfoView {
        InfoView {
            name: self.name@,
            version: self.version@,
            summary: match self.summary {
                Some(s) => Some(s@),
                None => None,
            },
            requires_dist: match self.requires_dist {
                Some(r) => Some(texts(r@)),
                None => None,
            },
        }
    }
}

/// The index's answer for one release of a package.
#[derive(Debug)]
pub struct PypiPackageInfo {
    pub info: Info,
    pub urls: Vec<PackageUrl>,
}

/// A `PypiPackageInfo` as plain values.
pub struct PypiPackageInfoView {
    pub info: InfoView,
    pub urls: Seq<PackageUrlView>,
}

impl View for PypiPackageInfo {
    type V = PypiPackageInfoView;

    open spec fn view(&self) -> PypiPackageInfoView {
        PypiPackageInfoView { info: self.info@, urls: url_views(self.urls@) }
    }
}

/// The index's answer for a package with the files of all its releases.
#[derive(Debug)]
pub struct PypiFullInfo {
    pub info: Info,
    pub releases: StrMap<Vec<PackageUrl>>,
}

/// The requirement strings of a release; none where the index names none.
pub open spec fn requirements_of(info: InfoView) -> Seq<Seq<char>> {
    match info.requires_dist {
        Some(r) => r,
        None => Seq::empty(),
    }
}

/// The artifact that a listed file stands for: a wheel with the platform its
/// name tells, a source distribution as `source`, any other kind nothing. A
/// file whose digest has not the form of a digest stands for nothing either:
/// no bytes could ever be checked against it.
pub open spec fn artifact_from(u: PackageUrlView) -> Option<ArtifactView> {
    if !is_digest(u.sha256) {
        None
    } else if u.packagetype == "bdist_wheel"@ {
        Some(
            ArtifactView {
                url: u.url,
                filename: u.filename,
                sha256: u.sha256,
                platform: platform_of(u.filename),
            },
        )
    } else if u.packagetype == "sdist"@ {
        Some(
            ArtifactView {
                url: u.url,
                filename: u.filename,
                sha256: u.sha256,
                platform: "source"@,
            },
        )
    } else {
        None
    }
}

/// The artifacts that the listed files stand for, in listing order.
pub open spec fn artifacts_from(urls: Seq<PackageUrlView>) -> Seq<ArtifactView>
    decreases urls.len(),
{
    if urls.len() == 0 {
        Seq::empty()
    } else {
        let head = artifacts_from(urls.drop_last());
        match artifact_from(urls.last()) {
            Some(a) => head.push(a),
            None => head,
        }
    }
}

/// Turns the files that the index lists for a release into artifacts.
pub fn artifacts_of(urls: &Vec<PackageUrl>) -> (r: Vec<Artifact>)
    ensures
        artifact_views(r@) == artifacts_from(url_views(urls@)),
{
    let ghost listed = url_views(urls@);
    let mut out: Vec<Artifact> = Vec::new();
    let mut i: usize = 0;
    assert(listed.take(0) =~= Seq::empty());
    assert(artifact_views(out@) =~= Seq::empty());
    while i < urls.len()
        invariant
            i <= urls.len(),
            listed == url_views(urls@),
            artifact_views(out@) == artifacts_from(listed.take(i as int)),
        decreases urls.len() - i,
    {
        proof {
            let t = listed.take(i + 1);
            assert(t.drop_last() =~= listed.take(i as int));
            assert(t.last() == urls@[i as int]@);
        }
        let u = &urls[i];
        let ghost before = out@;
        if !valid_digest(u.digests.sha256.as_str()) {
        } else if same_text(u.packagetype.as_str(), "bdist_wheel") {
            let a = Artifact {
                url: u.url.clone(),
                filename: u.filename.clone(),
                sha256: u.digests.sha256.clone(),
                platform: platform_tag(u.filename.as_str()),
            };
            out.push(a);
            assert(artifact_views(out@) =~= artifact_views(before).push(a@));
        } else if same_text(u.packagetype.as_str(), "sdist") {
            let a = Artifact {
                url: u.url.clone(),
                filename: u.filename.clone(),
                sha256: u.digests.sha256.clone(),
                platform: owned("source"),
            };
            out.push(a);
            assert(artifact_views(out@) =~= artifact_views(before).push(a@));
        }
        i += 1;
    }
    assert(listed.take(urls.len() as int) =~= listed);
    out
}

/// The address of the index's metadata document for a package, or for one
/// version of it.
pub open spec fn metadata_address(name: Seq<char>, version: Option<Seq<char>>) -> Seq<char> {
    match version {
        Some(v) => "https://pypi.org/pypi/"@ + name + "/"@ + v + "/json"@,
        None => "https://pypi.org/pypi/"@ + name + "/json"@,
    }
}

/// Builds the address of the index's metadata document.
pub fn metadata_url(name: &str, version: Option<&str>) -> (r: String)
    ensures
        r@ == metadata_address(
            name@,
            match version {
                Some(v) => Some(v@),
                None => None,
            },
        ),
{
    let base = concat("https://pypi.org/pypi/", name);
    match version {
        Some(v) => {
            let with_slash = concat(base.as_str(), "/");
            let with_version = concat(with_slash.as_str(), v);
            concat(with_version.as_str(), "/json")
        },
        None => concat(base.as_str(), "/json"),
    }
}

/// The optional string member `name` of an object: absent and `null` count
/// as no value; any other kind of value is a fault.
pub open spec fn optional_text(value: JsonView, name: Seq<char>) -> Option<Option<Seq<char>>> {
    match field(value, name) {
        None => Some(None),
        Some(JsonView::Null) => Some(None),
        Some(JsonView::Text(s)) => Some(Some(s)),
        Some(_) => None,
    }
}

/// The optional member `name` of an object that lists strings: absent and
/// `null` count as no value; any other kind of value is a fault.
pub open spec fn optional_texts(value: JsonView, name: Seq<char>) -> Option<Option<Seq<Seq<char>>>> {
    match field(value, name) {
        None => Some(None),
        Some(JsonView::Null) => Some(None),
        Some(JsonView::Array(items)) => match texts_of_json(items) {
            Some(list) => Some(Some(list)),
            None => None,
        },
        Some(_) => None,
    }
}

/// The descriptive part that a JSON object stands for: the string members
/// `name` and `version`, and optionally `summary` and `requires_dist`.
pub open spec fn info_of_json(value: JsonView) -> Option<InfoView> {
    match (
        text_field(value, "name"@),
        text_field(value, "version"@),
        optional_text(value, "summary"@),
        optional_texts(value, "requires_dist"@),
    ) {
        (Some(name), Some(version), Some(summary), Some(requires_dist)) => Some(
            InfoView { name, version, summary, requires_dist },
        ),
        _ => None,
    }
}

/// The listed file that a JSON object stands for: the string members `url`,
/// `filename` and `packagetype`, and `sha256` inside the member `digests`.
pub open spec fn url_of_json(value: JsonView) -> Option<PackageUrlView> {
    match (
        text_field(value, "url"@),
        text_field(value, "filename"@),
        text_field(value, "packagetype"@),
        field(value, "digests"@),
    ) {
        (Some(url), Some(filename), Some(packagetype), Some(digests)) => match text_field(
            digests,
            "sha256"@,
        ) {
            Some(sha256) => Some(PackageUrlView { url, filename, packagetype, sha256 }),
            None => None,
        },
        _ => None,
    }
}

/// The listed files that a list of JSON objects stands for.
pub open spec fn urls_of_json(items: Seq<JsonView>) -> Option<Seq<PackageUrlView>>
    decreases items.len(),
{
    if items.len() == 0 {
        Some(Seq::empty())
    } else {
        match (urls_of_json(items.drop_last()), url_of_json(items.last())) {
            (Some(head), Some(u)) => Some(head.push(u)),
            _ => None,
        }
    }
}

/// The release that the index's metadata document stands for: the members
/// `info` and `urls`.
pub open spec fn package_info_of_json(value: JsonView) -> Option<PypiPackageInfoView> {
    match (field(value, "info"@), array_field(value, "urls"@)) {
        (Some(info), Some(items)) => match (info_of_json(info), urls_of_json(items)) {
            (Some(info), Some(urls)) => Some(PypiPackageInfoView { info, urls }),
            _ => None,
        },
        _ => None,
    }
}

/// Reads an optional string member.
fn optional_text_from(value: &Json, name: &str) -> (r: Option<Option<String>>)
    ensures
        match r {
            Some(Some(s)) => optional_text(value@, name@) == Some(Some(s@)),
            Some(None) => optional_text(value@, name@) == Some(None::<Seq<char>>),
            None => optional_text(value@, name@).is_none(),
        },
{
    match value.get(name) {
        None => Some(None),
        Some(Json::Null) => Some(None),
        Some(Json::Text(s)) => Some(Some(s.clone())),
        Some(_) => None,
    }
}

/// Reads an optional member that lists strings.
fn optional_texts_from(value: &Json, name: &str) -> (r: Option<Option<Vec<String>>>)
    ensures
        match r {
            Some(Some(list)) => optional_texts(value@, name@) == Some(Some(texts(list@))),
            Some(None) => optional_texts(value@, name@) == Some(None::<Seq<Seq<char>>>),
            None => optional_texts(value@, name@).is_none(),
        },
{
    match value.get(name) {
        None => Some(None),
        Some(Json::Null) => Some(None),
        Some(Json::Array(items)) => {
            proof {
                lemma_array_view(*items);
            }
            match texts_from_json(items) {
                Some(list) => Some(Some(list)),
                None => None,
            }
        },
        Some(_) => None,
    }
}

impl Info {
    /// Reads the descriptive part of a release from a JSON object.
    pub fn from_json(value: &Json) -> (r: Option<Info>)
        ensures
            match r {
                Some(info) => info_of_json(value@) == Some(info@),
                None => info_of_json(value@).is_none(),
            },
    {
        let name = value.text("name");
        let version = value.text("version");
        let summary = optional_text_from(value, "summary");
        let requires_dist = optional_texts_from(value, "requires_dist");
        match (name, version, summary, requires_dist) {
            (Some(n), Some(v), Some(summary), Some(requires_dist)) => Some(
                Info { name: n.clone(), version: v.clone(), summary, requires_dist },
            ),
            _ => None,
        }
    }
}

impl PackageUrl {
    /// Reads a listed file from a JSON object.
    pub fn from_json(value: &Json) -> (r: Option<PackageUrl>)
        ensures
            match r {
                Some(u) => url_of_json(value@) == Some(u@),
                None => url_of_json(value@).is_none(),
            },
    {
        let url = value.text("url");
        let filename = value.text("filename");
        let packagetype = value.text("packagetype");
        let digests = value.get("digests");
        match (url, filename, packagetype, digests) {
            (Some(u), Some(f), Some(p), Some(d)) => match d.text("sha256") {
                Some(sha256) => Some(
                    PackageUrl {
                        url: u.clone(),
                        filename: f.clone(),
                        packagetype: p.clone(),
                        digests: Digests { sha256: sha256.clone() },
                    },
                ),
                None => None,
            },
            _ => None,
        }
    }
}

/// Where a prefix of a list holds a value that is no listed file, so does the list.
proof fn lemma_urls_failure(items: Seq<JsonView>, n: int)
    requires
        0 <= n <= items.len(),
    ensures
        urls_of_json(items.take(n)).is_none() ==> urls_of_json(items).is_none(),
    decreases items.len() - n,
{
    if n < items.len() {
        assert(items.take(n + 1).drop_last() =~= items.take(n));
        lemma_urls_failure(items, n + 1);
    } else {
        assert(items.take(n) =~= items);
    }
}

/// Reads a list of listed files.
pub fn urls_from_json(items: &Vec<Json>) -> (r: Option<Vec<PackageUrl>>)
    ensures
        match r {
            Some(list) => urls_of_json(document_views(items@)) == Some(url_views(list@)),
            None => urls_of_json(document_views(items@)).is_none(),
        },
{
    let ghost all = document_views(items@);
    let mut out: Vec<PackageUrl> = Vec::new();
    let mut i: usize = 0;
    assert(all.take(0) =~= Seq::empty());
    assert(url_views(out@) =~= Seq::empty());
    while i < items.len()
        invariant
            i <= items.len(),
            all == document_views(items@),
            urls_of_json(all.take(i as int)) == Some(url_views(out@)),
        decreases items.len() - i,
    {
        proof {
            let t = all.take(i + 1);
            assert(t.drop_last() =~= all.take(i as int));
            assert(t.last() == items@[i as int]@);
            lemma_urls_failure(all, i as int + 1);
        }
        match PackageUrl::from_json(&items[i]) {
            Some(u) => {
                let ghost before = out@;
                out.push(u);
                assert(url_views(out@) =~= url_views(before).push(u@));
            },
            None => {
                return None;
            },
        }
        i += 1;
    }
    assert(all.take(items.len() as int) =~= all);
    Some(out)
}

impl PypiPackageInfo {
    /// Reads a release from the index's metadata document.
    pub fn from_json(value: &Json) -> (r: Option<PypiPackageInfo>)
        ensures
            match r {
                Some(p) => package_info_of_json(value@) == Some(p@),
                None => package_info_of_json(value@).is_none(),
            },
    {
        match (value.get("info"), value.array("urls")) {
            (Some(info), Some(items)) => match (Info::from_json(info), urls_from_json(items)) {
                (Some(info), Some(urls)) => Some(PypiPackageInfo { info, urls }),
                _ => None,
            },
            _ => None,
        }
    }

    /// Reads a release from what parsing the index's answer gave.
    pub fn from_document(parsed: Option<Json>) -> (r: Option<PypiPackageInfo>)
        ensures
            match r {
                Some(p) => parsed matches Some(doc) && package_info_of_json(doc@) == Some(p@),
                None => parsed matches Some(doc) ==> package_info_of_json(doc@).is_none(),
            },
    {
        match parsed {
            Some(doc) => Self::from_json(&doc),
            None => None,
        }
    }
}

/// Reads a release from the text of the index's answer; nothing where the
/// text is no JSON or the document no release.
pub fn parse_package_info(content: &str) -> (r: Option<PypiPackageInfo>)
    ensures
        match r {
            Some(p) => json_parsed(content@) matches Some(doc) && package_info_of_json(doc)
                == Some(p@),
            None => json_parsed(content@) matches Some(doc) ==> package_info_of_json(
                doc,
            ).is_none(),
        },
{
    PypiPackageInfo::from_document(parse_json(content))
}

/// The files of each release as plain values.
pub open spec fn release_file_views(pairs: Seq<(Seq<char>, Vec<PackageUrl>)>) -> Seq<
    (Seq<char>, Seq<PackageUrlView>),
> {
    pairs.map_values(|p: (Seq<char>, Vec<PackageUrl>)| (p.0, url_views(p.1@)))
}

/// The releases that the members of a JSON object stand for, each member a
/// version with the list of its files.
pub open spec fn releases_of_json(members: Seq<(Seq<char>, JsonView)>) -> Option<
    Seq<(Seq<char>, Seq<PackageUrlView>)>,
>
    decreases members.len(),
{
    if members.len() == 0 {
        Some(Seq::empty())
    } else {
        match (releases_of_json(members.drop_last()), array_of(members.last().1)) {
            (Some(head), Some(items)) => match urls_of_json(items) {
                Some(urls) => Some(stored(head, members.last().0, urls)),
                None => None,
            },
            _ => None,
        }
    }
}

/// Where a prefix of the members holds a value that is no file list, so do the members.
proof fn lemma_releases_failure(members: Seq<(Seq<char>, JsonView)>, n: int)
    requires
        0 <= n <= members.len(),
    ensures
        releases_of_json(members.take(n)).is_none() ==> releases_of_json(members).is_none(),
    decreases members.len() - n,
{
    if n < members.len() {
        assert(members.take(n + 1).drop_last() =~= members.take(n));
        lemma_releases_failure(members, n + 1);
    } else {
        assert(members.take(n) =~= members);
    }
}

/// A `PypiFullInfo` as plain values; the releases as (version, files) pairs
/// in key order.
pub struct PypiFullInfoView {
    pub info: InfoView,
    pub releases: Seq<(Seq<char>, Seq<PackageUrlView>)>,
}

impl View for PypiFullInfo {
    type V = PypiFullInfoView;

    open spec fn view(&self) -> PypiFullInfoView {
        PypiFullInfoView { info: self.info@, releases: release_file_views(self.releases.pairs()) }
    }
}

/// The package that the index's metadata document stands for: the members
/// `info` and `releases`.
pub open spec fn full_info_of_json(value: JsonView) -> Option<PypiFullInfoView> {
    match (field(value, "info"@), object_field(value, "releases"@)) {
        (Some(info), Some(members)) => match (info_of_json(info), releases_of_json(members)) {
            (Some(info), Some(releases)) => Some(PypiFullInfoView { info, releases }),
            _ => None,
        },
        _ => None,
    }
}

impl PypiFullInfo {
    /// Reads a package with all its releases from the index's metadata document.
    pub fn from_json(value: &Json) -> (r: Option<PypiFullInfo>)
        ensures
            match r {
                Some(p) => full_info_of_json(value@) == Some(p@),
                None => full_info_of_json(value@).is_none(),
            },
    {
        let info = match value.get("info") {
            Some(i) => match Info::from_json(i) {
                Some(info) => info,
                None => {
                    return None;
                },
            },
            None => {
                return None;
            },
        };
        let members = match value.object("releases") {
            Some(members) => members,
            None => {
                return None;
            },
        };
        let mut releases: StrMap<Vec<PackageUrl>> = StrMap::new();
        let mut i: usize = 0;
        let ghost all = member_views(members@);
        assert(all.take(0) =~= Seq::empty());
        assert(release_file_views(releases.pairs()) =~= Seq::empty());
        while i < members.len()
            invariant
                i <= members.len(),
                all == member_views(members@),
                object_field(value@, "releases"@) == Some(all),
                releases_of_json(all.take(i as int)) == Some(
                    release_file_views(releases.pairs()),
                ),
            decreases members.len() - i,
        {
            proof {
                let t = all.take(i + 1);
                assert(t.drop_last() =~= all.take(i as int));
                assert(t.last() == (members@[i as int].0@, members@[i as int].1@));
                lemma_releases_failure(all, i as int + 1);
            }
            let files = match members[i].1.as_array() {
                Some(items) => match urls_from_json(items) {
                    Some(files) => files,
                    None => {
                        return None;
                    },
                },
                None => {
                    return None;
                },
            };
            proof {
                let f = |v: Vec<PackageUrl>| url_views(v@);
                let before = releases.pairs();
                assert(images(before, release_file_views(before), f));
                lemma_images_stored(
                    before,
                    release_file_views(before),
                    f,
                    members@[i as int].0@,
                    files,
                );
                let after = stored(before, members@[i as int].0@, files);
                assert(images(after, release_file_views(after), f));
                assert(release_file_views(after) =~= stored(
                    release_file_views(before),
                    members@[i as int].0@,
                    url_views(files@),
                ));
            }
            releases.insert(members[i].0.clone(), files);
            i += 1;
        }
        assert(all.take(members.len() as int) =~= all);
        Some(PypiFullInfo { info, releases })
    }
}

impl PypiFullInfo {
    /// Reads a package with all its releases from what parsing the index's
    /// answer gave.
    pub fn from_document(parsed: Option<Json>) -> (r: Option<PypiFullInfo>)
        ensures
            match r {
                Some(p) => parsed matches Some(doc) && full_info_of_json(doc@) == Some(p@),
                None => parsed matches Some(doc) ==> full_info_of_json(doc@).is_none(),
            },
    {
        match parsed {
            Some(doc) => Self::from_json(&doc),
            None => None,
        }
    }
}

/// Reads a package with all its releases from the text of the index's
/// answer; nothing where the text is no JSON or the document no package.
pub fn parse_full_package_info(content: &str) -> (r: Option<PypiFullInfo>)
    ensures
        match r {
            Some(p) => json_parsed(content@) matches Some(doc) && full_info_of_json(doc) == Some(
                p@,
            ),
            None => json_parsed(content@) matches Some(doc) ==> full_info_of_json(doc).is_none(),
        },
{
    PypiFullInfo::from_document(parse_json(content))
}

} // verus!

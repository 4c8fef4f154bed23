//! The content-addressed artifact cache: where an artifact lives and what may
//! be written there.
//!
//! An artifact with digest `d` and file name `f` lives at `<root>/<d>/<f>`.
//! Bytes are admitted only if they hash to the digest they are stored under,
//! so whatever is found in the cache is what its path says.

use vstd::prelude::*;
use crate::engine::sync::{digest_matches, is_digest, sha256_hex, Failure};
use crate::engine::text::concat;

verus! {

/// The path of the cache entry for the file `filename` with digest `sha256`.
pub open spec fn entry_path(root: Seq<char>, sha256: Seq<char>, filename: Seq<char>) -> Seq<char> {
    root + "/"@ + sha256 + "/"@ + filename
}

/// The directory of the cache entries with digest `sha256`.
pub open spec fn entry_dir(root: Seq<char>, sha256: Seq<char>) -> Seq<char> {
    root + "/"@ + sha256
}

/// The cache directory below the user's home directory.
pub open spec fn cache_dir_below(home: Seq<char>) -> Seq<char> {
    home + "/.wovensnake/cache"@
}

/// The cache directory of the user whose home directory is `home`.
pub fn default_cache_dir(home: &str) -> (r: String)
    ensures
        r@ == cache_dir_below(home@),
{
    concat(home, "/.wovensnake/cache")
}

/// Asks the file system whether something exists at `path`, with
/// `std::path::Path::exists`. The answer is that of the moment.
#[verifier::external_body]
fn exists_on_disk(path: &str) -> bool {
    std::path::Path::new(path).exists()
}

/// How to store an artifact: write the bytes to a new file inside
/// `directory` that no other writer uses, then move that file to `target`.
/// Writers of one entry write the same bytes, so it does not matter whose
/// file is moved last.
#[derive(Debug)]
pub struct SavePlan {
    pub directory: String,
    pub target: String,
}

/// How to place a cached artifact in a directory: link or copy `source` to
/// `target`, unless `target` is there already.
#[derive(Debug)]
pub struct LinkPlan {
    pub source: String,
    pub target: String,
}

/// The artifact cache rooted at a directory.
#[derive(Debug, Clone)]
pub struct Cache {
    base_dir: String,
}

impl Cache {
    /// The root directory of the cache.
    pub closed spec fn root(&self) -> Seq<char> {
        self.base_dir@
    }

    /// The cache rooted at `base_dir`.
    pub fn new(base_dir: String) -> (c: Self)
        ensures
            c.root() == base_dir@,
    {
        Cache { base_dir }
    }

    /// The root directory of the cache.
    pub fn base_dir(&self) -> (r: &str)
        ensures
            r@ == self.root(),
    {
        self.base_dir.as_str()
    }

    /// A cache with the same root.
    pub fn duplicate(&self) -> (c: Self)
        ensures
            c.root() == self.root(),
    {
        Cache { base_dir: self.base_dir.clone() }
    }

    /// The path of the entry for the file `filename` with digest `sha256`.
    pub fn get_pkg_path(&self, filename: &str, sha256: &str) -> (r: String)
        ensures
            r@ == entry_path(self.root(), sha256@, filename@),
    {
        let dir = self.entry_directory(sha256);
        let with_slash = concat(dir.as_str(), "/");
        concat(with_slash.as_str(), filename)
    }

    /// The directory of the entries with digest `sha256`.
    pub fn entry_directory(&self, sha256: &str) -> (r: String)
        ensures
            r@ == entry_dir(self.root(), sha256@),
    {
        let with_slash = concat(self.base_dir.as_str(), "/");
        concat(with_slash.as_str(), sha256)
    }

    /// Tests whether the cache holds the file `filename` with digest
    /// `sha256`: whether its entry exists on disk at this moment.
    ///
    /// The file system is asked about the path of `get_pkg_path` and its
    /// answer is handed on as it is. The content is not looked at: it was
    /// checked when it was saved. Nothing is promised of the answer, which
    /// may differ from one call to the next.
    pub fn contains(&self, filename: &str, sha256: &str) -> bool {
        let path = self.get_pkg_path(filename, sha256);
        exists_on_disk(path.as_str())
    }

    /// Admits `data` as the file `filename` with digest `sha256`, and says
    /// where to write it.
    ///
    /// The bytes are admitted if and only if they hash to `sha256`. They go
    /// to a file of the writer's own beside the entry first, which is moved
    /// into place afterwards, so that the entry is never there with other
    /// content.
    pub fn save(&self, filename: &str, sha256: &str, data: &[u8]) -> (r: Result<
        SavePlan,
        Failure,
    >)
        ensures
            match r {
                Ok(plan) => sha256_hex(data@) == sha256@ && is_digest(sha256@) && plan.directory@
                    == entry_dir(self.root(), sha256@) && plan.target@ == entry_path(
                    self.root(),
                    sha256@,
                    filename@,
                ),
                Err(e) => sha256_hex(data@) != sha256@ && e == Failure::DigestMismatch,
            },
    {
        if !digest_matches(data, sha256) {
            return Err(Failure::DigestMismatch);
        }
        let target = self.get_pkg_path(filename, sha256);
        Ok(SavePlan { directory: self.entry_directory(sha256), target })
    }

    /// Says how to place the cached file `filename` with digest `sha256` in
    /// the directory `project_packages_dir`: from its entry to the file of
    /// the same name in that directory.
    pub fn link_to_project(&self, filename: &str, sha256: &str, project_packages_dir: &str) -> (r:
        LinkPlan)
        ensures
            r.source@ == entry_path(self.root(), sha256@, filename@),
            r.target@ == project_packages_dir@ + "/"@ + filename@,
    {
        let with_slash = concat(project_packages_dir, "/");
        LinkPlan {
            source: self.get_pkg_path(filename, sha256),
            target: concat(with_slash.as_str(), filename),
        }
    }
}

/// The files on disk that matter here: path to content.
pub type Disk = Map<Seq<char>, Seq<u8>>;

/// The disk after the plan of a `save` has been carried out: the bytes stand
/// at the entry's path if they were admitted, and nothing has changed if not.
pub open spec fn disk_after_save(
    disk: Disk,
    root: Seq<char>,
    filename: Seq<char>,
    sha256: Seq<char>,
    data: Seq<u8>,
) -> Disk {
    if sha256_hex(data) == sha256 {
        disk.insert(entry_path(root, sha256, filename), data)
    } else {
        disk
    }
}

/// The disk after the plan of a `link_to_project` has been carried out: the
/// target holds what the entry holds, unless the target was there or the
/// entry was not.
pub open spec fn disk_after_link(
    disk: Disk,
    root: Seq<char>,
    filename: Seq<char>,
    sha256: Seq<char>,
    directory: Seq<char>,
) -> Disk {
    let source = entry_path(root, sha256, filename);
    let target = directory + "/"@ + filename;
    if disk.dom().contains(source) && !disk.dom().contains(target) {
        disk.insert(target, disk[source])
    } else {
        disk
    }
}

/// After a save, the cache holds the entry, and placing it in a directory
/// that does not have the file yet puts there bytes that hash to the digest.
pub proof fn lemma_save_then_link(
    disk: Disk,
    root: Seq<char>,
    filename: Seq<char>,
    sha256: Seq<char>,
    data: Seq<u8>,
    directory: Seq<char>,
)
    requires
        sha256_hex(data) == sha256,
        !disk_after_save(disk, root, filename, sha256, data).dom().contains(
            directory + "/"@ + filename,
        ),
    ensures
        disk_after_save(disk, root, filename, sha256, data).dom().contains(
            entry_path(root, sha256, filename),
        ),
        sha256_hex(
            disk_after_link(
                disk_after_save(disk, root, filename, sha256, data),
                root,
                filename,
                sha256,
                directory,
            )[directory + "/"@ + filename],
        ) == sha256,
{
}

/// Bytes that do not hash to the digest they are claimed under leave the
/// disk as it was.
pub proof fn lemma_rejected_bytes_stay_out(
    disk: Disk,
    root: Seq<char>,
    filename: Seq<char>,
    sha256: Seq<char>,
    data: Seq<u8>,
)
    requires
        sha256_hex(data) != sha256,
    ensures
        disk_after_save(disk, root, filename, sha256, data) == disk,
{
}

/// Placing a file that is there already changes nothing.
pub proof fn lemma_link_settles(
    disk: Disk,
    root: Seq<char>,
    filename: Seq<char>,
    sha256: Seq<char>,
    directory: Seq<char>,
)
    ensures
        disk_after_link(
            disk_after_link(disk, root, filename, sha256, directory),
            root,
            filename,
            sha256,
            directory,
        ) == disk_after_link(disk, root, filename, sha256, directory),
{
}

} // verus!

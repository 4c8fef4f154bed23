use sha2::{Digest, Sha256};
use wovensnake::engine::cache::{default_cache_dir, Cache};
use wovensnake::engine::sync::Failure;

fn hex(bytes: &[u8]) -> String {
    format!("{:x}", Sha256::digest(bytes))
}

#[test]
fn entry_paths() {
    let cache = Cache::new("/home/u/.wovensnake/cache".to_string());
    assert_eq!(cache.base_dir(), "/home/u/.wovensnake/cache");
    assert_eq!(
        cache.get_pkg_path("test-pkg.whl", "1234567890abcdef"),
        "/home/u/.wovensnake/cache/1234567890abcdef/test-pkg.whl"
    );
    assert_eq!(cache.entry_directory("1234567890abcdef"), "/home/u/.wovensnake/cache/1234567890abcdef");
    assert_eq!(default_cache_dir("/home/u"), "/home/u/.wovensnake/cache");
    assert_eq!(cache.duplicate().base_dir(), cache.base_dir());
}

#[test]
fn save_admits_only_bytes_that_hash_to_the_digest() {
    let cache = Cache::new("cache".to_string());
    let content = b"fake package content";
    let digest = hex(content);
    let plan = cache.save("test-pkg.whl", &digest, content).unwrap();
    assert_eq!(plan.target, cache.get_pkg_path("test-pkg.whl", &digest));
    assert_eq!(plan.directory, format!("cache/{digest}"));
    assert_eq!(cache.save("test-pkg.whl", "1234567890abcdef", content).err(), Some(Failure::DigestMismatch));
    assert_eq!(cache.save("test-pkg.whl", &digest, b"other content").err(), Some(Failure::DigestMismatch));
}

#[test]
fn what_is_linked_is_what_was_saved() {
    let cache = Cache::new("cache".to_string());
    let content = b"fake package content";
    let digest = hex(content);
    let plan = cache.save("test-pkg.whl", &digest, content).unwrap();
    let link = cache.link_to_project("test-pkg.whl", &digest, "packages");
    assert_eq!(link.source, plan.target);
    assert_eq!(link.target, "packages/test-pkg.whl");
}

#[test]
fn contains_asks_the_disk() {
    let root = tempfile::tempdir().unwrap();
    let entry_dir = tempfile::Builder::new().prefix("digest").tempdir_in(root.path()).unwrap();
    let entry = tempfile::Builder::new().prefix("pkg").suffix(".whl").tempfile_in(entry_dir.path()).unwrap();
    let digest = entry_dir.path().file_name().unwrap().to_str().unwrap().to_string();
    let filename = entry.path().file_name().unwrap().to_str().unwrap().to_string();
    let cache = Cache::new(root.path().to_str().unwrap().to_string());
    assert!(cache.contains(&filename, &digest));
    assert!(!cache.contains("missing.whl", &digest));
    assert!(!cache.contains(&filename, "other-digest"));
}

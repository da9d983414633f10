use henka::path::PathBuf;
use henka::server::pathmap::PathMap;

fn path(text: &str) -> PathBuf {
    PathBuf::new(text)
}

#[test]
fn rewrites_longest_matching_prefix() {
    let map = PathMap::parse("/home/me=/broad, /home/me/src=/workspaces");
    assert_eq!(
        map.map(&path("/home/me/src/trino.multiset")),
        path("/workspaces/trino.multiset")
    );
    assert_eq!(map.map(&path("/home/me/src")), path("/workspaces"));
    assert_eq!(map.map(&path("/home/me/docs")), path("/broad/docs"));
}

#[test]
fn reverse_maps_container_paths_back_to_host() {
    let map = PathMap::parse("/home/me/src=/workspaces, /data/repos=/mnt/repos");
    assert_eq!(
        map.reverse(&path("/workspaces/trino.multiset")),
        Some(path("/home/me/src/trino.multiset"))
    );
    assert_eq!(map.reverse(&path("/mnt/repos/svc")), Some(path("/data/repos/svc")));
    assert_eq!(map.reverse(&path("/elsewhere/x")), None);
}

#[test]
fn leaves_unmatched_and_relative_paths_alone() {
    let map = PathMap::parse("/home/me/src=/workspaces");
    assert_eq!(map.map(&path("/home/me/srcfoo")), path("/home/me/srcfoo"));
    assert_eq!(map.map(&path("rel/path")), path("rel/path"));
}

#[test]
fn empty_and_malformed_specs_are_identity() {
    assert!(PathMap::parse("").is_empty());
    assert!(PathMap::parse("no-equals-sign, =/c, /h=").is_empty());
    let map = PathMap::parse("");
    assert_eq!(map.map(&path("/a/b")), path("/a/b"));
}

#[test]
fn trailing_empty_entry_is_ignored() {
    let map = PathMap::parse("/home/me/src=/workspaces,");
    assert_eq!(map.map(&path("/home/me/src/proj")), path("/workspaces/proj"));
}

#[test]
fn entries_are_parted_in_three_ways() {
    let map = PathMap::parse("/a=/x;/b=/y\n /c = /z=q ");
    assert_eq!(map.map(&path("/a/1")), path("/x/1"));
    assert_eq!(map.map(&path("/b/1")), path("/y/1"));
    assert_eq!(map.map(&path("/c/1")), path("/z=q/1"));
    assert_eq!(map.container_prefixes(), vec![path("/x"), path("/y"), path("/z=q")]);
}

#[test]
fn maps_without_a_value_rewrite_nothing() {
    assert!(PathMap::from_env(&None).is_empty());
    assert!(!PathMap::from_env(&Some("/a=/b".to_string())).is_empty());
}

#[test]
fn rewritten_paths_are_rewritten_back() {
    let map = PathMap::parse("/home/me/src=/workspaces, /data/repos=/mnt/repos");
    for p in ["/home/me/src/a/b", "/data/repos/c", "/home/me/src"] {
        assert_eq!(map.reverse(&map.map(&path(p))), Some(path(p)));
    }
}

use henka::path::PathBuf;
use henka::provider::{session_key, unversioned_key};
use henka::text::{decimal_text, hex_text, is_before, lower_ascii, parse_usize, trim};

fn path(text: &str) -> PathBuf {
    PathBuf::new(text)
}

fn samples() -> Vec<&'static str> {
    vec![
        "", "/", ".", "..", "a", "/a", "a/", "/a/", "./a", "a/.", "a/./b", "a//b", "/a/b", "/a/../b",
        "a/..", "//a", "./", "/.", "a.b", ".hidden", "a.tar.gz", "a.", "/a b/ü.rs", "a/b/c",
    ]
}

#[test]
fn components_are_those_of_std() {
    for s in samples() {
        let ours = path(s).components();
        let theirs: Vec<String> = std::path::Path::new(s)
            .components()
            .map(|c| c.as_os_str().to_str().unwrap().to_string())
            .collect();
        assert_eq!(ours, theirs, "{s:?}");
    }
}

#[test]
fn joining_and_stripping_are_those_of_std() {
    for a in samples() {
        for b in samples() {
            let joined = std::path::Path::new(a).join(b);
            assert_eq!(path(a).join(&path(b)).as_str(), joined.to_str().unwrap(), "{a:?} {b:?}");
            let stripped = std::path::Path::new(a).strip_prefix(b).ok();
            let ours = path(a).strip_prefix(&path(b));
            assert_eq!(
                ours.as_ref().map(|p| p.as_str()),
                stripped.map(|p| p.to_str().unwrap()),
                "{a:?} {b:?}"
            );
            assert_eq!(
                path(a) == path(b),
                std::path::Path::new(a) == std::path::Path::new(b),
                "{a:?} {b:?}"
            );
            assert_eq!(
                path(a).comes_before(&path(b)),
                std::path::Path::new(a) < std::path::Path::new(b),
                "{a:?} {b:?}"
            );
            assert_eq!(
                path(a).starts_with(&path(b)),
                std::path::Path::new(a).starts_with(b),
                "{a:?} {b:?}"
            );
        }
    }
}

#[test]
fn parts_of_paths_are_those_of_std() {
    for s in samples() {
        let p = std::path::Path::new(s);
        assert_eq!(
            path(s).parent().as_ref().map(|d| d.as_str()),
            p.parent().map(|d| d.to_str().unwrap()),
            "{s:?}"
        );
        assert_eq!(
            path(s).file_name().as_deref(),
            p.file_name().map(|n| n.to_str().unwrap()),
            "{s:?}"
        );
        assert_eq!(
            path(s).extension().as_deref(),
            p.extension().map(|n| n.to_str().unwrap()),
            "{s:?}"
        );
        assert_eq!(path(s).is_absolute(), p.is_absolute(), "{s:?}");
    }
}

#[test]
fn numbers_have_notations() {
    assert_eq!(decimal_text(0), "0");
    assert_eq!(decimal_text(40207), "40207");
    assert_eq!(hex_text(0xbeef, 8), "0000beef");
    assert_eq!(parse_usize("0042"), Some(42));
    assert_eq!(parse_usize("+7"), Some(7));
    assert_eq!(parse_usize(""), None);
    assert_eq!(parse_usize("4x"), None);
}

#[test]
fn white_space_is_trimmed() {
    for s in ["", "  ", " a b ", "\u{a0}x\u{2003}", "\r\nline\r\n"] {
        assert_eq!(trim(s), s.trim());
    }
}

#[test]
fn texts_are_ordered_as_in_std() {
    for a in ["", "a", "ab", "b", "é", "💡"] {
        for b in ["", "a", "ab", "b", "é", "💡"] {
            assert_eq!(is_before(a, b), a < b);
        }
    }
    assert_eq!(lower_ascii("ÄBC"), "Äbc");
}

#[test]
fn provider_novcs_roots_get_distinct_keys() {
    let a = path("/tmp/a");
    let b = path("/tmp/b");
    assert_ne!(session_key(&None, &a), session_key(&None, &b));
    assert_eq!(session_key(&None, &a), session_key(&None, &a), "stable per root");
}

#[test]
fn git_worktrees_share_session_key() {
    let identity = Some("repo-1".to_string());
    assert_eq!(
        session_key(&identity, &path("/tmp/main")),
        session_key(&identity, &path("/tmp/wt"))
    );
}

#[test]
fn keys_of_roots_are_hexadecimal() {
    assert_eq!(unversioned_key(0xab), "novcs-00000000000000ab");
    let key = session_key(&None, &path("/tmp/a"));
    assert_eq!(key.len(), "novcs-".len() + 16);
    assert_ne!(key, "novcs-/tmp/a");
}

use sshctx::deploy::Platform;
use sshctx::paths::{
    has_parent_component, is_absolute, join_path, replace_extension, safe_join_on, safe_local_join, UnsafePath,
};
use std::path::{Component, Path};

const SAMPLES: [&str; 22] = [
    "", "a", "a/b", "/a", "../a", "a/../b", "a..b", "..", "a/..", "./a", "a/", "a//b", ".hidden", "a.b.c", "dir.d/x",
    "dir.d/.x", "/", "//", "a/./", "x.", "a/b.txt/", "...",
];

#[test]
fn paths_are_read_as_the_standard_library_reads_them() {
    for path in SAMPLES {
        assert_eq!(is_absolute(path), Path::new(path).is_absolute(), "{path:?}");
        assert_eq!(
            has_parent_component(path),
            Path::new(path).components().any(|c| matches!(c, Component::ParentDir)),
            "{path:?}"
        );
    }
}

#[test]
fn joins_are_those_of_the_standard_library() {
    for base in ["/root", "/root/", "", "rel", "/"] {
        for path in SAMPLES {
            let expected = Path::new(base).join(path).to_string_lossy().into_owned();
            assert_eq!(join_path(base, path), expected, "{base:?} {path:?}");
        }
    }
}

#[test]
fn extensions_are_those_of_the_standard_library() {
    for path in SAMPLES {
        let expected = Path::new(path).with_extension("sshctx-part").to_string_lossy().into_owned();
        assert_eq!(replace_extension(Platform::Unix, path, "sshctx-part"), expected, "{path:?}");
    }
}

#[test]
fn paths_of_windows() {
    let join = |root: &str, path: &str| safe_join_on(Platform::Windows, root, path);
    assert_eq!(join("C:\\r", "a/b"), Ok("C:\\r\\a\\b".to_string()));
    assert_eq!(join("C:\\", "a\\.//b"), Ok("C:\\a\\b".to_string()));
    assert_eq!(join("C:\\r", "."), Ok("C:\\r".to_string()));
    for path in ["..\\x", "a\\..\\x", "a/../x", "C:\\x", "c:x", "\\x", "/x", "\\\\server\\share", ".."] {
        assert_eq!(join("C:\\r", path), Err(UnsafePath::Manifest), "{path:?}");
    }
    assert_eq!(join("C:\\r", "..x"), Ok("C:\\r\\..x".to_string()));
    assert_eq!(join("C:\\r", "1:x"), Ok("C:\\r\\1:x".to_string()));
    assert_eq!(safe_join_on(Platform::Unix, "/r", "a\\..\\b"), Ok("/r/a\\..\\b".to_string()));
    assert_eq!(safe_join_on(Platform::Unix, "/r", "a/../b"), Err(UnsafePath::Manifest));
    assert_eq!(replace_extension(Platform::Windows, "C:\\a.b\\c", "p"), "C:\\a.b\\c.p");
    assert_eq!(replace_extension(Platform::Windows, "C:\\a.b\\c.d\\", "p"), "C:\\a.b\\c.p");
    assert_eq!(replace_extension(Platform::Unix, "/a/b\\c.d", "p"), "/a/b\\c.p");
}

#[test]
fn unsafe_paths_are_refused() {
    assert_eq!(safe_local_join("/r", "a/b"), Ok("/r/a/b".to_string()));
    assert_eq!(safe_local_join("/r", "/etc/passwd"), Err(UnsafePath::Manifest));
    assert_eq!(safe_local_join("/r", "a/../../b"), Err(UnsafePath::Manifest));
    assert_eq!(safe_local_join("/r", "a/..b"), Ok("/r/a/..b".to_string()));
}

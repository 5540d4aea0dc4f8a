use ambient_proxy::error::Error;
use ambient_proxy::paths::{check_inside, key_from_components, path_to_key, PathComponent};

#[test]
fn test_path_to_key() {
    let eq = |path: &str, key: &str| assert_eq!(path_to_key(path).unwrap(), key);

    eq("abc", "abc");
    eq("abc/def", "abc/def");
    eq("./abc/def", "abc/def");
}

#[test]
fn test_path_to_key_errors() {
    assert!(path_to_key("../abc").is_err());
    assert!(path_to_key("abc/../def").is_err());
    assert!(path_to_key("/abc").is_err());
}

#[test]
fn path_to_key_skips_what_names_nothing() {
    assert_eq!(path_to_key("").unwrap(), "");
    assert_eq!(path_to_key(".").unwrap(), "");
    assert_eq!(path_to_key("abc//def/").unwrap(), "abc/def");
    assert_eq!(path_to_key("abc/./def/.").unwrap(), "abc/def");
    assert_eq!(path_to_key("././abc").unwrap(), "abc");
    assert_eq!(path_to_key("a b/..c/d.").unwrap(), "a b/..c/d.");
}

#[test]
fn path_to_key_names_the_first_error() {
    assert_eq!(path_to_key("../abc"), Err(Error::ParentDirInPath));
    assert_eq!(path_to_key("abc/.."), Err(Error::ParentDirInPath));
    assert_eq!(path_to_key("/abc"), Err(Error::PathNotRelative));
    assert_eq!(path_to_key("/../abc"), Err(Error::PathNotRelative));
    assert_eq!(path_to_key("/./abc"), Err(Error::PathNotRelative));
}

#[test]
fn key_of_a_key_is_the_key() {
    for path in ["abc", "./abc//def/", "a/b/c/./d", ".", "x/..y"] {
        let key = path_to_key(path).unwrap();
        assert_eq!(path_to_key(&key).unwrap(), key);
        assert!(!key.starts_with('/'));
        assert!(key.split('/').all(|name| name != ".."));
    }
}

#[test]
fn key_of_adjoined_paths() {
    let cases = [
        ("", "", ""),
        ("", "./b", "b"),
        ("a", "", "a"),
        (".", "b", "b"),
        ("a/", "./b//c", "a/b/c"),
        ("./a", "b", "a/b"),
    ];
    for (path, more, key) in cases {
        let adjoined = std::path::Path::new(path).join(more);
        assert_eq!(path_to_key(adjoined.to_str().unwrap()).unwrap(), key);
    }
}

#[test]
fn names_with_colons_keep_them() {
    assert_eq!(path_to_key("dir/a:b.png").unwrap(), "dir/a:b.png");
    assert_eq!(path_to_key("./ab:c").unwrap(), "ab:c");
    for path in ["a:b", "a\\b"] {
        let key = path_to_key(path);
        assert!(key.is_err() || key == Ok(path.to_string()) || key == Ok(path.replace('\\', "/")));
    }
}

#[test]
fn paths_that_have_no_key_anywhere() {
    for path in ["/a:b", "//server/share", "a:b/../c", "a\\b/..", "../c:d"] {
        assert!(path_to_key(path).is_err());
    }
}

#[test]
fn key_from_components_joins_names() {
    let components = vec![
        PathComponent::CurDir,
        PathComponent::Normal("abc".to_string()),
        PathComponent::Normal("def".to_string()),
    ];
    assert_eq!(key_from_components(&components).unwrap(), "abc/def");
    assert_eq!(
        key_from_components(&vec![PathComponent::Prefix, PathComponent::ParentDir]),
        Err(Error::PathNotRelative)
    );
    assert_eq!(key_from_components(&vec![]).unwrap(), "");
}

fn parts(path: &[&str]) -> Vec<Vec<u8>> {
    path.iter().map(|part| part.as_bytes().to_vec()).collect()
}

#[test]
fn paths_outside_the_directory_are_refused() {
    let assets = parts(&["/", "srv", "assets"]);
    assert_eq!(check_inside(&parts(&["/", "srv", "assets", "a.glb"]), &assets), Ok(()));
    assert_eq!(check_inside(&assets, &assets), Ok(()));
    assert_eq!(check_inside(&parts(&["/", "srv"]), &assets), Err(Error::OutsideAssets));
    assert_eq!(
        check_inside(&parts(&["/", "srv", "assets2", "a"]), &assets),
        Err(Error::OutsideAssets)
    );
    assert_eq!(check_inside(&parts(&["/", "etc", "passwd", "x"]), &assets), Err(Error::OutsideAssets));
}

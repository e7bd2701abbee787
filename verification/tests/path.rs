use zhtta::path::{extension, join, normalize};

#[test]
fn paths_reach_normal_form() {
    assert_eq!(normalize("/a/b"), "/a/b");
    assert_eq!(normalize("/a//b/"), "/a/b");
    assert_eq!(normalize("/a/./b"), "/a/b");
    assert_eq!(normalize("/a/../b"), "/b");
    assert_eq!(normalize("/../.."), "/");
    assert_eq!(normalize("/"), "/");
    assert_eq!(normalize("./www"), "www");
    assert_eq!(normalize(""), ".");
    assert_eq!(normalize("."), ".");
    assert_eq!(normalize("a/.."), ".");
    assert_eq!(normalize("foo/../../bar"), "../bar");
    assert_eq!(normalize("../../a"), "../../a");
    assert_eq!(normalize("..."), "...");
}

#[test]
fn normal_form_stays_as_it_is() {
    for path in ["/a//b/../c/.", "x/./../../y", "", "///", "..", "a/b/../.."] {
        let normal = normalize(path);
        assert_eq!(normalize(&normal), normal);
    }
}

#[test]
fn requested_paths_are_seen_from_the_working_directory() {
    assert_eq!(join("/srv/www", "./index.html"), "/srv/www/index.html");
    assert_eq!(join("/srv/www", "./"), "/srv/www");
    assert_eq!(join("/srv/www", "./a/../../b"), "/srv/b");
    assert_eq!(join("/", "./x"), "/x");
    assert_eq!(join("/srv", ".hidden"), "/srv/.hidden");
}

#[test]
fn extensions_follow_the_last_dot_of_the_name() {
    assert_eq!(extension("/a/index.shtml").as_deref(), Some("shtml"));
    assert_eq!(extension("/a/x.tar.gz").as_deref(), Some("gz"));
    assert_eq!(extension("/a.b/name"), None);
    assert_eq!(extension("/a/.shtml"), None);
    assert_eq!(extension("/a/..x").as_deref(), Some("x"));
    assert_eq!(extension("/a/.."), None);
    assert_eq!(extension("/a/name.").as_deref(), Some(""));
    assert_eq!(extension("/"), None);
}

use context::path::DirPath;

#[test]
fn path_text_is_cleaned_once() {
    assert_eq!(DirPath::parse("/dir1/dir2/dir3").to_text(), "/dir1/dir2/dir3");
    assert_eq!(DirPath::parse("/dir1//dir2/./dir3/").to_text(), "/dir1/dir2/dir3");
    assert_eq!(DirPath::parse("/").to_text(), "/");
    assert_eq!(DirPath::parse("//").to_text(), "/");
    assert_eq!(DirPath::parse("").to_text(), "");
    assert_eq!(DirPath::parse("a/b/").to_text(), "a/b");
    assert_eq!(DirPath::parse("./a").to_text(), "a");
    assert_eq!(DirPath::parse("/a/../b").to_text(), "/a/../b");
    assert_eq!(DirPath::parse("/.hidden/..x/a.b").to_text(), "/.hidden/..x/a.b");
    assert_eq!(DirPath::parse("/caf\u{e9}/\u{65e5}\u{672c}").to_text(), "/caf\u{e9}/\u{65e5}\u{672c}");
}

#[test]
fn path_depth_and_start() {
    let root = DirPath::parse("/");
    assert_eq!(root.depth(), 0);
    assert!(root.is_absolute());
    let deep = DirPath::parse("/dir1/dir2/dir3");
    assert_eq!(deep.depth(), 3);
    assert!(deep.is_absolute());
    let relative = DirPath::parse("dir1/dir2");
    assert_eq!(relative.depth(), 2);
    assert!(!relative.is_absolute());
}

#[test]
fn path_equality_is_by_directory() {
    let a = DirPath::parse("/dir1/dir2");
    assert!(a.same_as(&DirPath::parse("/dir1/dir2/")));
    assert!(a.same_as(&DirPath::parse("//dir1/./dir2")));
    assert!(!a.same_as(&DirPath::parse("/dir1")));
    assert!(!a.same_as(&DirPath::parse("/dir1/dir2/dir3")));
    assert!(!a.same_as(&DirPath::parse("/dir1/dirX")));
    assert!(!a.same_as(&DirPath::parse("dir1/dir2")));
    assert!(!a.same_as(&DirPath::parse("/DIR1/dir2")));
    assert!(a.same_as(&a.clone()));
    assert_eq!(a, DirPath::parse("/dir1/dir2/"));
}

#[test]
fn path_text_reads_back() {
    for text in ["/", "", "/a", "a", "/a/b/c", "x/y", "/..", "/a b/c"] {
        let path = DirPath::parse(text);
        assert!(DirPath::parse(&path.to_text()).same_as(&path));
        assert_eq!(path.to_text(), text);
    }
}

use path_abs::error::ErrorKind;
use path_abs::ops::{PathInfo, PathMut, PathOps};
use path_abs::path::PathBuf;

fn p(s: &str) -> PathBuf {
    PathBuf::from_str(s)
}

#[test]
fn test_pathinfo_is_absolute() {
    let p = p("/foo/bar");

    let expected = true;
    assert_eq!(<PathBuf as PathInfo>::is_absolute(&p), expected);
}

#[test]
fn test_pathinfo_parent() {
    let path = p("/foo/bar");

    let actual = <PathBuf as PathInfo>::parent(&path).expect("could not find parent?");
    let expected = p("/foo");

    assert_eq!(actual, expected);

    let path = p("/");

    let actual = <PathBuf as PathInfo>::parent(&path).expect_err("root has a parent?");

    assert_eq!(actual.io_error().kind(), ErrorKind::NotFound);
    assert_eq!(actual.action(), "truncating to parent");
    assert_eq!(actual.path(), &p("/"));
}

#[test]
fn test_pathinfo_starts_with() {
    let path = p("foo/bar");

    assert_eq!(<PathBuf as PathInfo>::starts_with(&path, &p("foo")), true,);
    assert_eq!(<PathBuf as PathInfo>::starts_with(&path, &p("bar")), false,);
}

#[test]
fn test_pathinfo_ends_with() {
    let path = p("foo/bar");

    assert_eq!(<PathBuf as PathInfo>::ends_with(&path, &p("foo")), false,);
    assert_eq!(<PathBuf as PathInfo>::ends_with(&path, &p("bar")), true,);
}

#[test]
fn test_pathops_concat() {
    let actual = p("foo").concat(&p("bar")).expect("Could not concat paths?");
    let expected = p("foo/bar");

    assert_eq!(actual, expected);

    let actual = p("foo").concat(&p("bar/../baz")).expect("Could not concat path with ..?");
    let expected = p("foo/baz");

    assert_eq!(actual, expected);

    let actual = p("foo").concat(&p("..")).expect("Could not cancel path with ..?");
    let expected = p("");

    assert_eq!(actual, expected);

    let actual = p("foo").concat(&p("../..")).expect("Could not prefix with ..?");
    let expected = p("../");
    assert_eq!(actual, expected);

    let actual = p("/foo").concat(&p("../..")).expect_err("Could escape root with ..?");

    assert_eq!(actual.io_error().kind(), ErrorKind::NotFound);
    assert_eq!(actual.action(), "truncating to parent");
    assert_eq!(actual.path(), &p("/"));

    let actual = p("foo").concat(&p("/etc/passwd")).expect("Could not concat RootDir to path?");
    let expected: PathBuf = p("foo/etc/passwd");

    assert_eq!(actual, expected);
}

#[test]
fn test_pathops_concat_relative() {
    let actual = p("../foo").concat(&p("bar")).expect("Could not create relative path with concat");
    let expected = p("../foo/bar");
    assert_eq!(actual, expected);

    let actual = p("../foo").concat(&p("..")).expect("Could not create relative path with concat");
    let expected = p("..");
    assert_eq!(actual, expected);

    let actual = p("../foo").concat(&p("../..")).expect("Could not create relative path with concat");
    let expected = p("../..");
    assert_eq!(actual, expected);

    let actual = p("../foo/../bar")
        .concat(&p("../.."))
        .expect("Could not create relative path with concat");
    let expected = p("../..");
    assert_eq!(actual, expected);

    let actual = p("../foo/../bar/..")
        .concat(&p("../.."))
        .expect("Could not create relative path with concat");
    let expected = p("../../..");
    assert_eq!(actual, expected);

    let actual = p("../foo/..")
        .concat(&p("../../baz"))
        .expect("Could not create relative path with concat");
    let expected = p("../../../baz");
    assert_eq!(actual, expected);
}

#[test]
fn test_pathops_concat_consume() {
    let actual = p("foo").concat(&p("../../bar")).expect("Could not create relative path with concat");
    let expected = p("../bar");
    assert_eq!(actual, expected);
}

#[test]
fn test_pathmut_append() {
    let mut actual = p("foo");
    actual.append(&p("bar")).expect("Could not append paths?");
    let expected = p("foo/bar");
    assert_eq!(actual, expected);

    let mut actual = p("foo");
    actual.append(&p("bar/../baz")).expect("Could not append path with ..?");
    let expected = p("foo/baz");
    assert_eq!(actual, expected);

    let mut actual = p("foo");
    actual.append(&p("..")).expect("Could not cancel path with ..?");
    let expected = p("");
    assert_eq!(actual, expected);

    let mut actual = p("foo");
    actual.append(&p("../..")).expect("Could not escape prefix with ..?");
    let expected = p("../");
    assert_eq!(actual, expected);

    let actual = p("/foo").append(&p("../..")).expect_err("Could escape root with ..?");
    assert_eq!(actual.io_error().kind(), ErrorKind::NotFound);
    assert_eq!(actual.action(), "truncating to parent");
    assert_eq!(actual.path(), &p("/"));

    let mut actual = p("foo");
    actual.append(&p("/etc/passwd")).expect("Could not append RootDir to path?");
    let expected: PathBuf = p("foo/etc/passwd");

    assert_eq!(actual, expected);
}

#[test]
fn test_pathmut_pop_up() {
    let mut path = p("/foo/bar");
    path.pop_up().expect("could not find parent?");

    assert_eq!(path, p("/foo"));

    let mut path = p("/");
    let actual = path.pop_up().expect_err("root has a parent?");

    assert_eq!(actual.io_error().kind(), ErrorKind::NotFound);
    assert_eq!(actual.action(), "truncating to parent");
    assert_eq!(actual.path(), &p("/"));
}

#[test]
fn test_pathmut_truncate_to_root() {
    let mut path = p("/foo/bar");
    path.truncate_to_root();
    assert_eq!(path, p("/"));

    let mut path = p("foo/bar");
    path.truncate_to_root();
    assert_eq!(path, p(""));
}

#[test]
fn pop_up_doc_example_weird_relative_path() {
    let mut install_path = p("../../weird/../relative/path/../../");
    install_path.pop_up().unwrap();
    assert_eq!(install_path, p("../../../"));
}

#[test]
fn pop_up_doc_example_error_at_root() {
    let mut relative = p("/tmp");
    relative.pop_up().unwrap();
    assert_eq!(relative, p("/"));
    assert!(relative.pop_up().is_err());
}

#[test]
fn pop_up_doc_example_executable() {
    let mut install_path = p("/usr/local/bin/myapp");
    install_path.pop_up().unwrap();
    assert_eq!(install_path, p("/usr/local/bin"));
}

#[test]
fn pop_up_relative_runs_out() {
    let mut path = p("foo");
    path.pop_up().unwrap();
    assert_eq!(path, p(""));
    path.pop_up().unwrap();
    assert_eq!(path, p(".."));
    path.pop_up().unwrap();
    assert_eq!(path, p("../.."));
}

#[test]
fn pop_up_keeps_inner_parent_dirs() {
    let mut path = p("x/../a");
    path.pop_up().unwrap();
    assert_eq!(path, p("x/.."));
}

#[test]
fn concat_with_current_dirs() {
    let actual = p("././foo/././..").concat(&p("../bar")).expect("Could not create relative path with concat");
    assert_eq!(actual, p("../bar"));
}

#[test]
fn append_then_pop_up_is_identity() {
    let mut path = p("/usr/share");
    path.append(&p("doc")).unwrap();
    assert_eq!(path, p("/usr/share/doc"));
    path.pop_up().unwrap();
    assert_eq!(path, p("/usr/share"));
}

#[test]
fn append_parent_equals_pop_up() {
    let mut a = p("a/b/..");
    let mut b = p("a/b/..");
    a.append(&p("..")).unwrap();
    b.pop_up().unwrap();
    assert_eq!(a, b);
    assert_eq!(a, p(""));
}

#[test]
fn truncate_to_root_twice() {
    let mut path = p("/a/b/c");
    path.truncate_to_root();
    let once = path.duplicate();
    path.truncate_to_root();
    assert_eq!(path, once);
}

#[test]
fn join_replaces_with_rooted_path() {
    let joined = PathOps::join(&p("foo/bar"), &p("/etc"));
    assert_eq!(joined, p("/etc"));
    let joined = PathOps::join(&p("foo"), &p("./bar"));
    assert_eq!(joined, p("foo/bar"));
    let joined = PathOps::join(&p(""), &p("./bar"));
    assert_eq!(joined, p("./bar"));
}

#[test]
fn parent_of_empty_path_is_an_error() {
    let err = <PathBuf as PathInfo>::parent(&p("")).unwrap_err();
    assert_eq!(err.io_error().kind(), ErrorKind::NotFound);
    assert_eq!(err.io_error().message(), "path has no parent");
    assert_eq!(err.action(), "truncating to parent");
    assert_eq!(err.path(), &p(""));
}

#[test]
fn file_name_stem_and_extension() {
    let path = p("/a/b.tar.gz");
    assert_eq!(PathInfo::file_name(&path), Some(b"b.tar.gz".to_vec()));
    assert_eq!(path.file_stem(), Some(b"b.tar".to_vec()));
    assert_eq!(path.extension(), Some(b"gz".to_vec()));
    let hidden = p(".bashrc");
    assert_eq!(hidden.file_stem(), Some(b".bashrc".to_vec()));
    assert_eq!(hidden.extension(), None);
    assert_eq!(p("/").file_stem(), None);
    assert_eq!(p("a/..").extension(), None);
}

#[test]
fn with_file_name_and_extension() {
    assert_eq!(p("/a/b.txt").with_file_name(b"c.rs"), p("/a/c.rs"));
    assert_eq!(p("/a").with_file_name(b"c"), p("/c"));
    assert_eq!(p("a/..").with_file_name(b"c"), p("a/../c"));
    assert_eq!(p("/a/b.txt").with_extension(b"rs"), p("/a/b.rs"));
    assert_eq!(p("/a/b.txt").with_extension(b""), p("/a/b"));
    assert_eq!(p("/a/b").with_extension(b"rs"), p("/a/b.rs"));
    assert_eq!(p("/").with_extension(b"rs"), p("/"));
    let mut path = p("a.");
    assert!(path.set_extension(b"txt"));
    assert_eq!(path, p("a.txt"));
    let mut root = p("/");
    assert!(!root.set_extension(b"txt"));
}

#[test]
fn components_follow_std_rules() {
    assert_eq!(p("a//b").len(), 2);
    assert_eq!(p("a/./b/.").len(), 2);
    assert_eq!(p("./a").len(), 2);
    assert!(p("./a").component(0).is_cur_dir());
    assert_eq!(p("/a/b/"), p("/a/b"));
    assert_eq!(p("//"), p("/"));
    assert!(p("..").component(0).is_parent_dir());
    assert!(p("/..").component(1).is_parent_dir());
    assert_eq!(p("").len(), 0);
}

#[test]
fn text_of_a_path() {
    assert_eq!(p("/a//b/./c/").to_bytes(), b"/a/b/c".to_vec());
    assert_eq!(p("./a/../b").to_bytes(), b"./a/../b".to_vec());
    assert_eq!(p("/").to_bytes(), b"/".to_vec());
    assert_eq!(p("").to_bytes(), Vec::<u8>::new());
    let q = p("x/../y/.//z");
    assert_eq!(PathBuf::from_bytes(&q.to_bytes()), q);
}


#[test]
fn path_info_text_and_components() {
    let path = p("/usr//lib/./x.so");
    assert_eq!(<PathBuf as PathInfo>::as_os_str(&path), b"/usr/lib/x.so".to_vec());
    let parts = <PathBuf as PathInfo>::iter(&path);
    assert_eq!(parts, vec![b"/".to_vec(), b"usr".to_vec(), b"lib".to_vec(), b"x.so".to_vec()]);
    let comps = <PathBuf as PathInfo>::components(&p("./a/../b"));
    assert_eq!(comps.len(), 4);
    assert!(comps[0].is_cur_dir());
    assert!(comps[2].is_parent_dir());
    assert_eq!(PathBuf::from_components(comps), p("./a/../b"));
}

#[test]
fn path_info_ancestors() {
    let a = <PathBuf as PathInfo>::ancestors(&p("/foo/bar"));
    assert_eq!(a, vec![p("/foo/bar"), p("/foo"), p("/")]);
    let a = <PathBuf as PathInfo>::ancestors(&p("../foo/bar"));
    assert_eq!(a, vec![p("../foo/bar"), p("../foo"), p(".."), p("")]);
    let a = <PathBuf as PathInfo>::ancestors(&p(""));
    assert_eq!(a, vec![p("")]);
}

#[test]
fn path_info_strip_prefix() {
    let path = p("/test/haha/foo.txt");
    assert_eq!(<PathBuf as PathInfo>::strip_prefix(&path, &p("/")), Some(p("test/haha/foo.txt")));
    assert_eq!(<PathBuf as PathInfo>::strip_prefix(&path, &p("/test")), Some(p("haha/foo.txt")));
    assert_eq!(<PathBuf as PathInfo>::strip_prefix(&path, &p("/test/")), Some(p("haha/foo.txt")));
    assert_eq!(<PathBuf as PathInfo>::strip_prefix(&path, &p("/test/haha/foo.txt")), Some(p("")));
    assert_eq!(<PathBuf as PathInfo>::strip_prefix(&path, &p("test")), None);
    assert_eq!(<PathBuf as PathInfo>::strip_prefix(&path, &p("/te")), None);
}

#[test]
fn path_info_to_str() {
    assert_eq!(<PathBuf as PathInfo>::to_str(&p("/tmp/./café/")), Some("/tmp/café".to_string()));
    assert_eq!(<PathBuf as PathInfo>::to_str(&PathBuf::from_bytes(b"/x/\xff")), None);
}

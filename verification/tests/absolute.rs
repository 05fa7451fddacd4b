use path_abs::abs::PathAbs;
use path_abs::arc::PathArc;
use path_abs::error::{Error, ErrorKind, IoError};
use path_abs::ops::{PathInfo, PathMut, PathOps};
use path_abs::path::PathBuf;
use path_abs::ty::{FileKind, PathType};
use path_abs::ser::{decodes_without_panic, FromStfu8, PathSer, ToStfu8};

fn p(s: &str) -> PathBuf {
    PathBuf::from_str(s)
}

/// A fixed, canonical current directory.
fn cwd() -> Result<PathBuf, Error> {
    Ok(p("/home/user/work"))
}

#[test]
fn absolute_path_removes_currentdir_component() {
    let actual = PathAbs::new(&p("foo/./bar"), &cwd()).unwrap();
    let expected = PathAbs::new(&p("foo/bar"), &cwd()).unwrap();

    assert_eq!(actual, expected);
}

#[test]
fn absolute_path_removes_empty_component() {
    let actual = PathAbs::new(&p("foo//bar"), &cwd()).unwrap();
    let expected = PathAbs::new(&p("foo/bar"), &cwd()).unwrap();

    assert_eq!(actual, expected);
}

#[test]
fn mod_absolute_path_need_not_exist() {
    let raw_path = p("/does/not/exist");

    let path = PathAbs::new(&raw_path, &cwd()).unwrap();

    assert_eq!(path.as_path().to_bytes(), b"/does/not/exist".to_vec());
}

#[test]
fn mod_absolute_path_cannot_go_above_root() {
    let err = PathAbs::new(&p("/foo/../.."), &cwd()).unwrap_err();

    assert_eq!(err.io_error().kind(), ErrorKind::NotFound);
    assert_eq!(err.io_error().message(), ".. consumed root");
    assert_eq!(err.action(), "resolving absolute");
    assert_eq!(err.path(), &p("/foo/../.."));
}

#[test]
fn test_root_parent() {
    let actual = PathAbs::new(&p("/a/../.."), &cwd()).expect_err("Can go outside of `/`?");
    assert_eq!(actual.io_error().kind(), ErrorKind::NotFound);
    assert_eq!(actual.action(), "resolving absolute");
    assert_eq!(actual.path(), &p("/a/../.."));
}

#[test]
fn absolute_path_is_relative_to_cwd() {
    let actual = PathAbs::new(&p("foo"), &cwd()).unwrap();
    assert_eq!(actual.as_path(), &p("/home/user/work/foo"));
    let actual = PathAbs::new(&p("../x/./y"), &cwd()).unwrap();
    assert_eq!(actual.as_path(), &p("/home/user/x/y"));
    assert!(actual.is_absolute());
}

#[test]
fn absolute_path_resolves_parent_lexically() {
    let actual = PathAbs::new(&p("/a/b/c/../d"), &cwd()).unwrap();
    assert_eq!(actual.as_path(), &p("/a/b/d"));
}

#[test]
fn absolute_path_without_cwd() {
    let failed = Err(Error::new(
        IoError::new(ErrorKind::NotFound, "no cwd"),
        "getting current_dir while resolving absolute",
        p("foo"),
    ));
    let rooted = PathAbs::new(&p("/x/./y"), &failed).unwrap();
    assert_eq!(rooted.as_path(), &p("/x/y"));
    assert!(PathAbs::needs_current_dir(&p("./././x/..")));
    assert!(!PathAbs::needs_current_dir(&p("/./x")));
    assert!(PathAbs::needs_current_dir(&p("./x")));
    assert!(PathAbs::needs_current_dir(&p("..")));
    let err = PathAbs::new(&p("foo"), &failed).unwrap_err();
    assert_eq!(err.action(), "getting current_dir while resolving absolute");
    assert_eq!(err.io_error().message(), "no cwd");
    assert!(PathAbs::needs_current_dir(&p(".")));
    assert!(PathAbs::needs_current_dir(&p("")));
    let err = PathAbs::new(&p("."), &failed).unwrap_err();
    assert_eq!(err.io_error().message(), "no cwd");
}

#[test]
fn error_text_names_action_and_path() {
    let err = PathAbs::new(&p("/foo/../.."), &cwd()).unwrap_err();
    assert_eq!(err.text(), ".. consumed root when resolving absolute /foo/../..");
    let err = Error::new(
        IoError::new(ErrorKind::NotFound, "No such file or directory (os error 2)"),
        "opening",
        PathBuf::from_bytes(b"example/f\xffo.txt"),
    );
    assert_eq!(err.text(), "No such file or directory (os error 2) when opening example/f\u{FFFD}o.txt");
}

#[test]
fn path_type_from_kind() {
    let abs = PathAbs::new(&p("/tmp/fifo"), &cwd()).unwrap();
    let err = PathType::try_from(abs, FileKind::Other).unwrap_err();
    assert_eq!(err.io_error().kind(), ErrorKind::InvalidInput);
    assert_eq!(err.action(), "resolving");
    assert_eq!(err.path(), &p("/tmp/fifo"));
    let abs = PathAbs::new(&p("/tmp/d"), &cwd()).unwrap();
    assert!(PathType::try_from(abs, FileKind::Dir).unwrap().is_dir());
    let abs = PathAbs::new(&p("/tmp/f"), &cwd()).unwrap();
    assert!(PathType::try_from(abs, FileKind::File).unwrap().is_file());
}

#[test]
fn absolute_path_of_dot_is_current_dir() {
    let actual = PathAbs::new(&p("."), &cwd()).unwrap();
    assert_eq!(actual.as_path(), &p("/home/user/work"));
    let actual = PathAbs::new(&p(""), &cwd()).unwrap();
    assert_eq!(actual.as_path(), &p("/home/user/work"));
    let actual = PathAbs::new(&p("./."), &cwd()).unwrap();
    assert!(actual.is_absolute());
}

#[test]
fn absolute_path_idempotent() {
    let once = PathAbs::new(&p("a/../b/./c"), &cwd()).unwrap();
    let twice = PathAbs::new(once.as_path(), &Ok(p("/elsewhere"))).unwrap();
    assert_eq!(once, twice);
}

#[test]
fn path_abs_ops() {
    let mut abs = PathAbs::new(&p("/a/b"), &cwd()).unwrap();
    let c = abs.concat(&p("../c")).unwrap();
    assert_eq!(c.as_path(), &p("/a/c"));
    abs.pop_up().unwrap();
    assert_eq!(abs.as_path(), &p("/a"));
    abs.truncate_to_root();
    assert_eq!(abs.as_path(), &p("/"));
    assert!(abs.pop_up().is_err());
}

#[test]
fn path_arc_absolute() {
    let cwd = Ok(p("/home/user"));
    let a = PathArc::new(&p("./a/../b")).absolute(&cwd).unwrap();
    assert_eq!(a.as_path(), &p("/home/user/b"));
    let a = PathArc::new(&p("/x/y/..")).absolute(&cwd).unwrap();
    assert_eq!(a.as_path(), &p("/x"));
    let err = PathArc::new(&p("/..")).absolute(&cwd).unwrap_err();
    assert_eq!(err.io_error().message(), ".. consumed root");
    let err = PathArc::new(&p("/a/../../b")).absolute(&cwd).unwrap_err();
    assert_eq!(err.io_error().kind(), ErrorKind::NotFound);
    assert_eq!(err.io_error().message(), ".. consumed root");
    assert_eq!(err.action(), "resolving absolute");
    assert_eq!(err.path(), &p("/a/../../b"));
    let err = PathArc::new(&p("../../..")).absolute(&cwd).unwrap_err();
    assert_eq!(err.io_error().message(), ".. consumed root");
    let a = PathArc::new(&p(".")).absolute(&cwd).unwrap();
    assert_eq!(a.as_path(), &p("/home/user"));
    let a = PathArc::new(&p("../..")).absolute(&cwd).unwrap();
    assert_eq!(a.as_path(), &p("/"));
    // an empty current directory leaves nothing to start from
    let err = PathArc::new(&p(".")).absolute(&Ok(p(""))).unwrap_err();
    assert_eq!(err.io_error().message(), "resolving resulted in empty path");
}

#[test]
fn sanity_ser() {
    let mut path = PathSer::new(p("example/path"));
    assert_eq!(path.join(&p("joined")).as_path(), &p("example/path/joined"));
    assert_eq!(path.is_absolute(), false);

    path.append(&p("appended")).unwrap();
    assert_eq!(path.as_path(), &p("example/path/appended"));
    path.pop_up().unwrap();
    assert_eq!(path.as_path(), &p("example/path"));

    assert_eq!(path.concat(&p("/concated")).unwrap().as_path(), &p("example/path/concated"));
}

#[test]
fn stfu8_roundtrip() {
    let path = PathBuf::from_bytes(b"/tmp/caf\xc3\xa9/\xff\x01x");
    let text = path.to_stfu8();
    assert_eq!(text, r"/tmp/café/\xFF\x01x");
    let back = PathBuf::from_stfu8(&text).unwrap();
    assert_eq!(back, path);
    assert!(PathBuf::from_stfu8(r"\q").is_err());
    let ser = PathSer::from_stfu8("a/./b").unwrap();
    assert_eq!(ser.as_path(), &p("a/b"));
}

#[test]
fn absolute_path_is_idempotent() {
    // the current directory is absolute, so absolutizing it changes nothing
    let actual = PathAbs::new(&cwd().unwrap(), &cwd()).unwrap();
    let expected = cwd().unwrap();

    assert_eq!(actual.as_path(), &expected);
}

#[test]
fn absolute_path_interprets_relative_to_current_directory() {
    let actual = PathAbs::new(&p("foo"), &cwd()).unwrap();
    let expected = PathAbs::new(&cwd().unwrap().join(&p("foo")), &cwd()).unwrap();

    assert_eq!(actual, expected);
}

#[test]
fn stfu8_texts_that_decode_without_panic() {
    assert!(decodes_without_panic(r"/tmp/café/\xFF\x01x"));
    assert!(decodes_without_panic(r"\\é"));
    assert!(decodes_without_panic(r"\u01F600 and \t"));
    // an escape whose digits end inside a character
    assert!(!decodes_without_panic("\\xaé"));
    assert!(!decodes_without_panic("\\u00000é"));
    assert!(decodes_without_panic("\\u0000é0"));
    // the scan stops at the first bad escape, so what follows it is never sliced
    assert!(decodes_without_panic("\\q\\xaé"));
    assert!(decodes_without_panic("\\xzz\\xaé"));
    // a surrogate value ends the scan with an error
    assert!(decodes_without_panic("\\u00D800\\xaé"));
    assert!(!decodes_without_panic("\\u00D7FF\\xaé"));
    let text = PathBuf::from_bytes(b"a\\\xc3\xa9").to_stfu8();
    assert!(decodes_without_panic(&text));
    assert!(PathBuf::from_stfu8(r"\x+F").is_ok());
}

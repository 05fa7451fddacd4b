use path_abs::monotonic_path_preview::{
    split_head_and_tail, symlink_check, Absolute, AbsoluteBuilder, Error, LinkTarget, Relative, Step,
};
use path_abs::error::{ErrorKind, IoError};
use path_abs::path::PathBuf;

fn p(s: &str) -> PathBuf {
    PathBuf::from_str(s)
}

/// Resolves an absolute path the way `Absolute::new` does, answering every symlink
/// question from `links` (pairs of a path and its target; any other path is not a link).
fn absolute_with_links(path: &str, links: &[(&str, &str)]) -> Result<Absolute, Error> {
    absolute_in("/home/user/work", path, links)
}

/// As `absolute_with_links`, for a process whose canonical current directory is `cwd`.
fn absolute_in(cwd: &str, path: &str, links: &[(&str, &str)]) -> Result<Absolute, Error> {
    let (head, tail) = split_head_and_tail(&p(path));
    // the canonical form of `/` is `/`, that of `.` the current directory
    let head = if head == p(".") { p(cwd) } else { head };
    assert_eq!(head.component(0).is_root(), true);
    let mut builder = AbsoluteBuilder::new(head, &tail);
    loop {
        match builder.next() {
            Step::Done(a) => return Ok(a),
            Step::Failed(e) => return Err(e),
            Step::CheckLink(at) => {
                let mut answer = LinkTarget::NotALink;
                for (link, target) in links {
                    if at == p(link) {
                        let t = p(target);
                        answer = if t.is_absolute() {
                            let (h, rest) = split_head_and_tail(&t);
                            LinkTarget::Absolute { head: h, tail: rest }
                        } else {
                            LinkTarget::Relative(t)
                        };
                    }
                }
                builder.resume(answer);
            }
        }
    }
}

#[test]
fn relative_accepts_empty_path() {
    let actual = Relative::new(&p("")).expect("Could not parse empty path");

    let expected = p("");

    assert_eq!(actual.as_path(), &expected);
}

#[test]
fn missing_absolute_path_is_unchanged() {
    let expected = p("/some/absolute/path");

    let path = absolute_with_links("/some/absolute/path", &[]).expect("Could not handle an absolute path");

    assert_eq!(path.as_path(), &expected);
}

#[test]
fn tests_missing_absolute_path_with_double_dot_is_normalized() {
    let actual = absolute_with_links("/some/absolute/../path", &[]).expect("Could not handle an absolute path");
    let expected = p("/some/path");

    assert_eq!(actual.as_path(), &expected);
}

#[test]
fn skip_leading_dots() {
    let actual =
        absolute_with_links("/some/./missing/./path", &[]).expect("Could not handle a path with dot components");

    let expected = p("/some/missing/path");

    assert_eq!(actual.as_path(), &expected);
}

#[test]
fn tests_cannot_go_up_from_root_directory() {
    let actual =
        absolute_with_links("/../foo", &[]).expect("Could not handle going up from the root directory");
    let expected = p("/foo");

    assert_eq!(actual.as_path(), &expected);
}

#[test]
fn tests_relative_accepts_monotonic_path() {
    let actual = Relative::new(&p("does/not/exist")).expect("Could not parse monotonic path");

    let expected = p("does/not/exist");

    assert_eq!(actual.as_path(), &expected);
}

#[test]
fn tests_relative_normalises_single_dots() {
    let actual =
        Relative::new(&p("does/./not/./exist")).expect("Could not parse path with CurrentDir components");

    let expected = p("does/not/exist");

    assert_eq!(actual.as_path(), &expected);
}

#[test]
fn tests_relative_normalises_inner_double_dots() {
    let actual = Relative::new(&p("does/../not/exist")).expect("Could not parse path with ParentDir component");

    let expected = p("not/exist");

    assert_eq!(actual.as_path(), &expected);
}

#[test]
fn tests_relative_rejects_leading_double_dots() {
    let err = Relative::new(&p("../does/not/exist")).err().expect("Parsing leading '..' should have failed!");

    match err {
        Error::RelativePathEscapesPrefix(q) => assert_eq!(q, p("../does/not/exist")),
        e => panic!("Got unexpected error {:?}", e),
    }
}

#[test]
fn tests_relative_rejects_relative_path_escaping_prefix() {
    let err = Relative::new(&p("inside/../../outside")).err().expect("Parsing escaping path should have failed!");

    match err {
        Error::RelativePathEscapesPrefix(q) => assert_eq!(q, p("inside/../../outside")),
        e => panic!("Got unexpected error {:?}", e),
    }
}

#[test]
fn tests_relative_rejects_fully_absolute_path() {
    let err = Relative::new(&p("/absolute/path")).err().expect("Parsing an absolute path should have failed!");

    match err {
        Error::PathIsAbsolute(q) => assert_eq!(q, p("/absolute/path")),
        e => panic!("Got unexpected error {:?}", e),
    }
}

#[test]
fn relative_join_and_join_relative_agree() {
    let base = Relative::new(&p("SuperSoftwareCo/MyCoolApp")).unwrap();
    let video = base.join(&p("video.cfg")).unwrap();
    let tail = Relative::new(&p("video.cfg")).unwrap();
    assert_eq!(video.as_path(), base.join_relative(&tail).as_path());
    assert_eq!(video.as_path(), &p("SuperSoftwareCo/MyCoolApp/video.cfg"));
    assert!(base.join(&p("../../..")).is_err());
}

#[test]
fn relative_new_is_idempotent() {
    let once = Relative::new(&p("a/./b/../c")).unwrap();
    let twice = Relative::new(once.as_path()).unwrap();
    assert_eq!(once.as_path(), twice.as_path());
    assert_eq!(once.as_path(), &p("a/c"));
}

#[test]
fn absolute_join_relative_concatenates() {
    let root = absolute_with_links("/usr/local", &[]).unwrap();
    let bin = Relative::new(&p("bin/cargo")).unwrap();
    assert_eq!(root.join_relative(&bin).as_path(), &p("/usr/local/bin/cargo"));
    assert_eq!(root.join(&p("share/./man")).unwrap().as_path(), &p("/usr/local/share/man"));
    match root.join(&p("/etc")) {
        Err(Error::PathIsAbsolute(q)) => assert_eq!(q, p("/etc")),
        other => panic!("unexpected {:?}", other),
    }
}

#[test]
fn tests_resolve_symlink_before_parentdir_component() {
    // banana/bat is a symlink to ../apple/ant
    let actual = absolute_with_links("/tmp/t/banana/bat/../tail", &[("/tmp/t/banana/bat", "../apple/ant")]).unwrap();
    assert_eq!(actual.as_path(), &p("/tmp/t/apple/tail"));
}

#[test]
fn tests_resolve_absolute_symlinks() {
    let actual = absolute_with_links("/tmp/t/link/../bar", &[("/tmp/t/link", "/does/not/exist")]).unwrap();
    assert_eq!(actual.as_path(), &p("/does/not/bar"));
}

#[test]
fn tests_absolute_rejects_dereferencing_cyclic_symlinks() {
    let err = absolute_with_links("/tmp/t/a/../tail", &[("/tmp/t/a", "b"), ("/tmp/t/b", "a")]).unwrap_err();
    match err {
        Error::SymlinkLoops(_) => (),
        e => panic!("Got unexpected error: {:?}", e),
    }
}

#[test]
fn tests_absolute_accepts_navigating_cyclic_symlinks() {
    let actual =
        absolute_with_links("/tmp/t/cur/cur/cur/cur/cur/a", &[("/tmp/t/cur", ".")]).unwrap();
    assert_eq!(actual.as_path(), &p("/tmp/t/cur/cur/cur/cur/cur/a"));
}

#[test]
fn split_head_and_tail_of_relative_path() {
    let (head, tail) = split_head_and_tail(&p("./a/b"));
    assert_eq!(head, p("."));
    assert!(tail.component(0).is_cur_dir());
    assert_eq!(tail.len(), 3);
    let (head, tail) = split_head_and_tail(&p("/a/b"));
    assert_eq!(head, p("/"));
    assert_eq!(tail, p("a/b"));
}

#[test]
fn monotonic_paths_spell_their_text() {
    let rel = Relative::new(&p("a/./b/../c")).unwrap();
    assert_eq!(rel.as_os_str(), b"a/c".to_vec());
    let abs = absolute_with_links("/x/y/../z", &[]).unwrap();
    assert_eq!(abs.as_os_str(), b"/x/z".to_vec());
    assert_eq!(abs.join_relative(&rel).as_os_str(), b"/x/z/a/c".to_vec());
}

#[test]
fn tests_do_not_resolve_every_symlink() {
    let link_path = "/tmp/t/link";
    let actual = absolute_with_links(link_path, &[(link_path, "/tmp/t/target")])
        .expect("Could not handle symlink path");

    assert_eq!(actual.as_path(), &p(link_path));
}

#[test]
fn existing_path_with_double_dot_is_normalized() {
    let actual = absolute_with_links("/tmp/t/banana/../apple", &[])
        .expect("Could not resolve existing directories.");

    let expected = p("/tmp/t/apple");

    assert_eq!(actual.as_path(), &expected);
}

#[test]
fn missing_relative_path_is_relative_to_current_directory() {
    let cwd = "/home/user/work";
    let actual = absolute_in(cwd, "does/not/exist", &[])
        .expect("Could not handle a missing relative path");

    let expected = p(cwd).join(&p("does/not/exist"));

    assert_eq!(actual.as_path(), &expected);
}

#[test]
fn tests_leading_double_dot_in_relative_path() {
    let cwd = "/home/user/work";
    let actual = absolute_in(cwd, "../does/not/exist", &[])
        .expect("Could not handle a relative path");

    let expected = p(cwd).parent().unwrap_or(p("/")).join(&p("does/not/exist"));

    assert_eq!(actual.as_path(), &expected);
}

#[test]
fn absolute_revisiting_a_plain_directory_is_no_loop() {
    let actual = absolute_with_links("/x/../x/../y", &[]).expect("no symlink, so no loop");
    assert_eq!(actual.as_path(), &p("/y"));
    // a symlink that leads back to itself is a loop
    let err = absolute_with_links("/t/a/../tail", &[("/t/a", "a")]).unwrap_err();
    match err {
        Error::SymlinkLoops(q) => assert_eq!(q, p("/t/a")),
        e => panic!("Got unexpected error: {:?}", e),
    }
}

#[test]
fn symlink_check_outcomes() {
    let at = p("/t/x");
    assert_eq!(symlink_check(Ok(true), &at).unwrap(), true);
    assert_eq!(symlink_check(Ok(false), &at).unwrap(), false);
    let missing = IoError::new(ErrorKind::NotFound, "No such file or directory (os error 2)");
    assert_eq!(symlink_check(Err(missing), &at).unwrap(), false);
    let denied = IoError::new(ErrorKind::PermissionDenied, "Permission denied (os error 13)");
    match symlink_check(Err(denied), &at) {
        Err(Error::IoError { err, at: q }) => {
            assert_eq!(err.kind(), ErrorKind::PermissionDenied);
            assert_eq!(q, at);
        }
        other => panic!("unexpected {:?}", other),
    }
}

#[test]
fn monotonic_error_descriptions() {
    let err = Relative::new(&p("/abs")).unwrap_err();
    assert_eq!(err.description(), "Tried to make a relative path from an absolute path");
    let err = Relative::new(&p("../up")).unwrap_err();
    assert_eq!(err.description(), "Tried to make a relative path with leading '..'");
    let err = absolute_with_links("/t/a/../tail", &[("/t/a", "a")]).unwrap_err();
    assert_eq!(err.description(), "Found an infinite symlink loop");
    let io = Error::IoError {
        err: IoError::new(ErrorKind::IsADirectory, "Is a directory (os error 21)"),
        at: p("/t"),
    };
    assert_eq!(io.description(), "Is a directory (os error 21)");
}

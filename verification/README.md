# path_abs

Lexical path arithmetic on Unix paths, verified with Verus.

A path is modelled by its components (`/`, a leading `.`, `..` and names), the way
`std::path::Path::components` yields them. The operations on paths (`concat`, `append`,
`pop_up`, `join`, `with_file_name`, `with_extension`, resolving a path to an absolute one)
are specified over that model and proved.

- `src/path.rs`: the component model, the parser from bytes and the text of a path.
- `src/ops.rs`: the `PathInfo`, `PathMut` and `PathOps` traits and their operations.
- `src/abs.rs`, `src/arc.rs`: resolving a path against a current directory.
- `src/dir.rs`, `src/file.rs`, `src/ty.rs`: paths known to be directories or files.
- `src/monotonic_path_preview.rs`: `Relative` and `Absolute` paths and the resolution of
  symlinks that come before a `..`, as a state machine driven by the caller.
- `src/ser.rs`: STFU-8 text for paths, through the `stfu8` crate.
- `src/laws.rs`: properties that relate the operations.
- `app/`: everything that touches the file system, the process environment and serde.

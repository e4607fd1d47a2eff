# memfs

A file system that lives in memory, with case-insensitive names, alternate data streams, handles
that can delete what they are on when they are closed, and moves of entries and streams. Its
behaviour is stated in contracts over a mathematical model (`src/model.rs`) and proved with Verus.
Beside it stand the small types of two services: accounts and archives.

- `src/model.rs`: the file system as a value, and the invariant that every operation keeps
- `src/memfs.rs`: the tables behind it
- `src/create.rs`, `src/close.rs`, `src/rename.rs`, `src/io.rs`, `src/info.rs`, `src/change.rs`: the
  operations
- `src/release.rs`: letting go of entries that nothing holds any more
- `src/keep.rs`: proofs that the steps of operations keep the invariant
- `src/laws.rs`: what holds of the library as a whole
- `src/name.rs`, `src/path.rs`, `src/attributes.rs`, `src/data.rs`, `src/entry.rs`, `src/handle.rs`,
  `src/status.rs`, `src/wide.rs`: the parts
- `src/ident.rs`, `src/account.rs`, `src/archive.rs`: identifiers, accounts and archives
- `app/`: the command line of the sign-on service, and the drive that Dokan mounts

An entry keeps its number for good; numbers are not used again. A handle is known by a number that is
free again once the handle is closed. Every operation takes the readings of the clock that it needs.

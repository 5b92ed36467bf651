# lsd (symbolic links and paths)

The part of a directory lister that shows symbolic links, with contracts and proofs.

- `src/prefix.rs`: the platforms (Unix, Windows), their separators, and the Windows
  prefixes (`C:`, `\\server\share`, `\\?\...`, `\\.\device`).
- `src/path.rs`: paths as character sequences and their components on either platform.
- `src/join.rs`: extending a path (`PathBuf::push` semantics, including the Windows
  verbatim rules), joining components, and the parent of a path.
- `src/path_laws.rs`: components joined into text parse back (Unix; plain Windows names).
- `src/meta/utils.rs`: `relative_path`, the verbatim form of a Windows path, and the
  proofs that a relative path, walked from its base, arrives at the path (Unix, and
  Windows paths that share a prefix and a root).
- `src/meta/verbatim_laws.rs`: the verbatim form of a normalised drive or server-share
  path is `\\?\` (or `\\?\UNC\`) before it, and taking the verbatim form again
  changes nothing.
- `src/meta/symlink.rs`: `SymLink`: the target it shows, whether it is valid, and how
  it renders after the link's name.
- `src/color.rs`, `src/flags.rs`: the palette, styled strings with their terminal
  escape sequences, and the display options that rendering reads.
- `app/lib.rs`: the filesystem edges (reading links, checking that targets exist,
  making paths absolute) and the choice of platform.

# rust_zip_archive

A small multi-format archive library and its command-line front end, `rza`,
written in Verus: the library's behaviour is stated in `requires`/`ensures`
contracts and proved.

Formats: `.zip` (store, deflate, bzip2, zstd), `.tar`, `.tar.gz`/`.tgz`,
`.tar.bz2`, `.tar.xz`, `.tar.zst`, and single-file `.gz`, `.bz2`, `.xz`,
`.zst`. Formats are detected by content (falling back to the extension) when
reading, and chosen by the output's extension when writing.

## Layout

- `src/` — the verified library.
  - `archive/` — the public API (`check_create`, `create`, `list`,
    `extract`, `extract_selected`, `test`) and its backends: `zip_backend`,
    `tar_backend` and `compressor`, plus `format` (detection) and `names`
    (entry names, Windows-safe names).
  - `codec` — the four stream compressors over byte buffers.
  - `paths` — a model of paths as `std::path` reads them on Unix and on
    Windows (where `\` also separates components and a drive prefix such
    as `C:` counts as a root).
  - `shell`, `launch`, `tree`, `browser` — decisions of the front ends:
    extraction folders and output names, what to do with launch arguments,
    the folder view of a listing, and the archive browser's state.
  - `error`, `text`, `cli` — errors and their messages, text helpers, the
    command-line choices.
- `app/` — `rza`: argument parsing, walking and reading input files, writing
  archives, carrying out extraction plans, progress bars.
- `tests/` — tests of the library.

The library never touches the file system. Building an archive takes the
staged entries (name, contents, mode, owner, time) and returns the archive's
bytes; listing and checking take an archive's bytes; extraction returns a
plan — the directories to create, the files to write with their contents and
modes, the overwrite checks and progress reports, in order — followed by how
the extraction ends. The front end carries the plan out.

Functions that read a path take a `windows` flag saying whether it is read
by Windows rules; the front end passes `cfg!(windows)`. An entry's name is
the walked path relative to its input's parent, with `/` between names. A
single compressed file that is cut short or corrupt still has what was
decompressed before the error written out, and the extraction then fails
with the decompressor's message.

Archives and entries are held whole in memory: building takes the staged
entries' contents and returns the archive's bytes, and reading takes an
archive's bytes.

Among the proved properties, on Unix: extracting what `create` built
restores every staged entry with its contents, for every writable format,
when the names are clean (relative, no NUL, no empty, `.` or `..` pieces; a
zip name that ends with `\` is left out, and a tar name is restored as
stored, with `/` for `\` where the platform reads `\` as a separator; a
plain `.tar` whose first entry's name spells another format's signature is
left out, as it carries no signature of its own); what `create` wrote is
detected as the format it chose; listing and checking such an archive
succeed; selecting every listed name extracts exactly what extracting
everything does; a tar of clean names, and a zip without repeated names,
are always built, as is any single compressed file; and no extraction step,
on Unix or on Windows, makes a file or directory outside the destination
(entries with a drive, a root, or a `..` that climbs above it stop the
extraction; a compressed file whose inner name is `..` or starts with a
drive is left out).

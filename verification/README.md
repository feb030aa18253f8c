# dalzip

The verified core of a desktop archive tool that lists, extracts and creates
ZIP, 7Z, RAR, TAR and compressed TAR archives.

- `src/` is the library, checked by Verus. It decides which entry names are
  safe to extract (`names`), which sets of paths can be written without one
  entry overwriting another (`paths`), how many bytes an archive may expand to
  and when extraction must stop (`formats`, `archive`), what a compression
  request may write (`create`), how sources are compared, by path and BLAKE3
  hash, with what the archive holds before they are moved to the trash
  (`verification`), and the
  small decisions of the application's commands (`commands`, `jobs`, `rar`,
  `zip_reader`, `updater`).
- `app/` is the unverified shell around it: file system work, the archive
  codecs, the RAR library, the operating system integration and the copies of
  the library's types that carry `serde` derives.
- `tests/` runs the library on concrete values.

# userdirs

Cross-platform paths to the user's media and personal directories
(Downloads, Documents, Pictures, Music, ...), written in Verus.

- `src/` is the verified library. It takes what the machine reports as an
  `Environment` of plain bytes and decides every path: the `user-dirs.dirs`
  parser and the XDG base-directory rules (`xdg`), the fixed macOS layout
  (`apple`), the Windows known folders (`windows`), the unsupported fallback
  (`unsupported`), byte-level path joining and comparison (`path`) and the
  process-wide snapshot (`cache`). Each function carries a contract, and the
  laws that tie them together (one lookup agrees with the all-at-once lookup,
  later lines override earlier ones, a directory pointed at the home
  directory is disabled, ...) are proof functions.
- `app/` reads the machine (environment variables, the home directory, the
  file, the Windows shell) and turns the bytes back into `PathBuf`s.
- `tests/` runs the library on concrete inputs.

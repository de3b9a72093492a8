# secretstash (verified core)

The logic of `stash`, an encrypted store for notes and URLs, written in
Verus: every function in `src/` carries a contract, and Verus proves each
one except those of the small trusted wrappers around outside crates, whose
contracts are believed.

- `src/` — the library: key derivation and the session file, the rules of
  each command (adding, editing, restoring, tagging, importing, migrating an
  old vault), searching and listing, the tables the commands print and the
  reports of most commands (short confirmations such as "Renamed ..." are
  written in `app/`). Calls into `argon2`, `chacha20poly1305`, `base64`,
  `regex`, `chrono` and `rand_core` go through small trusted wrappers whose
  contracts say what those crates promise.
- `app/` — the `stash` program around it: the command line (`clap`), the
  SQLCipher vault (`rusqlite`), files, prompts, the editor, the clipboard
  and browser programs, and the keychain (the macOS keychain through
  `security-framework`, the Secret Service through `secret-tool`).
- `tests/` — tests of the library on concrete values.

# secapp

A keystore for Linux that keeps sensitive directories (`~/.ssh`, `~/.gnupg`,
...) encrypted at rest. A daemon watches the protected directories; each file
that appears there is sealed with AES-256-GCM under a key of its own, and that
key is kept wrapped under a master key derived from the user's password with
Argon2id.

## Layout

- `src/` is the library, verified with Verus:
  - `crypto` — key derivation, sealing and opening files, wrapping file keys,
    hashing, sizes;
  - `hex` — hexadecimal text of bytes;
  - `text`, `path` — text order and decimal text; Unix paths by components;
  - `glob` — the GLOB patterns that policies use;
  - `db` — the keystore's tables (files, access logs, policies, key salt) and
    their queries;
  - `config` — settings and the protected list;
  - `daemon` — the lock state: unlocking, locking, restoring the key;
  - `interceptor` — what happens to a file event, sealing and opening files;
  - `tui` — the state machine of the terminal interface and the text it shows.
- `app/` is the program around it: the command line, the configuration file,
  the SQLite database on disk, the kernel keyring, the file watcher and the
  terminal drawing.
- `tests/` exercises the library.

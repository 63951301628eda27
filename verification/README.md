# bep_rs

A client of Syncthing's Block Exchange Protocol (BEP): it keeps folders in
sync with peers over TLS connections authenticated by device certificates.

## Layout

- `src/` — the verified library (Verus). Every function states what it
  returns in its contract, and the properties that relate several functions
  are proved as lemmas next to them:
  - `device_id` — device IDs in base32 with Luhn check characters and dashes;
  - `util` — hex encoding;
  - `sync_directory` — block lists of files, the local index and how it
    changes when files change on disk, BEP names of paths;
  - `bep_state`, `models` — the database rows of the client and how entries
    are stored and read back;
  - `peer_connection` — message framing and the hello, header checks,
    answering requests, reading answers, merging a peer's index, the cluster
    config, certificate checks and the table of pending requests;
  - `digest`, `random`, `text` — SHA-256, random values and string helpers.
- `app/` — the client around the library: the SQLite database (diesel), the
  protobuf encoding of messages (prost), the TLS handshake (rustls), the tasks
  that read and write a connection (tokio), the directory watcher (notify),
  the daemon and the server.
- `tests/` — tests of the library.

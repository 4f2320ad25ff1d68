# magneto

The rules of magneto, a media-focused torrent client, as a Verus library:
each function states what it returns in its contract, and Verus proves it.

- `src/` — the verified library: the wire protocol's types, settings and
  their validation and patching, media classification, HTTP range replies,
  the per-file and per-torrent states, target expansion, the DLNA library
  tree and its browsing, the stats tick's decisions, the daemon's event loop
  and its requests, daemon supervision, the sanitized spawn environment, and
  the desktop app's source queue and theme.
- `tests/` — tests of the library on concrete values.
- `app/` — the `magneto` command: argument handling, file and network I/O,
  process supervision, and the serde forms of the library's types.

Calls into outside crates (URL encoding, MIME guessing, base64, URL
parsing, platform directories, random bytes) sit behind small trusted
wrappers whose contracts say what the crates' sources show.

# ghost_core

The verified core of Ghost, an end-to-end encrypted group chat client with
text and voice channels and multi-device accounts. Every function in `src/`
carries a `requires`/`ensures` contract checked by Verus; calls into the
cryptography and encoding crates go through small trusted wrappers whose
contracts name what those crates compute.

## Layout

- `src/` — the library.
  - Wire formats: `codec`, `wire` (application messages), `payload`
    (invite and provision payloads), `metadata` (control messages),
    `membership` (device–account bindings), `presence` and `voice`
    (presence blobs, voice packets and frames), `pairing` (pairing codes and
    provision bundles), `recovery` (recovery blobs), `credential`
    (self-validating group credentials), `sync`, `sync_entries`.
  - Keys and identifiers: `keys`, `signature`, `aead`, `ids`, `identity`,
    `idlog`, `account_recovery`.
  - Client state machines and decisions: `voice_session`, `capture`,
    `jitter`, `audio_control`, `rosters`, `mailbox_link`, `mailbox_events`,
    `epoch_recovery`, `session`, `group_policy` (commit policy, who may
    invite and kick, which group leaves a kick or revocation removes).
  - Relay interface: `relay`, `relay_paths`, `links`, `avatar`.
  - Records and interface data: `records`, `server_export` (invite and
    provision payloads built from records), `dto`, `kinds`, `constants`,
    `error`, `text`.
- `tests/` — tests run against the compiled library.
- `app/` — a small command-line front end: configuration files and JSON
  conversion of the library's records.

# pptalk

The core of an encrypted peer-to-peer messenger, written in Verus: the
functions in `src/` carry contracts that Verus proves (those that read the
clock or draw random keys state what holds of every outcome, or nothing
where nothing does), and the laws the
messenger relies on (an event applied twice changes nothing, only an
author edits a message, a member never reads history from before joining,
a saved attachment never leaves its directory, and more) are stated as
proof functions beside the code they are about.

## Layout

- `src/` — the library.
  - `ids`, `ordered`, `protocol`, `codec`, `text`, `digest`: identifiers,
    sorted maps, the wire records and their limits, hashing and hex.
  - `identity`, `devices`, `invite`, `backup`: the signed device log of an
    identity, linking and revoking devices, signed contact invites, and
    passphrase-sealed identity backups.
  - `crypto`, `blob`, `transfers`, `files`: sealing payloads, chunked
    attachments, receiving them in any order, and the names they are saved
    under.
  - `conversation`, `history`, `search`: conversation event logs, the
    history a group shows, and searching it.
  - `group`, `admin`: what members accept of group control messages, and
    what owners and administrators may change.
  - `contacts`, `incoming`, `client`, `profile`, `calls`: routing to
    contact devices, checks on received packets, client rules and limits,
    profile and conversation settings, and the local call state.
  - `network`, `node`, `storage`, `distributed`, `media`: the media session
    table, the mailbox node's admission rules, storage helpers, the
    distributed store's cuts and locators, and media quality rules.
- `tests/` — tests of the library on concrete values.
- `app/` — the command-line program around the library: the mailbox node's
  HTTP service, the SQLite store, the wire encoding, and the commands.

Outside crates (hashing, signatures, sealing, encodings, time, randomness)
are reached through small wrappers whose contracts say what the library
relies on; each names the function it calls.

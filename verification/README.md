# fractal-gtk

The logic of the Fractal Matrix client, written in Verus: data structures,
rules and decisions with contracts that Verus proves.

## Layout

- `src/` — the verified library.
  - `model/` — members, messages, the message list of a room (ordered by
    date, one message per event ID, with the relations between messages),
    rooms and how a sync response becomes rooms, the events read from their
    JSON (a left room's last event, room and global account data), and
    `StrMap`, a map keyed by strings that keeps its insertion order.
  - `backend/` — the worker thread limit, media locations and the media
    cache rule, room and push-rule settings, the content of a sent
    message, the user information cache, the retry delay after a failed
    sync, and the pieces a sync response is taken apart into.
  - `widgets/` — the decisions of the interface: the room history (which
    rows are visible, headers, the new-messages divider), the room list
    (order, filter, keyboard moves), the login action, name completion in
    the message entry, message bodies and highlighted mentions, member
    badges, the media viewer and the players' time display.
  - `ui/`, `cache/`, `client.rs`, `passwd.rs`, `util.rs` — the dialogs'
    rules, the caches, proxy settings, what a stored secret gives, and
    Pango markup.
  - `text.rs` — string operations with exact specifications.
  - `outside.rs` — the trusted items: the calls into `url`, `regex`, `md5`,
    `chrono`, `ruma-identifiers`, `html2pango`, `serde_json` and a few parts of std, each
    with the contract it is trusted to meet.
- `tests/` — tests of the library on concrete values.
- `app/` — the program around the library: command line, the keyring
  through the Secret Service, worker threads, the media cache on disk and
  one round of the sync loop.

Verify with Verus; the laws of the library are the public proof functions
(`lemma_*`) next to the functions they relate.

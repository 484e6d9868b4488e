# wecom_cli

The logic of a command-line client for WeCom (企业微信): the helper commands
that drive the macOS desktop client, watch conversations for new messages,
save received media and upload local files into smart sheets, written in
Verus with contracts and proved.

## Layout

- `src/` — the verified library.
  - `text.rs`, `collections.rs`, `json.rs`: characters and trimming, sets
    and maps of strings kept in ascending order, and a JSON value with its
    compact and pretty serializers.
  - `desktop.rs`: checking phone numbers, names, texts and files; the
    AppleScript that drives the desktop client; reading what it prints.
  - `watch_friend.rs`, `watch_all.rs`: resolving friends, message keys,
    output records, the poll decisions and the state kept between polls,
    the queue file of watched names.
  - `calendar.rs`: the Gregorian calendar that the day-count arithmetic of
    the time formatting follows.
  - `media.rs`, `doc_upload.rs`, `json_rpc.rs`, `helpers.rs`: received
    media, smart-sheet uploads, the JSON-RPC envelope, and the helper
    commands' options and results.
- `tests/` — tests of the library on concrete values.
- `app/` — the `wecom-cli` program: command-line parsing, HTTP, files,
  `osascript`, timers and the polling loops, calling the library for every
  decision.

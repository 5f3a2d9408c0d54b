# Touch 'n Drink (verified core)

Touch 'n Drink is a small device that reads NFC id cards of club members and lets them pay for
drinks; purchases are forwarded to the club's accounting (Vereinsflieger). This crate is its
logic, written in Verus with contracts that Verus proves.

## Layout

- `src/` — the library, verified by Verus:
  - `json/` — JSON values, a reader and a writer, and the proof that reading back what was
    written gives the same value
  - `reader.rs` — buffered reading: a line reader and a streaming reader of JSON object fields
  - `nfc.rs`, `pn532.rs` — NFC card UIDs and the PN532 frame protocol
  - `article.rs`, `user.rs` — the articles on offer and the members with their cards
  - `vereinsflieger/` — requests and responses of the accounting API
  - `telemetry.rs`, `mixpanel.rs` — usage events and their Mixpanel representation
  - `ota.rs` — finding firmware releases and their checksums, and deciding on a downloaded
    update
  - `digest.rs` — SHA-256 digests, also of an image hashed chunk by chunk while it is flashed
  - `ui.rs` — keypad, prompts, screen texts and the purchase flow
  - `schedule.rs`, `time.rs`, `wifi.rs`, `config.rs`, `error.rs`, `util.rs`
  - `xtask.rs` — the steps of the build tasks
- `tests/` — tests of the library
- `app/` — `cargo xtask`: the command line around the build tasks, and a viewer of the device
  configuration

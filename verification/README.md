# widgitron

The logic behind the Widgitron desktop widgets, written in Verus: every
function in `src/` carries a contract that Verus proves.

- `src/` — the verified library:
  - `deadlines`, `deadline_time`: which conference deadlines are shown, in
    what order, and how a deadline text in a time zone becomes a UTC instant.
  - `arxiv`, `monitor`: reading arXiv Atom feeds, the queries a fetch runs,
    the steps of the two polling monitors,
    paging through results, merging, sorting and the monitors' back-off.
  - `vscode_secrets`: choosing the stored GitHub session, the Chromium `v10`
    secret format, and finding Qoder CN login tokens in JSON records.
  - `antigravity`, `protobuf`, `cloud_quota`: the Antigravity OAuth token blob,
    client credentials, and which Cloud Code models the quota widget lists.
  - `ota`, `release`: update checks, installer choice and URL checks.
  - `hotkey`, `widget_layout`, `theme_config`, `config_paths`: shortcut
    parsing, monitor keys and widget placement, theme sync and migration, and where
    settings live.
  - `laws`: properties across operations (idempotence, what is always kept,
    uniqueness of choices).
  - `text`, `sort`, `common`: text, ordering and list helpers.
- `tests/` — tests of the library, run against the real outside crates.
- `app/` — a command-line front end doing the I/O: settings files, HTTP,
  SQLite, the operating system's password store, and floating-point scaling
  and layout fractions.

Calls into outside crates (`chrono`, `chrono-tz`, `url`, `semver`, `base64`,
`aes-gcm`, `pbkdf2`, `quick-xml`) sit behind small trusted wrappers whose
contracts say what those crates document.

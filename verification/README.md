# Net Sentinel

Net Sentinel is a local HTTP proxy with a blacklist. It listens on this machine, matches requests
against rules, and answers a blocked request with the actions of the rule: a picture in the window, a
sound, or a page in place of the response. Encrypted connections are matched by the target of their
`CONNECT` request only and are never decrypted.

## Layout

- `src/` is the library, written in Verus: every function has a contract, and the contracts are
  proved. `src/foreign.rs` holds the calls into std and into `globset`, `regex`, `serde_json` and
  `url`; their contracts are believed.
- `tests/` runs the library on concrete values.
- `app/` is the program around it: sockets and threads, the database, the registry of Windows, the
  sounds, the tray and the window, which is drawn with GPUI. It also needs the crates `gpui`,
  `tray-icon` and, on Windows, `windows`.

## Modules of the library

| Module | What it holds |
| --- | --- |
| `text` | lines, words, numbers and letter case |
| `config`, `settings` | the settings, and how they are changed and named |
| `rules`, `globs` | which requests a rule matches |
| `http`, `response` | request heads, and the answers to blocked requests |
| `route`, `tunnel`, `probe` | the way out, handshakes with upstream proxies, and checks of both |
| `actions`, `assets`, `preview` | what actions do, given what files and devices say |
| `intercept`, `service` | what becomes of a request and of the connected clients |
| `analytics`, `groups`, `chart`, `export` | blocked requests: kept, grouped, counted, written out |
| `system` | taking over the system proxy and giving it back |
| `shell`, `notices`, `editor`, `pages`, `events` | the state of the window and what it shows |

Laws that relate several functions are public proof functions whose names begin with `law_`, each in
the module that it is about.

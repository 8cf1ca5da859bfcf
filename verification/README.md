# fy

A selection translator for Windows: press a hotkey over selected text and a
small popup shows the result as an OpenAI-compatible service streams it.
Every provider, prompt and window setting comes from a TOML file.

The rules of the program are a library verified with Verus; the Windows
window, the SQLite cache file, the network client and the configuration file
on disk are ordinary Rust around it.

## Layout

- `src/` — the verified library
  - `text.rs` — character-sequence helpers (trimming, case, search, replace,
    lines) with their specifications
  - `json.rs` — JSON values as the library reads and builds them
  - `config.rs` — the configuration, its validation rules, and the edits of
    the configuration text that selecting a provider or moving the splitter
    write back
  - `language.rs` — choosing the target language from the detected one
  - `translator.rs` — prompt rendering, request bodies, reading replies and
    stream events, the cache key of a translation
  - `cache.rs` — cache keys and the size budget with its eviction rule
  - `popup.rs` — the popup's request, stream and pin state
  - `geometry.rs` — layout, hit tests, scroll bar, placement near the mouse
  - `paint.rs` — what the popup draws over its layout
  - `ui.rs` — hotkey syntax, text for edit controls, the icon directory
- `tests/` — tests of the library, run against the real outside crates
- `app/` — the Windows program: message loop, drawing, tray, registry,
  SQLite, configuration file and the streaming client

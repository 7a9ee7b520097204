# cyberdeckstr

A cyberpunk Nostr client for the terminal, with a BTC price chart, an
optional Bitcoin Core dashboard and a system monitor. The library in `src/`
holds the client's logic and is verified with Verus; `app/` is the program
around it (terminal, network, files, async tasks, floating-point figures).

## Library modules (`src/`)

- `text` — lines and words of text, control-character cleaning, decimal
  numbers, hexadecimal, wrapping messages for display (through `textwrap`),
  and finding the URLs in a line.
- `feed` — the bounded, duplicate-free feed with its cache of display lines,
  its window of remembered event ids, and each entry's header line.
- `app` — application state, the messages background tasks send, and the
  main loop's decisions on messages, key presses and rendering.
- `nostr` — identities, follow lists, author names, feed messages built from
  events, connection health (through `nostr-sdk` for key and metadata parsing).
- `relays` — the relays the followed authors name most often.
- `bitcoin` — node URL, retry backoff, block heights, status lines.
- `system_stats` — parsing `/proc/stat`, `/proc/meminfo`, `/proc/net/dev`
  and the amdgpu sysfs files; choosing the GPU card.
- `config` — which settings enable the node dashboard and auto-login.
- `ui` — the screen layout (through `ratatui`) and dashboard texts.

Each public function states its result in its `ensures`; the invariants of
the feed and of the application state are `FeedState::wf` and `App::wf`.
Laws that relate several calls are public proof functions named `lemma_*`.

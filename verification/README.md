# cosmic_widget

The logic of a system monitor overlay for the COSMIC desktop, written in Verus:
each public function states what it returns in its contract, and Verus proves
the code against it.

## Layout

- `src/` — the verified library.
  - `config` — the widget configuration: section order, position reset.
  - `notifications` — the notification list: capture from the bus
    (`bus`), replacement and dismissal (`history`, `monitor`), COSMIC Files
    transfers and qBittorrent downloads.
  - `media` — players and their order, MPRIS, Cider and Emby sessions,
    artwork selection and its cache, YouTube thumbnails.
  - `battery` — HID++ packets and battery features, Logitech discovery state,
    headset reports, power supplies, device names.
  - `ai_usage` — the Anthropic and Codex quota readers, retry timing and stale data.
  - `disk_io`, `overlay`, `text` — disk counters, the overlay's decisions
    (refresh timing, grouping, heights, icons), and string helpers.
- `tests/` — tests on concrete values.
- `app/` — the program around the library: files, HTTP, D-Bus, hidraw, and
  the floating-point display formatting.

Laws that hold across calls are public proof functions named `law_*`.

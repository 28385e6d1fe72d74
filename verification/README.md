# batty

Core of `batty`, an interactive terminal battery viewer for macOS, written in
Verus with its behaviour stated as contracts and proved.

- `src/extras.rs` — decoding of the `AppleSmartBattery` registry entry that
  `ioreg -a -r -c AppleSmartBattery` prints (lot codes, firmware and cell
  revision, first-use date, lifetime figures, supplier lookup) and of the
  `Cycles=N/M` field of `pmset -g rawbatt`.
- `src/plist_model.rs` — the property-list values the decoder reads, and the
  call into the `plist` crate.
- `src/civil.rs` — civil date of a Unix timestamp, proved against the
  Gregorian calendar.
- `src/config.rs`, `src/events.rs` — command-line settings and key/tick
  decisions of the event loop.
- `src/panels.rs` — the rows of the information tables.
- `src/tabs.rs` — the battery tabs and the selected one.
- `src/text.rs` — decimal rendering.

`app/` is the program around it: command-line parsing, running `ioreg` and
`pmset`, reading batteries, the terminal event loop and drawing with ratatui.

# beamng_editor

A verified core for a BeamNG.drive vehicle config editor: it finds `.pc`
vehicle configs, mods and `.jbeam` parts, swaps engines in a config, and keeps
versioned backups. The functions under `src/` are proved with Verus against
their `requires` / `ensures`, except the small wrappers marked
`#[verifier::external_body]` (and one `assume_specification`): each makes one
call into std, `serde_json`, `json5`, `sha2`, `hex`, `chrono`, `directories`
or `image` (a few also turn a `serde_json::Value` into the library's JSON
value and back), and its contract is trusted, not proved; its doc comment
says what it claims.

## Layout

- `src/text.rs`, `src/paths.rs`, `src/json.rs`, `src/json_util.rs`,
  `src/slots.rs`, `src/digest.rs`: strings, paths, JSON values, slot maps and
  checksums, with their mathematical models.
- `src/config.rs`: a loaded `.pc` config, its engine slot, part edits and diffs.
- `src/settings.rs`: the folders the editor works with, resolved against what
  exists on disk (`DirProbe`).
- `src/scanner.rs`, `src/vehicle_source.rs`, `src/scan_util.rs`,
  `src/seen.rs`: vehicle discovery, thumbnails and scan bookkeeping.
- `src/mod_scanner.rs`, `src/engine.rs`, `src/parts.rs`: mods, engine parts
  and the parts index behind the engine dropdown.
- `src/backup.rs`: backup names, metadata, the backup index and restore plans.
- `src/state.rs`: the editor state (filters, undo/redo, notifications, scan
  progress, apply).
- `src/thumbnail.rs`, `src/theme.rs`: thumbnail bookkeeping and label fitting.
- `app/`: the window (egui/eframe), file and archive I/O, and the scan threads.
- `tests/`: tests of the library on concrete values.

## Design notes

- Maps and sets keyed by strings (the backups by vehicle, a config's slot
  assignments, the parts index by slot type and by id, the ids already seen)
  are vectors of pairs kept sorted by key, with no key twice, as a type
  invariant. Verus specifies `Vec` fully, while its specifications of the
  std maps and sets prove little with `String` keys; the sorted order gives
  the same iteration order as a `BTreeMap`.
- Paths are handled as text with both `/` and `\` as separators on every
  platform, as the game and its configs write them on Windows; so a file
  name or a vehicle key taken from `a\b.pc` is `b.pc` / `b` everywhere.
  A path that ends in `.` has `.` as its file name.
- Saving the edits is a sequence of steps (`apply_steps`): the backups, the
  save, the write-back. The window carries out each step and hands its
  outcome to `AppState::apply_next`, which decides whether to go on; a
  failed step stops the save with an error notification.
- Restore all restores the earliest backup of every vehicle.
- Not here: the engine dropdown grouping by mod, the adapter-mod listing and
  the checks of which vehicles a mod or an adapter supports. They rest on
  helpers (deciding what an adapter mod is, whether an engine belongs to a mod, reading an adapter's
  compatibility list, whether a mod is listable) that this code base does
  not have, so they are left out.

# SlimBrave

A policy manager for Brave and Chrome: it turns a set of ticked privacy,
security and debloat choices into browser policies (a macOS configuration
profile or Windows registry values), reads applied policies back, and keeps
a data-driven catalog of policies that a user layer can extend.

## Layout

- `src/` — the library, verified with Verus:
  - `catalog.rs` — the policy catalog, catalog files and the three layers
    (built-in, fetched templates, user)
  - `state.rs` — the interface state, snapshots (import/export) and presets
  - `payload.rs` — apply plans, reading found values back into the state,
    checking found values
  - `roundtrip.rs` — applying and reading back gives the state again
  - `platform.rs` — channels, apply reports, the machine-wide PowerShell
    script, values found in property lists and the registry, closing the
    browser, tool output
  - `profile.rs` — the `.mobileconfig` configuration profile
  - `fetch.rs` — official policy templates: simple YAML, ADMX/ADML, the
    template archives
  - `i18n.rs` — interface languages and localized texts looked up in the
    Fluent translation files
  - `theme.rs`, `settings.rs` — colors, saved settings and shown texts
  - `keymap.rs`, `keys.rs`, `text.rs`, `split.rs` — ordered text maps and
    text handling
- `app/` — the egui window, files, processes, registry and downloads.
- `tests/` — tests of the library.

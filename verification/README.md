# onlycodex

OnlyCodex lets Codex Desktop use any OpenAI-compatible chat model: a local
proxy sidecar speaks to the configured providers, and Codex's own
configuration is pointed at that proxy while it runs.

This crate holds the logic of the application, proved with Verus:

- `config` – providers, models, mappings and settings; validation before a
  save; the migration of old context-window defaults.
- `codex` – where Codex keeps its files; routing its `config.toml` through
  the proxy (a TOML edit that keeps the rest of the file), the safety backup
  and the byte-for-byte restore; the app-server wrapper and relaunch
  arguments.
- `catalog` – the model catalog that Codex is shown: one entry per routed
  alias, built on the template model and written out as JSON.
- `sidecar` – the proxy's arguments, its provider and route configuration (and
  the JSON file that carries it), and
  the watch over its start-up.
- `discovery` – testing a provider and reading the model list it answers with.
- `runtime` – the bounded activity log and the reading of the proxy's log lines.
- `proxy` – the order of the steps that start the proxy.
- `keyed`, `text` – sorted keyed entries and text primitives used throughout.
- `toml`, `json` – the parts of `toml_edit` and `serde_json` that the
  configuration edit and the catalog rely on, with the contracts assumed of
  them.

`app/` is the desktop shell around it (files, processes, HTTP, the Tauri
window and commands); `tests/` exercise the library on concrete values.

# cc-switch-agents

The configuration logic that CC Switch applies to three coding agents
(Omp, Pi and Kimi Code), proved correct with Verus.

- `src/` is the verified library. Each operation works on the agents'
  documents held in memory (JSON values, the YAML sections of Omp's
  `models.yml`/`config.yml`, the JSONC syntax tree of Pi's `models.json`,
  Kimi Code's `config.toml` as a table) and states in its contract exactly
  what it returns and how it changes the document.
  - `json`, `text`, `strops`, `version`: values and strings with their models.
  - `omp_config`, `omp_ops`, `yaml_section`, `omp_adapter`: Omp providers,
    model roles, proxy takeover, section surgery and the proxy adapter.
  - `pi_config`, `pi_jsonc`: Pi providers, credentials (`auth.json`), the
    selection, takeover, and comment-preserving edits of `models.json`.
  - `kimi_config`, `mcp_kimi`: Kimi Code providers and MCP servers.
  - `toml_sync`, `toml_doc`: Kimi Code's `config.toml` read with `toml_edit`
    into the document, and written back by a sync plan that touches only the
    items whose value changed, so other items keep their text and comments.
  - `jsonc_doc`: Pi's `models.json` read and printed with `json_five`'s
    round-trip parser, with the provider edits in between.
  - `session_usage`, `session_text`, `kimi_sessions`, `pi_sessions`: token
    usage and the session browser over the agents' session logs.
  - `*_laws`: properties across operations, stated as proof functions.
- `app/` is the unverified shell: files, environment, processes, the
  read-only query of Omp's SQLite credential store, and the serde formats
  (JSON, YAML, JSON5 values); it reads, calls the library, and writes.
- `tests/` runs the library on concrete values.

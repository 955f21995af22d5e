# kimi_config

Provider, model and MCP settings of the Kimi Code command line, as a verified library.

The settings live in two files of one directory: `config.toml` and `mcp.json`. Every operation
of the library takes the text of a file (`None` where there is no such file) and returns what
was read, or the write that is to be made.

- `src/paths.rs`: where the files lie.
- `src/listing.rs`: the providers, their models, the provider in use.
- `src/changes.rs`, `src/editing.rs`: what a change makes of the settings, and the code that
  makes it.
- `src/mcp.rs`: the MCP servers.
- `src/saving.rs`: a file is written as a whole or not at all, step by step.
- `src/laws.rs`, `src/round_trips.rs`: what holds across several operations, and of what is
  read after a write.
- `src/toml_doc.rs`, `src/json.rs`: TOML documents and JSON values as trees;
  `src/toml_access.rs` and the second half of `src/json.rs` hold the calls into `toml_edit`,
  `serde_json`, `toml` and `indexmap`, each with what it is trusted to do.
- `app/`: the files on disk, the environment and the lock.

# psa_ret

A browser for a database of CAN bus messages described in YAML files, one message per file.

- `src/` is the library, verified with Verus:
  - `yaml` — YAML nodes as plain values, and the calls into `yaml_rust2` that load and emit YAML;
  - `bus::can` — translations, signals, messages, and what a message file means;
  - `config` — the configuration file (database directory and language);
  - `app` — the application state: table selection, loading and ordering of the messages;
  - `layout` — the area of the edit window, computed with `ratatui`'s layout solver;
  - `text` — decimal parsing and number formatting, suffix handling, text order.
- `app/` is the terminal side: reading the database directory and the configuration file,
  logging, and drawing the screen with `ratatui`.
- `tests/` exercises the library on concrete files and values.

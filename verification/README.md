# config_parser

Reads a value out of a JSON or TOML configuration document by a key path such as
`nested.list[1]["spaced key"]`.

- `src/` is the verified library:
  - `validate` — the key-path grammar and its checker;
  - `path` — key paths, and the reading of accepted key-path text into segments;
  - `adapters` — telling the format of a text, reading it, and following a key path
    through a JSON value (`adapters::json`) or a TOML document (`adapters::toml`);
  - `read` — the whole read: check the key path, read it into segments, follow it;
  - `errors`, `types`, `text` — error types and their messages, value types, and
    character-level helpers;
  - `formats` — the calls into `serde_json` and `toml_edit`, and the conversion of what
    they return into the library's own value types.  These, with two calls into std
    (`String::push`, and `{:?}` of a list of strings), are the code whose contracts are
    trusted rather than proved.
- `app/` is the command line (`--document PATH read KEY_PATH`): it reads the file and prints
  the value found.
- `tests/` runs the library on concrete inputs.

# hue

hue keeps one logical theme in sync across the configuration files of
Ghostty, Helix and Zed.

- `src/` is the library, verified with Verus: the line model of `key = value`
  configuration files and the theme patches (`text`, `keyfile`, `target`),
  the theme catalogs (`catalog`), paths and settings (`config`), the step
  function that applies a theme to one target (`target`), and the table and
  diff shown to the user (`ui`). Calls into `jsonc_parser`, `similar`,
  `console`, `comfy_table` and `directories` stand behind small trusted
  wrappers whose contracts say what is assumed of them.
- `app/` is the command line around it: argument parsing with clap, TOML
  files with serde and toml, reading and writing files, reloading the
  applications.
- `tests/` exercises the library.

Each target has a bundled catalog of themes (`Target::catalog`), written to
`~/.config/hue/themes/<target>.toml` when that file does not exist yet.

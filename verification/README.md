# yurl

An HTTP client driven by JSON/YAML request documents (`{g: api!/toys, h: {a!: bearer!tok}}`),
with header shortcuts, configurable output routing, rule-based header merging, response
caching and an interactive prompt.

`src/` is the verified library (Verus); every function there is verified against its contract, except the calls into outside crates in `trusted`, whose contracts are assumed:

- `json`, `text`, `floatlit`: the JSON model (insertion-ordered objects) and string helpers.
- `atom`, `format_json`, `format_yaml`, `yaml_util`, `template`: output formats, their
  rendering, and output path templates.
- `config`, `env`, `glob`, `cache`, `shortcut`: configuration parsing, `$VAR` expansion,
  URL globs, rule matching and header merging, cache settings and cache keys.
- `request`, `plan`, `response`: reading a request document, deciding what is sent and
  where each output goes, and what the outputs see of a response.
- `input`: splitting standard input into request documents.
- `driver`, `help`: the interactive session as a state machine from inputs to effects.
- `laws`: properties of the library as a whole, stated and proved over the contracts.
- `trusted`: the calls into outside crates (`yttp`, `serde_json`, `serde_yml`, `url`, `sha2`, `base64`,
  `console`) with the contracts the library relies on.

`app/` is the program around it: arguments, standard input, HTTP (`reqwest`), the SQLite
cache store, progress bars, and the `rustyline` prompt that carries out the driver's effects.

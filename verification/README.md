# ofa

`ofa` (One For All) runs reusable shell commands defined in TOML
configuration files. Commands take positional parameters with defaults and
their scripts may reference variables as `{{ name }}` or `@name`.

The library under `src/` is verified with Verus:

- `engine::tokenizer` parses templates; `engine::resolver` resolves their
  references (call-local values, then the session store, the persistent
  store, and the configured variables) into
  segments to assemble; `engine::executor` binds arguments to parameters,
  substitutes `$NAME` environment references and produces dry-run output;
  `engine::discovery` lists command groups.
- `config` combines the global, profile and local configuration layers;
  `project` merges the JSON project configuration by type and subtype.
- `strmap` is the string-keyed map the configuration tables use. vstd's
  specification of std's `HashMap` holds only for key types that are shown
  to obey its key model, which `String` is not, so the tables are kept in a
  map whose operations are verified here; `order`
  gives the lexicographic order used for sorted listings.
- `app` builds the help text and the `app eval` request; `context`,
  `store`, `init` and `lifecycle` hold the remaining decisions of the
  program.

The program under `app/` reads files and the environment, parses the TOML
and JSON files, runs `sh`, and prints.

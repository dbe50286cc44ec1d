# powerliners

A statusline renderer and configuration linter in the style of Powerline,
written in Verus: the library's logic carries `requires` / `ensures`
contracts that Verus proves.

## Layout

- `src/` — the verified library.
  - `render_segments.rs`, `renderer.rs`, `renderer_info.rs`: laying out a
    line of segments (dividers, widths, dropping by priority, spreading room
    on spacers), escaping and translating characters, and the segment
    information a renderer hands its segments.
  - `lint_*.rs`: the configuration linter — value specifications (`Spec`),
    the checks of colors, highlight groups, themes and segment keys, the
    search for configuration files, and the context that names where a
    value stands.
  - `markedjson/`: the marked JSON loader — reader, scanner, tokens, parser,
    events, composer, resolver, constructor tables and error formatting.
  - `listers.rs`, `matchers.rs`, `powerline.rs`, `common_config.rs`: the
    listers (i3, pdb, vim), the vim plugin matchers, configuration paths,
    the logger and the common configuration's defaults.
  - `json_value.rs`, `text.rs`, `char_map.rs`: the values, text and maps the
    rest is stated over.
  - `regex_calls.rs` and `markedjson/json.rs`: the calls into `regex` and
    `serde_json`, each behind a small trusted wrapper.
- `tests/` — tests run against the compiled library.
- `app/` — what touches the machine: the environment, the file system, the
  standard error stream, and the values with floating point numbers.

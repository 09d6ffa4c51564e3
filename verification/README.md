# moonshine

An atomic-CSS generator, verified with Verus.

- `src/text.rs`: string replacement, trimming, containment and the order of
  strings, each with its specification.
- `src/strmap.rs`: a map from strings to values kept sorted by key, and the
  laws of storing by key in sorted order and in the order of writing.
- `src/css.rs`: CSS rules and their declarations (in property order where
  derived from tokens, in the order written where taken from a template),
  placeholders for token keys and values, and how rules are written out.
- `src/transformation.rs`: transformations and `Intermediate::build` /
  `Intermediate::stringify`.
- `src/instruction.rs`: instructions over variable groups and
  `generate_rules`.
- `src/template.rs`: templates expanded into transformations, from what the
  template patterns find in each atom name.
- `src/pipeline.rs`: merging token groups and producing the stylesheets.
- `src/index_map.rs`, `src/pattern.rs`: the `indexmap` and `regex` calls,
  behind contracts.
- `app/`: the `distill` command line tool (files, JSON, YAML, arguments).

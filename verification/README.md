# amplifier_foundation

Bundle composition, dictionary merging, URI parsing, registry bookkeeping and
session utilities for Amplifier, written in Verus: the behaviour of each
function is stated as a `requires` / `ensures` contract and proved.

- `src/` is the verified library. Values are modelled mathematically (`Yaml`,
  `Json`, `BundleModel`, `StateModel`, paths as component sequences) and the
  contracts speak of those models. Laws that relate several functions (for
  example that a saved registry reads back to the same states, or that
  composing in steps equals composing at once) are public proof functions
  named `law_*`.
- Calls into other crates (`indexmap`, `sha2`, `glob`, `dirs`) and into the
  file system go through small trusted wrappers whose contracts say what is
  assumed of them.
- `app/` holds the input and output around the library: reading and writing
  files, running `git` and installers, HTTP downloads, zip archives, and the
  conversions to and from `serde_yaml_ng` and `serde_json` values.
- `tests/` exercises the library on concrete values.

Protections stated in the contracts: a subpath is joined onto a source's
cache only when it stays within it (`safe_join` in every source handler);
sanitised agent and context names are relative and free of `..`;
`set_nested` refuses paths deeper than 64 keys; HTTP downloads are stopped
past 100 MB or 120 seconds (`check_download_limits`).

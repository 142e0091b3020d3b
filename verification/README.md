# cistell_core

Configuration resolution with provenance tracking and secret redaction,
written in Verus: the library's public functions carry contracts that
Verus proves, and its laws are stated as proof functions.

A config struct's fields are resolved against ranked sources (an in-memory
map, environment variables, config files, `pyproject.toml`, defaults). The
first source in rank order that has a value wins; the sources that also had
one are recorded as rejected, and secret values are never rendered.

## Layout

- `src/` — the verified library.
  - `resolver.rs`: the builder (stable sort by rank), resolution of one
    field and of a whole struct, and the laws of resolution (first value
    wins, first error is reported, missing required fields, secret fields
    hidden, every field recorded, the order in which sources of distinct
    ranks are added does not matter, defaults answer the fields they
    cover).
  - `source/`: the sources (`MapSource`, `EnvSource` over an `Environment`
    snapshot, `FileSource`, `PyprojectTomlSource`, `DefaultSource`) and the
    `ConfigSource` trait, which sources of the user's own implement too.
  - `value.rs`, `scalar.rs`, `duration.rs`: config values, dotted lookup,
    coercion to scalars and lists, the seconds deserializer.
  - `document.rs`: reading TOML, YAML and JSON text (through the `toml`,
    `serde_yaml` and `serde_json` parsers) into config values.
  - `derive.rs`: what `#[derive(Config)]` decides — attribute validation,
    derived keys, coercion and default plans, flattening.
  - `python.rs`: the decisions behind the Python bindings.
  - `config.rs`, `provenance.rs`, `error.rs`, `field.rs`, `text.rs`.
- `tests/` — tests run against the compiled library.
- `app/` — what talks to the outside world: reading the process
  environment and files from disk, `tracing`, the derive macro's token
  handling with `syn`/`quote`, and the `pyo3` module.

# opendal-ext

Extensions for OpenDAL: configuration of operators from plain settings, write quotas, and a
virtual file system that mounts several operators into one namespace.

What the library decides is decided by functions in `src/` that are verified with Verus: how
settings are read, which layers an operator gets, whether a write fits its quota, which mount a
path belongs to, what a directory lists and how a refused request is answered. `app/` performs the
requests: it implements OpenDAL's traits and asks the verified functions at each step.

## Layout

- `src/text.rs`, `src/number.rs`, `src/table.rs`: text, decimal numbers, tables keyed by text.
- `src/retry.rs`, `src/throttle.rs`, `src/service.rs`, `src/config.rs`, `src/operator.rs`: the
  settings of an operator, and the operators built from them.
- `src/quota.rs`, `src/layers.rs`: write quotas and write protection.
- `src/path.rs`, `src/mount.rs`, `src/vfs.rs`: virtual paths, the mounts, and the builder.
- `src/error.rs`: the errors of the library.
- `tests/`: tests of the library, with operators on memory.
- `app/`: the layers and the backend for OpenDAL, and the types in the form in which they are
  stored.

Functions named `law_...` are theorems about the library as a whole, such as that a path goes to
the longest mount that owns it, that a quota is never exceeded, or that aborting a writer gives
back what it reserved.

## Trusted parts

The contracts of these calls are believed, and each is said in words above the function that makes
it: `str::to_lowercase` (`src/retry.rs`), parsing and display of `bytesize::ByteSize`
(`src/throttle.rs`), `opendal::Operator::via_iter` and `opendal::Operator::layer`
(`src/operator.rs`).

## Services

`Cargo.toml` enables the OpenDAL services `memory` and `fs`. Any other service in
`src/service.rs` can be used once its feature of the `opendal` crate is enabled.

# ambient_ember

The verified core of the Ambient ember tooling, written in Verus.

- `src/manifest.rs` — manifest types, their defaults, and the check that a
  manifest is TOML and does not use the legacy `project` section.
- `src/value.rs` — conversion of TOML values to component values against a map
  of type items, value resolution, and the text a value is shown as.
- `src/scheduling.rs` — build order of an ember and its dependencies, the
  up-to-date check, and the rewrite of local dependency paths.
- `src/modules.rs` — pairing of client and server WebAssembly modules, and the
  log lines of module messages.
- `src/paths.rs` — Unix path joining, file names, stems and extensions,
  component listings, project-path classification and ember file locations.
- `src/asset.rs` — asset locations and `ok_wrap`.
- `src/address.rs` — the default port of a server address.

`app/` is the command-line front end: it lays out the build of a project and
its local dependencies in the order `BuildQueue` gives, with file-system access, the serde copies of
the manifest types, and the conversions of float-typed values (the library
holds no floating-point numbers).

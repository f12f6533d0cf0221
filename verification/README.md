# buffrs

The core of `buffrs`, a package manager for Protocol Buffers, written in Verus:
every function in `src/` carries a contract that Verus proves.

## Layout

- `src/` — the verified library
  - `version.rs`: versions and requirements (`semver` behind small trusted
    wrappers), version selection, exact requirements
  - `registry.rs`: registry URLs and references, alias resolution
  - `artifactory.rs`: registry addresses, search results, status codes
  - `manifest.rs`: `Proto.toml` as data: editions, dependencies, resolution
    of registry aliases, the published form of a manifest
  - `lock.rs`, `digest.rs`: `Proto.lock` records, digests and their text,
    and the canonical order in which a lockfile is written
  - `resolver.rs`: the dependency graph and every decision made while
    building it (reuse, collisions, lockfile plans, vendor directories), and
    the discovery of packages for conflict-driven resolution
  - `assembly.rs`: the graph of a resolution that picked one version per
    package: its roots, entries and edges
  - `pubgrub_resolver.rs`: the version sets of requirements (`pubgrub`'s
    `Ranges` behind small trusted wrappers) and the dependency provider that
    conflict-driven resolution consults
  - `namespace_scan.rs`: protobuf `package` declarations and namespace conflicts
  - `metadata.rs`: `graph.json`, `namespaces.json` and `buffrs.cmake` contents
  - `update.rs`: release names and addresses for self-update
  - `text.rs`, `package.rs`: shared text utilities and package types
- `tests/` — tests of the library
- `app/` — file, network and process plumbing around the library: reading and
  writing TOML and JSON, the registry client, running the `pubgrub` solver,
  walking vendored files, self-update

Laws that span several functions are public proof functions named `lemma_*`.

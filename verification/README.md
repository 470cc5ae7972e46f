# norisk_downloads

The decision logic of the NoRisk launcher's download services, verified with
Verus: where library, mod and asset files are stored, which transfers are
made and how they are configured, which asset groups and files a profile
needs, which local files the orphan cleanup removes and in which order, how
the outcomes of a batch of transfers combine, and which Quilt loader version
is the latest stable one.

- `src/` — the verified library.
  - `paths` — paths as a root flag and normal components, with
    `Path::join`, `parent` and `starts_with` (Unix semantics: `/` separates
    components, and a leading `.` of a relative path is not kept as a
    component). The runtime converts `std` paths component by component, as
    the platform splits them, so that built and found paths agree on every
    platform.
  - `text` — character-level string operations (search, trimming, replacing).
  - `outcome` — transfer requests and how a batch of outcomes combines.
  - `libraries` — the Minecraft libraries service.
  - `pack` — the NoRisk pack (mod cache) service: mod URLs and transfers.
  - `pack_run` — the caching of a pack's mods as a step function: pack
    resolution, file names, one transfer per compatible mod, the result.
  - `assets`, `asset_tree` — the NoRisk client assets service: session
    checks, object storage by hash, copy decisions, the paths an asset group
    accounts for, and the orphan deletion order.
  - `group_flow` — the stages of one asset group (fetch, download, copy).
  - `profile_run` — the asset run of a profile as a step function: which
    groups are processed, what a failure yields, what the cleanup deletes.
  - `quilt` — the Quilt metadata client.
  - `ids` — the text form of account UUIDs (through the `uuid` crate).
- `app/` — the unverified runtime, which performs the actions that the
  step functions decide and hands back their outcomes: file system, HTTP
  through a host trait, concurrency, progress events (with their floating-point progress values),
  and the serialised forms of the library's types.
- `tests/` — tests of the library on concrete values.

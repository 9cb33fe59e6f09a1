# theseus (verified core)

The decision logic of a Minecraft launcher's server modpack installer, mod
metadata reader and library downloader, written in Verus with its contracts
proved.

- `src/` — the verified library. `modpack` (which index files a server
  installs, download plans, aggregate progress, install bookkeeping), `prune`
  (which installed mods a dedicated server must drop), `mods_toml`,
  `mod_metadata` and `jar` (metadata embedded in mod jars), `download`,
  `install_plan`, `version_info` and `natives` (library and asset download
  planning, progress accounting, version profile repairs, native library
  repair), `text` (string helpers with exact specifications).
- `tests/` — tests of the library.
- `app/` — file-system, archive and JSON / TOML parsing around the library.

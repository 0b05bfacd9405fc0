# darwinplay_runtime

The decision logic of the DarwinPlay runtime controller, verified with Verus:
which DarwinWine runtimes are accepted, Wine prefix and drive naming, PE
inspection, Valve KeyValues parsing, Steam library metadata and client policy,
compatibility analysis of installed games, graphics backend selection and the
known per-game fixes.

- `src/` — the verified library. Every function states its result in
  `ensures` over spec functions and views; the `lemma_*` proof functions state
  the properties that relate several functions. The multi-step flows
  (installing Steam, extracting and installing a DarwinWine archive, booting
  a Wine prefix) are step functions in `steam_setup`, `runtime_install` and
  `wineboot`: the program carries out each action and hands back what it
  found.
- `tests/` — executable tests of the library.
- `app/` — the `darwinplay-runtime` program: command-line parsing, files,
  processes, downloads and JSON output around the library.

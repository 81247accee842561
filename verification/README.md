# ymir

The decision logic of the Ymir star-to-surface planet generator, written in
Verus with its contracts proved.

- `src/` — the verified library: pipeline stage bookkeeping and dirty
  tracking, seed derivation, catalog text parsing (discovery methods, Gaia
  identifiers, the alias table, planet letters) and the exoplanet host/Gaia
  index, atmosphere recipes, biome palettes, the Whittaker table and the water
  overlay, regional hex-grid topology and drainage routing, provenance
  tallies, override-file checks, and the viewer's state and star-browser
  filters. The laws of the library are the `law_*` proof functions.
- `tests/` — tests of the library on concrete values.
- `app/` — the desktop viewer and everything that touches files, the
  catalog readers (Parquet, CSV, bincode, JSON), and the
  floating-point models (gas retention, greenhouse, habitable zones,
  depression filling, smoothing weights), which call into the library for
  their decisions.

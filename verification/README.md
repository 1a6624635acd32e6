# hermes_rs

The bookkeeping of a cosmological particle-mesh simulator, verified with
Verus: layered TOML configuration and its deep merge, configuration
validation, initialization and sector planning, the engine's step and
snapshot schedule, snapshot file naming and directory listings, the
periodic grid's integer arithmetic, playback navigation, and GIF frame
rasterization.

## Layout

- `src/` — the verified library.
  - `config/` — configuration trees (`tree`), the laws of their merge
    (`merge_laws`), the TOML boundary (`toml_bridge`), layering
    (`layers`), and the ontology, output and simulation blocks with their
    validation.
  - `run/` — command-line routing and configuration tiers (`runner`),
    playback navigation (`playback`), frame rasterization (`raster`) and
    pipeline decisions (`pipeline`).
  - `grid`, `text`, `io`, `engine`, `initialization`.
- `tests/` — tests of the library on concrete values.
- `app/` — the `hermes` program: command-line parsing, file and thread
  I/O, the floating-point particle-mesh physics, snapshot files and GIF
  encoding, built on the library.

The laws of the library are public proof functions whose names begin
with `law_`.

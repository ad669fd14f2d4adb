# calibraw_core

The integer and text logic of the CalibRaw RAW developer, written in Verus:
every function in `src/` carries a `requires`/`ensures` contract that Verus
proves, and the laws that relate several functions are public proof
functions.

## Layout

- `src/` — the verified library.
  - `tiff` — TIFF/BigTIFF headers, IFD walking, sensor detection and the
    embedded ICC profile.
  - `libraw_loader`, `rawler_loader`, `raw_loader` — sensor-layout rules:
    CFA families and plane maps, orientation, black-level patterns, preview
    and geometry limits, DNG tiling, the DNG tag and decoded-image checks,
    DNG CFA classification and channel maps, supported file names.
  - `dcp_profiles` — matching DCP camera profiles to a camera: keys, scores,
    display names, ordering and disambiguation.
  - `lens_match` — matching a RAW file's lens to lens-database entries.
  - `pixel_map` — repeating/dense pixel maps and their windows.
  - `point_colors` — the bounded list of sampled point colours.
  - `processing` — tile plans, crops, padding and CFA proxies.
  - `masks`, `mask_region`, `remove` — the mask stack, brush stroke runs,
    mask regions (sized with double-precision rounding, emulated exactly in
    integers) and retouch context crops.
  - `diagnostics` — the bounded event log, snapshots and sampled fingerprints.
  - `scaling` — scaling an edge by a ratio of edges exactly as
    double-precision arithmetic does, for mask atlases and proxies.
  - `codec`, `text`, `int_util`, `white_balance_presets`,
    `adjustment_groups` — shared helpers.
- `tests/` — ordinary Rust tests of the library.
- `app/` — the I/O around the library (files, the global diagnostics log,
  JSON forms, the white-balance preset database).

Trusted items (calls into `std` and `base64` whose contracts are assumed)
are marked `#[verifier::external_body]`, each with a doc comment naming the
function it calls.

# footprint

Footprints of remote-sensing satellite pixels: each one is a multipolygon
in WGS84 coordinates with the orbit, platform, instrument and time interval
of the observation.  Footprints from different satellites are kept in one
common format, so that coincident observations are easy to find.

## Layout

- `src/` — the verified library.  It is generic in the time and
  vertex types, so it holds no floating point:
  - `footprint.rs`: the `Footprint` and `Footprints` records;
  - `poly_utils.rs`: walks over outlines (all vertices, closing rings,
    splitting polygons into exterior and interior rings, rectangle corners);
  - `amcut.rs`: whether a closed ring crosses the antimeridian, given the
    test for one segment;
  - `decimal.rs` and `dump.rs`: the human-readable text dump;
  - `item_fields.rs`: the instrument and orbit fields read from STAC items;
  - `decimate.rs`: the "keep every Nth footprint" selection used when merging
    footprint files, with its counting laws.
- `app/` — the `f64` side: MessagePack files, GeoJSON export, clipping at the
  antimeridian with `geo`/`geo-clipper`, statistics, and the `fptool` and
  `stac2fp` programs.
- `tests/` — tests of the library on concrete values.

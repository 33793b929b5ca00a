//! Satellite footprints: the outline of a remote-sensing pixel given as a
//! multipolygon, with the orbit, platform, instrument and time interval of the
//! observation.
//!
//! This crate holds the structural logic of footprints, with its proofs: the
//! footprint records themselves, the walk over outlines (flattening,
//! ring closing, polygon splitting, antimeridian crossing detection), the
//! human-readable text dump, the fields read from STAC items, and the
//! decimation used when merging footprint files.  All of it is generic in the
//! coordinate type, so that the floating-point geometry stays with the caller.
pub mod footprint;
pub mod poly_utils;
pub mod amcut;
pub mod decimal;
pub mod dump;
pub mod item_fields;
pub mod decimate;


//! In-memory model of an NWB/HDF5 file viewer: a snapshot of a container
//! file's group/dataset hierarchy, a registry of loaded files deduplicated by
//! canonical path, a registry of open detail windows keyed by dataset path,
//! and the decimation heuristic used when plotting long time series.

pub mod gui;
pub mod hdf;
pub mod paths;
pub mod plot;
pub mod popup;
pub mod table;
pub mod windows;

//! Palette-constrained pixelization of raster images into cross-stitch
//! patterns.
//!
//! The library holds the discrete core of the pipeline: output-grid geometry,
//! the partition of input pixels among superpixels, the bookkeeping of the
//! annealing palette (clusters, splits, collapse), convergence tracking, the
//! DMC floss catalog with nearest-color snapping, and the pattern composer
//! (symbols, legend, pagination, tiling). Floating-point color arithmetic and
//! document rendering live outside the library and are driven by the
//! decisions made here.

pub mod assign;
pub mod catalog;
pub mod chart;
pub mod cluster;
pub mod composer;
pub mod convergence;
pub mod geometry;
pub mod pages;
pub mod pixelizer;
pub mod symbols;

//! Planet-like worlds from a seed: the discrete side of their generation.
//!
//! A world has a climate, zones scattered over its map and links between
//! them. What is measured on the surface of a planet is real-valued; this
//! library holds every such quantity as a [`scalar::Scalar`], the rank of a
//! single-precision number, and decides on ranks alone. The arithmetic that
//! produces the numbers stays with the caller, who hands it in as functions:
//! where a zone lies, what is found at a point, how far two points are
//! apart.
//!
//! - [`scalar`], [`points`]: ranks, and points of the plane and of grids.
//! - [`grid`]: a dense two-dimensional grid with its builder.
//! - [`material`], [`climate`]: the materials and the rule that picks one.
//! - [`zones`], [`zone_gen`]: zones, and the search that scatters them.
//! - [`links`]: links, the search between two zones, and the linking of a
//!   map.
//! - [`world`]: a world as a whole.
//! - [`raster`]: what a pixel of the map of a world shows, and the layout
//!   of a picture.
//! - [`procedural`], [`surface`]: what is discrete in the making of a noise
//!   field and in the sampling of a surface.
//! - [`location`], [`asciireen`]: a zone in detail, and a small screen.
//! - [`rng`]: the calls into the random number generator.

pub mod asciireen;
pub mod climate;
pub mod grid;
pub mod links;
pub mod location;
pub mod material;
pub mod points;
pub mod procedural;
pub mod raster;
pub mod rng;
pub mod scalar;
pub mod surface;
pub mod world;
pub mod zone_gen;
pub mod zones;

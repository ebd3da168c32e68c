//! Static map images and raw tiles out of PMTiles archives.
//!
//! This library decides: what a request means, which tiles a map needs, how
//! they are styled, drawn and labelled, and how a request is answered. What
//! it cannot hold stays with its callers: floating-point projection, reading
//! archives, and the HTTP server itself.

pub mod config;
pub mod error;
pub mod etag;
pub mod geo_util;
pub mod lookup;
pub mod markup;
pub mod mosaic;
pub mod number;
pub mod params;
pub mod polyline;
pub mod query;
pub mod raster;
pub mod render;
pub mod render_laws;
pub mod reply;
pub mod staticmap;
pub mod style;
pub mod text;
pub mod tile_server;
pub mod tiles;
pub mod xml;

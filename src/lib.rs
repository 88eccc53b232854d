//! A columnar table of typed columns and a k-nearest-neighbours engine over it.
//!
//! Floats are held as their IEEE-754 bit patterns: the library stores, moves
//! and orders them but does no float arithmetic. Distances, inverse-distance
//! weights and means are computed by the caller and handed in as order keys
//! (a smaller key is a smaller distance); scores come back as exact ratios.
pub mod enums;
pub mod errors;
pub mod data_vector;
pub mod index_map;
pub mod dense;
pub mod data_matrix;
pub mod labels;
pub mod neighbors;
pub mod metrics;
pub mod classifier;
pub mod regressor;
pub mod csv_loader;

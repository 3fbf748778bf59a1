//! A URL-shortening service: a store of short codes and the links they stand
//! for, deduplicated by link, with a click counter per code.
pub mod assoc;
pub mod ids;
pub mod model;
pub mod store;
pub mod routes;
pub mod laws;

//! PuppyFind finds local images by what they show.
//!
//! The library holds what the application decides and computes: its settings and the
//! environment file that keeps them, paths, the index of images, the runs that bring images
//! into it, searches, and what the server answers. Reading, writing and embedding are done
//! around it.

pub mod app_state;
pub mod config;
pub mod db;
pub mod env;
pub mod env_file;
pub mod flow;
pub mod index_laws;
pub mod indexer;
pub mod model;
pub mod order;
pub mod outside;
pub mod path_laws;
pub mod paths;
pub mod reading;
pub mod round_trip;
pub mod search;
pub mod server;
pub mod service_laws;
pub mod text;
pub mod trace;
pub mod web;

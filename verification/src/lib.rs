//! Normalises hierarchical hyper-parameter records into flat attribute maps
//! and clusters the runs that share a configuration.
pub mod attributes;
pub mod common_parameters;
pub mod config;
pub mod experiment_grouping;
pub mod file_utils;
pub mod float_bits;
pub mod float_text;
pub mod grouping_laws;
pub mod hashing;
pub mod models;
pub mod parameter_value;
pub mod similarity_laws;
pub mod sorting;
pub mod text;
pub mod tui;
pub mod version_list;
pub mod yaml_parser;

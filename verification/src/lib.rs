//! Context-efficient SSH tools.

pub mod activity;
pub mod audit;
pub mod budget;
pub mod config;
pub mod deploy;
pub mod digest;
pub mod headers;
pub mod home;
pub mod ids;
pub mod json;
pub mod json_value;
pub mod local_files;
pub mod order;
pub mod paths;
pub mod pending;
pub mod pool;
pub mod protocol;
pub mod pull;
pub mod push;
pub mod requests;
pub mod runtime;
pub mod startup;
pub mod string_map;
pub mod text;
pub mod tools;
pub mod transfer;

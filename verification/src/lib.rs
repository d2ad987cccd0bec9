//! A sharded vector database engine: locality-sensitive bucket index,
//! collection registry, on-disk record format and cluster routing.
//!
//! Vector components and similarity scores are carried as IEEE-754
//! single-precision bit patterns (`u32`), so that every value the engine
//! stores, orders or persists is an integer.

pub mod error;
pub mod text;
pub mod paths;
pub mod fold;
pub mod metadata;
pub mod codec;
pub mod decode;
pub mod lsh;
pub mod score;
mod clock;
pub mod objects;
pub mod controllers;
pub mod index;
pub mod search;
pub mod buckets;
pub mod collection;
pub mod storage;
pub mod files;
pub mod registry;
pub mod metadata_controller;
pub mod interfaces;
pub mod openapi;
pub mod vector_db;
pub mod handlers;
pub mod laws;
pub mod sharding;
pub mod shard_client;
pub mod coordinator;
pub mod json;
pub mod config;

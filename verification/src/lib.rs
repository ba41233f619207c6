//! Procedural dungeon generation for a terminal roguelike: a tile map carved
//! from a seeded noise field, flood-filled into rooms, furnished with stairs
//! and an entrance prefab, with a guaranteed player spawn on open floor.
pub mod actor;
pub mod combat;
pub mod config;
pub mod data_read;
pub mod fov;
pub mod map;
pub mod map_scanning;
pub mod messagelog;
pub mod monster;
pub mod prefab;
pub mod rng;
pub mod tiles;
pub mod worldgen;

//! Shared world-data library for a chunked voxel world: the chunk data model
//! and its binary codec, the compressed on-disk chunk pipeline, the per-world
//! SQLite-backed store, and the JSON plugin event envelope.
use vstd::prelude::*;

pub mod positions;
pub mod blocks;
pub mod chunk_data;
pub mod codec;
pub mod compress;
pub mod strutil;
pub mod macro_data;
pub mod worlds_storage;
pub mod block_id_map;
pub mod sqlite_storage;
pub mod debug_format;
pub mod runtime_storage;
pub mod colors;
pub mod world_generator;
pub mod plugin_api;
pub mod json;
pub mod chunk_document;

verus! {

/// The storage backend worlds are persisted with.
pub type WorldStorageManager = crate::sqlite_storage::SQLiteStorage;

/// Blocks per chunk edge; sections are cubes of this edge length.
pub const CHUNK_SIZE: u8 = 16;

/// Chunk edge length plus a one-block border on both sides.
pub const CHUNK_SIZE_BOUNDARY: u32 = 18;

/// Number of block slots in one section: 16 * 16 * 16.
pub const SECTION_VOLUME: usize = 4096;

/// Maximum number of vertical sections in one chunk column.
pub const VERTICAL_SECTIONS: usize = 16;

} // verus!

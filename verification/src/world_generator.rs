//! The parameters handed to a world generator, and the generator interface
//! itself.
use vstd::prelude::*;

use crate::chunk_data::ChunkData;
use crate::macro_data::{MacroValue, WorldMacroData};
use crate::positions::ChunkPosition;
use crate::worlds_storage::WorldStorageData;

verus! {

/// Everything a generator needs to produce chunks for one world.
pub struct WorldGeneratorSettings {
    pub seed: u64,
    pub method: String,
    pub settings: Option<MacroValue>,
    pub world_macro_data: WorldMacroData,
}

impl WorldGeneratorSettings {
    pub fn create(
        seed: u64,
        method: String,
        settings: Option<MacroValue>,
        world_macro_data: WorldMacroData,
    ) -> (r: Self)
        ensures
            r.seed == seed,
            r.method == method,
            r.settings == settings,
            r.world_macro_data == world_macro_data,
    {
        WorldGeneratorSettings { seed, method, settings, world_macro_data }
    }

    pub fn get_seed(&self) -> (r: u64)
        ensures
            r == self.seed,
    {
        self.seed
    }

    pub fn get_method(&self) -> (r: &String)
        ensures
            r == &self.method,
    {
        &self.method
    }

    pub fn get_settings(&self) -> (r: &Option<MacroValue>)
        ensures
            r == &self.settings,
    {
        &self.settings
    }

    pub fn get_world_macro_data(&self) -> (r: &WorldMacroData)
        ensures
            r == &self.world_macro_data,
    {
        &self.world_macro_data
    }

    /// Generator settings derived from stored world metadata: the stored
    /// generator name becomes the method, and no explicit settings document
    /// is attached.
    pub fn from_world_data(data: &WorldStorageData) -> (r: Self)
        ensures
            r.seed == data.seed,
            r.method@ == data.world_generator@,
            r.settings is None,
            r.world_macro_data.data@ == data.world_macro_data.data@,
    {
        WorldGeneratorSettings {
            seed: data.seed,
            method: data.world_generator.clone(),
            settings: None,
            world_macro_data: data.world_macro_data.duplicate(),
        }
    }
}

/// A world generator: produces the chunk contents for one column of one
/// world. Implemented by generator plugins outside this library.
pub trait IWorldGenerator {
    fn generate_chunk_data(
        world_settings: &WorldGeneratorSettings,
        chunk_position: &ChunkPosition,
    ) -> ChunkData;
}

} // verus!

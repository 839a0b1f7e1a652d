//! World metadata and storage settings.
use vstd::prelude::*;

use crate::macro_data::WorldMacroData;

verus! {

/// Essential world metadata and generation parameters, written once at world
/// creation and read back when worlds are scanned.
pub struct WorldStorageData {
    pub slug: String,
    pub seed: u64,
    pub world_generator: String,
    pub world_macro_data: WorldMacroData,
}

impl WorldStorageData {
    pub fn create(
        slug: String,
        seed: u64,
        world_generator: String,
        world_macro_data: WorldMacroData,
    ) -> (r: Self)
        ensures
            r.slug == slug,
            r.seed == seed,
            r.world_generator == world_generator,
            r.world_macro_data == world_macro_data,
    {
        WorldStorageData { slug, seed, world_generator, world_macro_data }
    }

    pub fn get_slug(&self) -> (r: &String)
        ensures
            r == &self.slug,
    {
        &self.slug
    }

    pub fn get_seed(&self) -> (r: u64)
        ensures
            r == self.seed,
    {
        self.seed
    }

    pub fn get_world_generator(&self) -> (r: &String)
        ensures
            r == &self.world_generator,
    {
        &self.world_generator
    }

    pub fn get_world_macro_data(&self) -> (r: &WorldMacroData)
        ensures
            r == &self.world_macro_data,
    {
        &self.world_macro_data
    }
}

impl Default for WorldStorageData {
    /// Empty metadata: empty slug and generator name, seed zero, empty
    /// macro document.
    fn default() -> (r: Self)
        ensures
            r.slug@ == Seq::<char>::empty(),
            r.seed == 0,
            r.world_generator@ == Seq::<char>::empty(),
            r.world_macro_data.data == crate::macro_data::MacroValue::Null,
    {
        WorldStorageData {
            slug: String::new(),
            seed: 0,
            world_generator: String::new(),
            world_macro_data: WorldMacroData::default(),
        }
    }
}

/// Where world databases live: one directory that holds a `worlds/`
/// subdirectory with one database file per world.
pub struct WorldStorageSettings {
    pub data_path: String,
}

impl WorldStorageSettings {
    pub fn from_path(data_path: String) -> (r: Self)
        ensures
            r.data_path == data_path,
    {
        WorldStorageSettings { data_path }
    }

    /// Relies on `tempfile::tempdir`: creates a fresh temporary directory,
    /// kept on disk, and uses it as the data path. For worlds that need not
    /// outlive the process.
    #[verifier::external_body]
    pub fn in_memory() -> Self {
        let dir = tempfile::tempdir().expect("temporary directory creation failed").keep();
        WorldStorageSettings { data_path: dir.to_string_lossy().into_owned() }
    }

    pub fn get_data_path(&self) -> (r: &String)
        ensures
            r == &self.data_path,
    {
        &self.data_path
    }
}

} // verus!

use world_core::blocks::BlockDataInfo;
use world_core::chunk_data::{ChunkData, ChunkSectionData};
use world_core::macro_data::{MacroEntry, MacroValue, WorldMacroData};
use world_core::positions::{ChunkBlockPosition, ChunkPosition};
use world_core::sqlite_storage::SQLiteStorage;
use world_core::worlds_storage::{WorldStorageData, WorldStorageSettings};

#[test]
fn test_worlds() {
    let mut sections = ChunkData::default();
    sections.push_section(ChunkSectionData::default());
    sections.change_block(
        0,
        &ChunkBlockPosition::new(0, 0, 0),
        Some(BlockDataInfo::create(0)),
    );

    let storage_data = WorldStorageData::default();

    let storage_settings = WorldStorageSettings::in_memory();

    let storage = SQLiteStorage::init(storage_settings, "default".to_string()).unwrap();
    storage.create_new(&storage_data).unwrap();

    let chunk_position = ChunkPosition::new(0, 0);

    // Confirm that there is no chunk yet.
    assert_eq!(storage.has_chunk_data(&chunk_position).unwrap(), None);

    // Save a new chunk.
    let chunk_id = storage
        .save_chunk_data(&chunk_position, &sections.compress())
        .unwrap();
    let has_chunk_id = storage.has_chunk_data(&chunk_position).unwrap().unwrap();
    assert_eq!(has_chunk_id, chunk_id);

    // Overwrite it with different contents.
    let mut sections = ChunkData::default();
    sections.push_section(ChunkSectionData::default());
    sections.change_block(
        0,
        &ChunkBlockPosition::new(0, 0, 0),
        Some(BlockDataInfo::create(2)),
    );

    let updated_chunk_id = storage
        .save_chunk_data(&chunk_position, &sections.compress())
        .unwrap();
    assert_eq!(has_chunk_id, updated_chunk_id);

    let encoded = storage.read_chunk_data(has_chunk_id).unwrap();
    let loaded_sections = ChunkData::decompress(encoded).unwrap();

    assert_eq!(
        loaded_sections.get(0).unwrap().len(),
        sections.get(0).unwrap().len()
    );

    storage.delete().unwrap();
}

#[test]
fn read_back_returns_the_latest_blob() {
    let settings = WorldStorageSettings::in_memory();
    let storage = SQLiteStorage::init(settings, "latest".to_string()).unwrap();
    storage.create_new(&WorldStorageData::default()).unwrap();

    let pos = ChunkPosition::new(3, -4);
    assert_eq!(storage.has_chunk_data(&pos).unwrap(), None);

    let blob_one = vec![1u8, 2, 3, 4];
    let id = storage.save_chunk_data(&pos, &blob_one).unwrap();
    assert_eq!(storage.has_chunk_data(&pos).unwrap(), Some(id));
    assert_eq!(storage.read_chunk_data(id).unwrap(), blob_one);

    let blob_two = vec![9u8, 8];
    let id_two = storage.save_chunk_data(&pos, &blob_two).unwrap();
    assert_eq!(id_two, id);
    assert_eq!(storage.read_chunk_data(id).unwrap(), blob_two);
}

#[test]
fn validate_block_id_map_is_idempotent_and_rejects_mismatches() {
    let settings = WorldStorageSettings::in_memory();
    let storage = SQLiteStorage::init(settings, "registry".to_string()).unwrap();
    storage.create_new(&WorldStorageData::default()).unwrap();

    let desired = vec![(1u16, "stone".to_string()), (2u16, "dirt".to_string())];
    storage.validate_block_id_map(&desired).unwrap();
    // A second validation with the same map succeeds and inserts nothing.
    storage.validate_block_id_map(&desired).unwrap();

    let incompatible = vec![(1u16, "stone".to_string()), (3u16, "dirt".to_string())];
    let message = storage.validate_block_id_map(&incompatible).unwrap_err();
    assert_eq!(
        message,
        "&cblock &4\"dirt\"&c id is not match; world_id:2 saved_id:3"
    );

    let missing = vec![(1u16, "stone".to_string())];
    let message = storage.validate_block_id_map(&missing).unwrap_err();
    assert_eq!(message, "&cblock &4\"dirt\"&c doesn't exists in resources");
}

#[test]
fn scan_worlds_reads_created_worlds() {
    let settings = WorldStorageSettings::in_memory();

    let alpha = SQLiteStorage::init(
        WorldStorageSettings::from_path(settings.get_data_path().clone()),
        "alpha".to_string(),
    )
    .unwrap();
    alpha
        .create_new(&WorldStorageData::create(
            "alpha".to_string(),
            7,
            "flat".to_string(),
            WorldMacroData::default(),
        ))
        .unwrap();

    let beta = SQLiteStorage::init(
        WorldStorageSettings::from_path(settings.get_data_path().clone()),
        "beta".to_string(),
    )
    .unwrap();
    beta.create_new(&WorldStorageData::create(
        "beta".to_string(),
        42,
        "hills".to_string(),
        WorldMacroData::default(),
    ))
    .unwrap();

    let names = vec![
        "alpha.db".to_string(),
        "beta.db".to_string(),
        "notes.txt".to_string(),
    ];
    let worlds = SQLiteStorage::scan_worlds(&settings, &names).unwrap();
    assert_eq!(worlds.len(), 2);
    let mut pairs: Vec<(String, u64)> = worlds
        .iter()
        .map(|w| (w.get_slug().clone(), w.get_seed()))
        .collect();
    pairs.sort();
    assert_eq!(
        pairs,
        vec![("alpha".to_string(), 7), ("beta".to_string(), 42)]
    );
    assert_eq!(worlds[0].get_world_generator(), "flat");
}

#[test]
fn scan_worlds_of_nothing_is_empty() {
    let settings = WorldStorageSettings::in_memory();
    let worlds = SQLiteStorage::scan_worlds(&settings, &Vec::new()).unwrap();
    assert!(worlds.is_empty());
}

#[test]
fn delete_then_recreate_starts_fresh() {
    let settings = WorldStorageSettings::in_memory();
    let path = settings.get_data_path().clone();
    let storage = SQLiteStorage::init(settings, "phoenix".to_string()).unwrap();
    storage.create_new(&WorldStorageData::default()).unwrap();
    let pos = ChunkPosition::new(1, 1);
    storage.save_chunk_data(&pos, &vec![5u8, 5]).unwrap();
    storage.delete().unwrap();

    let reborn = SQLiteStorage::init(
        WorldStorageSettings::from_path(path),
        "phoenix".to_string(),
    )
    .unwrap();
    reborn.create_new(&WorldStorageData::default()).unwrap();
    assert_eq!(reborn.has_chunk_data(&pos).unwrap(), None);
}

#[test]
fn world_macro_data_round_trips_through_compression() {
    let document = MacroValue::Dict(vec![
        MacroEntry {
            key: "seed-note".to_string(),
            value: MacroValue::Text("mountains \u{2764} valleys".to_string()),
        },
        MacroEntry {
            key: "height".to_string(),
            value: MacroValue::Int(-12),
        },
        MacroEntry {
            key: "flags".to_string(),
            value: MacroValue::Array(vec![
                MacroValue::Bool(true),
                MacroValue::Null,
                MacroValue::Int(i64::MIN),
                MacroValue::UInt(u64::MAX),
            ]),
        },
    ]);
    let data = WorldMacroData::create(document);
    let encoded = data.encode();
    let decoded = WorldMacroData::decode(encoded.clone()).unwrap();
    assert_eq!(decoded.encode(), encoded);

    let restored = WorldMacroData::decompress(data.compress()).unwrap();
    assert_eq!(restored.encode(), encoded);

    match restored.get_data() {
        MacroValue::Dict(entries) => {
            assert_eq!(entries.len(), 3);
            assert_eq!(entries[1].key, "height");
            assert!(matches!(entries[1].value, MacroValue::Int(-12)));
        }
        _ => panic!("expected a map document"),
    }
}

#[test]
fn world_macro_decode_rejects_malformed_input() {
    assert!(WorldMacroData::decode(vec![]).is_err());
    assert!(WorldMacroData::decode(vec![9]).is_err());
    // Trailing bytes are refused.
    assert!(WorldMacroData::decode(vec![0, 0]).is_err());
    // A lone null decodes.
    let null_doc = WorldMacroData::decode(vec![0]).unwrap();
    assert!(matches!(null_doc.get_data(), MacroValue::Null));
}

#[test]
fn init_creates_missing_directory_levels() {
    let base = WorldStorageSettings::in_memory();
    let deep = format!("{}/saves/layer", base.get_data_path());
    let storage = SQLiteStorage::init(
        WorldStorageSettings::from_path(deep.clone()),
        "deep".to_string(),
    )
    .unwrap();
    storage.create_new(&WorldStorageData::default()).unwrap();
    assert_eq!(storage.get_db_path(), &format!("{}/worlds/deep.db", deep));
    assert_eq!(
        storage.has_chunk_data(&ChunkPosition::new(0, 0)).unwrap(),
        None
    );
}

#[test]
fn init_builds_the_worlds_path() {
    let settings = WorldStorageSettings::from_path("/tmp/does-not-matter".to_string());
    // The directory cannot be created below a missing root, but the path
    // computation itself is what this checks when init succeeds elsewhere;
    // here the worlds directory is created inside an existing path.
    let settings_ok = WorldStorageSettings::in_memory();
    let base = settings_ok.get_data_path().clone();
    let storage = SQLiteStorage::init(settings_ok, "pathy".to_string()).unwrap();
    assert_eq!(storage.get_db_path(), &format!("{}/worlds/pathy.db", base));
    drop(settings);
}

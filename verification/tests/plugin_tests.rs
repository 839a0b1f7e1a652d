use world_core::blocks::{BlockDataInfo, BlockFace};
use world_core::chunk_data::{ChunkData, ChunkSectionData};
use world_core::macro_data::{MacroEntry, MacroValue, WorldMacroData};
use world_core::positions::ChunkBlockPosition;
use world_core::plugin_api::{
    handler_exit_code, parse_host_bool, ChunkGenerateEvent, GenerateWorldMacroEvent,
    HandlerOutcome, PluginEvent, PluginLoadEvent, PluginUnloadEvent,
};
use world_core::positions::ChunkPosition;
use world_core::world_generator::WorldGeneratorSettings;
use world_core::worlds_storage::WorldStorageData;

#[test]
fn export_names_are_stable() {
    assert_eq!(PluginLoadEvent::export_name(), "on_plugin_load");
    assert_eq!(PluginUnloadEvent::export_name(), "on_plugin_unload");
    assert_eq!(ChunkGenerateEvent::export_name(), "on_chunk_generate");
    assert_eq!(
        GenerateWorldMacroEvent::export_name(),
        "on_generate_world_macro"
    );
}

#[test]
fn handler_exit_codes_follow_the_envelope_contract() {
    assert_eq!(
        handler_exit_code(&HandlerOutcome::Success(Some("{}".to_string()))),
        0
    );
    assert_eq!(handler_exit_code(&HandlerOutcome::Success(None)), 0);
    assert_eq!(handler_exit_code(&HandlerOutcome::InputUnavailable), 1);
    assert_eq!(handler_exit_code(&HandlerOutcome::HandlerFailed), 1);
    assert_eq!(handler_exit_code(&HandlerOutcome::MalformedEvent), 2);
}

#[test]
fn host_booleans_travel_as_strings() {
    assert!(parse_host_bool("true"));
    assert!(!parse_host_bool("false"));
    assert!(!parse_host_bool("TRUE"));
    assert!(!parse_host_bool(""));
}

#[test]
fn chunk_generate_event_carries_its_payload() {
    let settings = WorldGeneratorSettings::create(
        1,
        "flat".to_string(),
        None,
        WorldMacroData::default(),
    );
    let event = ChunkGenerateEvent::create(ChunkPosition::new(0, 0), settings);
    assert_eq!(event.get_chunk_position().x, 0);
    assert_eq!(event.get_chunk_position().z, 0);
    assert_eq!(event.get_world_settings().get_seed(), 1);
    assert_eq!(event.get_world_settings().get_method(), "flat");
    assert!(event.get_world_settings().get_settings().is_none());
}

#[test]
fn chunk_generate_payload_is_json() {
    let settings = WorldGeneratorSettings::create(
        1,
        "flat".to_string(),
        None,
        WorldMacroData::default(),
    );
    let event = ChunkGenerateEvent::create(ChunkPosition::new(0, -2), settings);
    assert_eq!(
        event.to_payload(),
        "{\"chunk_position\":{\"x\":0,\"z\":-2},\"world_settings\":{\"seed\":1,\"method\":\"flat\",\"settings\":null,\"world_macro_data\":{\"data\":null}}}"
    );
}

#[test]
fn world_macro_payload_escapes_text() {
    let event = GenerateWorldMacroEvent::create(
        5,
        "hi\n\"x\"".to_string(),
        Some(MacroValue::Array(vec![
            MacroValue::Int(-3),
            MacroValue::Text("ok".to_string()),
            MacroValue::Bool(false),
        ])),
    );
    assert_eq!(
        event.to_payload(),
        "{\"seed\":5,\"method\":\"hi\\n\\\"x\\\"\",\"settings\":[-3,\"ok\",false]}"
    );
}

#[test]
fn documents_render_as_json() {
    let doc = MacroValue::Dict(vec![
        MacroEntry {
            key: "name".to_string(),
            value: MacroValue::Text("overworld".to_string()),
        },
        MacroEntry {
            key: "height".to_string(),
            value: MacroValue::Int(i64::MIN),
        },
    ]);
    assert_eq!(
        doc.to_json(),
        "{\"name\":\"overworld\",\"height\":-9223372036854775808}"
    );
    assert_eq!(MacroValue::Null.to_json(), "null");
    assert_eq!(MacroValue::Array(vec![]).to_json(), "[]");
    assert_eq!(MacroValue::Text("\u{1}".to_string()).to_json(), "\"\\u0001\"");
}

#[test]
fn payloads_parse_back_into_the_same_tree() {
    let settings = WorldGeneratorSettings::create(
        11,
        "flat".to_string(),
        Some(MacroValue::Bool(true)),
        WorldMacroData::create(MacroValue::Text("hills \"n\" valleys\n".to_string())),
    );
    let event = ChunkGenerateEvent::create(ChunkPosition::new(-7, 3), settings);
    let payload = event.to_payload();
    let tree = world_core::json::parse_json(&payload).unwrap();
    // The parsed document re-prints to exactly the payload.
    assert_eq!(tree.to_json(), payload);
    match tree {
        MacroValue::Dict(top) => {
            assert_eq!(top[0].key, "chunk_position");
            match &top[0].value {
                MacroValue::Dict(pos) => {
                    assert!(matches!(pos[0].value, MacroValue::Int(-7)));
                    assert!(matches!(pos[1].value, MacroValue::Int(3)));
                }
                _ => panic!("expected a position object"),
            }
            assert_eq!(top[1].key, "world_settings");
        }
        _ => panic!("expected an envelope object"),
    }
}

#[test]
fn events_round_trip_through_their_payloads() {
    let settings = WorldGeneratorSettings::create(
        77,
        "caves".to_string(),
        Some(MacroValue::Int(4)),
        WorldMacroData::create(MacroValue::Text("layers".to_string())),
    );
    let event = ChunkGenerateEvent::create(ChunkPosition::new(12, -9), settings);
    let decoded = ChunkGenerateEvent::from_payload(&event.to_payload()).unwrap();
    assert_eq!(decoded.get_chunk_position().x, 12);
    assert_eq!(decoded.get_chunk_position().z, -9);
    assert_eq!(decoded.get_world_settings().get_seed(), 77);
    assert_eq!(decoded.get_world_settings().get_method(), "caves");
    assert!(matches!(
        decoded.get_world_settings().get_settings(),
        Some(MacroValue::Int(4))
    ));
    assert!(matches!(
        decoded.get_world_settings().get_world_macro_data().get_data(),
        MacroValue::Text(ref t) if t == "layers"
    ));

    let macro_event = GenerateWorldMacroEvent::create(3, "flat".to_string(), None);
    let decoded = GenerateWorldMacroEvent::from_payload(&macro_event.to_payload()).unwrap();
    assert_eq!(decoded.get_seed(), 3);
    assert_eq!(decoded.get_method(), "flat");
    assert!(decoded.get_settings().is_none());
}

#[test]
fn full_width_seeds_cross_the_envelope() {
    // A seed above i64::MAX survives the write/read round trip.
    let settings = WorldGeneratorSettings::create(
        u64::MAX,
        "deep".to_string(),
        None,
        WorldMacroData::default(),
    );
    let event = ChunkGenerateEvent::create(ChunkPosition::new(1, 2), settings);
    let decoded = ChunkGenerateEvent::from_payload(&event.to_payload()).unwrap();
    assert_eq!(decoded.get_world_settings().get_seed(), u64::MAX);

    let macro_event = GenerateWorldMacroEvent::create(
        (i64::MAX as u64) + 1,
        "wide".to_string(),
        None,
    );
    let decoded = GenerateWorldMacroEvent::from_payload(&macro_event.to_payload()).unwrap();
    assert_eq!(decoded.get_seed(), (i64::MAX as u64) + 1);
}

#[test]
fn events_with_missing_required_fields_fail() {
    // No method field: the envelope reports this as a deserialization error.
    assert!(GenerateWorldMacroEvent::from_payload("{\"seed\":3}").is_err());
    // Unknown fields are ignored.
    let decoded =
        GenerateWorldMacroEvent::from_payload("{\"seed\":3,\"method\":\"m\",\"extra\":true}")
            .unwrap();
    assert_eq!(decoded.get_seed(), 3);
    // A missing settings field reads as none.
    assert!(decoded.get_settings().is_none());
    // A wrongly typed position is refused.
    assert!(ChunkGenerateEvent::from_payload("{\"chunk_position\":3,\"world_settings\":{}}")
        .is_err());
}

#[test]
fn chunk_responses_cross_the_boundary_as_json() {
    // The guest produces a chunk for the event and sends it as JSON.
    let mut produced = ChunkData::default();
    produced.push_section(ChunkSectionData::default());
    produced.change_block(
        0,
        &ChunkBlockPosition::new(2, 3, 4),
        Some(BlockDataInfo::create(6).face(BlockFace::East).color(1)),
    );
    produced.change_block(0, &ChunkBlockPosition::new(0, 0, 0), Some(BlockDataInfo::create(9)));
    let response = produced.to_document().to_json();

    // The host parses the response back into a chunk.
    let tree = world_core::json::parse_json(&response).unwrap();
    let received = ChunkData::from_document(&tree).unwrap();
    assert!(received.get(0).unwrap().len() > 0);
    assert_eq!(received.get(0).unwrap().len(), produced.get(0).unwrap().len());
    let block = received
        .get(0)
        .unwrap()
        .get(&ChunkBlockPosition::new(2, 3, 4))
        .copied()
        .unwrap();
    assert_eq!(block.get_id(), 6);
    assert_eq!(*block.get_face(), Some(BlockFace::East));
    assert_eq!(*block.get_color(), Some(1));

    // Documents that do not describe a chunk are refused.
    assert!(ChunkData::from_document(&world_core::macro_data::MacroValue::Int(3)).is_err());
}

#[test]
fn json_parsing_rejects_malformed_documents() {
    assert!(world_core::json::parse_json("").is_err());
    assert!(world_core::json::parse_json("nul").is_err());
    assert!(world_core::json::parse_json("[1,2").is_err());
    assert!(world_core::json::parse_json("{\"a\":1,}").is_err());
    assert!(world_core::json::parse_json("18446744073709551616").is_err());
    assert!(world_core::json::parse_json("1 ").is_err());
    // Non-negative integers above i64::MAX parse as wide nodes and reprint
    // to the same digits.
    let wide = world_core::json::parse_json("18446744073709551615").unwrap();
    assert!(matches!(wide, MacroValue::UInt(u64::MAX)));
    assert_eq!(wide.to_json(), "18446744073709551615");
    assert!(matches!(
        world_core::json::parse_json("[true,null,-5]").unwrap(),
        MacroValue::Array(_)
    ));
    assert!(matches!(
        world_core::json::parse_json("\"a\\u0041b\"").unwrap(),
        MacroValue::Text(ref t) if t == "aAb"
    ));
}

#[test]
fn generator_settings_derive_from_stored_worlds() {
    let stored = WorldStorageData::create(
        "alpha".to_string(),
        7,
        "hills".to_string(),
        WorldMacroData::create(MacroValue::Int(3)),
    );
    let settings = WorldGeneratorSettings::from_world_data(&stored);
    assert_eq!(settings.get_seed(), 7);
    assert_eq!(settings.get_method(), "hills");
    assert!(settings.get_settings().is_none());
    assert!(matches!(
        settings.get_world_macro_data().get_data(),
        MacroValue::Int(3)
    ));

    let event = GenerateWorldMacroEvent::create(9, "maze".to_string(), None);
    assert_eq!(event.get_seed(), 9);
    assert_eq!(event.get_method(), "maze");
    assert!(event.get_settings().is_none());
}

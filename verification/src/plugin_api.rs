//! The plugin event envelope: each event of the host/guest boundary has a
//! stable export name, payloads travel over a side channel, and handler
//! failures collapse into well-known exit codes.
use vstd::prelude::*;

use crate::macro_data::{EntryView, MacroValue, MacroView};
use crate::positions::ChunkPosition;
use crate::strutil::str_eq;
use crate::world_generator::WorldGeneratorSettings;

verus! {

/// An event of the plugin boundary, identified by a stable export name.
pub trait PluginEvent {
    /// The export the host invokes to deliver this event.
    fn export_name() -> &'static str;
}

/// Delivered once after the plugin is loaded; the guest may register its
/// capabilities with the host.
pub struct PluginLoadEvent {}

impl PluginEvent for PluginLoadEvent {
    fn export_name() -> (r: &'static str)
        ensures
            r@ == "on_plugin_load"@,
    {
        "on_plugin_load"
    }
}

/// Delivered once before the plugin is unloaded.
pub struct PluginUnloadEvent {
    pub plugin_slug: String,
}

impl PluginEvent for PluginUnloadEvent {
    fn export_name() -> (r: &'static str)
        ensures
            r@ == "on_plugin_unload"@,
    {
        "on_plugin_unload"
    }
}

/// Asks the generator for one chunk's contents.
pub struct ChunkGenerateEvent {
    pub chunk_position: ChunkPosition,
    pub world_settings: WorldGeneratorSettings,
}

impl PluginEvent for ChunkGenerateEvent {
    fn export_name() -> (r: &'static str)
        ensures
            r@ == "on_chunk_generate"@,
    {
        "on_chunk_generate"
    }
}

impl ChunkGenerateEvent {
    pub fn create(chunk_position: ChunkPosition, world_settings: WorldGeneratorSettings) -> (r:
        Self)
        ensures
            r.chunk_position == chunk_position,
            r.world_settings == world_settings,
    {
        ChunkGenerateEvent { chunk_position, world_settings }
    }

    pub fn get_chunk_position(&self) -> (r: &ChunkPosition)
        ensures
            r == &self.chunk_position,
    {
        &self.chunk_position
    }

    pub fn get_world_settings(&self) -> (r: &WorldGeneratorSettings)
        ensures
            r == &self.world_settings,
    {
        &self.world_settings
    }
}

/// Asks the generator for a fresh world macro document.
pub struct GenerateWorldMacroEvent {
    pub seed: u64,
    pub method: String,
    pub settings: Option<MacroValue>,
}

impl PluginEvent for GenerateWorldMacroEvent {
    fn export_name() -> (r: &'static str)
        ensures
            r@ == "on_generate_world_macro"@,
    {
        "on_generate_world_macro"
    }
}

impl GenerateWorldMacroEvent {
    pub fn create(seed: u64, method: String, settings: Option<MacroValue>) -> (r: Self)
        ensures
            r.seed == seed,
            r.method == method,
            r.settings == settings,
    {
        GenerateWorldMacroEvent { seed, method, settings }
    }

    pub fn get_seed(&self) -> (r: u64)
        ensures
            r == self.seed,
    {
        self.seed
    }

    pub fn get_method(&self) -> (r: &String)
        ensures
            r == &self.method,
    {
        &self.method
    }

    pub fn get_settings(&self) -> (r: &Option<MacroValue>)
        ensures
            r == &self.settings,
    {
        &self.settings
    }
}

/// The JSON text of the generator settings inside an event payload.
pub open spec fn spec_world_settings_json(w: WorldGeneratorSettings) -> Seq<char> {
    "{\"seed\":"@ + crate::strutil::spec_u64_digits(w.seed as nat) + ",\"method\":\""@
        + crate::json::spec_escape_text(w.method@) + "\",\"settings\":"@ + (match w.settings {
        None => "null"@,
        Some(v) => crate::json::spec_json_of(v@),
    }) + ",\"world_macro_data\":{\"data\":"@ + crate::json::spec_json_of(w.world_macro_data.data@)
        + "}}"@
}

/// The JSON payload of a chunk-generate event.
pub open spec fn spec_chunk_generate_json(e: ChunkGenerateEvent) -> Seq<char> {
    "{\"chunk_position\":{\"x\":"@ + crate::json::spec_i64_digits(e.chunk_position.x as int)
        + ",\"z\":"@ + crate::json::spec_i64_digits(e.chunk_position.z as int)
        + "},\"world_settings\":"@ + spec_world_settings_json(e.world_settings) + "}"@
}

/// The JSON payload of a world-macro generation event.
pub open spec fn spec_generate_world_macro_json(e: GenerateWorldMacroEvent) -> Seq<char> {
    "{\"seed\":"@ + crate::strutil::spec_u64_digits(e.seed as nat) + ",\"method\":\""@
        + crate::json::spec_escape_text(e.method@) + "\",\"settings\":"@ + (match e.settings {
        None => "null"@,
        Some(v) => crate::json::spec_json_of(v@),
    }) + "}"@
}

/// Appends the JSON text of the generator settings to `out`.
fn world_settings_json_into(w: &WorldGeneratorSettings, out: &mut String)
    ensures
        final(out)@ == old(out)@ + spec_world_settings_json(*w),
{
    let ghost base = out@;
    out.append("{\"seed\":");
    let seed_digits = crate::strutil::u64_to_string(w.seed);
    out.append(seed_digits.as_str());
    out.append(",\"method\":\"");
    crate::json::escape_text_into(w.method.as_str(), out);
    out.append("\",\"settings\":");
    match &w.settings {
        None => {
            out.append("null");
        },
        Some(v) => {
            v.json_into(out);
        },
    }
    out.append(",\"world_macro_data\":{\"data\":");
    w.world_macro_data.data.json_into(out);
    out.append("}}");
    proof {
        assert(out@ =~= base + spec_world_settings_json(*w));
    }
}

impl ChunkGenerateEvent {
    /// The JSON payload the host writes into the side channel when it
    /// invokes this event's export.
    pub fn to_payload(&self) -> (r: String)
        ensures
            r@ == spec_chunk_generate_json(*self),
    {
        let mut out = String::new();
        out.append("{\"chunk_position\":{\"x\":");
        let x_digits = crate::json::i64_to_string(self.chunk_position.x as i64);
        out.append(x_digits.as_str());
        out.append(",\"z\":");
        let z_digits = crate::json::i64_to_string(self.chunk_position.z as i64);
        out.append(z_digits.as_str());
        out.append("},\"world_settings\":");
        world_settings_json_into(&self.world_settings, &mut out);
        out.append("}");
        proof {
            assert(out@ =~= spec_chunk_generate_json(*self));
        }
        out
    }
}

impl GenerateWorldMacroEvent {
    /// The JSON payload the host writes into the side channel when it
    /// invokes this event's export.
    pub fn to_payload(&self) -> (r: String)
        ensures
            r@ == spec_generate_world_macro_json(*self),
    {
        let mut out = String::new();
        out.append("{\"seed\":");
        let seed_digits = crate::strutil::u64_to_string(self.seed);
        out.append(seed_digits.as_str());
        out.append(",\"method\":\"");
        crate::json::escape_text_into(self.method.as_str(), &mut out);
        out.append("\",\"settings\":");
        match &self.settings {
            None => {
                out.append("null");
            },
            Some(v) => {
                v.json_into(&mut out);
            },
        }
        out.append("}");
        proof {
            assert(out@ =~= spec_generate_world_macro_json(*self));
        }
        out
    }
}

/// The canonical document node carrying a world seed: seeds in the `i64`
/// range travel as `Int`, larger ones as `UInt` — exactly what the parser
/// makes of the printed decimal.
pub open spec fn spec_seed_node(seed: u64) -> MacroView {
    if seed <= i64::MAX as u64 {
        MacroView::Int(seed as i64)
    } else {
        MacroView::UInt(seed)
    }
}

/// The node an optional settings value travels as: null when absent.
pub open spec fn spec_settings_node(settings: Option<MacroValue>) -> MacroView {
    match settings {
        None => MacroView::Null,
        Some(v) => v@,
    }
}

/// The document a world-macro payload parses to.
pub open spec fn spec_world_macro_tree(e: GenerateWorldMacroEvent) -> MacroView {
    MacroView::Dict(
        seq![
            EntryView { key: "seed"@, value: spec_seed_node(e.seed) },
            EntryView { key: "method"@, value: MacroView::Text(e.method@) },
            EntryView { key: "settings"@, value: spec_settings_node(e.settings) },
        ],
    )
}

/// The payload text of a world-macro event is exactly the JSON text of its
/// document.
proof fn lemma_world_macro_payload_is_json(e: GenerateWorldMacroEvent)
    ensures
        spec_generate_world_macro_json(e) == crate::json::spec_json_of(spec_world_macro_tree(e)),
{
    reveal_strlit("seed");
    reveal_strlit("method");
    reveal_strlit("settings");
    reveal_strlit("null");
    reveal_strlit("{\"seed\":");
    reveal_strlit(",\"method\":\"");
    reveal_strlit("\",\"settings\":");
    reveal_strlit("}");
    let tree = spec_world_macro_tree(e);
    let ms = tree->Dict_0;
    let seed_digits = crate::strutil::spec_u64_digits(e.seed as nat);
    let method_quoted = seq!['"'] + crate::json::spec_escape_text(e.method@) + seq!['"'];
    let settings_json = match e.settings {
        None => "null"@,
        Some(v) => crate::json::spec_json_of(v@),
    };
    assert(crate::json::spec_json_of(ms[0].value) == seed_digits) by {
        if e.seed <= i64::MAX as u64 {
            assert((e.seed as i64) as int == e.seed as int);
        }
    };
    assert(crate::json::spec_json_of(ms[1].value) == method_quoted);
    assert(crate::json::spec_json_of(ms[2].value) == settings_json);
    crate::json::lemma_escape_plain("seed"@);
    crate::json::lemma_escape_plain("method"@);
    crate::json::lemma_escape_plain("settings"@);
    let entry0 = crate::json::spec_json_of_entry(ms[0]);
    let entry1 = crate::json::spec_json_of_entry(ms[1]);
    let entry2 = crate::json::spec_json_of_entry(ms[2]);
    assert(entry0 =~= seq!['"'] + "seed"@ + seq!['"', ':'] + seed_digits);
    assert(entry1 =~= seq!['"'] + "method"@ + seq!['"', ':'] + method_quoted);
    assert(entry2 =~= seq!['"'] + "settings"@ + seq!['"', ':'] + settings_json);
    assert(ms.drop_last() =~= seq![ms[0], ms[1]]);
    assert(ms.drop_last().drop_last() =~= seq![ms[0]]);
    assert(ms.drop_last().drop_last().last() == ms[0]);
    assert(ms.drop_last().last() == ms[1]);
    assert(crate::json::spec_json_of_entries(seq![ms[0]]) == entry0);
    assert(crate::json::spec_json_of_entries(ms.drop_last()) == crate::json::spec_json_of_entries(
        seq![ms[0]],
    ) + seq![','] + entry1);
    assert(crate::json::spec_json_of_entries(ms) == crate::json::spec_json_of_entries(
        ms.drop_last(),
    ) + seq![','] + entry2);
    assert(crate::json::spec_json_of(tree) =~= seq!['{'] + (entry0 + seq![','] + entry1
        + seq![','] + entry2) + seq!['}']);
    assert(spec_generate_world_macro_json(e) =~= crate::json::spec_json_of(tree));
}

/// Reading back a written world-macro payload recovers the event: the
/// payload parses, and its fields are the event's seed, method and
/// settings (an explicit null settings value reads back as none).
pub proof fn lemma_world_macro_payload_roundtrip(e: GenerateWorldMacroEvent)
    requires
        e.settings matches Some(v) ==> crate::json::ints_canonical(v@),
    ensures
        ({
            let parsed = crate::json::spec_parse_json(spec_generate_world_macro_json(e));
            parsed is Some && spec_world_macro_fields(parsed->0) == Some(
                (e.seed as int, e.method@, spec_opt_field(Some(spec_settings_node(e.settings)))),
            )
        }),
{
    reveal_strlit("seed");
    reveal_strlit("method");
    reveal_strlit("settings");
    let tree = spec_world_macro_tree(e);
    let ms = tree->Dict_0;
    lemma_world_macro_payload_is_json(e);
    assert(crate::json::ints_canonical(tree)) by {
        assert forall|t: int| 0 <= t < ms.len() implies crate::json::ints_canonical(
            #[trigger] ms[t].value,
        ) by {
            if t == 0 {
                assert(crate::json::ints_canonical(spec_seed_node(e.seed)));
            } else if t == 2 {
                assert(ms[2].value == spec_settings_node(e.settings));
            }
        };
    };
    crate::json::lemma_parse_print_json(tree);
    assert("seed"@.len() == 4 && "method"@.len() == 6 && "settings"@.len() == 8);
    assert(crate::json::spec_dict_get(ms, "seed"@) == Some(ms[0].value));
    assert(ms[0].key != "method"@ && ms[0].key != "settings"@);
    let rest = ms.drop_first();
    assert(rest[0] == ms[1] && rest[1] == ms[2]);
    assert(crate::json::spec_dict_get(ms, "method"@) == crate::json::spec_dict_get(
        rest,
        "method"@,
    ));
    assert(crate::json::spec_dict_get(rest, "method"@) == Some(ms[1].value));
    assert(ms[1].key != "settings"@);
    let rest2 = rest.drop_first();
    assert(rest2[0] == ms[2]);
    assert(crate::json::spec_dict_get(ms, "settings"@) == crate::json::spec_dict_get(
        rest,
        "settings"@,
    ));
    assert(crate::json::spec_dict_get(rest, "settings"@) == crate::json::spec_dict_get(
        rest2,
        "settings"@,
    ));
    assert(crate::json::spec_dict_get(rest2, "settings"@) == Some(ms[2].value));
    assert(spec_seed_field(Some(spec_seed_node(e.seed))) == Some(e.seed as int));
}

/// The document a generator-settings object parses to.
pub open spec fn spec_settings_tree(w: WorldGeneratorSettings) -> MacroView {
    MacroView::Dict(
        seq![
            EntryView { key: "seed"@, value: spec_seed_node(w.seed) },
            EntryView { key: "method"@, value: MacroView::Text(w.method@) },
            EntryView { key: "settings"@, value: spec_settings_node(w.settings) },
            EntryView {
                key: "world_macro_data"@,
                value: MacroView::Dict(
                    seq![EntryView { key: "data"@, value: w.world_macro_data.data@ }],
                ),
            },
        ],
    )
}

/// The document a chunk-generate payload parses to.
pub open spec fn spec_chunk_envelope_tree(e: ChunkGenerateEvent) -> MacroView {
    MacroView::Dict(
        seq![
            EntryView {
                key: "chunk_position"@,
                value: MacroView::Dict(
                    seq![
                        EntryView {
                            key: "x"@,
                            value: MacroView::Int(e.chunk_position.x as i64),
                        },
                        EntryView {
                            key: "z"@,
                            value: MacroView::Int(e.chunk_position.z as i64),
                        },
                    ],
                ),
            },
            EntryView { key: "world_settings"@, value: spec_settings_tree(e.world_settings) },
        ],
    )
}

/// The settings text inside a payload is exactly the JSON text of the
/// settings document.
#[verifier::spinoff_prover]
#[verifier::rlimit(100)]
proof fn lemma_settings_payload_is_json(w: WorldGeneratorSettings)
    ensures
        spec_world_settings_json(w) == crate::json::spec_json_of(spec_settings_tree(w)),
{
    reveal_strlit("seed");
    reveal_strlit("method");
    reveal_strlit("settings");
    reveal_strlit("world_macro_data");
    reveal_strlit("data");
    reveal_strlit("null");
    reveal_strlit("{\"seed\":");
    reveal_strlit(",\"method\":\"");
    reveal_strlit("\",\"settings\":");
    reveal_strlit(",\"world_macro_data\":{\"data\":");
    reveal_strlit("}}");
    let tree = spec_settings_tree(w);
    let ms = tree->Dict_0;
    let seed_digits = crate::strutil::spec_u64_digits(w.seed as nat);
    let method_quoted = seq!['"'] + crate::json::spec_escape_text(w.method@) + seq!['"'];
    let settings_json = match w.settings {
        None => "null"@,
        Some(v) => crate::json::spec_json_of(v@),
    };
    let doc_json = crate::json::spec_json_of(w.world_macro_data.data@);
    assert(crate::json::spec_json_of(ms[0].value) == seed_digits) by {
        if w.seed <= i64::MAX as u64 {
            assert((w.seed as i64) as int == w.seed as int);
        }
    };
    assert(crate::json::spec_json_of(ms[1].value) == method_quoted);
    assert(crate::json::spec_json_of(ms[2].value) == settings_json);
    crate::json::lemma_escape_plain("seed"@);
    crate::json::lemma_escape_plain("method"@);
    crate::json::lemma_escape_plain("settings"@);
    crate::json::lemma_escape_plain("world_macro_data"@);
    crate::json::lemma_escape_plain("data"@);
    let wrapper = ms[3].value->Dict_0;
    assert(crate::json::spec_json_of_entries(wrapper) == crate::json::spec_json_of_entry(
        wrapper[0],
    ));
    assert(crate::json::spec_json_of_entry(wrapper[0]) =~= seq!['"'] + "data"@ + seq!['"', ':']
        + doc_json);
    assert(crate::json::spec_json_of(ms[3].value) =~= seq!['{'] + (seq!['"'] + "data"@
        + seq!['"', ':'] + doc_json) + seq!['}']);
    let entry0 = crate::json::spec_json_of_entry(ms[0]);
    let entry1 = crate::json::spec_json_of_entry(ms[1]);
    let entry2 = crate::json::spec_json_of_entry(ms[2]);
    let entry3 = crate::json::spec_json_of_entry(ms[3]);
    assert(entry0 =~= seq!['"'] + "seed"@ + seq!['"', ':'] + seed_digits);
    assert(entry1 =~= seq!['"'] + "method"@ + seq!['"', ':'] + method_quoted);
    assert(entry2 =~= seq!['"'] + "settings"@ + seq!['"', ':'] + settings_json);
    assert(entry3 =~= seq!['"'] + "world_macro_data"@ + seq!['"', ':'] + (seq!['{'] + (seq!['"']
        + "data"@ + seq!['"', ':'] + doc_json) + seq!['}']));
    assert(ms.drop_last() =~= seq![ms[0], ms[1], ms[2]]);
    assert(ms.drop_last().drop_last() =~= seq![ms[0], ms[1]]);
    assert(ms.drop_last().drop_last().drop_last() =~= seq![ms[0]]);
    assert(ms.drop_last().drop_last().drop_last().last() == ms[0]);
    assert(ms.drop_last().drop_last().last() == ms[1]);
    assert(ms.drop_last().last() == ms[2]);
    assert(crate::json::spec_json_of_entries(seq![ms[0]]) == entry0);
    assert(crate::json::spec_json_of_entries(ms.drop_last().drop_last())
        == crate::json::spec_json_of_entries(seq![ms[0]]) + seq![','] + entry1);
    assert(crate::json::spec_json_of_entries(ms.drop_last())
        == crate::json::spec_json_of_entries(ms.drop_last().drop_last()) + seq![','] + entry2);
    assert(crate::json::spec_json_of_entries(ms) == crate::json::spec_json_of_entries(
        ms.drop_last(),
    ) + seq![','] + entry3);
    assert(crate::json::spec_json_of(tree) =~= seq!['{'] + (entry0 + seq![','] + entry1
        + seq![','] + entry2 + seq![','] + entry3) + seq!['}']);
    assert(spec_world_settings_json(w) =~= crate::json::spec_json_of(tree));
}

/// The payload text of a chunk-generate event is exactly the JSON text of
/// its document.
#[verifier::spinoff_prover]
#[verifier::rlimit(100)]
proof fn lemma_chunk_generate_payload_is_json(e: ChunkGenerateEvent)
    ensures
        spec_chunk_generate_json(e) == crate::json::spec_json_of(spec_chunk_envelope_tree(e)),
{
    reveal_strlit("chunk_position");
    reveal_strlit("world_settings");
    reveal_strlit("x");
    reveal_strlit("z");
    reveal_strlit("{\"chunk_position\":{\"x\":");
    reveal_strlit(",\"z\":");
    reveal_strlit("},\"world_settings\":");
    reveal_strlit("}");
    lemma_settings_payload_is_json(e.world_settings);
    crate::json::lemma_escape_plain("chunk_position"@);
    crate::json::lemma_escape_plain("world_settings"@);
    crate::json::lemma_escape_plain("x"@);
    crate::json::lemma_escape_plain("z"@);
    let tree = spec_chunk_envelope_tree(e);
    let ms = tree->Dict_0;
    let pos = ms[0].value->Dict_0;
    let x_digits = crate::json::spec_i64_digits(e.chunk_position.x as int);
    let z_digits = crate::json::spec_i64_digits(e.chunk_position.z as int);
    assert(crate::json::spec_json_of(pos[0].value) == x_digits);
    assert(crate::json::spec_json_of(pos[1].value) == z_digits);
    let pos_entry0 = crate::json::spec_json_of_entry(pos[0]);
    let pos_entry1 = crate::json::spec_json_of_entry(pos[1]);
    assert(pos_entry0 =~= seq!['"'] + "x"@ + seq!['"', ':'] + x_digits);
    assert(pos_entry1 =~= seq!['"'] + "z"@ + seq!['"', ':'] + z_digits);
    assert(pos.drop_last() =~= seq![pos[0]]);
    assert(pos.drop_last().last() == pos[0]);
    assert(crate::json::spec_json_of_entries(seq![pos[0]]) == pos_entry0);
    assert(crate::json::spec_json_of_entries(pos) == crate::json::spec_json_of_entries(
        pos.drop_last(),
    ) + seq![','] + pos_entry1);
    assert(crate::json::spec_json_of(ms[0].value) =~= seq!['{'] + (pos_entry0 + seq![',']
        + pos_entry1) + seq!['}']);
    let entry0 = crate::json::spec_json_of_entry(ms[0]);
    let entry1 = crate::json::spec_json_of_entry(ms[1]);
    assert(entry0 =~= seq!['"'] + "chunk_position"@ + seq!['"', ':']
        + crate::json::spec_json_of(ms[0].value));
    assert(entry1 =~= seq!['"'] + "world_settings"@ + seq!['"', ':'] + spec_world_settings_json(
        e.world_settings,
    ));
    assert(ms.drop_last() =~= seq![ms[0]]);
    assert(ms.drop_last().last() == ms[0]);
    assert(crate::json::spec_json_of_entries(seq![ms[0]]) == entry0);
    assert(crate::json::spec_json_of_entries(ms) == crate::json::spec_json_of_entries(
        ms.drop_last(),
    ) + seq![','] + entry1);
    assert(crate::json::spec_json_of(tree) =~= seq!['{'] + (entry0 + seq![','] + entry1)
        + seq!['}']);
    assert(spec_chunk_generate_json(e) =~= crate::json::spec_json_of(tree));
}

/// Reading back a written chunk-generate payload recovers the event: the
/// payload parses, and its fields are the event's column coordinates and
/// generator settings (an explicit null settings value reads back as
/// none).
#[verifier::spinoff_prover]
#[verifier::rlimit(100)]
pub proof fn lemma_chunk_generate_payload_roundtrip(e: ChunkGenerateEvent)
    requires
        e.world_settings.settings matches Some(v) ==> crate::json::ints_canonical(v@),
        crate::json::ints_canonical(e.world_settings.world_macro_data.data@),
    ensures
        ({
            let parsed = crate::json::spec_parse_json(spec_chunk_generate_json(e));
            parsed is Some && spec_chunk_generate_fields(parsed->0) == Some(
                (
                    e.chunk_position.x as int,
                    e.chunk_position.z as int,
                    (
                        e.world_settings.seed as int,
                        e.world_settings.method@,
                        spec_opt_field(Some(spec_settings_node(e.world_settings.settings))),
                        e.world_settings.world_macro_data.data@,
                    ),
                ),
            )
        }),
{
    reveal_strlit("chunk_position");
    reveal_strlit("world_settings");
    reveal_strlit("x");
    reveal_strlit("z");
    reveal_strlit("seed");
    reveal_strlit("method");
    reveal_strlit("settings");
    reveal_strlit("world_macro_data");
    reveal_strlit("data");
    let tree = spec_chunk_envelope_tree(e);
    let ms = tree->Dict_0;
    let pos = ms[0].value->Dict_0;
    let setting_entries = ms[1].value->Dict_0;
    let wrapper = setting_entries[3].value->Dict_0;
    lemma_chunk_generate_payload_is_json(e);
    assert(crate::json::ints_canonical(tree)) by {
        assert(crate::json::ints_canonical(ms[0].value)) by {
            assert forall|t: int| 0 <= t < pos.len() implies crate::json::ints_canonical(
                #[trigger] pos[t].value,
            ) by {
                assert(pos[t].value is Int);
            };
        };
        assert(crate::json::ints_canonical(ms[1].value)) by {
            assert(crate::json::ints_canonical(spec_seed_node(e.world_settings.seed)));
            assert(crate::json::ints_canonical(setting_entries[3].value)) by {
                assert forall|t: int| 0 <= t < wrapper.len() implies crate::json::ints_canonical(
                    #[trigger] wrapper[t].value,
                ) by {
                    assert(wrapper[t].value == e.world_settings.world_macro_data.data@);
                };
            };
            assert forall|t: int|
                0 <= t < setting_entries.len() implies crate::json::ints_canonical(
                #[trigger] setting_entries[t].value,
            ) by {
                if t == 2 {
                    assert(setting_entries[2].value == spec_settings_node(
                        e.world_settings.settings,
                    ));
                }
            };
        };
        assert forall|t: int| 0 <= t < ms.len() implies crate::json::ints_canonical(
            #[trigger] ms[t].value,
        ) by {};
    };
    crate::json::lemma_parse_print_json(tree);
    assert("chunk_position"@.len() == 14 && "world_settings"@.len() == 14);
    assert("chunk_position"@[0] == 'c' && "world_settings"@[0] == 'w');
    assert("x"@.len() == 1 && "z"@.len() == 1 && "x"@[0] == 'x' && "z"@[0] == 'z');
    assert("seed"@.len() == 4 && "method"@.len() == 6 && "settings"@.len() == 8
        && "world_macro_data"@.len() == 16);
    // Top-level lookups.
    assert(crate::json::spec_dict_get(ms, "chunk_position"@) == Some(ms[0].value));
    assert(ms[0].key != "world_settings"@);
    let ms_rest = ms.drop_first();
    assert(ms_rest[0] == ms[1]);
    assert(crate::json::spec_dict_get(ms, "world_settings"@) == crate::json::spec_dict_get(
        ms_rest,
        "world_settings"@,
    ));
    assert(crate::json::spec_dict_get(ms_rest, "world_settings"@) == Some(ms[1].value));
    // Position lookups.
    assert(crate::json::spec_dict_get(pos, "x"@) == Some(pos[0].value));
    assert(pos[0].key != "z"@);
    let pos_rest = pos.drop_first();
    assert(pos_rest[0] == pos[1]);
    assert(crate::json::spec_dict_get(pos, "z"@) == crate::json::spec_dict_get(pos_rest, "z"@));
    assert(crate::json::spec_dict_get(pos_rest, "z"@) == Some(pos[1].value));
    // Settings lookups.
    assert(crate::json::spec_dict_get(setting_entries, "seed"@) == Some(setting_entries[0].value));
    let se1 = setting_entries.drop_first();
    assert(se1[0] == setting_entries[1] && se1[1] == setting_entries[2] && se1[2]
        == setting_entries[3]);
    assert(setting_entries[0].key != "method"@ && setting_entries[0].key != "settings"@
        && setting_entries[0].key != "world_macro_data"@);
    assert(crate::json::spec_dict_get(setting_entries, "method"@) == crate::json::spec_dict_get(
        se1,
        "method"@,
    ));
    assert(crate::json::spec_dict_get(se1, "method"@) == Some(setting_entries[1].value));
    let se2 = se1.drop_first();
    assert(se2[0] == setting_entries[2] && se2[1] == setting_entries[3]);
    assert(setting_entries[1].key != "settings"@ && setting_entries[1].key
        != "world_macro_data"@);
    assert(crate::json::spec_dict_get(setting_entries, "settings"@) == crate::json::spec_dict_get(
        se1,
        "settings"@,
    ));
    assert(crate::json::spec_dict_get(se1, "settings"@) == crate::json::spec_dict_get(
        se2,
        "settings"@,
    ));
    assert(crate::json::spec_dict_get(se2, "settings"@) == Some(setting_entries[2].value));
    let se3 = se2.drop_first();
    assert(se3[0] == setting_entries[3]);
    assert(setting_entries[2].key != "world_macro_data"@);
    assert(crate::json::spec_dict_get(setting_entries, "world_macro_data"@)
        == crate::json::spec_dict_get(se1, "world_macro_data"@));
    assert(crate::json::spec_dict_get(se1, "world_macro_data"@) == crate::json::spec_dict_get(
        se2,
        "world_macro_data"@,
    ));
    assert(crate::json::spec_dict_get(se2, "world_macro_data"@) == crate::json::spec_dict_get(
        se3,
        "world_macro_data"@,
    ));
    assert(crate::json::spec_dict_get(se3, "world_macro_data"@) == Some(setting_entries[3].value));
    assert(crate::json::spec_dict_get(wrapper, "data"@) == Some(wrapper[0].value));
    assert(spec_seed_field(Some(spec_seed_node(e.world_settings.seed))) == Some(
        e.world_settings.seed as int,
    ));
    assert(spec_settings_fields(ms[1].value) == Some(
        (
            e.world_settings.seed as int,
            e.world_settings.method@,
            spec_opt_field(Some(spec_settings_node(e.world_settings.settings))),
            e.world_settings.world_macro_data.data@,
        ),
    ));
}

/// The seed an event field carries: a non-negative `Int` or any `UInt`,
/// read as the world seed.
pub open spec fn spec_seed_field(field: Option<MacroView>) -> Option<int> {
    match field {
        Some(MacroView::Int(n)) => if n >= 0 {
            Some(n as int)
        } else {
            None
        },
        Some(MacroView::UInt(u)) => Some(u as int),
        _ => None,
    }
}

/// An optional event field: absent or null means none.
pub open spec fn spec_opt_field(o: Option<MacroView>) -> Option<MacroView> {
    match o {
        None => None,
        Some(MacroView::Null) => None,
        Some(v) => Some(v),
    }
}

/// The fields of a world-macro generation payload: seed, method and
/// optional settings. Unknown fields are ignored; a missing or ill-typed
/// required field yields nothing.
pub open spec fn spec_world_macro_fields(m: MacroView) -> Option<
    (int, Seq<char>, Option<MacroView>),
> {
    match m {
        MacroView::Dict(ms) => match (
            spec_seed_field(crate::json::spec_dict_get(ms, "seed"@)),
            crate::json::spec_dict_get(ms, "method"@),
        ) {
            (Some(seed), Some(MacroView::Text(t))) => Some(
                (seed, t, spec_opt_field(crate::json::spec_dict_get(ms, "settings"@))),
            ),
            _ => None,
        },
        _ => None,
    }
}

/// The fields of a generator-settings object inside a chunk-generate
/// payload: seed, method, optional settings and the macro document.
pub open spec fn spec_settings_fields(m: MacroView) -> Option<
    (int, Seq<char>, Option<MacroView>, MacroView),
> {
    match m {
        MacroView::Dict(ms) => match (
            spec_seed_field(crate::json::spec_dict_get(ms, "seed"@)),
            crate::json::spec_dict_get(ms, "method"@),
            crate::json::spec_dict_get(ms, "world_macro_data"@),
        ) {
            (Some(seed), Some(MacroView::Text(t)), Some(MacroView::Dict(inner))) => match crate::json::spec_dict_get(
                inner,
                "data"@,
            ) {
                Some(doc) => Some(
                    (
                        seed,
                        t,
                        spec_opt_field(crate::json::spec_dict_get(ms, "settings"@)),
                        doc,
                    ),
                ),
                None => None,
            },
            _ => None,
        },
        _ => None,
    }
}

/// The fields of a chunk-generate payload: the column coordinates and the
/// generator settings.
pub open spec fn spec_chunk_generate_fields(m: MacroView) -> Option<
    (int, int, (int, Seq<char>, Option<MacroView>, MacroView)),
> {
    match m {
        MacroView::Dict(ms) => match (
            crate::json::spec_dict_get(ms, "chunk_position"@),
            crate::json::spec_dict_get(ms, "world_settings"@),
        ) {
            (Some(MacroView::Dict(pos)), Some(ws)) => match (
                crate::json::spec_dict_get(pos, "x"@),
                crate::json::spec_dict_get(pos, "z"@),
                spec_settings_fields(ws),
            ) {
                (Some(MacroView::Int(x)), Some(MacroView::Int(z)), Some(fields)) => if i32::MIN
                    <= x <= i32::MAX && i32::MIN <= z <= i32::MAX {
                    Some((x as int, z as int, fields))
                } else {
                    None
                },
                _ => None,
            },
            _ => None,
        },
        _ => None,
    }
}

/// The model of an optional settings value.
pub open spec fn spec_opt_view(o: Option<MacroValue>) -> Option<MacroView> {
    match o {
        None => None,
        Some(v) => Some(v@),
    }
}

/// Reads an optional field's value: absent or null becomes none, anything
/// else is copied.
fn read_opt_field(v: Option<&MacroValue>) -> (r: Option<MacroValue>)
    ensures
        spec_opt_view(r) == spec_opt_field(
            match v {
                Some(inner) => Some(inner@),
                None => None,
            },
        ),
{
    match v {
        None => None,
        Some(MacroValue::Null) => None,
        Some(other) => Some(other.duplicate()),
    }
}

/// Reads a generator-settings object from a parsed payload value.
fn settings_from_tree(tree: &MacroValue) -> (r: Result<WorldGeneratorSettings, String>)
    ensures
        (r is Ok) == (spec_settings_fields(tree@) is Some),
        r matches Ok(w) ==> spec_settings_fields(tree@) == Some(
            (w.seed as int, w.method@, spec_opt_view(w.settings), w.world_macro_data.data@),
        ),
{
    let entries = match tree {
        MacroValue::Dict(entries) => entries,
        _ => {
            return Err(String::from_str("event error: settings are not an object"));
        },
    };
    let seed: u64 = match crate::json::dict_get(entries, "seed") {
        Some(MacroValue::Int(n)) => {
            if *n >= 0 {
                *n as u64
            } else {
                return Err(String::from_str("event error: negative seed"));
            }
        },
        Some(MacroValue::UInt(u)) => *u,
        _ => {
            return Err(String::from_str("event error: missing seed"));
        },
    };
    let method: String = match crate::json::dict_get(entries, "method") {
        Some(MacroValue::Text(t)) => t.clone(),
        _ => {
            return Err(String::from_str("event error: missing method"));
        },
    };
    let doc: MacroValue = match crate::json::dict_get(entries, "world_macro_data") {
        Some(MacroValue::Dict(inner)) => match crate::json::dict_get(inner, "data") {
            Some(value) => value.duplicate(),
            None => {
                return Err(String::from_str("event error: missing macro document"));
            },
        },
        _ => {
            return Err(String::from_str("event error: missing macro data"));
        },
    };
    let settings = read_opt_field(crate::json::dict_get(entries, "settings"));
    Ok(
        WorldGeneratorSettings {
            seed,
            method,
            settings,
            world_macro_data: crate::macro_data::WorldMacroData::create(doc),
        },
    )
}

impl GenerateWorldMacroEvent {
    /// Reads the event back from a JSON payload. Unknown fields are
    /// ignored; a missing or ill-typed required field fails, which the
    /// envelope reports as a deserialization error.
    pub fn from_payload(payload: &str) -> (r: Result<Self, String>)
        ensures
            (r is Ok) == (match crate::json::spec_parse_json(payload@) {
                Some(m) => spec_world_macro_fields(m) is Some,
                None => false,
            }),
            r matches Ok(e) ==> spec_world_macro_fields(
                crate::json::spec_parse_json(payload@)->0,
            ) == Some((e.seed as int, e.method@, spec_opt_view(e.settings))),
    {
        let tree = match crate::json::parse_json(payload) {
            Ok(t) => t,
            Err(e) => {
                return Err(e);
            },
        };
        let entries = match &tree {
            MacroValue::Dict(entries) => entries,
            _ => {
                return Err(String::from_str("event error: payload is not an object"));
            },
        };
        let seed: u64 = match crate::json::dict_get(entries, "seed") {
            Some(MacroValue::Int(n)) => {
                if *n >= 0 {
                    *n as u64
                } else {
                    return Err(String::from_str("event error: negative seed"));
                }
            },
            Some(MacroValue::UInt(u)) => *u,
            _ => {
                return Err(String::from_str("event error: missing seed"));
            },
        };
        let method: String = match crate::json::dict_get(entries, "method") {
            Some(MacroValue::Text(t)) => t.clone(),
            _ => {
                return Err(String::from_str("event error: missing method"));
            },
        };
        let settings = read_opt_field(crate::json::dict_get(entries, "settings"));
        Ok(GenerateWorldMacroEvent { seed, method, settings })
    }
}

impl ChunkGenerateEvent {
    /// Reads the event back from a JSON payload. Unknown fields are
    /// ignored; a missing or ill-typed required field fails, which the
    /// envelope reports as a deserialization error.
    pub fn from_payload(payload: &str) -> (r: Result<Self, String>)
        ensures
            (r is Ok) == (match crate::json::spec_parse_json(payload@) {
                Some(m) => spec_chunk_generate_fields(m) is Some,
                None => false,
            }),
            r matches Ok(e) ==> spec_chunk_generate_fields(
                crate::json::spec_parse_json(payload@)->0,
            ) == Some(
                (
                    e.chunk_position.x as int,
                    e.chunk_position.z as int,
                    (
                        e.world_settings.seed as int,
                        e.world_settings.method@,
                        spec_opt_view(e.world_settings.settings),
                        e.world_settings.world_macro_data.data@,
                    ),
                ),
            ),
    {
        let tree = match crate::json::parse_json(payload) {
            Ok(t) => t,
            Err(e) => {
                return Err(e);
            },
        };
        let entries = match &tree {
            MacroValue::Dict(entries) => entries,
            _ => {
                return Err(String::from_str("event error: payload is not an object"));
            },
        };
        let position_entries = match crate::json::dict_get(entries, "chunk_position") {
            Some(MacroValue::Dict(inner)) => inner,
            _ => {
                return Err(String::from_str("event error: missing chunk position"));
            },
        };
        let x: i32 = match crate::json::dict_get(position_entries, "x") {
            Some(MacroValue::Int(n)) => {
                if i32::MIN as i64 <= *n && *n <= i32::MAX as i64 {
                    *n as i32
                } else {
                    return Err(String::from_str("event error: column x out of range"));
                }
            },
            _ => {
                return Err(String::from_str("event error: missing column x"));
            },
        };
        let z: i32 = match crate::json::dict_get(position_entries, "z") {
            Some(MacroValue::Int(n)) => {
                if i32::MIN as i64 <= *n && *n <= i32::MAX as i64 {
                    *n as i32
                } else {
                    return Err(String::from_str("event error: column z out of range"));
                }
            },
            _ => {
                return Err(String::from_str("event error: missing column z"));
            },
        };
        let world_settings = match crate::json::dict_get(entries, "world_settings") {
            Some(settings_tree) => match settings_from_tree(settings_tree) {
                Ok(w) => w,
                Err(e) => {
                    return Err(e);
                },
            },
            None => {
                return Err(String::from_str("event error: missing world settings"));
            },
        };
        Ok(ChunkGenerateEvent { chunk_position: ChunkPosition { x, z }, world_settings })
    }
}

/// How one delivery of an event to a handler went. The host plumbing reads
/// the input channel, parses the event, runs the handler and writes the
/// response; this type records where that chain stopped.
pub enum HandlerOutcome {
    /// The handler ran; its serialized response, if it returned one.
    Success(Option<String>),
    /// The input channel could not be read.
    InputUnavailable,
    /// The payload did not parse as the expected event.
    MalformedEvent,
    /// The handler itself reported an error.
    HandlerFailed,
}

/// The exit code an event wrapper reports: `0` for success, `1` for input or
/// handler failures, `2` for a payload that did not deserialize.
pub fn handler_exit_code(outcome: &HandlerOutcome) -> (r: i32)
    ensures
        r == match outcome {
            HandlerOutcome::Success(_) => 0int,
            HandlerOutcome::InputUnavailable => 1int,
            HandlerOutcome::MalformedEvent => 2int,
            HandlerOutcome::HandlerFailed => 1int,
        },
{
    match outcome {
        HandlerOutcome::Success(_) => 0,
        HandlerOutcome::InputUnavailable => 1,
        HandlerOutcome::MalformedEvent => 2,
        HandlerOutcome::HandlerFailed => 1,
    }
}

/// The worlds facade a plugin sees; the calls themselves go through host
/// imports outside this library.
pub struct WorldsManager;

/// Booleans cross the plugin boundary as the strings `"true"` and
/// `"false"`; this decodes them as the host imports do.
pub fn parse_host_bool(s: &str) -> (r: bool)
    ensures
        r == (s@ == "true"@),
{
    str_eq(s, "true")
}

} // verus!

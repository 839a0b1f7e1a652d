//! The per-world persistent store: one SQLite database file per world at
//! `<data_path>/worlds/<slug>.db`, holding the chunk blobs keyed by `(x, z)`,
//! one world-metadata row, and the block-id map.
//!
//! The SQL statements here are part of the on-disk contract: the files must
//! stay readable by any SQLite 3 client.
use vstd::prelude::*;

use rusqlite::Connection;

use crate::block_id_map::{check_block_ids, BlockId, BlockIdError};
use crate::blocks::BlockIndexType;
use crate::macro_data::WorldMacroData;
use crate::positions::ChunkPosition;
use crate::strutil::{parse_u64, u64_to_string};
use crate::worlds_storage::{WorldStorageData, WorldStorageSettings};

verus! {

#[verifier::external_type_specification]
#[verifier::external_body]
pub struct ExConnection(Connection);

/// Relies on `rusqlite::Connection::open`: opens (creating it if needed) the
/// database file at this path.
#[verifier::external_body]
fn db_open(path: &str) -> (r: Result<Connection, String>) {
    Connection::open(path).map_err(|e| e.to_string())
}

/// Relies on `rusqlite::Connection::execute_batch`: runs the statements and
/// reports the first error.
#[verifier::external_body]
fn db_execute_batch(db: &Connection, sql: &str) -> (r: Result<(), String>) {
    db.execute_batch(sql).map_err(|e| e.to_string())
}

/// Relies on `rusqlite::Connection::execute` with no parameters.
#[verifier::external_body]
fn db_execute(db: &Connection, sql: &str) -> (r: Result<usize, String>) {
    db.execute(sql, ()).map_err(|e| e.to_string())
}

/// Relies on `rusqlite::Connection::execute`: runs the statement with the
/// world-metadata parameters bound to `?1`, `?2`, `?3`.
#[verifier::external_body]
fn db_execute_info(
    db: &Connection,
    sql: &str,
    seed: &str,
    generator: &str,
    world_macro: &Vec<u8>,
) -> (r: Result<usize, String>) {
    db.execute(sql, (seed, generator, world_macro.as_slice())).map_err(|e| e.to_string())
}

/// Relies on `rusqlite::Connection::execute`: runs the statement with the
/// chunk coordinates and a zero blob of `blob_len` bytes bound to it.
#[verifier::external_body]
fn db_execute_insert_chunk(
    db: &Connection,
    sql: &str,
    x: i32,
    z: i32,
    blob_len: i32,
) -> (r: Result<usize, String>) {
    db.execute(sql, (x, z, rusqlite::blob::ZeroBlob(blob_len))).map_err(|e| e.to_string())
}

/// Relies on `rusqlite::Connection::execute`: runs the statement with a row
/// id and a zero blob of `blob_len` bytes bound to it.
#[verifier::external_body]
fn db_execute_resize_chunk(
    db: &Connection,
    sql: &str,
    row_id: i64,
    blob_len: i32,
) -> (r: Result<usize, String>) {
    db.execute(sql, (row_id, rusqlite::blob::ZeroBlob(blob_len))).map_err(|e| e.to_string())
}

/// Relies on `rusqlite::Connection::execute`: runs the statement with a
/// block id and its slug bound to it.
#[verifier::external_body]
fn db_execute_insert_block_id(
    db: &Connection,
    sql: &str,
    block_id: BlockIndexType,
    slug: &str,
) -> (r: Result<usize, String>) {
    db.execute(sql, (block_id, slug)).map_err(|e| e.to_string())
}

/// Relies on `rusqlite::Connection::query_row`: runs the query and reads one
/// boolean column of its single row.
#[verifier::external_body]
fn db_query_bool(db: &Connection, sql: &str) -> (r: Result<bool, String>) {
    db.query_row(sql, [], |row| row.get(0)).map_err(|e| e.to_string())
}

/// Relies on `rusqlite::Connection::query_row` and `OptionalExtension`: runs
/// the query with the chunk coordinates bound and reads the row id of the
/// matching row, if one exists.
#[verifier::external_body]
fn db_query_chunk_id(db: &Connection, sql: &str, x: i32, z: i32) -> (r: Result<
    Option<i64>,
    String,
>) {
    rusqlite::OptionalExtension::optional(db.query_row(sql, (x, z), |row| row.get(0))).map_err(
        |e| e.to_string(),
    )
}

/// Relies on `rusqlite::Connection::last_insert_rowid`: the row id of the
/// most recent successful insert on this connection.
#[verifier::external_body]
fn db_last_insert_rowid(db: &Connection) -> (r: i64) {
    db.last_insert_rowid()
}

/// Relies on `rusqlite::Connection::query_row`: reads the single
/// world-metadata row as `(seed text, generator name, macro blob)`.
#[verifier::external_body]
fn db_query_world_info(db: &Connection, sql: &str) -> (r: Result<
    (String, String, Vec<u8>),
    String,
>) {
    db.query_row(sql, [], |row| {
        Ok((row.get::<_, String>(0)?, row.get::<_, String>(1)?, row.get::<_, Vec<u8>>(2)?))
    }).map_err(|e| e.to_string())
}

/// Relies on `rusqlite::Statement::query_map`: reads all block-id rows in
/// the query's order.
#[verifier::external_body]
fn db_query_block_ids(db: &Connection, sql: &str) -> (r: Result<Vec<BlockId>, String>) {
    let mut stmt = db.prepare(sql).map_err(|e| e.to_string())?;
    let rows = stmt.query_map(
        [],
        |row| Ok(BlockId { block_id: row.get(0)?, block_slug: row.get(1)? }),
    ).map_err(|e| e.to_string())?;
    let mut out = Vec::new();
    for row in rows {
        out.push(row.map_err(|e| e.to_string())?);
    }
    Ok(out)
}

/// Relies on `rusqlite::Connection::blob_open`, `Blob::size` and
/// `Blob::read_at_exact`: reads the whole `sections_data` blob of one chunk
/// row.
#[verifier::external_body]
fn db_read_chunk_blob(db: &Connection, row_id: i64) -> (r: Result<Vec<u8>, String>) {
    let blob = db.blob_open(rusqlite::MAIN_DB, "chunks", "sections_data", row_id, true).map_err(
        |e| e.to_string(),
    )?;
    let mut buf = vec![0u8; blob.size() as usize];
    blob.read_at_exact(&mut buf, 0).map_err(|e| e.to_string())?;
    Ok(buf)
}

/// Relies on `rusqlite::Connection::blob_open` and `Blob::write_at`: streams
/// `data` into the `sections_data` blob of one chunk row, which must already
/// have exactly `data.len()` bytes of room.
#[verifier::external_body]
fn db_write_chunk_blob(db: &Connection, row_id: i64, data: &Vec<u8>) -> (r: Result<(), String>) {
    let mut blob = db.blob_open(rusqlite::MAIN_DB, "chunks", "sections_data", row_id, false)
        .map_err(|e| e.to_string())?;
    blob.write_at(data.as_slice(), 0).map_err(|e| e.to_string())
}

/// Relies on `tempfile::Builder` with no random bytes in the name: creates
/// the directory `name` inside `parent`; a directory that already exists
/// counts as created.
#[verifier::external_body]
fn make_dir(parent: &str, name: &str) -> (r: Result<(), String>) {
    let made = tempfile::Builder::new().prefix(name).rand_bytes(0).keep(true).tempdir_in(parent);
    match made {
        Ok(_) => Ok(()),
        Err(e) if e.kind() == std::io::ErrorKind::AlreadyExists => Ok(()),
        Err(e) => Err(e.to_string()),
    }
}

/// Relies on `tempfile::TempPath::from_path` and `TempPath::close`: removes
/// the file at this path.
#[verifier::external_body]
fn remove_file_at(path: &str) -> (r: Result<(), String>) {
    tempfile::TempPath::from_path(std::path::PathBuf::from(path)).close().map_err(
        |e| e.to_string(),
    )
}

/// Creates every directory level of `path` that is missing, left to right,
/// as `create_dir_all` would.
fn ensure_dir_path(path: &str) -> (r: Result<(), String>) {
    let len = path.unicode_len();
    let mut seg_start: usize = 0;
    let mut i: usize = 0;
    while i < len
        invariant
            len == path@.len(),
            i <= len,
            seg_start <= len,
        decreases len - i,
    {
        if path.get_char(i) == '/' {
            if seg_start < i {
                if let Err(e) = make_dir_level(path, seg_start, i) {
                    return Err(e);
                }
            }
            seg_start = i + 1;
        }
        i = i + 1;
    }
    if seg_start < len {
        if let Err(e) = make_dir_level(path, seg_start, len) {
            return Err(e);
        }
    }
    Ok(())
}

/// Creates the directory named by `path[seg_start..seg_end]` inside the
/// path prefix before it.
fn make_dir_level(path: &str, seg_start: usize, seg_end: usize) -> (r: Result<(), String>)
    requires
        seg_start < seg_end <= path@.len(),
{
    let segment = path.substring_char(seg_start, seg_end);
    if seg_start == 0 {
        make_dir(".", segment)
    } else if seg_start == 1 {
        make_dir("/", segment)
    } else {
        let parent = path.substring_char(0, seg_start - 1);
        make_dir(parent, segment)
    }
}

/// The name of a world database file: it ends in `.db`.
pub open spec fn is_db_name(name: Seq<char>) -> bool {
    &&& name.len() >= 3
    &&& name[name.len() - 3] == '.'
    &&& name[name.len() - 2] == 'd'
    &&& name[name.len() - 1] == 'b'
}

/// `slug` is `name` with a final `.db` stripped.
pub open spec fn is_db_slug_of(slug: Seq<char>, name: Seq<char>) -> bool {
    is_db_name(name) && slug == name.subrange(0, name.len() - 3)
}

/// The slugs of the database files among the directory entries, in input
/// order: one slug per name that ends in `.db`.
pub open spec fn db_slugs(names: Seq<String>) -> Seq<Seq<char>>
    decreases names.len(),
{
    if names.len() == 0 {
        Seq::empty()
    } else {
        db_slugs(names.drop_last()) + (if is_db_name(names.last()@) {
            seq![names.last()@.subrange(0, names.last()@.len() - 3)]
        } else {
            Seq::<Seq<char>>::empty()
        })
    }
}

proof fn lemma_db_slugs_take_step(names: Seq<String>, i: int)
    requires
        0 <= i < names.len(),
    ensures
        db_slugs(names.take(i + 1)) == db_slugs(names.take(i)) + (if is_db_name(names[i]@) {
            seq![names[i]@.subrange(0, names[i]@.len() - 3)]
        } else {
            Seq::<Seq<char>>::empty()
        }),
{
    assert(names.take(i + 1).drop_last() =~= names.take(i));
    assert(names.take(i + 1).last() == names[i]);
}

/// The world slug of a database file name: the name with its `.db` suffix
/// stripped, or nothing for files that are not world databases.
pub fn db_file_slug(name: &str) -> (r: Option<String>)
    ensures
        (r is Some) <==> is_db_name(name@),
        r matches Some(slug) ==> is_db_slug_of(slug@, name@),
{
    let len = name.unicode_len();
    if len < 3 {
        return None;
    }
    if name.get_char(len - 3) == '.' && name.get_char(len - 2) == 'd' && name.get_char(len - 1)
        == 'b' {
        let prefix = name.substring_char(0, len - 3);
        Some(String::from_str(prefix))
    } else {
        None
    }
}

/// A handle on one world's database file.
pub struct SQLiteStorage {
    pub db_path: String,
}

impl SQLiteStorage {
    /// Opens a connection to the world file and enables write-ahead logging,
    /// for durability under concurrent readers and a single writer.
    fn open(&self) -> (r: Result<Connection, String>) {
        let conn = match db_open(self.db_path.as_str()) {
            Ok(c) => c,
            Err(e) => {
                return Err(e);
            },
        };
        match db_execute_batch(&conn, "PRAGMA journal_mode = WAL;") {
            Ok(()) => Ok(conn),
            Err(e) => Err(e),
        }
    }

    pub fn get_db_path(&self) -> (r: &String)
        ensures
            r == &self.db_path,
    {
        &self.db_path
    }

    /// Attaches the store to `<data_path>/worlds/<slug>.db`, creating the
    /// `worlds` directory if it is missing. The file itself is created
    /// lazily on first use.
    pub fn init(storage_settings: WorldStorageSettings, slug: String) -> (r: Result<Self, String>)
        ensures
            r matches Ok(s) ==> s.db_path@ == storage_settings.data_path@ + "/worlds/"@ + slug@
                + ".db"@,
    {
        let worlds_dir = storage_settings.data_path.clone().concat("/worlds");
        if let Err(e) = ensure_dir_path(worlds_dir.as_str()) {
            let mut message = String::from_str("Unable to create dir \"");
            message.append(worlds_dir.as_str());
            message.append("\": ");
            message.append(e.as_str());
            return Err(message);
        }
        let db_path = storage_settings.data_path.concat("/worlds/").concat(slug.as_str()).concat(
            ".db",
        );
        Ok(SQLiteStorage { db_path })
    }

    /// Creates the world once: if the `chunks` table already exists this is
    /// a no-op; otherwise it creates all three tables — chunks, metadata and
    /// the block-id map — and writes the single metadata row, with the seed
    /// as decimal text and the macro document in its binary encoding.
    pub fn create_new(&self, world_data: &WorldStorageData) -> (r: Result<(), String>) {
        let db = match self.open() {
            Ok(c) => c,
            Err(e) => {
                return Err(e);
            },
        };
        let chunks_exists = match db_query_bool(
            &db,
            "SELECT EXISTS(SELECT name FROM sqlite_master WHERE type='table' AND name='chunks');",
        ) {
            Ok(b) => b,
            Err(e) => {
                return Err(String::from_str("&4world table check SQLite error: &c").concat(
                    e.as_str(),
                ));
            },
        };
        if !chunks_exists {
            if let Err(e) = db_execute(
                &db,
                "CREATE TABLE IF NOT EXISTS chunks (id INTEGER PRIMARY KEY, x INTEGER, z INTEGER, sections_data BLOB)",
            ) {
                return Err(String::from_str("&4world chunks creation SQLite error: &c").concat(
                    e.as_str(),
                ));
            }
            if let Err(e) = db_execute(&db, "CREATE INDEX coordinate_index ON chunks (x, z)") {
                return Err(String::from_str("&4index creation SQLite error: &c").concat(
                    e.as_str(),
                ));
            }
            if let Err(e) = db_execute(
                &db,
                "CREATE TABLE IF NOT EXISTS world_info (seed TEXT, world_generator TEXT, world_macro BLOB);",
            ) {
                return Err(String::from_str("&4World Info writing SQLite error: &c").concat(
                    e.as_str(),
                ));
            }
            if let Err(e) = db_execute(
                &db,
                "CREATE TABLE IF NOT EXISTS world_block_ids (block_id INTEGER UNIQUE, block_slug STRING);",
            ) {
                return Err(String::from_str("World block ids table create error: &c").concat(
                    e.as_str(),
                ));
            }
            let seed_text = u64_to_string(world_data.seed);
            let world_macro = world_data.world_macro_data.encode();
            if let Err(e) = db_execute_info(
                &db,
                "INSERT INTO world_info (seed, world_generator, world_macro) VALUES (?1, ?2, ?3)",
                seed_text.as_str(),
                world_data.world_generator.as_str(),
                &world_macro,
            ) {
                return Err(String::from_str("world seed saving error: &c").concat(e.as_str()));
            }
        }
        Ok(())
    }

    /// Point lookup: the row id of the chunk stored for this position, if
    /// one exists.
    pub fn has_chunk_data(&self, chunk_position: &ChunkPosition) -> (r: Result<
        Option<i64>,
        String,
    >) {
        let db = match self.open() {
            Ok(c) => c,
            Err(e) => {
                return Err(e);
            },
        };
        match db_query_chunk_id(
            &db,
            "SELECT id FROM chunks WHERE x=?1 AND z=?2;",
            chunk_position.x,
            chunk_position.z,
        ) {
            Ok(row) => Ok(row),
            Err(e) => Err(String::from_str("&4chunk lookup SQLite error: &c").concat(e.as_str())),
        }
    }

    /// Reads the stored chunk blob of a row in full. The caller
    /// decompresses.
    pub fn read_chunk_data(&self, chunk_id: i64) -> (r: Result<Vec<u8>, String>) {
        let db = match self.open() {
            Ok(c) => c,
            Err(e) => {
                return Err(e);
            },
        };
        db_read_chunk_blob(&db, chunk_id)
    }

    /// Upserts one chunk blob: an existing row for `(x, z)` has its blob
    /// resized in place and overwritten; otherwise a new row is inserted
    /// with a pre-sized empty blob. The bytes are then streamed into the
    /// blob, all inside a single transaction, and the stable row id is
    /// returned.
    pub fn save_chunk_data(&self, chunk_position: &ChunkPosition, data: &Vec<u8>) -> (r: Result<
        i64,
        String,
    >)
        requires
            data@.len() <= i32::MAX,
    {
        let db = match self.open() {
            Ok(c) => c,
            Err(e) => {
                return Err(e);
            },
        };
        let existing = match self.has_chunk_data(chunk_position) {
            Ok(id) => id,
            Err(e) => {
                return Err(e);
            },
        };
        // The row write and the blob write form one transaction, so a chunk
        // is saved all-or-nothing.
        if let Err(e) = db_execute_batch(&db, "BEGIN IMMEDIATE;") {
            return Err(String::from_str("&4Chunk transaction SQLite error: &c").concat(
                e.as_str(),
            ));
        }
        let chunk_id: i64 = match existing {
            Some(id) => {
                if let Err(e) = db_execute_resize_chunk(
                    &db,
                    "UPDATE chunks SET sections_data = ?2 WHERE id=?1",
                    id,
                    data.len() as i32,
                ) {
                    let _ = db_execute_batch(&db, "ROLLBACK;");
                    return Err(String::from_str("&4Chunk update SQLite error: &c").concat(
                        e.as_str(),
                    ));
                }
                id
            },
            None => {
                if let Err(e) = db_execute_insert_chunk(
                    &db,
                    "INSERT INTO chunks (x, z, sections_data) VALUES (?1, ?2, ?3);",
                    chunk_position.x,
                    chunk_position.z,
                    data.len() as i32,
                ) {
                    let _ = db_execute_batch(&db, "ROLLBACK;");
                    return Err(String::from_str("&4Chunk insert SQLite error: &c").concat(
                        e.as_str(),
                    ));
                }
                db_last_insert_rowid(&db)
            },
        };
        if let Err(e) = db_write_chunk_blob(&db, chunk_id, data) {
            let _ = db_execute_batch(&db, "ROLLBACK;");
            return Err(String::from_str("&4Chunk blob write SQLite error: &c").concat(e.as_str()));
        }
        if let Err(e) = db_execute_batch(&db, "COMMIT;") {
            let _ = db_execute_batch(&db, "ROLLBACK;");
            return Err(String::from_str("&4Chunk commit SQLite error: &c").concat(e.as_str()));
        }
        Ok(chunk_id)
    }

    /// Reads the metadata of every world database among the given directory
    /// entries of `<data_path>/worlds/`: on success, one entry per `.db`
    /// name, in input order, each carrying that file's slug. Entries
    /// without a `.db` suffix are skipped silently — a listing with none
    /// (an empty directory in particular) always succeeds with the empty
    /// list. A malformed database aborts the scan.
    #[verifier::spinoff_prover]
    #[verifier::rlimit(60)]
    pub fn scan_worlds(
        storage_settings: &WorldStorageSettings,
        file_names: &Vec<String>,
    ) -> (r: Result<Vec<WorldStorageData>, String>)
        ensures
            (forall|j: int| 0 <= j < file_names@.len() ==> !is_db_name(#[trigger] file_names@[j]@))
                ==> r is Ok,
            r matches Ok(ws) ==> ws@.map_values(|w: WorldStorageData| w.slug@) == db_slugs(
                file_names@,
            ),
    {
        let mut worlds: Vec<WorldStorageData> = Vec::new();
        let mut i: usize = 0;
        while i < file_names.len()
            invariant
                i <= file_names@.len(),
                worlds@.map_values(|w: WorldStorageData| w.slug@) == db_slugs(
                    file_names@.take(i as int),
                ),
            decreases file_names@.len() - i,
        {
            proof {
                lemma_db_slugs_take_step(file_names@, i as int);
            }
            let name = &file_names[i];
            let slug = match db_file_slug(name.as_str()) {
                Some(s) => s,
                None => {
                    proof {
                        assert(db_slugs(file_names@.take(i + 1)) =~= db_slugs(
                            file_names@.take(i as int),
                        ));
                    }
                    i = i + 1;
                    continue ;
                },
            };
            let path = storage_settings.get_data_path().as_str().to_owned().concat(
                "/worlds/",
            ).concat(name.as_str());
            let db = match db_open(path.as_str()) {
                Ok(c) => c,
                Err(e) => {
                    return Err(String::from_str("&cdatabase open error: ").concat(e.as_str()));
                },
            };
            let info = match db_query_world_info(
                &db,
                "SELECT seed, world_generator, world_macro FROM world_info;",
            ) {
                Ok(t) => t,
                Err(e) => {
                    return Err(String::from_str("&4World Info SQLite reading error: &c").concat(
                        e.as_str(),
                    ));
                },
            };
            let (seed_text, generator, world_macro) = info;
            let seed = match parse_u64(seed_text.as_str()) {
                Some(n) => n,
                None => {
                    return Err(String::from_str("&4World Info seed is not a decimal number"));
                },
            };
            let world_macro_data = match WorldMacroData::decode(world_macro) {
                Ok(m) => m,
                Err(e) => {
                    return Err(String::from_str("&4World macro decode error: &c").concat(
                        e.as_str(),
                    ));
                },
            };
            let ghost slug_view = slug@;
            let ghost worlds0 = worlds@;
            worlds.push(WorldStorageData::create(slug, seed, generator, world_macro_data));
            proof {
                assert(worlds@.last().slug@ == slug_view);
                assert(is_db_slug_of(slug_view, file_names@[i as int]@));
                assert(worlds@.map_values(|w: WorldStorageData| w.slug@) =~= worlds0.map_values(
                    |w: WorldStorageData| w.slug@,
                ).push(slug_view));
                assert(worlds@.map_values(|w: WorldStorageData| w.slug@) =~= db_slugs(
                    file_names@.take(i + 1),
                ));
            }
            i = i + 1;
        }
        proof {
            assert(file_names@.take(file_names@.len() as int) =~= file_names@);
        }
        Ok(worlds)
    }

    /// Removes the world's database file.
    pub fn delete(&self) -> (r: Result<(), String>) {
        match remove_file_at(self.db_path.as_str()) {
            Ok(()) => Ok(()),
            Err(e) => {
                let mut message = String::from_str("world delete \"");
                message.append(self.db_path.as_str());
                message.append("\" error: ");
                message.append(e.as_str());
                Err(message)
            },
        }
    }

    /// Validates the persisted block-id rows against the desired map, given
    /// as `(id, slug)` pairs, and appends the pairs that are not persisted
    /// yet. A mismatched or unknown persisted slug
    /// aborts with an error; earlier inserts stay, which is harmless because
    /// inserts are additive.
    pub fn validate_block_id_map(&self, block_id_map: &Vec<(BlockIndexType, String)>) -> (r:
        Result<(), String>) {
        let db = match self.open() {
            Ok(c) => c,
            Err(e) => {
                return Err(e);
            },
        };
        if let Err(e) = db_execute(
            &db,
            "CREATE TABLE IF NOT EXISTS world_block_ids (block_id INTEGER UNIQUE, block_slug STRING);",
        ) {
            return Err(String::from_str("World block ids table create error: &c").concat(
                e.as_str(),
            ));
        }
        let persisted = match db_query_block_ids(
            &db,
            "SELECT block_id, block_slug FROM world_block_ids ORDER BY block_id;",
        ) {
            Ok(rows) => rows,
            Err(e) => {
                return Err(String::from_str("World block ids read error: &c").concat(e.as_str()));
            },
        };
        let to_insert = match check_block_ids(&persisted, block_id_map) {
            Ok(pairs) => pairs,
            Err(BlockIdError::Mismatch { slug, persisted_id, desired_id }) => {
                let mut message = String::from_str("&cblock &4\"");
                message.append(slug.as_str());
                message.append("\"&c id is not match; world_id:");
                message.append(u64_to_string(persisted_id as u64).as_str());
                message.append(" saved_id:");
                message.append(u64_to_string(desired_id as u64).as_str());
                return Err(message);
            },
            Err(BlockIdError::Missing { slug }) => {
                let mut message = String::from_str("&cblock &4\"");
                message.append(slug.as_str());
                message.append("\"&c doesn't exists in resources");
                return Err(message);
            },
        };
        let mut j: usize = 0;
        while j < to_insert.len()
            decreases to_insert@.len() - j,
        {
            let pair = &to_insert[j];
            if let Err(e) = db_execute_insert_block_id(
                &db,
                "INSERT INTO world_block_ids (block_id, block_slug) VALUES (?1, ?2);",
                pair.0,
                pair.1.as_str(),
            ) {
                let mut message = String::from_str("Block id #");
                message.append(u64_to_string(pair.0 as u64).as_str());
                message.append(" \"");
                message.append(pair.1.as_str());
                message.append("\" insert error: &c");
                message.append(e.as_str());
                return Err(message);
            }
            j = j + 1;
        }
        Ok(())
    }
}

} // verus!

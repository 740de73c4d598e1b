//! Knowledge-base model: documents and their metadata, the full-text query
//! escape, the retrieval prefix for queries, the embedders used in tests,
//! content hashing, and the plan that folder sync derives from what is on
//! disk and what is stored.

use vstd::prelude::*;
use sha2::{Digest, Sha256};
use crate::text::{
    append_chars, append_str, chars_of, decimal, join, join_chars, push_decimal, replace_all,
    replace_chars, split_whitespace_chars, str_eq, string_of, to_lowercase, lowercase_str, words,
};

verus! {

// ---------------------------------------------------------------------------
// Models
// ---------------------------------------------------------------------------

/// Where a document came from.
#[derive(Debug, Clone, Copy, PartialEq, Eq, Structural)]
pub enum SourceType {
    Text,
    File,
    Synced,
}

/// The stored name of each source type.
pub open spec fn source_type_name(t: SourceType) -> Seq<char> {
    match t {
        SourceType::Text => "text"@,
        SourceType::File => "file"@,
        SourceType::Synced => "synced"@,
    }
}

impl SourceType {
    /// The stored name: `text`, `file` or `synced`.
    pub fn as_str(&self) -> (r: &'static str)
        ensures
            r@ == source_type_name(*self),
    {
        match self {
            SourceType::Text => "text",
            SourceType::File => "file",
            SourceType::Synced => "synced",
        }
    }

    /// Parses a stored name; any other text is an error that names it.
    pub fn parse(s: &str) -> (r: Result<SourceType, String>)
        ensures
            s@ == "text"@ ==> r == Ok::<SourceType, String>(SourceType::Text),
            s@ == "file"@ ==> r == Ok::<SourceType, String>(SourceType::File),
            s@ == "synced"@ ==> r == Ok::<SourceType, String>(SourceType::Synced),
            s@ != "text"@ && s@ != "file"@ && s@ != "synced"@ ==> (r matches Err(e) && e@
                == "unknown source type: "@ + s@),
            r matches Ok(t) ==> source_type_name(t) == s@,
    {
        proof {
            lemma_source_names_distinct();
        }
        if str_eq(s, "text") {
            Ok(SourceType::Text)
        } else if str_eq(s, "file") {
            Ok(SourceType::File)
        } else if str_eq(s, "synced") {
            Ok(SourceType::Synced)
        } else {
            let mut v = chars_of("unknown source type: ");
            append_str(&mut v, s);
            Err(string_of(&v))
        }
    }
}

impl std::str::FromStr for SourceType {
    type Err = String;

    fn from_str(s: &str) -> (r: Result<SourceType, String>)
        ensures
            s@ == "text"@ ==> r == Ok::<SourceType, String>(SourceType::Text),
            s@ == "file"@ ==> r == Ok::<SourceType, String>(SourceType::File),
            s@ == "synced"@ ==> r == Ok::<SourceType, String>(SourceType::Synced),
            s@ != "text"@ && s@ != "file"@ && s@ != "synced"@ ==> (r matches Err(e) && e@
                == "unknown source type: "@ + s@),
    {
        SourceType::parse(s)
    }
}

proof fn lemma_source_names_distinct()
    ensures
        "text"@ != "file"@,
        "text"@ != "synced"@,
        "file"@ != "synced"@,
{
    reveal_strlit("text");
    reveal_strlit("file");
    reveal_strlit("synced");
    assert("text"@[0] != "file"@[0]);
    assert("text"@.len() != "synced"@.len());
    assert("file"@.len() != "synced"@.len());
}

/// Parsing the stored name of a source type gives that source type back.
pub proof fn lemma_source_type_round_trip(t: SourceType)
    ensures
        stored_source_type(source_type_name(t)) == t,
{
    lemma_source_names_distinct();
}

/// A stored document with its metadata.
#[derive(Debug, Clone)]
pub struct Document {
    pub id: String,
    pub content: String,
    pub source_type: SourceType,
    pub source_path: Option<String>,
    pub content_hash: String,
    pub expiration: Option<String>,
    pub created_at: String,
    pub updated_at: String,
    pub metadata: Vec<MetadataEntry>,
}

/// One key/value pair of document metadata.
#[derive(Debug, Clone)]
pub struct MetadataEntry {
    pub key: String,
    pub value: String,
}

/// A stored chunk of a document.
#[derive(Debug, Clone)]
pub struct Chunk {
    pub id: i64,
    pub document_id: String,
    pub content: String,
    pub chunk_index: i64,
    pub start_byte: i64,
    pub end_byte: i64,
}

/// A folder kept in sync with the knowledge base.
#[derive(Debug, Clone)]
pub struct SyncFolder {
    pub id: String,
    pub folder_path: String,
    pub interval_secs: i64,
    pub last_scan_at: Option<String>,
    pub created_at: String,
}

/// Counts describing the knowledge base.
#[derive(Debug, Clone, Copy)]
pub struct KbStatus {
    pub document_count: i64,
    pub chunk_count: i64,
    pub sync_folder_count: i64,
    pub db_size_bytes: u64,
}

/// A document row as the database returns it, before its source type is
/// parsed.
#[derive(Debug, Clone)]
pub struct DocumentRow {
    pub id: String,
    pub content: String,
    pub source_type: String,
    pub source_path: Option<String>,
    pub content_hash: String,
    pub expiration: Option<String>,
    pub created_at: String,
    pub updated_at: String,
}

/// The source type stored as `s`, or `Text` when `s` names none.
pub open spec fn stored_source_type(s: Seq<char>) -> SourceType {
    if s == "file"@ {
        SourceType::File
    } else if s == "synced"@ {
        SourceType::Synced
    } else {
        SourceType::Text
    }
}

impl DocumentRow {
    /// The document of this row with `metadata`; an unknown source type reads
    /// as `Text`.
    pub fn into_document(self, metadata: Vec<MetadataEntry>) -> (d: Document)
        ensures
            d.id == self.id,
            d.content == self.content,
            d.source_type == stored_source_type(self.source_type@),
            d.source_path == self.source_path,
            d.content_hash == self.content_hash,
            d.expiration == self.expiration,
            d.created_at == self.created_at,
            d.updated_at == self.updated_at,
            d.metadata == metadata,
    {
        let source_type = match SourceType::parse(self.source_type.as_str()) {
            Ok(t) => t,
            Err(_) => SourceType::Text,
        };
        proof {
            lemma_source_names_distinct();
        }
        Document {
            id: self.id,
            content: self.content,
            source_type,
            source_path: self.source_path,
            content_hash: self.content_hash,
            expiration: self.expiration,
            created_at: self.created_at,
            updated_at: self.updated_at,
            metadata,
        }
    }
}


// ---------------------------------------------------------------------------
// Full-text queries
// ---------------------------------------------------------------------------

/// One term of an FTS5 query: quoted, with inner quotes doubled.
pub open spec fn fts5_term(w: Seq<char>) -> Seq<char> {
    seq!['"'] + replace_all(w, seq!['"'], seq!['"', '"']) + seq!['"']
}

/// An FTS5 query matching the whitespace-separated terms of `q` literally:
/// each term quoted, terms separated by one space; `""` when there is none.
pub open spec fn fts5_escape_spec(q: Seq<char>) -> Seq<char> {
    let ws = words(q);
    if ws.len() == 0 {
        seq!['"', '"']
    } else {
        join(ws.map_values(|w: Seq<char>| fts5_term(w)), seq![' '])
    }
}

/// Escapes a user query for FTS5 (see [`fts5_escape_spec`]).
pub fn fts5_escape(query: &str) -> (r: String)
    ensures
        r@ == fts5_escape_spec(query@),
{
    let q = chars_of(query);
    let ws = split_whitespace_chars(&q);
    let ghost wv = words(q@);
    if ws.len() == 0 {
        let v: Vec<char> = vec!['"', '"'];
        assert(v@ == seq!['"', '"']);
        return string_of(&v);
    }
    let quote: Vec<char> = vec!['"'];
    let doubled: Vec<char> = vec!['"', '"'];
    let mut terms: Vec<Vec<char>> = Vec::new();
    let mut i: usize = 0;
    while i < ws.len()
        invariant
            i <= ws.len(),
            ws@.len() == wv.len(),
            wv == words(q@),
            quote@ == seq!['"'],
            doubled@ == seq!['"', '"'],
            forall|k: int| 0 <= k < ws@.len() ==> #[trigger] ws@[k]@ == wv[k],
            terms@.len() == i,
            forall|k: int| 0 <= k < i ==> #[trigger] terms@[k]@ == fts5_term(wv[k]),
        decreases ws.len() - i,
    {
        let mut t: Vec<char> = vec!['"'];
        let inner = replace_chars(&ws[i], &quote, &doubled);
        append_chars(&mut t, &inner);
        t.push('"');
        assert(t@ == fts5_term(wv[i as int]));
        terms.push(t);
        i = i + 1;
    }
    let sep: Vec<char> = vec![' '];
    let out = join_chars(&terms, &sep);
    assert(crate::text::views(terms@) == wv.map_values(|w: Seq<char>| fts5_term(w)));
    assert(sep@ == seq![' ']);
    string_of(&out)
}

// ---------------------------------------------------------------------------
// Embedding
// ---------------------------------------------------------------------------

/// Instruction prefix for retrieval queries.
pub const QUERY_INSTRUCTION: &'static str = "Instruct: Given a user query, retrieve relevant passages from the knowledge base\nQuery:";

/// A user query with the retrieval instruction in front of it.
pub fn format_query(user_query: &str) -> (r: String)
    ensures
        r@ == QUERY_INSTRUCTION@ + user_query@,
{
    let mut v = chars_of(QUERY_INSTRUCTION);
    append_str(&mut v, user_query);
    string_of(&v)
}

/// Test embedder that returns zero vectors of a fixed dimension.
#[derive(Debug, Clone, Copy)]
pub struct MockEmbedder {
    pub dim: usize,
}

impl MockEmbedder {
    pub fn new(dim: usize) -> (e: MockEmbedder)
        ensures
            e.dim == dim,
    {
        MockEmbedder { dim }
    }

    /// The length of every vector it returns.
    pub fn dimension(&self) -> (d: usize)
        ensures
            d == self.dim,
    {
        self.dim
    }
}

/// Test embedder that derives each vector from the characters of the text.
#[derive(Debug, Clone, Copy)]
pub struct DeterministicEmbedder {
    pub dim: usize,
}

impl DeterministicEmbedder {
    pub fn new(dim: usize) -> (e: DeterministicEmbedder)
        ensures
            e.dim == dim,
    {
        DeterministicEmbedder { dim }
    }

    /// The length of every vector it returns.
    pub fn dimension(&self) -> (d: usize)
        ensures
            d == self.dim,
    {
        self.dim
    }
}

// ---------------------------------------------------------------------------
// Content hashing
// ---------------------------------------------------------------------------

/// The SHA-256 digest of `data`.
pub uninterp spec fn sha256(data: Seq<u8>) -> Seq<u8>;

/// `Digest::digest` of sha2 for `Sha256`, as a vector. Claimed: it returns
/// [`sha256`] of `data`, a function of `data` alone, and it is 32 bytes long
/// (the output size of `Sha256`).
#[verifier::external_body]
fn sha256_digest(data: &[u8]) -> (r: Vec<u8>)
    ensures
        r@ == sha256(data@),
        r@.len() == 32,
{
    Sha256::digest(data).to_vec()
}

/// The lowercase hexadecimal digit for `d < 16`.
pub open spec fn hex_digit(d: int) -> char {
    if d < 10 {
        (48 + d) as char
    } else {
        (87 + d) as char
    }
}

/// Two lowercase hexadecimal digits per byte, as `{:x}` writes a digest.
pub open spec fn hex_lower(bytes: Seq<u8>) -> Seq<char>
    decreases bytes.len(),
{
    if bytes.len() == 0 {
        Seq::empty()
    } else {
        hex_lower(bytes.drop_last()).push(hex_digit((bytes.last() / 16) as int)).push(
            hex_digit((bytes.last() % 16) as int),
        )
    }
}

fn hex_char(d: u8) -> (c: char)
    requires
        d < 16,
    ensures
        c == hex_digit(d as int),
{
    if d < 10 {
        ((48 + d) as u8) as char
    } else {
        ((87 + d) as u8) as char
    }
}

/// Lowercase hexadecimal of `bytes` (see [`hex_lower`]).
pub fn hex_encode(bytes: &[u8]) -> (s: String)
    ensures
        s@ == hex_lower(bytes@),
        s@.len() == 2 * bytes@.len(),
{
    let mut v: Vec<char> = Vec::new();
    let mut i: usize = 0;
    while i < bytes.len()
        invariant
            i <= bytes@.len(),
            v@ == hex_lower(bytes@.take(i as int)),
            v@.len() == 2 * i,
        decreases bytes.len() - i,
    {
        let b = bytes[i];
        assert(bytes@.take(i + 1).drop_last() == bytes@.take(i as int));
        assert(bytes@.take(i + 1).last() == b);
        v.push(hex_char(b / 16));
        v.push(hex_char(b % 16));
        i = i + 1;
    }
    assert(bytes@.take(bytes@.len() as int) == bytes@);
    string_of(&v)
}

/// The SHA-256 of `content` in lowercase hexadecimal (64 characters).
pub fn hash_content(content: &[u8]) -> (h: String)
    ensures
        h@ == hex_lower(sha256(content@)),
        h@.len() == 64,
{
    let d = sha256_digest(content);
    hex_encode(d.as_slice())
}

// ---------------------------------------------------------------------------
// Folder sync
// ---------------------------------------------------------------------------

/// File extensions that folder sync indexes, compared in lowercase.
pub const SUPPORTED_EXTENSIONS: [&'static str; 30] = [
    "txt", "md", "rst", "json", "csv", "html", "xml", "toml", "yaml", "yml", "rs", "py", "js",
    "ts", "go", "java", "c", "cpp", "h", "hpp", "rb", "sh", "sql", "css", "scss", "lua", "zig",
    "swift", "kt", "r",
];

/// Files per embedding request during sync.
pub const BATCH_EMBED_SIZE: usize = 16;

/// Whether the lowercase form of `ext` is one of the supported extensions.
pub open spec fn supported_extension(ext: Seq<char>) -> bool {
    exists|i: int| 0 <= i < 30 && #[trigger] SUPPORTED_EXTENSIONS[i]@ == lowercase_str(ext)
}

/// Every extension in the list is indexed, wherever it stands in the list:
/// an extension whose lowercase form is any entry is supported, and so is
/// each entry that is its own lowercase form (all of them are lowercase
/// ASCII), `txt` first among them.
pub proof fn lemma_every_listed_extension_supported(ext: Seq<char>, i: int)
    ensures
        0 <= i < 30 && lowercase_str(ext) == SUPPORTED_EXTENSIONS[i]@ ==> supported_extension(ext),
        0 <= i < 30 && lowercase_str(SUPPORTED_EXTENSIONS[i]@) == SUPPORTED_EXTENSIONS[i]@
            ==> supported_extension(SUPPORTED_EXTENSIONS[i]@),
        SUPPORTED_EXTENSIONS[0]@ == "txt"@,
{
    reveal_strlit("txt");
}

/// Whether folder sync indexes files with extension `ext`.
pub fn is_supported_extension(ext: &str) -> (r: bool)
    ensures
        r == supported_extension(ext@),
{
    let lower = to_lowercase(ext);
    let mut i: usize = 0;
    while i < 30
        invariant
            i <= 30,
            lower@ == lowercase_str(ext@),
            forall|k: int| 0 <= k < i ==> #[trigger] SUPPORTED_EXTENSIONS[k]@ != lowercase_str(ext@),
        decreases 30 - i,
    {
        if str_eq(SUPPORTED_EXTENSIONS[i], lower.as_str()) {
            return true;
        }
        i = i + 1;
    }
    false
}


/// Progress events of a folder sync.
#[derive(Debug, Clone)]
pub enum SyncEvent {
    /// Scanning the folder for files.
    Scanning,
    /// Scan complete: files found on disk.
    ScanComplete { total_files: usize },
    /// The plan: files to add, update, delete, and left unchanged.
    DiffComputed { to_add: usize, to_update: usize, to_delete: usize, unchanged: usize },
    /// Starting to process a file (add or update).
    FileStart { path: String, index: usize, total: usize },
    /// Finished processing a file.
    FileDone { path: String, index: usize, total: usize, ok: bool },
    /// All processing complete.
    Done,
}

/// What a folder sync did.
#[derive(Debug, Clone, Copy)]
pub struct SyncReport {
    pub added: usize,
    pub updated: usize,
    pub deleted: usize,
    pub errors: usize,
}

impl Default for SyncReport {
    fn default() -> (r: SyncReport)
        ensures
            r.added == 0 && r.updated == 0 && r.deleted == 0 && r.errors == 0,
    {
        SyncReport { added: 0, updated: 0, deleted: 0, errors: 0 }
    }
}

/// `added: A, updated: U, deleted: D, errors: E`.
pub open spec fn report_text(r: SyncReport) -> Seq<char> {
    "added: "@ + decimal(r.added as nat) + ", updated: "@ + decimal(r.updated as nat)
        + ", deleted: "@ + decimal(r.deleted as nat) + ", errors: "@ + decimal(r.errors as nat)
}

impl SyncReport {
    /// One line describing the report (see [`report_text`]).
    pub fn summary(&self) -> (s: String)
        ensures
            s@ == report_text(*self),
    {
        let mut v = chars_of("added: ");
        push_decimal(&mut v, self.added as u64);
        append_str(&mut v, ", updated: ");
        push_decimal(&mut v, self.updated as u64);
        append_str(&mut v, ", deleted: ");
        push_decimal(&mut v, self.deleted as u64);
        append_str(&mut v, ", errors: ");
        push_decimal(&mut v, self.errors as u64);
        string_of(&v)
    }
}

/// A file on disk: (path, content hash).
pub type DiskEntry = (Seq<char>, Seq<char>);

/// A stored synced document: (document id, path, content hash).
pub type StoredEntry = (Seq<char>, Seq<char>, Seq<char>);

pub open spec fn disk_views(v: Seq<(String, String)>) -> Seq<DiskEntry> {
    v.map_values(|e: (String, String)| (e.0@, e.1@))
}

pub open spec fn stored_views(v: Seq<(String, String, String)>) -> Seq<StoredEntry> {
    v.map_values(|e: (String, String, String)| (e.0@, e.1@, e.2@))
}

/// The stored (id, hash) for `path`: the last stored entry with that path,
/// as a map filled in order keeps it.
pub open spec fn stored_lookup(db: Seq<StoredEntry>, path: Seq<char>) -> Option<(Seq<char>, Seq<char>)>
    decreases db.len(),
{
    if db.len() == 0 {
        None
    } else if db.last().1 == path {
        Some((db.last().0, db.last().2))
    } else {
        stored_lookup(db.drop_last(), path)
    }
}

/// Files on disk with no stored document: (path, hash).
pub open spec fn plan_add(disk: Seq<DiskEntry>, db: Seq<StoredEntry>) -> Seq<DiskEntry>
    decreases disk.len(),
{
    if disk.len() == 0 {
        Seq::empty()
    } else {
        let rest = plan_add(disk.drop_last(), db);
        if stored_lookup(db, disk.last().0) is None {
            rest.push(disk.last())
        } else {
            rest
        }
    }
}

/// Files whose stored hash differs: (document id, path, new hash).
pub open spec fn plan_update(disk: Seq<DiskEntry>, db: Seq<StoredEntry>) -> Seq<StoredEntry>
    decreases disk.len(),
{
    if disk.len() == 0 {
        Seq::empty()
    } else {
        let rest = plan_update(disk.drop_last(), db);
        let (p, h) = disk.last();
        match stored_lookup(db, p) {
            Some((id, old)) => if old != h {
                rest.push((id, p, h))
            } else {
                rest
            },
            None => rest,
        }
    }
}

pub open spec fn on_disk(disk: Seq<DiskEntry>, path: Seq<char>) -> bool {
    exists|i: int| 0 <= i < disk.len() && #[trigger] disk[i].0 == path
}

pub open spec fn stored_has_path(db: Seq<StoredEntry>, path: Seq<char>) -> bool {
    exists|i: int| 0 <= i < db.len() && #[trigger] db[i].1 == path
}

/// Stored documents whose file is gone: (document id, path), one per path
/// (the last stored entry for it).
pub open spec fn plan_delete(db: Seq<StoredEntry>, disk: Seq<DiskEntry>) -> Seq<(Seq<char>, Seq<char>)>
    decreases db.len(),
{
    if db.len() == 0 {
        Seq::empty()
    } else {
        let first = db[0];
        let rest = db.drop_first();
        let here: Seq<(Seq<char>, Seq<char>)> = if !on_disk(disk, first.1) && !stored_has_path(rest, first.1) {
            seq![(first.0, first.1)]
        } else {
            Seq::empty()
        };
        here + plan_delete(rest, disk)
    }
}

proof fn lemma_plan_sizes(disk: Seq<DiskEntry>, db: Seq<StoredEntry>)
    ensures
        plan_add(disk, db).len() + plan_update(disk, db).len() <= disk.len(),
    decreases disk.len(),
{
    if disk.len() > 0 {
        lemma_plan_sizes(disk.drop_last(), db);
    }
}

/// The store is in step with the disk: every file is stored with its
/// current hash, and every stored path is a file on disk.
pub open spec fn in_step(disk: Seq<DiskEntry>, db: Seq<StoredEntry>) -> bool {
    &&& forall|i: int|
        0 <= i < disk.len() ==> (#[trigger] stored_lookup(db, disk[i].0) matches Some(e) && e.1 == disk[i].1)
    &&& forall|j: int| 0 <= j < db.len() ==> on_disk(disk, #[trigger] db[j].1)
}

proof fn lemma_in_step_nothing_to_add_or_update(disk: Seq<DiskEntry>, db: Seq<StoredEntry>)
    requires
        forall|i: int|
            0 <= i < disk.len() ==> (#[trigger] stored_lookup(db, disk[i].0) matches Some(e) && e.1 == disk[i].1),
    ensures
        plan_add(disk, db).len() == 0,
        plan_update(disk, db).len() == 0,
    decreases disk.len(),
{
    if disk.len() > 0 {
        let d = disk.drop_last();
        assert forall|i: int| 0 <= i < d.len() implies (#[trigger] stored_lookup(db, d[i].0) matches Some(e) && e.1 == d[i].1) by {
            assert(d[i] == disk[i]);
        }
        lemma_in_step_nothing_to_add_or_update(d, db);
        assert(stored_lookup(db, disk[disk.len() - 1].0) is Some);
    }
}

proof fn lemma_in_step_nothing_to_delete(db: Seq<StoredEntry>, disk: Seq<DiskEntry>)
    requires
        forall|j: int| 0 <= j < db.len() ==> on_disk(disk, #[trigger] db[j].1),
    ensures
        plan_delete(db, disk).len() == 0,
    decreases db.len(),
{
    if db.len() > 0 {
        let rest = db.drop_first();
        assert forall|j: int| 0 <= j < rest.len() implies on_disk(disk, #[trigger] rest[j].1) by {
            assert(rest[j] == db[j + 1]);
        }
        lemma_in_step_nothing_to_delete(rest, disk);
        assert(on_disk(disk, db[0].1));
    }
}

/// A sync of a folder whose store is in step with the disk changes
/// nothing: no file is added, updated or deleted.
pub proof fn lemma_in_step_sync_is_empty(disk: Seq<DiskEntry>, db: Seq<StoredEntry>)
    requires
        in_step(disk, db),
    ensures
        plan_add(disk, db).len() == 0,
        plan_update(disk, db).len() == 0,
        plan_delete(db, disk).len() == 0,
{
    lemma_in_step_nothing_to_add_or_update(disk, db);
    lemma_in_step_nothing_to_delete(db, disk);
}

/// The changes that bring the store in line with the disk.
#[derive(Debug, Clone)]
pub struct SyncPlan {
    /// New files: (path, hash).
    pub to_add: Vec<(String, String)>,
    /// Modified files: (document id, path, new hash).
    pub to_update: Vec<(String, String, String)>,
    /// Removed files: (document id, path).
    pub to_delete: Vec<(String, String)>,
    /// Files whose stored hash matches.
    pub unchanged: usize,
}

/// The stored index for `path` (see [`stored_lookup`]).
fn find_stored(db: &Vec<(String, String, String)>, path: &String) -> (r: Option<usize>)
    ensures
        match stored_lookup(stored_views(db@), path@) {
            Some((id, h)) => r matches Some(i) && i < db@.len() && db@[i as int].0@ == id && db@[i as int].2@ == h,
            None => r is None,
        },
{
    let ghost sv = stored_views(db@);
    let mut j: usize = db.len();
    assert(sv.take(j as int) == sv);
    while j > 0
        invariant
            j <= db@.len(),
            sv == stored_views(db@),
            stored_lookup(sv, path@) == stored_lookup(sv.take(j as int), path@),
        decreases j,
    {
        assert(sv.take(j as int).last() == (db@[j - 1].0@, db@[j - 1].1@, db@[j - 1].2@));
        assert(sv.take(j as int).drop_last() == sv.take(j - 1));
        if db[j - 1].1 == *path {
            return Some(j - 1);
        }
        j = j - 1;
    }
    None
}

/// Whether some file on disk has `path`.
fn disk_has(disk: &Vec<(String, String)>, path: &String) -> (r: bool)
    ensures
        r == on_disk(disk_views(disk@), path@),
{
    let ghost dv = disk_views(disk@);
    let mut i: usize = 0;
    while i < disk.len()
        invariant
            i <= disk@.len(),
            dv == disk_views(disk@),
            forall|k: int| 0 <= k < i ==> #[trigger] dv[k].0 != path@,
        decreases disk.len() - i,
    {
        assert(dv[i as int].0 == disk@[i as int].0@);
        if disk[i].0 == *path {
            return true;
        }
        i = i + 1;
    }
    false
}

/// Whether a stored entry after index `from` has `path`.
fn stored_after(db: &Vec<(String, String, String)>, from: usize, path: &String) -> (r: bool)
    requires
        from <= db@.len(),
    ensures
        r == stored_has_path(stored_views(db@).skip(from as int), path@),
{
    let ghost rest = stored_views(db@).skip(from as int);
    let mut i: usize = from;
    while i < db.len()
        invariant
            from <= i <= db@.len(),
            rest == stored_views(db@).skip(from as int),
            forall|k: int| 0 <= k < i - from ==> #[trigger] rest[k].1 != path@,
        decreases db.len() - i,
    {
        assert(rest[i - from].1 == db@[i as int].1@);
        if db[i].1 == *path {
            return true;
        }
        i = i + 1;
    }
    false
}

/// Compares the files on disk, (path, hash), with the stored synced
/// documents, (id, path, hash): files without a document are added, files
/// whose hash changed are updated, documents whose file is gone are deleted.
pub fn plan_sync(disk: &Vec<(String, String)>, db: &Vec<(String, String, String)>) -> (p: SyncPlan)
    ensures
        disk_views(p.to_add@) == plan_add(disk_views(disk@), stored_views(db@)),
        stored_views(p.to_update@) == plan_update(disk_views(disk@), stored_views(db@)),
        disk_views(p.to_delete@) == plan_delete(stored_views(db@), disk_views(disk@)),
        p.to_add@.len() + p.to_update@.len() + p.unchanged == disk@.len(),
{
    let ghost dv = disk_views(disk@);
    let ghost sv = stored_views(db@);
    let mut to_add: Vec<(String, String)> = Vec::new();
    let mut to_update: Vec<(String, String, String)> = Vec::new();
    let mut i: usize = 0;
    assert(dv.take(0).len() == 0);
    while i < disk.len()
        invariant
            i <= disk@.len(),
            dv == disk_views(disk@),
            sv == stored_views(db@),
            disk_views(to_add@) == plan_add(dv.take(i as int), sv),
            stored_views(to_update@) == plan_update(dv.take(i as int), sv),
        decreases disk.len() - i,
    {
        assert(dv.take(i + 1).drop_last() == dv.take(i as int));
        assert(dv.take(i + 1).last() == (disk@[i as int].0@, disk@[i as int].1@));
        let (path, hash) = (&disk[i].0, &disk[i].1);
        match find_stored(db, path) {
            Some(j) => {
                if db[j].2 != *hash {
                    let ghost before = stored_views(to_update@);
                    to_update.push((db[j].0.clone(), path.clone(), hash.clone()));
                    assert(stored_views(to_update@) == before.push((db@[j as int].0@, path@, hash@)));
                }
            },
            None => {
                let ghost before = disk_views(to_add@);
                to_add.push((path.clone(), hash.clone()));
                assert(disk_views(to_add@) == before.push((path@, hash@)));
            },
        }
        i = i + 1;
    }
    assert(dv.take(disk@.len() as int) == dv);
    let mut to_delete: Vec<(String, String)> = Vec::new();
    let mut k: usize = 0;
    assert(sv.skip(0) == sv);
    while k < db.len()
        invariant
            k <= db@.len(),
            dv == disk_views(disk@),
            sv == stored_views(db@),
            plan_delete(sv, dv) == disk_views(to_delete@) + plan_delete(sv.skip(k as int), dv),
        decreases db.len() - k,
    {
        let e = &db[k];
        let ghost tail = sv.skip(k as int);
        assert(tail[0] == (e.0@, e.1@, e.2@));
        assert(tail.drop_first() == sv.skip(k + 1));
        let gone = !disk_has(disk, &e.1) && !stored_after(db, k + 1, &e.1);
        let ghost before = disk_views(to_delete@);
        if gone {
            to_delete.push((e.0.clone(), e.1.clone()));
            assert(disk_views(to_delete@) == before + seq![(e.0@, e.1@)]);
        } else {
            assert(before == before + Seq::<(Seq<char>, Seq<char>)>::empty());
        }
        k = k + 1;
    }
    assert(sv.skip(k as int).len() == 0);
    proof {
        lemma_plan_sizes(dv, sv);
    }
    let unchanged = disk.len() - to_add.len() - to_update.len();
    SyncPlan { to_add, to_update, to_delete, unchanged }
}

} // verus!

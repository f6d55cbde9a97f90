//! The embedded database handle: lifecycle of a relational store backed by a
//! private temporary file, with scoped connection access and a verified
//! schema-version gate for migrations.
//!
//! The version counter stored inside the database file (`PRAGMA
//! user_version`) is modelled by the ghost field `version`.  Trusted wrappers
//! tie the ghost counter to the real one: operations that run caller-supplied
//! SQL take `&mut self` and promise nothing about the counter afterwards,
//! so verified code can never assume it survived such a call.

use vstd::prelude::*;
use vstd::string::StrSliceExecFns;
use std::io::{Read, Seek, SeekFrom, Write};
use crate::strutil::string_push;
use crate::doc::TmdDoc;
use crate::{TmdError, TmdResult};

verus! {

/// Options applied to a freshly initialised database.
#[derive(Clone, Debug)]
pub struct DbOptions {
    pub page_size: Option<u32>,
    pub journal_mode: Option<String>,
    pub synchronous: Option<String>,
}

impl Default for DbOptions {
    /// No options: leave every pragma at its default.
    fn default() -> (r: Self)
        ensures
            r.page_size is None,
            r.journal_mode is None,
            r.synchronous is None,
    {
        DbOptions { page_size: None, journal_mode: None, synchronous: None }
    }
}

/// The backing temporary file, held opaquely: the tempfile crate's named
/// temporary file owns the file's path and removes the file when dropped.
#[verifier::external_body]
struct BackingFile {
    inner: tempfile::NamedTempFile,
}

/// The rusqlite connection type, handed to caller-supplied closures.
#[verifier::external_type_specification]
#[verifier::external_body]
pub struct ExConnection(rusqlite::Connection);

/// Owns the temporary file backing one document's embedded database.  The
/// file's path is never exposed to callers.
pub struct DbHandle {
    file: BackingFile,
    ver: Ghost<u32>,
}

impl DbHandle {
    /// Ghost model of the `user_version` counter stored inside the backing
    /// file.
    pub closed spec fn version(&self) -> u32 {
        self.ver@
    }

    /// Relies on `tempfile::NamedTempFile::new` and
    /// `rusqlite::Connection::open`: creates a fresh empty database file with
    /// its version counter at zero.
    #[verifier::external_body]
    fn make_empty_file() -> (r: Result<BackingFile, String>)
    {
        let file = tempfile::NamedTempFile::new().map_err(|e| e.to_string())?;
        let conn = rusqlite::Connection::open(file.path()).map_err(|e| e.to_string())?;
        conn.execute_batch("PRAGMA user_version = 0;").map_err(|e| e.to_string())?;
        conn.close().map_err(|(_, e)| e.to_string())?;
        Ok(BackingFile { inner: file })
    }

    /// Relies on `tempfile::NamedTempFile::new`, `std` file writes and
    /// `PRAGMA user_version`: materialises the backing file from the given
    /// bytes and reads back the version counter those bytes carry.
    #[verifier::external_body]
    fn make_file_from_bytes(bytes: &[u8]) -> (r: Result<(BackingFile, u32), String>)
    {
        let file = tempfile::NamedTempFile::new().map_err(|e| e.to_string())?;
        file.as_file().write_all(bytes).map_err(|e| e.to_string())?;
        file.as_file().sync_all().map_err(|e| e.to_string())?;
        let conn = rusqlite::Connection::open(file.path()).map_err(|e| e.to_string())?;
        let v = conn
            .query_row("PRAGMA user_version", [], |row| row.get::<_, u32>(0))
            .map_err(|e| e.to_string())?;
        conn.close().map_err(|(_, e)| e.to_string())?;
        Ok((BackingFile { inner: file }, v))
    }

    /// Relies on `tempfile::NamedTempFile::new` and `rusqlite`: creates a
    /// fresh database file, applies the schema, and sets the version counter.
    #[verifier::external_body]
    fn make_file_with_schema(schema_sql: &str, version: u32) -> (r: Result<BackingFile, String>)
    {
        let file = tempfile::NamedTempFile::new().map_err(|e| e.to_string())?;
        let mut conn = rusqlite::Connection::open(file.path()).map_err(|e| e.to_string())?;
        let tx = conn.transaction().map_err(|e| e.to_string())?;
        tx.execute_batch(schema_sql).map_err(|e| e.to_string())?;
        tx.pragma_update(None, "user_version", version).map_err(|e| e.to_string())?;
        tx.commit().map_err(|e| e.to_string())?;
        conn.close().map_err(|(_, e)| e.to_string())?;
        Ok(BackingFile { inner: file })
    }

    /// Relies on `rusqlite::Connection::open` and `PRAGMA user_version`:
    /// reads the version counter stored in the backing file, which the ghost
    /// field models.
    #[verifier::external_body]
    fn read_user_version(&self) -> (r: Result<u32, String>)
        ensures
            r matches Ok(v) ==> v == self.version(),
    {
        let conn = rusqlite::Connection::open(self.file.inner.path()).map_err(|e| e.to_string())?;
        let v = conn
            .query_row("PRAGMA user_version", [], |row| row.get::<_, u32>(0))
            .map_err(|e| e.to_string())?;
        conn.close().map_err(|(_, e)| e.to_string())?;
        Ok(v)
    }

    /// Relies on `rusqlite` transactions: applies the SQL batch and sets the
    /// version counter to `to` in one transaction, so that on failure the
    /// counter (with everything else) rolls back unchanged.  A batch that
    /// ends the transaction itself (an embedded COMMIT or ROLLBACK) is
    /// detected through `is_autocommit` and refused, with the counter written
    /// back to its prior value; only a failure of that write-back itself
    /// could leave the counter moved on an error.
    #[verifier::external_body]
    fn apply_step(&mut self, sql: &str, to: u32) -> (r: Result<(), String>)
        ensures
            r is Ok ==> final(self).version() == to,
            r is Err ==> final(self).version() == old(self).version(),
    {
        let m = |e: rusqlite::Error| e.to_string();
        let mut conn = rusqlite::Connection::open(self.file.inner.path()).map_err(m)?;
        let cur: u32 = conn.query_row("PRAGMA user_version", [], |row| row.get(0)).map_err(m)?;
        let tx = conn.transaction().map_err(m)?;
        let stepped = tx.execute_batch(sql).map_err(m);
        if stepped.is_ok() && !tx.is_autocommit() {
            tx.pragma_update(None, "user_version", to).map_err(m)?;
            return tx.commit().map_err(m);
        }
        drop(tx);
        conn.pragma_update(None, "user_version", cur).map_err(m)?;
        Err(stepped.err().unwrap_or_else(|| "migration step ended its own transaction".to_string()))
    }

    /// Relies on `rusqlite::Connection::open`: opens and closes a connection,
    /// verifying that the backing file is usable.
    #[verifier::external_body]
    fn check_connection(&self) -> (r: Result<(), String>)
    {
        let conn = rusqlite::Connection::open(self.file.inner.path()).map_err(|e| e.to_string())?;
        conn.close().map_err(|(_, e)| e.to_string())?;
        Ok(())
    }

    /// Relies on `rusqlite::Connection::pragma_update`: applies the given
    /// options to the backing database.  None of them touches the version
    /// counter.
    #[verifier::external_body]
    fn apply_db_options(&self, opts: &DbOptions) -> (r: Result<(), String>)
    {
        let conn = rusqlite::Connection::open(self.file.inner.path()).map_err(|e| e.to_string())?;
        if let Some(page_size) = opts.page_size {
            conn.pragma_update(None, "page_size", page_size).map_err(|e| e.to_string())?;
        }
        if let Some(mode) = &opts.journal_mode {
            conn.pragma_update(None, "journal_mode", mode.as_str()).map_err(|e| e.to_string())?;
        }
        if let Some(sync) = &opts.synchronous {
            conn.pragma_update(None, "synchronous", sync.as_str()).map_err(|e| e.to_string())?;
        }
        conn.close().map_err(|(_, e)| e.to_string())?;
        Ok(())
    }

    /// Relies on `rusqlite::Connection::open_with_flags`: opens a private
    /// read-only connection, hands it to the caller, and unconditionally
    /// closes it before returning.  Because the connection is opened
    /// read-only, the closure cannot change the database (in particular the
    /// modelled version counter survives this `&self` call); nothing is
    /// promised of the closure's result.
    #[verifier::external_body]
    fn scoped_conn<T, F: FnOnce(&rusqlite::Connection) -> T>(&self, f: F)
        -> (r: Result<T, String>)
    {
        let flags = rusqlite::OpenFlags::SQLITE_OPEN_READ_ONLY
            | rusqlite::OpenFlags::SQLITE_OPEN_NO_MUTEX | rusqlite::OpenFlags::SQLITE_OPEN_URI;
        let conn = rusqlite::Connection::open_with_flags(self.file.inner.path(), flags)
            .map_err(|e| e.to_string())?;
        let result = f(&conn);
        conn.close().map_err(|(_, e)| e.to_string())?;
        Ok(result)
    }

    /// Relies on `rusqlite::Connection::open`: as `scoped_conn`, with a
    /// mutable connection.  Caller-chosen statements may move the version
    /// counter, so nothing is promised of it afterwards.
    #[verifier::external_body]
    fn scoped_conn_mut<T, F: FnOnce(&mut rusqlite::Connection) -> T>(&mut self, f: F)
        -> (r: Result<T, String>)
    {
        let mut conn = rusqlite::Connection::open(self.file.inner.path()).map_err(|e| e.to_string())?;
        let result = f(&mut conn);
        conn.close().map_err(|(_, e)| e.to_string())?;
        Ok(result)
    }

    /// Relies on `std` file reads: the raw bytes of the backing file.
    #[verifier::external_body]
    fn read_backing_bytes(&self) -> (r: Result<Vec<u8>, String>)
    {
        let mut f = self.file.inner.reopen().map_err(|e| e.to_string())?;
        let mut buf = Vec::new();
        f.read_to_end(&mut buf).map_err(|e| e.to_string())?;
        Ok(buf)
    }

    /// Relies on `std` file writes: replaces the backing file's content with
    /// the given bytes.  The version counter afterwards comes from those
    /// bytes, so nothing is promised of it.
    #[verifier::external_body]
    fn write_backing_bytes(&mut self, bytes: &[u8]) -> (r: Result<(), String>)
    {
        let f = self.file.inner.as_file();
        f.set_len(0).map_err(|e| e.to_string())?;
        let mut f = self.file.inner.reopen().map_err(|e| e.to_string())?;
        f.seek(SeekFrom::Start(0)).map_err(|e| e.to_string())?;
        f.write_all(bytes).map_err(|e| e.to_string())?;
        f.sync_all().map_err(|e| e.to_string())?;
        Ok(())
    }

    /// Materialise a fresh empty database with its version counter at zero.
    pub fn new_empty() -> (r: TmdResult<DbHandle>)
        ensures
            r matches Ok(h) ==> h.version() == 0,
            r matches Err(e) ==> e is Db,
    {
        match Self::make_empty_file() {
            Ok(file) => Ok(DbHandle { file, ver: Ghost(0u32) }),
            Err(m) => Err(TmdError::Db(m)),
        }
    }

    /// Materialise the database from an existing byte buffer.  The caller is
    /// responsible for the buffer being a well-formed database file; the
    /// codec validates a magic header before calling this.
    pub fn from_bytes(bytes: &[u8]) -> (r: TmdResult<DbHandle>)
        ensures
            r matches Err(e) ==> e is Db,
    {
        match Self::make_file_from_bytes(bytes) {
            Ok((file, v)) => Ok(DbHandle { file, ver: Ghost(v) }),
            Err(m) => Err(TmdError::Db(m)),
        }
    }

    /// Validate the backing file and apply the given options, if any.  The
    /// version counter is untouched.
    pub fn ensure_initialized(&mut self, opts: Option<DbOptions>) -> (r: TmdResult<()>)
        ensures
            final(self).version() == old(self).version(),
            r matches Err(e) ==> e is Db,
    {
        let outcome = match opts {
            Some(o) => self.apply_db_options(&o),
            None => self.check_connection(),
        };
        match outcome {
            Ok(()) => Ok(()),
            Err(m) => Err(TmdError::Db(m)),
        }
    }

    /// Execute a read-only closure with a private connection; the connection
    /// is opened read-only (so it cannot change the database) and closed
    /// before returning.
    pub fn with_conn<T, F: FnOnce(&rusqlite::Connection) -> T>(&self, f: F) -> (r: TmdResult<T>)
    {
        match self.scoped_conn(f) {
            Ok(t) => Ok(t),
            Err(m) => Err(TmdError::Db(m)),
        }
    }

    /// Execute a mutable closure with a private connection; the connection is
    /// closed before returning.  The closure may move the version counter.
    pub fn with_conn_mut<T, F: FnOnce(&mut rusqlite::Connection) -> T>(&mut self, f: F)
        -> (r: TmdResult<T>)
    {
        match self.scoped_conn_mut(f) {
            Ok(t) => Ok(t),
            Err(m) => Err(TmdError::Db(m)),
        }
    }

    /// The raw bytes of the backing database file.
    pub fn export_bytes(&self) -> (r: TmdResult<Vec<u8>>)
        ensures
            r matches Err(e) ==> e is Db,
    {
        match self.read_backing_bytes() {
            Ok(b) => Ok(b),
            Err(m) => Err(TmdError::Db(m)),
        }
    }

    /// Replace the backing database file's content with the given bytes.
    pub fn import_bytes(&mut self, bytes: &[u8]) -> (r: TmdResult<()>)
        ensures
            r matches Err(e) ==> e is Db,
    {
        match self.write_backing_bytes(bytes) {
            Ok(()) => Ok(()),
            Err(m) => Err(TmdError::Db(m)),
        }
    }
}

/// Execute a read-only closure against the document's embedded database.
pub fn with_conn<T, F: FnOnce(&rusqlite::Connection) -> T>(doc: &TmdDoc, f: F) -> (r: TmdResult<
    T,
>) {
    doc.db.with_conn(f)
}

/// Execute a mutable closure against the document's embedded database.
pub fn with_conn_mut<T, F: FnOnce(&mut rusqlite::Connection) -> T>(doc: &mut TmdDoc, f: F)
    -> (r: TmdResult<T>) {
    doc.db.with_conn_mut(f)
}

/// Export the embedded database as raw bytes.
pub fn export_db(doc: &TmdDoc) -> (r: TmdResult<Vec<u8>>)
    ensures
        r matches Err(e) ==> e is Db,
{
    doc.db.export_bytes()
}

/// Replace the embedded database with the given raw bytes.
pub fn import_db(doc: &mut TmdDoc, bytes: &[u8]) -> (r: TmdResult<()>)
    ensures
        r matches Err(e) ==> e is Db,
        final(doc).markdown == old(doc).markdown,
        final(doc).manifest == old(doc).manifest,
        final(doc).attachments == old(doc).attachments,
{
    doc.db.import_bytes(bytes)
}

/// Destructive reset: replace the embedded database with a fresh one built
/// from `schema_sql`, with its version counter at `version`.  If the schema
/// is invalid the previous database is left untouched.
pub fn reset_db(doc: &mut TmdDoc, schema_sql: &str, version: u32) -> (r: TmdResult<()>)
    ensures
        r is Ok ==> final(doc).db.version() == version,
        r is Err ==> final(doc).db.version() == old(doc).db.version(),
        r matches Err(e) ==> e is Db,
        final(doc).markdown == old(doc).markdown,
        final(doc).manifest == old(doc).manifest,
        final(doc).attachments == old(doc).attachments,
{
    match DbHandle::make_file_with_schema(schema_sql, version) {
        Ok(file) => {
            doc.db = DbHandle { file, ver: Ghost(version) };
            Ok(())
        },
        Err(m) => Err(TmdError::Db(m)),
    }
}

/// Gated migration: fails with a version-mismatch error unless the stored
/// version counter is exactly `from`; otherwise applies `up_sql` and advances
/// the counter to `to`.  On any failure the counter is left unchanged.
pub fn migrate(doc: &mut TmdDoc, up_sql: &str, from: u32, to: u32) -> (r: TmdResult<()>)
    ensures
        r is Ok ==> old(doc).db.version() == from && final(doc).db.version() == to,
        r is Err ==> final(doc).db.version() == old(doc).db.version(),
        old(doc).db.version() != from ==> r is Err,
        r matches Err(e) ==> e is Db,
        final(doc).markdown == old(doc).markdown,
        final(doc).manifest == old(doc).manifest,
        final(doc).attachments == old(doc).attachments,
{
    let current: u32 = match doc.db.read_user_version() {
        Ok(v) => v,
        Err(m) => {
            return Err(TmdError::Db(m));
        },
    };
    if current != from {
        return Err(TmdError::Db(String::from_str(
            "migration version mismatch: stored user_version differs from `from`",
        )));
    }
    match doc.db.apply_step(up_sql, to) {
        Ok(()) => Ok(()),
        Err(m) => Err(TmdError::Db(m)),
    }
}

// ---------------------------------------------------------------------------
// SQL statement classification
// ---------------------------------------------------------------------------

/// Whether a character is ASCII whitespace.
pub open spec fn is_sql_ws(c: char) -> bool {
    c == ' ' || c == '\t' || c == '\n' || c == '\r' || c == '\u{c}'
}

/// Whether a character is an ASCII letter.
pub open spec fn is_sql_alpha(c: char) -> bool {
    (65 <= c as u32 && c as u32 <= 90) || (97 <= c as u32 && c as u32 <= 122)
}

/// An ASCII letter folded to lower case.
pub open spec fn sql_lower(c: char) -> char {
    if 65 <= c as u32 && c as u32 <= 90 {
        ((c as u32) + 32) as char
    } else {
        c
    }
}

/// First index at or after `i` that does not hold whitespace.
pub open spec fn sql_skip_ws(s: Seq<char>, i: int) -> int
    decreases s.len() - i,
{
    if i < 0 || i >= s.len() || !is_sql_ws(s[i]) {
        i
    } else {
        sql_skip_ws(s, i + 1)
    }
}

/// First index at or after `i` that holds whitespace (or the end).
pub open spec fn sql_word_end(s: Seq<char>, i: int) -> int
    decreases s.len() - i,
{
    if i < 0 || i >= s.len() || is_sql_ws(s[i]) {
        i
    } else {
        sql_word_end(s, i + 1)
    }
}

/// First index in `[i, e)` that holds a letter (or `e`).
pub open spec fn sql_alpha_start(s: Seq<char>, i: int, e: int) -> int
    decreases e - i,
{
    if i < 0 || i >= e || is_sql_alpha(s[i]) {
        i
    } else {
        sql_alpha_start(s, i + 1, e)
    }
}

/// First index in `[i, e)` that does not hold a letter (or `e`).
pub open spec fn sql_alpha_end(s: Seq<char>, i: int, e: int) -> int
    decreases e - i,
{
    if i < 0 || i >= e || !is_sql_alpha(s[i]) {
        i
    } else {
        sql_alpha_end(s, i + 1, e)
    }
}

/// The lowercased alphabetic prefix of the first whitespace-separated word,
/// after any leading non-letter characters of that word; `None` when there
/// is no word or the word starts with no letter run.
pub open spec fn sql_keyword_spec(s: Seq<char>) -> Option<Seq<char>> {
    let a = sql_skip_ws(s, 0);
    if a >= s.len() {
        None
    } else {
        let e = sql_word_end(s, a);
        let c = sql_alpha_start(s, a, e);
        if c >= e {
            None
        } else {
            let d = sql_alpha_end(s, c, e);
            Some(s.subrange(c, d).map_values(|x: char| sql_lower(x)))
        }
    }
}

/// The leading keyword of an SQL text, lowercased: used to decide whether a
/// statement with a result set can still change the database.
pub fn leading_sql_keyword(sql: &str) -> (r: Option<String>)
    ensures
        r matches Some(t) ==> sql_keyword_spec(sql@) == Some(t@),
        r is None ==> sql_keyword_spec(sql@) is None,
{
    let n: usize = sql.unicode_len();
    let mut a: usize = 0;
    while a < n && is_ws_exec(sql.get_char(a))
        invariant
            n == sql@.len(),
            a <= n,
            sql_skip_ws(sql@, 0) == sql_skip_ws(sql@, a as int),
        decreases n - a,
    {
        a = a + 1;
    }
    proof {
        assert(sql_skip_ws(sql@, a as int) == a);
    }
    if a >= n {
        return None;
    }
    let mut e: usize = a;
    while e < n && !is_ws_exec(sql.get_char(e))
        invariant
            n == sql@.len(),
            a <= e <= n,
            sql_word_end(sql@, a as int) == sql_word_end(sql@, e as int),
        decreases n - e,
    {
        e = e + 1;
    }
    proof {
        assert(sql_word_end(sql@, e as int) == e);
    }
    let mut c: usize = a;
    while c < e && !is_alpha_exec(sql.get_char(c))
        invariant
            n == sql@.len(),
            a <= c <= e <= n,
            sql_alpha_start(sql@, a as int, e as int) == sql_alpha_start(sql@, c as int, e as int),
        decreases e - c,
    {
        c = c + 1;
    }
    proof {
        assert(sql_alpha_start(sql@, c as int, e as int) == c);
    }
    if c >= e {
        return None;
    }
    let mut d: usize = c;
    let mut out: String = String::new();
    while d < e && is_alpha_exec(sql.get_char(d))
        invariant
            n == sql@.len(),
            a <= c <= d <= e <= n,
            sql_alpha_end(sql@, c as int, e as int) == sql_alpha_end(sql@, d as int, e as int),
            out@ == sql@.subrange(c as int, d as int).map_values(|x: char| sql_lower(x)),
        decreases e - d,
    {
        let ch: char = sql.get_char(d);
        string_push(&mut out, lower_exec(ch));
        proof {
            assert(out@ =~= sql@.subrange(c as int, d + 1).map_values(|x: char| sql_lower(x)))
                by {
                let w0 = sql@.subrange(c as int, d as int).map_values(|x: char| sql_lower(x));
                let w1 = sql@.subrange(c as int, d + 1).map_values(|x: char| sql_lower(x));
                assert forall|j: int| 0 <= j < w1.len() implies #[trigger] w1[j] == w0.push(
                    sql_lower(sql@[d as int]))[j] by {
                    assert(sql@.subrange(c as int, d + 1)[j] == sql@[c + j]);
                    if j < w0.len() {
                        assert(sql@.subrange(c as int, d as int)[j] == sql@[c + j]);
                    }
                }
                assert(w1 =~= w0.push(sql_lower(sql@[d as int])));
            }
        }
        d = d + 1;
    }
    proof {
        assert(sql_alpha_end(sql@, d as int, e as int) == d);
    }
    Some(out)
}

/// Executable whitespace test.
fn is_ws_exec(c: char) -> (r: bool)
    ensures
        r == is_sql_ws(c),
{
    c == ' ' || c == '\t' || c == '\n' || c == '\r' || c == '\u{c}'
}

/// Executable letter test.
fn is_alpha_exec(c: char) -> (r: bool)
    ensures
        r == is_sql_alpha(c),
{
    let v: u32 = c as u32;
    (65 <= v && v <= 90) || (97 <= v && v <= 122)
}

/// Executable lower-casing of an ASCII letter.
fn lower_exec(c: char) -> (r: char)
    ensures
        r == sql_lower(c),
{
    let v: u32 = c as u32;
    if 65 <= v && v <= 90 {
        ((v + 32) as u8) as char
    } else {
        c
    }
}

} // verus!

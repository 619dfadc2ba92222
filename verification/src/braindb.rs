//! The embedded store behind sessions: chat history rows, per-chat summary,
//! and the stable per-chat session id, kept in SQLite through `rusqlite`.
//!
//! The store's contents are modelled by three uninterpreted maps over the
//! connection value; every trusted wrapper states how its single SQL
//! statement moves them.  Nothing is assumed about a freshly opened
//! database: what a reopen finds on disk is outside the model.

use vstd::prelude::*;

use crate::stored::{spec_stored_view, StoredMessage};

verus! {

/// Database error text.
#[derive(Clone, Debug)]
pub struct DbError(pub String);

#[verifier::external_type_specification]
#[verifier::external_body]
pub struct ExConnection(rusqlite::Connection);

/// The history rows of each chat, in insertion order.
pub uninterp spec fn db_history(c: rusqlite::Connection) -> Map<
    Seq<char>,
    Seq<(Seq<char>, Seq<char>, Option<Seq<char>>, Option<Seq<char>>)>,
>;

/// The stored summary of each chat.
pub uninterp spec fn db_summaries(c: rusqlite::Connection) -> Map<Seq<char>, Seq<char>>;

/// The stable session id of each chat.
pub uninterp spec fn db_session_ids(c: rusqlite::Connection) -> Map<Seq<char>, Seq<char>>;

/// The history rows as of the open transaction's start.
pub uninterp spec fn db_snap_history(c: rusqlite::Connection) -> Map<
    Seq<char>,
    Seq<(Seq<char>, Seq<char>, Option<Seq<char>>, Option<Seq<char>>)>,
>;

/// The summaries as of the open transaction's start.
pub uninterp spec fn db_snap_summaries(c: rusqlite::Connection) -> Map<Seq<char>, Seq<char>>;

/// The session ids as of the open transaction's start.
pub uninterp spec fn db_snap_session_ids(c: rusqlite::Connection) -> Map<Seq<char>, Seq<char>>;

/// Whether a transaction is open on the connection.  The snapshot maps
/// mean something only while this holds; `begin` sets it, `commit` and
/// `rollback` clear it, and a failed statement inside a transaction may
/// clear it too (SQLite's automatic rollback).
pub uninterp spec fn db_in_txn(c: rusqlite::Connection) -> bool;

/// Chat history, summaries and session ids in one SQLite database.
pub struct BrainDb {
    pub conn: rusqlite::Connection,
}

impl BrainDb {
    /// The modelled history table.
    pub open spec fn spec_history(&self) -> Map<
        Seq<char>,
        Seq<(Seq<char>, Seq<char>, Option<Seq<char>>, Option<Seq<char>>)>,
    > {
        db_history(self.conn)
    }

    /// The modelled summary table.
    pub open spec fn spec_summaries(&self) -> Map<Seq<char>, Seq<char>> {
        db_summaries(self.conn)
    }

    /// The modelled session-id table.
    pub open spec fn spec_session_ids(&self) -> Map<Seq<char>, Seq<char>> {
        db_session_ids(self.conn)
    }

    /// Whether a transaction is open on the connection.
    pub open spec fn spec_in_txn(&self) -> bool {
        db_in_txn(self.conn)
    }

    /// The modelled tables as the open transaction found them.
    pub open spec fn spec_snap_state(&self) -> (
        Map<Seq<char>, Seq<(Seq<char>, Seq<char>, Option<Seq<char>>, Option<Seq<char>>)>>,
        Map<Seq<char>, Seq<char>>,
        Map<Seq<char>, Seq<char>>,
    ) {
        (db_snap_history(self.conn), db_snap_summaries(self.conn), db_snap_session_ids(self.conn))
    }

    /// The history rows stored for one chat.
    pub open spec fn spec_rows(&self, chat: Seq<char>) -> Seq<
        (Seq<char>, Seq<char>, Option<Seq<char>>, Option<Seq<char>>),
    > {
        if self.spec_history().dom().contains(chat) {
            self.spec_history()[chat]
        } else {
            Seq::empty()
        }
    }

    /// The summary stored for one chat; absent chats read as empty.
    pub open spec fn spec_summary(&self, chat: Seq<char>) -> Seq<char> {
        if self.spec_summaries().dom().contains(chat) {
            self.spec_summaries()[chat]
        } else {
            Seq::empty()
        }
    }

    /// The session id stored for one chat, if any.
    pub open spec fn spec_session_id(&self, chat: Seq<char>) -> Option<Seq<char>> {
        if self.spec_session_ids().dom().contains(chat) {
            Some(self.spec_session_ids()[chat])
        } else {
            None
        }
    }

    /// Everything this store models, bundled for frame conditions.
    pub open spec fn spec_state(&self) -> (
        Map<Seq<char>, Seq<(Seq<char>, Seq<char>, Option<Seq<char>>, Option<Seq<char>>)>>,
        Map<Seq<char>, Seq<char>>,
        Map<Seq<char>, Seq<char>>,
    ) {
        (self.spec_history(), self.spec_summaries(), self.spec_session_ids())
    }

    /// Relies on `rusqlite::Connection::open` and `Connection::execute_batch`
    /// to open (or create) the database file and install the schema.  The
    /// contents found there are whatever the disk holds, so nothing is
    /// promised about them.  A fresh connection is in autocommit mode, with
    /// no transaction open.  The model reads this connection as the only
    /// handle on the file: nothing else writes the database while this
    /// value lives.
    #[verifier::external_body]
    pub fn open(path: &str) -> (r: Result<BrainDb, DbError>)
        ensures
            r matches Ok(d) ==> !db_in_txn(d.conn),
    {
        let conn = rusqlite::Connection::open(path).map_err(|e| DbError(e.to_string()))?;
        conn.execute_batch(
            "CREATE TABLE IF NOT EXISTS chat_history (id INTEGER PRIMARY KEY AUTOINCREMENT, chat_id TEXT NOT NULL, session_id TEXT, role TEXT NOT NULL, content TEXT NOT NULL, tool_call_id TEXT, tool_calls TEXT, timestamp DATETIME DEFAULT CURRENT_TIMESTAMP); CREATE INDEX IF NOT EXISTS idx_chat_history_chat_id ON chat_history(chat_id, id); CREATE TABLE IF NOT EXISTS chat_summary (chat_id TEXT PRIMARY KEY, summary TEXT NOT NULL DEFAULT ''); CREATE TABLE IF NOT EXISTS chat_session (chat_id TEXT PRIMARY KEY, session_id TEXT NOT NULL);",
        ).map_err(|e| DbError(e.to_string()))?;
        Ok(BrainDb { conn })
    }

    /// Relies on `rusqlite::Connection::execute` with an `INSERT` appending
    /// one row to `chat_history`; rows come back in insertion order.  A
    /// failed insert either changes nothing, or — for the error classes
    /// SQLite answers with an automatic rollback — closes the transaction
    /// and leaves the tables as it found them.
    #[verifier::external_body]
    pub fn insert_history(
        &mut self,
        chat_id: &str,
        session_id: &str,
        m: &StoredMessage,
    ) -> (r: Result<(), DbError>)
        ensures
            r is Ok ==> db_history(final(self).conn) == db_history(old(self).conn).insert(
                chat_id@,
                old(self).spec_rows(chat_id@).push(spec_stored_view(*m)),
            ) && final(self).spec_summaries() == old(self).spec_summaries() && final(self).spec_session_ids() == old(self).spec_session_ids() && db_in_txn(final(self).conn)
                == db_in_txn(old(self).conn) && (db_in_txn(old(self).conn) ==> final(self).spec_snap_state() == old(self).spec_snap_state()),
            r is Err ==> ({
                ||| (final(self).spec_state() == old(self).spec_state() && db_in_txn(
                    final(self).conn,
                ) == db_in_txn(old(self).conn) && (db_in_txn(old(self).conn) ==> final(self).spec_snap_state() == old(self).spec_snap_state()))
                ||| (db_in_txn(old(self).conn) && !db_in_txn(final(self).conn) && final(self).spec_state() == old(self).spec_snap_state())
            }),
    {
        self.conn.execute(
            "INSERT INTO chat_history (chat_id, session_id, role, content, tool_call_id, tool_calls) VALUES (?1, ?2, ?3, ?4, ?5, ?6)",
            (chat_id, session_id, &m.role, &m.content, &m.tool_call_id, &m.tool_calls),
        ).map(|_| ()).map_err(|e| DbError(e.to_string()))
    }

    /// Relies on `rusqlite::Statement::query_map` over a `SELECT` ordered by
    /// row id: returns the stored rows of the chat, oldest first.
    #[verifier::external_body]
    pub fn load_history(&self, chat_id: &str) -> (r: Result<Vec<StoredMessage>, DbError>)
        ensures
            r matches Ok(rows) ==> rows@.map_values(|m: StoredMessage| spec_stored_view(m))
                == self.spec_rows(chat_id@),
    {
        let mut stmt = self.conn.prepare(
            "SELECT role, content, tool_call_id, tool_calls FROM chat_history WHERE chat_id = ?1 ORDER BY id ASC",
        ).map_err(|e| DbError(e.to_string()))?;
        let rows = stmt.query_map((chat_id,), |row| {
            Ok(StoredMessage {
                role: row.get(0)?,
                content: row.get(1)?,
                tool_call_id: row.get(2)?,
                tool_calls: row.get(3)?,
            })
        }).map_err(|e| DbError(e.to_string()))?;
        rows.collect::<Result<Vec<_>, _>>().map_err(|e| DbError(e.to_string()))
    }

    /// Relies on `rusqlite::Connection::execute` with `INSERT OR REPLACE`
    /// upserting the chat's summary row.
    #[verifier::external_body]
    pub fn set_summary(&mut self, chat_id: &str, summary: &str) -> (r: Result<(), DbError>)
        ensures
            r is Ok ==> db_summaries(final(self).conn) == db_summaries(old(self).conn).insert(
                chat_id@,
                summary@,
            ) && final(self).spec_history() == old(self).spec_history() && final(self).spec_session_ids() == old(self).spec_session_ids() && db_in_txn(final(self).conn)
                == db_in_txn(old(self).conn) && (db_in_txn(old(self).conn) ==> final(self).spec_snap_state() == old(self).spec_snap_state()),
            r is Err ==> ({
                ||| (final(self).spec_state() == old(self).spec_state() && db_in_txn(
                    final(self).conn,
                ) == db_in_txn(old(self).conn) && (db_in_txn(old(self).conn) ==> final(self).spec_snap_state() == old(self).spec_snap_state()))
                ||| (db_in_txn(old(self).conn) && !db_in_txn(final(self).conn) && final(self).spec_state() == old(self).spec_snap_state())
            }),
    {
        self.conn.execute(
            "INSERT OR REPLACE INTO chat_summary (chat_id, summary) VALUES (?1, ?2)",
            (chat_id, summary),
        ).map(|_| ()).map_err(|e| DbError(e.to_string()))
    }

    /// Relies on `rusqlite::Connection::query_row` reading the chat's
    /// summary; a missing row reads as the empty summary.
    #[verifier::external_body]
    pub fn get_summary(&self, chat_id: &str) -> (r: Result<String, DbError>)
        ensures
            r matches Ok(s) ==> s@ == self.spec_summary(chat_id@),
    {
        match self.conn.query_row(
            "SELECT summary FROM chat_summary WHERE chat_id = ?1",
            (chat_id,),
            |row| row.get::<_, String>(0),
        ) {
            Ok(s) => Ok(s),
            Err(rusqlite::Error::QueryReturnedNoRows) => Ok(String::new()),
            Err(e) => Err(DbError(e.to_string())),
        }
    }

    /// Relies on `rusqlite::Connection::query_row` reading the chat's
    /// stored session id, if one exists.
    #[verifier::external_body]
    pub fn get_session_id(&self, chat_id: &str) -> (r: Result<Option<String>, DbError>)
        ensures
            r matches Ok(s) ==> match s {
                Some(v) => self.spec_session_id(chat_id@) == Some(v@),
                None => self.spec_session_id(chat_id@) is None,
            },
    {
        match self.conn.query_row(
            "SELECT session_id FROM chat_session WHERE chat_id = ?1",
            (chat_id,),
            |row| row.get::<_, String>(0),
        ) {
            Ok(s) => Ok(Some(s)),
            Err(rusqlite::Error::QueryReturnedNoRows) => Ok(None),
            Err(e) => Err(DbError(e.to_string())),
        }
    }

    /// Relies on `rusqlite::Connection::execute` with `INSERT OR REPLACE`
    /// recording the chat's session id.
    #[verifier::external_body]
    pub fn set_session_id(&mut self, chat_id: &str, session_id: &str) -> (r: Result<(), DbError>)
        ensures
            r is Ok ==> db_session_ids(final(self).conn) == db_session_ids(old(self).conn).insert(
                chat_id@,
                session_id@,
            ) && final(self).spec_history() == old(self).spec_history() && final(self).spec_summaries() == old(self).spec_summaries() && db_in_txn(final(self).conn)
                == db_in_txn(old(self).conn) && (db_in_txn(old(self).conn) ==> final(self).spec_snap_state() == old(self).spec_snap_state()),
            r is Err ==> ({
                ||| (final(self).spec_state() == old(self).spec_state() && db_in_txn(
                    final(self).conn,
                ) == db_in_txn(old(self).conn) && (db_in_txn(old(self).conn) ==> final(self).spec_snap_state() == old(self).spec_snap_state()))
                ||| (db_in_txn(old(self).conn) && !db_in_txn(final(self).conn) && final(self).spec_state() == old(self).spec_snap_state())
            }),
    {
        self.conn.execute(
            "INSERT OR REPLACE INTO chat_session (chat_id, session_id) VALUES (?1, ?2)",
            (chat_id, session_id),
        ).map(|_| ()).map_err(|e| DbError(e.to_string()))
    }

    /// Relies on `rusqlite::Connection::execute_batch` with `BEGIN`: starts
    /// a transaction without touching the data.  The tables as they stand
    /// now are what a later rollback restores.
    #[verifier::external_body]
    pub fn begin(&mut self) -> (r: Result<(), DbError>)
        ensures
            final(self).spec_state() == old(self).spec_state(),
            r is Ok ==> db_in_txn(final(self).conn) && db_snap_history(final(self).conn)
                == db_history(old(self).conn) && db_snap_summaries(final(self).conn)
                == db_summaries(old(self).conn) && db_snap_session_ids(final(self).conn)
                == db_session_ids(old(self).conn),
            r is Err ==> db_in_txn(final(self).conn) == db_in_txn(old(self).conn),
    {
        self.conn.execute_batch("BEGIN;").map_err(|e| DbError(e.to_string()))
    }

    /// Relies on `rusqlite::Connection::execute_batch` with `COMMIT`: on
    /// success it makes the transaction's writes durable, closing the
    /// transaction without changing what reads see.  On failure the
    /// transaction is either still open and nothing moved, or SQLite
    /// already rolled it back; the caller's `rollback` settles which.
    #[verifier::external_body]
    pub fn commit(&mut self) -> (r: Result<(), DbError>)
        ensures
            r is Ok ==> final(self).spec_state() == old(self).spec_state() && !db_in_txn(
                final(self).conn,
            ),
            r is Err ==> ({
                ||| (final(self).spec_state() == old(self).spec_state() && db_in_txn(
                    final(self).conn,
                ) == db_in_txn(old(self).conn) && (db_in_txn(old(self).conn) ==> final(self).spec_snap_state() == old(self).spec_snap_state()))
                ||| (db_in_txn(old(self).conn) && !db_in_txn(final(self).conn) && final(self).spec_state() == old(self).spec_snap_state())
            }),
    {
        self.conn.execute_batch("COMMIT;").map_err(|e| DbError(e.to_string()))
    }

    /// Relies on `rusqlite::Connection::execute_batch` with `ROLLBACK` and
    /// on SQLite's transaction semantics: with a transaction open it
    /// discards the writes, leaving the tables as the transaction found
    /// them; with none open (as after SQLite's own automatic rollback) it
    /// fails harmlessly and changes nothing.  Either way no transaction is
    /// open afterwards.
    #[verifier::external_body]
    pub fn rollback(&mut self)
        ensures
            !db_in_txn(final(self).conn),
            db_in_txn(old(self).conn) ==> db_history(final(self).conn) == db_snap_history(
                old(self).conn,
            ) && db_summaries(final(self).conn) == db_snap_summaries(old(self).conn)
                && db_session_ids(final(self).conn) == db_snap_session_ids(old(self).conn),
            !db_in_txn(old(self).conn) ==> final(self).spec_state() == old(self).spec_state(),
    {
        let _ = self.conn.execute_batch("ROLLBACK;");
    }

    /// Relies on `rusqlite::Connection::execute_batch` running a trivial
    /// query: reports whether the connection still answers.
    #[verifier::external_body]
    pub fn health_check(&self) -> bool {
        self.conn.execute_batch("SELECT 1").is_ok()
    }
}

} // verus!

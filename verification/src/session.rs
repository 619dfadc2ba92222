//! Per-chat session: bounded in-memory history, pending-insert buffer and
//! summary, loaded from and appended to the store.
//!
//! The in-memory history never holds more than `MAX_HISTORY` messages;
//! the pending buffer is independent of that cap, so capping the view
//! never loses writes that have not reached storage yet.

use vstd::prelude::*;

use crate::braindb::{BrainDb, DbError};
use crate::messages::{
    lemma_role_str_round_trip, role_to_str, spec_role_str, spec_str_role, str_to_role, Message,
    Role, ToolCall, ToolCallFunction,
};
use crate::stored::{
    encode_tool_calls, parse_tool_calls, spec_call_view, spec_encodes, spec_stored_view,
    StoredMessage,
};

verus! {

/// In-memory cap on history length.
pub const MAX_HISTORY: usize = 50;

/// The observable content of one tool call.
pub type CallView = (Seq<char>, Seq<char>, Seq<char>, Seq<char>);

/// The observable content of one message: role, content, tool-call id,
/// tool-call list.
pub type MsgView = (Role, Seq<char>, Option<Seq<char>>, Option<Seq<CallView>>);

/// The observable content of one stored row.
pub type RowView = (Seq<char>, Seq<char>, Option<Seq<char>>, Option<Seq<char>>);

/// Session store errors: the database failed, or a stored tool-call list
/// would not decode.
#[derive(Clone, Debug)]
pub enum SessionError {
    Db(String),
    Serialize(String),
}

impl SessionError {
    /// Human-readable rendering, in the shape `session <kind>: <detail>`.
    pub fn text(&self) -> (r: String)
        ensures
            r@ == match self {
                SessionError::Db(s) => "session db: "@ + s@,
                SessionError::Serialize(s) => "session serialize: "@ + s@,
            },
    {
        match self {
            SessionError::Db(s) => {
                let mut r = String::new();
                r.append("session db: ");
                r.append(s.as_str());
                r
            },
            SessionError::Serialize(s) => {
                let mut r = String::new();
                r.append("session serialize: ");
                r.append(s.as_str());
                r
            },
        }
    }
}

pub open spec fn spec_msg_view(m: Message) -> MsgView {
    (
        m.role,
        m.content@,
        match m.tool_call_id {
            Some(s) => Some(s@),
            None => None,
        },
        match m.tool_calls {
            Some(cs) => Some(cs@.map_values(|c: ToolCall| spec_call_view(c))),
            None => None,
        },
    )
}

/// The row a message is stored as.
pub open spec fn spec_row_encodes(mv: MsgView, row: RowView) -> bool {
    &&& row.0 == spec_role_str(mv.0)
    &&& row.1 == mv.1
    &&& row.2 == mv.2
    &&& match mv.3 {
        None => row.3 is None,
        Some(cs) => row.3 matches Some(t) && spec_encodes(t, cs),
    }
}

/// Whether a stored row's tool-call column decodes at all.
pub open spec fn spec_row_decodable(row: RowView) -> bool {
    row.3 is None || (exists|cs: Seq<CallView>| spec_encodes(row.3->0, cs))
}

/// The message a stored row reads back as.
pub open spec fn spec_msg_matches_row(mv: MsgView, row: RowView) -> bool {
    &&& mv.0 == spec_str_role(row.0)
    &&& mv.1 == row.1
    &&& mv.2 == row.2
    &&& match row.3 {
        None => mv.3 is None,
        Some(t) => (t.len() == 0 && mv.3 is None) || (mv.3 matches Some(cs) && spec_encodes(t, cs)),
    }
}

/// The last `MAX_HISTORY` elements.
pub open spec fn spec_cap50<A>(s: Seq<A>) -> Seq<A> {
    if s.len() > 50 {
        s.subrange(s.len() - 50, s.len() as int)
    } else {
        s
    }
}

/// Storing a message and reading the row back preserves it: the role text
/// decodes to the same role, content and tool-call id are kept, and a
/// message without tool calls comes back whole.  A stored tool-call list
/// reads back as a list with the same encoding.
pub proof fn lemma_store_round_trip(mv: MsgView, mv2: MsgView, row: RowView)
    requires
        spec_row_encodes(mv, row),
        spec_msg_matches_row(mv2, row),
    ensures
        mv2.0 == mv.0,
        mv2.1 == mv.1,
        mv2.2 == mv.2,
        mv.3 is None ==> mv2 == mv,
        mv.3 is Some ==> (mv2.3 matches Some(cs) && spec_encodes(row.3->0, cs)),
{
    lemma_role_str_round_trip(mv.0);
    if mv.3 is Some {
        let t = row.3->0;
        crate::text::lemma_digits_of_u64((mv.3->0).len() as u64);
        assert(t.len() > 0) by {
            assert(t == crate::stored::spec_encode_calls(mv.3->0));
        }
    }
}

/// An encoded row always decodes.
pub proof fn lemma_encoded_row_decodable(mv: MsgView, row: RowView)
    requires
        spec_row_encodes(mv, row),
    ensures
        spec_row_decodable(row),
        spec_msg_matches_row(mv, row),
{
    lemma_role_str_round_trip(mv.0);
    if mv.3 is Some {
        let cs = mv.3->0;
        assert(spec_encodes(row.3->0, cs));
    }
}

/// Rows written for a message list read back as messages matching them,
/// position for position: content, role and tool-call ids come back whole,
/// and messages without tool calls come back equal.
pub proof fn lemma_history_round_trip(mvs: Seq<MsgView>, rows: Seq<RowView>)
    requires
        mvs.len() == rows.len(),
        forall|i: int| 0 <= i < mvs.len() ==> spec_row_encodes(#[trigger] mvs[i], rows[i]),
    ensures
        forall|i: int| 0 <= i < rows.len() ==> spec_row_decodable(#[trigger] rows[i]),
        forall|i: int|
            0 <= i < rows.len() ==> spec_msg_matches_row(#[trigger] mvs[i], rows[i]),
        forall|i: int, mv2: MsgView|
            0 <= i < rows.len() && #[trigger] spec_msg_matches_row(mv2, rows[i]) && mvs[i].3
                is None ==> mv2 == mvs[i],
{
    assert forall|i: int| 0 <= i < rows.len() implies spec_row_decodable(#[trigger] rows[i])
        && spec_msg_matches_row(mvs[i], rows[i]) by {
        lemma_encoded_row_decodable(mvs[i], rows[i]);
    }
    assert forall|i: int, mv2: MsgView|
        0 <= i < rows.len() && #[trigger] spec_msg_matches_row(mv2, rows[i]) && mvs[i].3
            is None implies mv2 == mvs[i] by {
        lemma_store_round_trip(mvs[i], mv2, rows[i]);
    }
}

fn clone_opt_string(o: &Option<String>) -> (r: Option<String>)
    ensures
        r == *o,
{
    match o {
        Some(s) => Some(s.clone()),
        None => None,
    }
}

impl Clone for ToolCallFunction {
    fn clone(&self) -> (r: Self)
        ensures
            r == *self,
    {
        ToolCallFunction { name: self.name.clone(), arguments: self.arguments.clone() }
    }
}

impl Clone for ToolCall {
    fn clone(&self) -> (r: Self)
        ensures
            r == *self,
    {
        ToolCall { id: self.id.clone(), type_: self.type_.clone(), function: self.function.clone() }
    }
}

fn clone_calls(v: &Vec<ToolCall>) -> (r: Vec<ToolCall>)
    ensures
        r@ == v@,
{
    let mut out: Vec<ToolCall> = Vec::new();
    let mut i: usize = 0;
    while i < v.len()
        invariant
            0 <= i <= v@.len(),
            out@ == v@.subrange(0, i as int),
        decreases v@.len() - i,
    {
        out.push(v[i].clone());
        proof {
            assert(out@ =~= v@.subrange(0, i + 1 as int));
        }
        i = i + 1;
    }
    proof {
        assert(v@.subrange(0, v@.len() as int) =~= v@);
    }
    out
}

impl Clone for Message {
    fn clone(&self) -> (r: Self)
        ensures
            spec_msg_view(r) == spec_msg_view(*self),
    {
        Message {
            role: self.role,
            content: self.content.clone(),
            tool_call_id: clone_opt_string(&self.tool_call_id),
            tool_calls: match &self.tool_calls {
                Some(cs) => Some(clone_calls(cs)),
                None => None,
            },
        }
    }
}

/// Turn a message into its stored row.
pub fn message_to_stored(m: &Message) -> (r: StoredMessage)
    ensures
        spec_row_encodes(spec_msg_view(*m), spec_stored_view(r)),
{
    StoredMessage {
        role: role_to_str(&m.role).to_owned(),
        content: m.content.clone(),
        tool_call_id: clone_opt_string(&m.tool_call_id),
        tool_calls: match &m.tool_calls {
            Some(cs) => {
                let n = cs.len();
                proof {
                    assert(cs@.len() <= usize::MAX);
                }
                Some(encode_tool_calls(cs))
            },
            None => None,
        },
    }
}

/// Read a stored row back as a message.  A decodable row — one whose
/// tool-call column is absent or holds an encoding — always reads back,
/// and reads back as a message matching the row; a row that does not
/// decode is an error, as the store never writes one.
pub fn stored_to_message(row: &StoredMessage) -> (r: Result<Message, SessionError>)
    ensures
        spec_row_decodable(spec_stored_view(*row)) ==> r is Ok,
        r matches Ok(m) ==> (spec_row_decodable(spec_stored_view(*row)) ==> spec_msg_matches_row(
            spec_msg_view(m),
            spec_stored_view(*row),
        )),
{
    let tool_calls: Option<Vec<ToolCall>> = match &row.tool_calls {
        Some(t) => {
            if t.as_str().is_empty() {
                None
            } else {
                let ghost w: Option<Seq<CallView>> = if exists|cs: Seq<CallView>|
                    spec_encodes(t@, cs) {
                    Some(choose|cs: Seq<CallView>| spec_encodes(t@, cs))
                } else {
                    None
                };
                match parse_tool_calls(t.as_str(), Ghost(w)) {
                    Some(calls) => Some(calls),
                    None => {
                        proof {
                            assert(!spec_row_decodable(spec_stored_view(*row))) by {
                                if spec_row_decodable(spec_stored_view(*row)) {
                                    assert(w is Some);
                                }
                            }
                        }
                        return Err(
                            SessionError::Serialize("stored tool calls do not decode".to_owned()),
                        );
                    },
                }
            }
        },
        None => None,
    };
    Ok(
        Message {
            role: str_to_role(row.role.as_str()),
            content: row.content.clone(),
            tool_call_id: clone_opt_string(&row.tool_call_id),
            tool_calls,
        },
    )
}

/// One chat's session: capped history, pending inserts, summary.
#[derive(Debug)]
pub struct Session {
    history: Vec<Message>,
    pending_inserts: Vec<Message>,
    summary: String,
    chat_id: String,
    session_id: String,
}

impl Session {
    pub closed spec fn spec_history(&self) -> Seq<MsgView> {
        self.history@.map_values(|m: Message| spec_msg_view(m))
    }

    pub closed spec fn spec_pending(&self) -> Seq<MsgView> {
        self.pending_inserts@.map_values(|m: Message| spec_msg_view(m))
    }

    pub closed spec fn spec_summary_text(&self) -> Seq<char> {
        self.summary@
    }

    pub closed spec fn spec_chat_id(&self) -> Seq<char> {
        self.chat_id@
    }

    pub closed spec fn spec_session_id_text(&self) -> Seq<char> {
        self.session_id@
    }

    /// A fresh, empty session for a chat.
    pub fn empty(chat_id: &str, session_id: &str) -> (r: Session)
        ensures
            r.spec_history().len() == 0,
            r.spec_pending().len() == 0,
            r.spec_summary_text().len() == 0,
            r.spec_chat_id() == chat_id@,
            r.spec_session_id_text() == session_id@,
    {
        let r = Session {
            history: Vec::new(),
            pending_inserts: Vec::new(),
            summary: String::new(),
            chat_id: chat_id.to_owned(),
            session_id: session_id.to_owned(),
        };
        proof {
            assert(r.spec_history() =~= Seq::<MsgView>::empty());
            assert(r.spec_pending() =~= Seq::<MsgView>::empty());
        }
        r
    }

    /// The in-memory history, oldest first.
    pub fn history(&self) -> (r: &Vec<Message>)
        ensures
            r@.map_values(|m: Message| spec_msg_view(m)) == self.spec_history(),
    {
        &self.history
    }

    pub fn summary(&self) -> (r: &str)
        ensures
            r@ == self.spec_summary_text(),
    {
        self.summary.as_str()
    }

    pub fn session_id(&self) -> (r: &str)
        ensures
            r@ == self.spec_session_id_text(),
    {
        self.session_id.as_str()
    }

    pub fn set_summary(&mut self, s: String)
        ensures
            final(self).spec_summary_text() == s@,
            final(self).spec_history() == old(self).spec_history(),
            final(self).spec_pending() == old(self).spec_pending(),
            final(self).spec_chat_id() == old(self).spec_chat_id(),
            final(self).spec_session_id_text() == old(self).spec_session_id_text(),
    {
        self.summary = s;
    }

    /// Drop the oldest in-memory messages down to the cap.  The pending
    /// buffer is untouched.
    fn cap_history(&mut self)
        ensures
            final(self).spec_history() == spec_cap50(old(self).spec_history()),
            final(self).spec_history().len() <= 50,
            final(self).spec_pending() == old(self).spec_pending(),
            final(self).spec_summary_text() == old(self).spec_summary_text(),
            final(self).spec_chat_id() == old(self).spec_chat_id(),
            final(self).spec_session_id_text() == old(self).spec_session_id_text(),
    {
        let ghost h0 = old(self).spec_history();
        while self.history.len() > MAX_HISTORY
            invariant
                self.history@.len() <= h0.len(),
                h0.len() > 50 ==> self.history@.len() >= 50,
                h0.len() <= 50 ==> self.history@.len() == h0.len(),
                self.history@.map_values(|m: Message| spec_msg_view(m)) == h0.subrange(
                    h0.len() - self.history@.len(),
                    h0.len() as int,
                ),
                h0 == old(self).spec_history(),
                self.spec_pending() == old(self).spec_pending(),
                self.spec_summary_text() == old(self).spec_summary_text(),
                self.spec_chat_id() == old(self).spec_chat_id(),
                self.spec_session_id_text() == old(self).spec_session_id_text(),
            decreases self.history@.len(),
        {
            let ghost prev = self.history@.map_values(|m: Message| spec_msg_view(m));
            self.history.remove(0);
            proof {
                assert(self.history@.map_values(|m: Message| spec_msg_view(m))
                    =~= prev.drop_first());
                assert(prev.drop_first() =~= h0.subrange(
                    h0.len() - self.history@.len(),
                    h0.len() as int,
                ));
            }
        }
        proof {
            assert(h0.subrange(h0.len() - self.history@.len(), h0.len() as int) =~= h0.subrange(
                h0.len() - self.history@.len(),
                h0.len() as int,
            ));
            if h0.len() <= 50 {
                assert(h0.subrange(0, h0.len() as int) =~= h0);
            }
        }
    }

    /// Record a user message: it joins both the history and the pending
    /// buffer; the history is capped.
    pub fn add_user_message(&mut self, content: &str)
        ensures
            final(self).spec_pending() == old(self).spec_pending().push(
                (Role::User, content@, None::<Seq<char>>, None::<Seq<CallView>>),
            ),
            final(self).spec_history() == spec_cap50(
                old(self).spec_history().push(
                    (Role::User, content@, None::<Seq<char>>, None::<Seq<CallView>>),
                ),
            ),
            final(self).spec_history().len() <= 50,
            final(self).spec_summary_text() == old(self).spec_summary_text(),
            final(self).spec_chat_id() == old(self).spec_chat_id(),
            final(self).spec_session_id_text() == old(self).spec_session_id_text(),
    {
        let msg = Message {
            role: Role::User,
            content: content.to_owned(),
            tool_call_id: None,
            tool_calls: None,
        };
        self.push_message(msg);
    }

    /// Record an assistant message, with the tool calls it requested if any.
    pub fn add_assistant_message(&mut self, content: &str, tool_calls: Option<Vec<ToolCall>>)
        ensures
            ({
                let mv = (
                    Role::Assistant,
                    content@,
                    None::<Seq<char>>,
                    match tool_calls {
                        Some(cs) => Some(cs@.map_values(|c: ToolCall| spec_call_view(c))),
                        None => None::<Seq<CallView>>,
                    },
                );
                &&& final(self).spec_pending() == old(self).spec_pending().push(mv)
                &&& final(self).spec_history() == spec_cap50(old(self).spec_history().push(mv))
            }),
            final(self).spec_history().len() <= 50,
            final(self).spec_summary_text() == old(self).spec_summary_text(),
            final(self).spec_chat_id() == old(self).spec_chat_id(),
            final(self).spec_session_id_text() == old(self).spec_session_id_text(),
    {
        let msg = Message {
            role: Role::Assistant,
            content: content.to_owned(),
            tool_call_id: None,
            tool_calls,
        };
        self.push_message(msg);
    }

    /// Record a tool-result message under its tool-call id.
    pub fn add_tool_message(&mut self, tool_call_id: &str, content: &str)
        ensures
            final(self).spec_pending() == old(self).spec_pending().push(
                (Role::Tool, content@, Some(tool_call_id@), None::<Seq<CallView>>),
            ),
            final(self).spec_history() == spec_cap50(
                old(self).spec_history().push(
                    (Role::Tool, content@, Some(tool_call_id@), None::<Seq<CallView>>),
                ),
            ),
            final(self).spec_history().len() <= 50,
            final(self).spec_summary_text() == old(self).spec_summary_text(),
            final(self).spec_chat_id() == old(self).spec_chat_id(),
            final(self).spec_session_id_text() == old(self).spec_session_id_text(),
    {
        let msg = Message {
            role: Role::Tool,
            content: content.to_owned(),
            tool_call_id: Some(tool_call_id.to_owned()),
            tool_calls: None,
        };
        self.push_message(msg);
    }

    fn push_message(&mut self, msg: Message)
        ensures
            final(self).spec_pending() == old(self).spec_pending().push(spec_msg_view(msg)),
            final(self).spec_history() == spec_cap50(
                old(self).spec_history().push(spec_msg_view(msg)),
            ),
            final(self).spec_history().len() <= 50,
            final(self).spec_summary_text() == old(self).spec_summary_text(),
            final(self).spec_chat_id() == old(self).spec_chat_id(),
            final(self).spec_session_id_text() == old(self).spec_session_id_text(),
    {
        let copy = msg.clone();
        self.pending_inserts.push(copy);
        proof {
            assert(self.spec_pending() =~= old(self).spec_pending().push(spec_msg_view(msg)));
        }
        self.history.push(msg);
        proof {
            assert(self.spec_history() =~= old(self).spec_history().push(spec_msg_view(msg)));
        }
        self.cap_history();
    }

    /// Load a chat's session from the store: its rows capped to the most
    /// recent fifty, its summary, and its stable session id — created from
    /// `fresh_session_id` on first access and reused thereafter.
    pub fn load(db: &mut BrainDb, chat_id: &str, fresh_session_id: &str) -> (r: Result<
        Session,
        SessionError,
    >)
        requires
            !old(db).spec_in_txn(),
        ensures
            !final(db).spec_in_txn(),
            final(db).spec_history() == old(db).spec_history(),
            final(db).spec_summaries() == old(db).spec_summaries(),
            r matches Ok(s) ==> {
                let rows = old(db).spec_rows(chat_id@);
                let capped = spec_cap50(rows);
                &&& s.spec_chat_id() == chat_id@
                &&& s.spec_pending().len() == 0
                &&& s.spec_summary_text() == old(db).spec_summary(chat_id@)
                &&& s.spec_session_id_text() == (match old(db).spec_session_id(chat_id@) {
                    Some(v) => v,
                    None => fresh_session_id@,
                })
                &&& final(db).spec_session_ids() == (match old(db).spec_session_id(chat_id@) {
                    Some(v) => old(db).spec_session_ids(),
                    None => old(db).spec_session_ids().insert(chat_id@, fresh_session_id@),
                })
                &&& s.spec_history().len() == capped.len()
                &&& forall|i: int|
                    0 <= i < capped.len() && spec_row_decodable(#[trigger] capped[i])
                        ==> spec_msg_matches_row(s.spec_history()[i], capped[i])
            },
    {
        let sid = match db.get_session_id(chat_id) {
            Ok(x) => x,
            Err(e) => {
                return Err(SessionError::Db(e.0));
            },
        };
        let session_id = match sid {
            Some(v) => v,
            None => {
                match db.set_session_id(chat_id, fresh_session_id) {
                    Ok(()) => {},
                    Err(e) => {
                        return Err(SessionError::Db(e.0));
                    },
                }
                fresh_session_id.to_owned()
            },
        };
        let rows = match db.load_history(chat_id) {
            Ok(x) => x,
            Err(e) => {
                return Err(SessionError::Db(e.0));
            },
        };
        let summary = match db.get_summary(chat_id) {
            Ok(x) => x,
            Err(e) => {
                return Err(SessionError::Db(e.0));
            },
        };
        let ghost row_views = rows@.map_values(|m: StoredMessage| spec_stored_view(m));
        let mut history: Vec<Message> = Vec::new();
        let mut i: usize = 0;
        while i < rows.len()
            invariant
                !db.spec_in_txn(),
                db.spec_history() == old(db).spec_history(),
                db.spec_summaries() == old(db).spec_summaries(),
                db.spec_session_ids() == (match old(db).spec_session_id(chat_id@) {
                    Some(v) => old(db).spec_session_ids(),
                    None => old(db).spec_session_ids().insert(chat_id@, fresh_session_id@),
                }),
                0 <= i <= rows@.len(),
                row_views == rows@.map_values(|m: StoredMessage| spec_stored_view(m)),
                history@.len() == i,
                forall|k: int|
                    0 <= k < i && spec_row_decodable(#[trigger] row_views[k])
                        ==> spec_msg_matches_row(
                        history@.map_values(|m: Message| spec_msg_view(m))[k],
                        row_views[k],
                    ),
            decreases rows@.len() - i,
        {
            let ghost pre = history@.map_values(|m: Message| spec_msg_view(m));
            let m = match stored_to_message(&rows[i]) {
                Ok(m) => m,
                Err(e) => {
                    return Err(e);
                },
            };
            let ghost mv = spec_msg_view(m);
            history.push(m);
            proof {
                assert(history@.map_values(|m: Message| spec_msg_view(m)) =~= pre.push(mv));
            }
            i = i + 1;
        }
        let mut s = Session {
            history,
            pending_inserts: Vec::new(),
            summary,
            chat_id: chat_id.to_owned(),
            session_id,
        };
        proof {
            assert(s.spec_pending() =~= Seq::<MsgView>::empty());
        }
        let ghost full = s.spec_history();
        s.cap_history();
        proof {
            let capped_rows = spec_cap50(row_views);
            assert forall|k: int|
                0 <= k < capped_rows.len() && spec_row_decodable(#[trigger] capped_rows[k])
                    implies spec_msg_matches_row(s.spec_history()[k], capped_rows[k]) by {
                if row_views.len() > 50 {
                    assert(capped_rows[k] == row_views[row_views.len() - 50 + k]);
                    assert(s.spec_history()[k] == full[full.len() - 50 + k]);
                }
            }
        }
        Ok(s)
    }

    /// Append the pending messages and upsert the summary, atomically; a
    /// no-op when both are empty.  Stored rows are never rewritten: the new
    /// rows go after everything already stored.
    pub fn save(&mut self, db: &mut BrainDb) -> (r: Result<(), SessionError>)
        requires
            !old(db).spec_in_txn(),
        ensures
            !final(db).spec_in_txn(),
            final(self).spec_history() == old(self).spec_history(),
            final(self).spec_chat_id() == old(self).spec_chat_id(),
            final(self).spec_session_id_text() == old(self).spec_session_id_text(),
            final(self).spec_summary_text() == old(self).spec_summary_text(),
            old(self).spec_pending().len() == 0 && old(self).spec_summary_text().len() == 0 ==> (
            r is Ok && final(db).spec_state() == old(db).spec_state()
                && final(self).spec_pending() == old(self).spec_pending()),
            r is Err ==> final(self).spec_pending() == old(self).spec_pending()
                && final(db).spec_state() == old(db).spec_state(),
            r is Ok ==> final(db).spec_session_ids() == old(db).spec_session_ids(),
            r is Ok ==> if old(self).spec_pending().len() == 0 && old(
                self,
            ).spec_summary_text().len() == 0 {
                &&& final(db).spec_state() == old(db).spec_state()
                &&& final(self).spec_pending() == old(self).spec_pending()
            } else {
                let chat = old(self).spec_chat_id();
                let oldrows = old(db).spec_rows(chat);
                let newrows = final(db).spec_rows(chat);
                &&& final(self).spec_pending().len() == 0
                &&& newrows.len() == oldrows.len() + old(self).spec_pending().len()
                &&& newrows.subrange(0, oldrows.len() as int) == oldrows
                &&& forall|i: int|
                    0 <= i < old(self).spec_pending().len() ==> spec_row_encodes(
                        #[trigger] old(self).spec_pending()[i],
                        newrows[oldrows.len() + i],
                    )
                &&& forall|c: Seq<char>|
                    c != chat ==> final(db).spec_rows(c) == old(db).spec_rows(c)
                &&& final(db).spec_summary(chat) == old(self).spec_summary_text()
                &&& forall|c: Seq<char>|
                    c != chat ==> final(db).spec_summary(c) == old(db).spec_summary(c)
            },
    {
        if self.pending_inserts.len() == 0 && self.summary.as_str().is_empty() {
            return Ok(());
        }
        match db.begin() {
            Ok(()) => {},
            Err(e) => {
                return Err(SessionError::Db(e.0));
            },
        }
        let ghost chat = self.spec_chat_id();
        let ghost oldrows = old(db).spec_rows(chat);
        let ghost pending0 = self.spec_pending();
        let n = self.pending_inserts.len();
        let mut i: usize = 0;
        while i < n
            invariant
                db.spec_in_txn(),
                db.spec_snap_state() == old(db).spec_state(),
                0 <= i <= n == self.pending_inserts@.len(),
                chat == self.spec_chat_id(),
                chat == old(self).spec_chat_id(),
                pending0 == self.spec_pending(),
                pending0 == old(self).spec_pending(),
                oldrows == old(db).spec_rows(chat),
                self == old(self),
                db.spec_rows(chat).len() == oldrows.len() + i,
                db.spec_rows(chat).subrange(0, oldrows.len() as int) == oldrows,
                forall|k: int|
                    0 <= k < i ==> spec_row_encodes(
                        #[trigger] pending0[k],
                        db.spec_rows(chat)[oldrows.len() + k],
                    ),
                forall|c: Seq<char>| c != chat ==> db.spec_rows(c) == old(db).spec_rows(c),
                db.spec_summaries() == old(db).spec_summaries(),
                db.spec_session_ids() == old(db).spec_session_ids(),
            decreases n - i,
        {
            let ghost rows_before = db.spec_rows(chat);
            let row = message_to_stored(&self.pending_inserts[i]);
            match db.insert_history(self.chat_id.as_str(), self.session_id.as_str(), &row) {
                Ok(()) => {},
                Err(e) => {
                    db.rollback();
                    return Err(SessionError::Db(e.0));
                },
            }
            proof {
                assert(db.spec_rows(chat) == rows_before.push(spec_stored_view(row)));
                assert(db.spec_rows(chat).subrange(0, oldrows.len() as int) =~= oldrows);
            }
            i = i + 1;
        }
        match db.set_summary(self.chat_id.as_str(), self.summary.as_str()) {
            Ok(()) => {},
            Err(e) => {
                db.rollback();
                return Err(SessionError::Db(e.0));
            },
        }
        match db.commit() {
            Ok(()) => {},
            Err(e) => {
                db.rollback();
                return Err(SessionError::Db(e.0));
            },
        }
        self.pending_inserts = Vec::new();
        proof {
            assert(self.spec_pending() =~= Seq::<MsgView>::empty());
            assert(pending0.subrange(0, n as int) =~= pending0);
        }
        Ok(())
    }

    /// Trim the in-memory history to the last `keep` messages; stored rows
    /// and the pending buffer are untouched.
    pub fn truncate_history(&mut self, keep: usize)
        ensures
            final(self).spec_history() == (if old(self).spec_history().len() > keep {
                old(self).spec_history().subrange(
                    old(self).spec_history().len() - keep,
                    old(self).spec_history().len() as int,
                )
            } else {
                old(self).spec_history()
            }),
            final(self).spec_pending() == old(self).spec_pending(),
            final(self).spec_summary_text() == old(self).spec_summary_text(),
            final(self).spec_chat_id() == old(self).spec_chat_id(),
            final(self).spec_session_id_text() == old(self).spec_session_id_text(),
    {
        let ghost h0 = old(self).spec_history();
        while self.history.len() > keep
            invariant
                self.history@.len() <= h0.len(),
                h0.len() > keep ==> self.history@.len() >= keep,
                h0.len() <= keep ==> self.history@.len() == h0.len(),
                self.history@.map_values(|m: Message| spec_msg_view(m)) == h0.subrange(
                    h0.len() - self.history@.len(),
                    h0.len() as int,
                ),
                h0 == old(self).spec_history(),
                self.spec_pending() == old(self).spec_pending(),
                self.spec_summary_text() == old(self).spec_summary_text(),
                self.spec_chat_id() == old(self).spec_chat_id(),
                self.spec_session_id_text() == old(self).spec_session_id_text(),
            decreases self.history@.len(),
        {
            let ghost prev = self.history@.map_values(|m: Message| spec_msg_view(m));
            self.history.remove(0);
            proof {
                assert(self.history@.map_values(|m: Message| spec_msg_view(m))
                    =~= prev.drop_first());
                assert(prev.drop_first() =~= h0.subrange(
                    h0.len() - self.history@.len(),
                    h0.len() as int,
                ));
            }
        }
        proof {
            if h0.len() <= keep {
                assert(h0.subrange(0, h0.len() as int) =~= h0);
            }
        }
    }
}

/// Law: saves append, never rewrite.  One save that takes a chat's rows
/// from `rows0` to `rows1` by appending its pending messages `p1`, and a
/// later one that takes them to `rows2` by appending `p2` (each in the
/// shape `Session::save` ensures on success), together leave all of
/// `rows0` untouched as a prefix, with the two pending buffers encoded
/// after it in order.
pub proof fn lemma_saves_append(
    rows0: Seq<RowView>,
    rows1: Seq<RowView>,
    rows2: Seq<RowView>,
    p1: Seq<MsgView>,
    p2: Seq<MsgView>,
)
    requires
        rows1.len() == rows0.len() + p1.len(),
        rows1.subrange(0, rows0.len() as int) == rows0,
        forall|i: int|
            0 <= i < p1.len() ==> spec_row_encodes(#[trigger] p1[i], rows1[rows0.len() + i]),
        rows2.len() == rows1.len() + p2.len(),
        rows2.subrange(0, rows1.len() as int) == rows1,
        forall|i: int|
            0 <= i < p2.len() ==> spec_row_encodes(#[trigger] p2[i], rows2[rows1.len() + i]),
    ensures
        rows2.len() == rows0.len() + p1.len() + p2.len(),
        rows2.subrange(0, rows0.len() as int) == rows0,
        forall|i: int|
            0 <= i < p1.len() ==> spec_row_encodes(#[trigger] p1[i], rows2[rows0.len() + i]),
        forall|i: int|
            0 <= i < p2.len() ==> spec_row_encodes(
                #[trigger] p2[i],
                rows2[rows0.len() + p1.len() + i],
            ),
{
    assert forall|k: int| 0 <= k < rows1.len() implies rows2[k] == rows1[k] by {
        assert(rows2.subrange(0, rows1.len() as int)[k] == rows2[k]);
    }
    assert(rows2.subrange(0, rows0.len() as int) =~= rows0);
}

/// Law: the first model input of a stateful turn.  With the session's
/// history as `Session::load` leaves it (each message matching its stored
/// row, capped to the last fifty) and the turn's list as `build_messages`
/// builds it, the list is the system prompt first, the stored messages
/// next in storage order, and the new user message last: everything
/// stored precedes the new user message, position for position.
pub proof fn lemma_turn_input_layout(
    rows: Seq<RowView>,
    history: Seq<MsgView>,
    built: Seq<MsgView>,
    system: Seq<char>,
    user: Seq<char>,
)
    requires
        history.len() == spec_cap50(rows).len(),
        forall|i: int|
            0 <= i < spec_cap50(rows).len() && spec_row_decodable(#[trigger] spec_cap50(rows)[i])
                ==> spec_msg_matches_row(history[i], spec_cap50(rows)[i]),
        built == seq![(Role::System, system, None::<Seq<char>>, None::<Seq<CallView>>)] + history
            + seq![(Role::User, user, None::<Seq<char>>, None::<Seq<CallView>>)],
    ensures
        built.len() == history.len() + 2,
        built[0] == (Role::System, system, None::<Seq<char>>, None::<Seq<CallView>>),
        built[built.len() - 1] == (
            Role::User,
            user,
            None::<Seq<char>>,
            None::<Seq<CallView>>,
        ),
        forall|i: int| 0 <= i < history.len() ==> built[1 + i] == history[i],
        forall|i: int|
            0 <= i < spec_cap50(rows).len() && spec_row_decodable(#[trigger] spec_cap50(rows)[i])
                ==> spec_msg_matches_row(built[1 + i], spec_cap50(rows)[i]),
{
    assert forall|i: int| 0 <= i < history.len() implies built[1 + i] == history[i] by {
        assert(built[1 + i] == history[i]);
    }
}

} // verus!

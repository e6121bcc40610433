//! One authenticated channel over one byte stream.
//!
//! A session is `Ready`, `InFlight` (exactly one request outstanding),
//! or `Closed`. Submitting while a response is still being drained is
//! a misuse error and produces no bytes to write; closing twice is a
//! no-op the second time; any operation on a closed session fails with
//! the closed condition. The session performs no I/O: `submit` returns
//! the framed request bytes, `receive` is fed whatever the transport
//! delivered, and `next_item` decodes one stream item at a time,
//! suspending with `NeedMore` at chunk boundaries.
//!
//! An in-band server error ends the current statement's rows but not
//! the session: the stream continues to its completion token, after
//! which the session is `Ready` again. A malformed token, by contrast,
//! means the stream is desynchronised: the session closes for good.
//!
//! Each metadata token opens result set `0, 1, 2, …` in arrival order,
//! and every row carries the index of the result set it belongs to;
//! [`lemma_result_set_indices`] states that law over whole histories.

use vstd::prelude::*;
use vstd::slice::slice_subrange;
use crate::value::{Value, wire_type_valid, check_wire_type};
use crate::tokens::{
    Token, TokModel, ColumnDesc, cols_view, vals_view, tys_of, dec_token, token_more,
};
use crate::value::WireType;
use crate::request::{Statement, enc_request, stmt_valid, encode_request};
use crate::frame::{frame_message, enc_packets, PT_REQUEST};
use crate::handshake::SessionEnv;

verus! {

/// The three states of a session.
#[derive(Clone, Copy, Debug, PartialEq, Eq, Structural)]
pub enum SessionState {
    /// No request outstanding; `submit` is accepted.
    Ready,
    /// A request is outstanding; its response is being drained.
    InFlight,
    /// Closed, by the caller or by a protocol failure; terminal.
    Closed,
}

/// Why a session operation was refused.
#[derive(Clone, Copy, Debug, PartialEq, Eq, Structural)]
pub enum SessionError {
    /// A request is already in flight; nothing was sent (the first
    /// response must be drained before the next submit).
    Busy,
    /// The session is closed; no network interaction was attempted.
    SessionClosed,
    /// No request is in flight, so there is no response to read.
    NoRequest,
    /// The statement exceeds the format's limits; nothing was sent.
    InvalidStatement,
    /// The response stream is desynchronised; the session is closed
    /// and the connection must be torn down.
    Protocol,
}

/// One item of a response stream, as handed to the caller.
#[derive(Debug, PartialEq, Eq)]
pub enum StreamItem {
    /// Result set `index` begins; its columns are available from
    /// [`Session::columns`].
    Meta { index: u64 },
    /// One row of result set `index`, cells in column order.
    Row { index: u64, cells: Vec<Value> },
    /// An in-band server error: the current statement fails, the
    /// session stays usable once the stream completes.
    ServerError { severity: u8, line: u32, message: Vec<u8> },
    /// The statement is complete; the session is `Ready` again.
    Done { rows_affected: u64, return_code: Option<i32> },
    /// The buffered bytes end mid-token: feed more via
    /// [`Session::receive`] and retry.
    NeedMore,
}

/// Number of metadata tokens in a stream history: how many result
/// sets have begun.
pub open spec fn meta_count(ts: Seq<TokModel>) -> int
    decreases ts.len(),
{
    if ts.len() == 0 {
        0
    } else {
        meta_count(ts.drop_last()) + if ts.last() is ColMeta {
            1int
        } else {
            0int
        }
    }
}

/// The result-set index in effect at token `i` of a history: the
/// index of the most recent metadata token at or before it.
pub open spec fn stream_index(ts: Seq<TokModel>, i: int) -> int {
    meta_count(ts.take(i + 1)) - 1
}

/// A well-formed stream history: no row arrives before the first
/// metadata token.
pub open spec fn stream_wf(ts: Seq<TokModel>) -> bool {
    forall|i: int| 0 <= i < ts.len() && (#[trigger] ts[i]) is Row ==> meta_count(ts.take(i))
        >= 1
}

/// The column types in effect, from the stored metadata.
pub open spec fn session_ctx(c: Option<Vec<ColumnDesc>>) -> Option<Seq<WireType>> {
    match c {
        None => None,
        Some(cd) => Some(tys_of(cols_view(cd@))),
    }
}

pub proof fn lemma_meta_count_snoc(ts: Seq<TokModel>, t: TokModel)
    ensures
        meta_count(ts.push(t)) == meta_count(ts) + if t is ColMeta {
            1int
        } else {
            0int
        },
{
    assert(ts.push(t).drop_last() =~= ts);
    assert(ts.push(t).last() == t);
}

pub proof fn lemma_meta_count_monotone(ts: Seq<TokModel>, i: int, j: int)
    requires
        0 <= i <= j <= ts.len(),
    ensures
        meta_count(ts.take(i)) <= meta_count(ts.take(j)),
    decreases j - i,
{
    if i < j {
        lemma_meta_count_monotone(ts, i, j - 1);
        assert(ts.take(j).drop_last() =~= ts.take(j - 1));
    }
}

/// The result-set index law: over any well-formed stream history, the
/// indices seen by the caller are non-decreasing in arrival order;
/// every row's index names a result set that has already begun (`0`
/// up to one less than the number of metadata tokens); and the
/// metadata token that opens the `k`-th result set carries index `k`,
/// so a statement producing `K` result sets numbers them exactly
/// `0, 1, …, K-1`.
pub proof fn lemma_result_set_indices(ts: Seq<TokModel>, i: int, j: int)
    requires
        stream_wf(ts),
        0 <= i <= j < ts.len(),
    ensures
        stream_index(ts, i) <= stream_index(ts, j),
        ts[i] is Row ==> 0 <= stream_index(ts, i) < meta_count(ts),
        ts[i] is ColMeta ==> stream_index(ts, i) == meta_count(ts.take(i)),
{
    lemma_meta_count_monotone(ts, i + 1, j + 1);
    lemma_meta_count_monotone(ts, i + 1, ts.len() as int);
    assert(ts.take(ts.len() as int) =~= ts);
    assert(ts.take(i + 1).drop_last() =~= ts.take(i));
    assert(ts.take(i + 1).last() == ts[i]);
    if ts[i] is Row {
        assert(meta_count(ts.take(i)) >= 1);
    }
}

/// One session: its state, the environment captured at login, the
/// current result set's columns, and the undecoded response bytes.
pub struct Session {
    pub state: SessionState,
    pub env: SessionEnv,
    /// Columns of the result set currently being decoded.
    pub cols: Option<Vec<ColumnDesc>>,
    /// Number of metadata tokens seen in the current stream.
    pub meta_seen: u64,
    /// Received, not yet decoded response payload bytes.
    pub buf: Vec<u8>,
    /// Decode cursor into `buf`.
    pub pos: usize,
    /// The tokens decoded from the current stream, oldest first.
    pub hist: Ghost<Seq<TokModel>>,
}

impl Session {
    /// The session invariant: the cursor is inside the buffer, the
    /// metadata count matches the history, no row precedes its
    /// metadata, and the stored column types are well formed.
    pub open spec fn wf(self) -> bool {
        &&& self.pos <= self.buf@.len()
        &&& self.meta_seen as int == meta_count(self.hist@)
        &&& stream_wf(self.hist@)
        &&& match self.cols {
            Some(cd) => self.meta_seen >= 1 && (forall|j: int|
                0 <= j < cd@.len() ==> wire_type_valid((#[trigger] cd@[j]).ty)),
            None => true,
        }
    }

    /// Open a session over a freshly authenticated channel.
    pub fn open(env: SessionEnv) -> (s: Session)
        ensures
            s.wf(),
            s.state is Ready,
            s.env == env,
            s.hist@ == Seq::<TokModel>::empty(),
    {
        Session {
            state: SessionState::Ready,
            env,
            cols: None,
            meta_seen: 0,
            buf: Vec::new(),
            pos: 0,
            hist: Ghost(Seq::empty()),
        }
    }

    /// Submit a statement: returns the framed request bytes to write.
    /// Exactly one request may be in flight: submitting before the
    /// previous response is drained is refused with `Busy`, and
    /// nothing is produced to send. A closed session refuses with
    /// `SessionClosed` and no network interaction is attempted.
    pub fn submit(&mut self, st: &Statement) -> (r: Result<Vec<u8>, SessionError>)
        requires
            old(self).wf(),
        ensures
            final(self).wf(),
            final(self).env == old(self).env,
            old(self).state is Closed ==> r == Err::<Vec<u8>, SessionError>(
                SessionError::SessionClosed,
            ) && *final(self) == *old(self),
            old(self).state is InFlight ==> r == Err::<Vec<u8>, SessionError>(
                SessionError::Busy,
            ) && *final(self) == *old(self),
            old(self).state is Ready ==> {
                if stmt_valid(st@) {
                    &&& final(self).state is InFlight
                    &&& final(self).hist@ == Seq::<TokModel>::empty()
                    &&& final(self).cols is None
                    &&& final(self).buf@ == Seq::<u8>::empty()
                    &&& final(self).pos == 0
                    &&& final(self).meta_seen == 0
                    &&& match r {
                        Ok(bytes) => bytes@ == enc_packets(PT_REQUEST, enc_request(st@)),
                        Err(_) => false,
                    }
                } else {
                    r == Err::<Vec<u8>, SessionError>(SessionError::InvalidStatement)
                        && *final(self) == *old(self)
                }
            },
    {
        match self.state {
            SessionState::Closed => Err(SessionError::SessionClosed),
            SessionState::InFlight => Err(SessionError::Busy),
            SessionState::Ready => {
                let msg = match encode_request(st) {
                    Ok(m) => m,
                    Err(_) => {
                        return Err(SessionError::InvalidStatement);
                    },
                };
                self.buf = Vec::new();
                self.pos = 0;
                self.cols = None;
                self.meta_seen = 0;
                self.hist = Ghost(Seq::empty());
                self.state = SessionState::InFlight;
                Ok(frame_message(PT_REQUEST, &msg))
            },
        }
    }

    /// Feed response bytes read from the transport. Chunk boundaries
    /// are arbitrary; the decoder reassembles across them.
    pub fn receive(&mut self, chunk: &[u8]) -> (r: Result<(), SessionError>)
        requires
            old(self).wf(),
        ensures
            final(self).wf(),
            old(self).state is Closed ==> r == Err::<(), SessionError>(
                SessionError::SessionClosed,
            ) && *final(self) == *old(self),
            old(self).state is Ready ==> r == Err::<(), SessionError>(SessionError::NoRequest)
                && *final(self) == *old(self),
            old(self).state is InFlight ==> r is Ok && final(self).buf@ == old(self).buf@
                + chunk@ && final(self).state == old(self).state && final(self).env
                == old(self).env && final(self).cols == old(self).cols && final(self).meta_seen
                == old(self).meta_seen && final(self).pos == old(self).pos && final(self).hist@
                == old(self).hist@,
    {
        match self.state {
            SessionState::Closed => Err(SessionError::SessionClosed),
            SessionState::Ready => Err(SessionError::NoRequest),
            SessionState::InFlight => {
                self.buf.extend_from_slice(chunk);
                Ok(())
            },
        }
    }

    /// Decode the next item of the in-flight response. `NeedMore`
    /// suspends at a chunk boundary; a metadata token opens the next
    /// result set; a row carries its result set's index; an in-band
    /// server error fails the statement but the stream continues to
    /// its completion token; the completion token returns the session
    /// to `Ready`. A malformed token closes the session for good, as
    /// does a token that cannot appear in a statement response (an
    /// environment change or a login acknowledgement).
    pub fn next_item(&mut self) -> (r: Result<StreamItem, SessionError>)
        requires
            old(self).wf(),
        ensures
            final(self).wf(),
            final(self).env == old(self).env,
            old(self).state is Closed ==> r == Err::<StreamItem, SessionError>(
                SessionError::SessionClosed,
            ) && *final(self) == *old(self),
            old(self).state is Ready ==> r == Err::<StreamItem, SessionError>(
                SessionError::NoRequest,
            ) && *final(self) == *old(self),
            old(self).state is InFlight ==> match dec_token(
                old(self).buf@.skip(old(self).pos as int),
                session_ctx(old(self).cols),
            ) {
                None => {
                    if token_more(old(self).buf@.skip(old(self).pos as int)) {
                        r == Ok::<StreamItem, SessionError>(StreamItem::NeedMore)
                            && *final(self) == *old(self)
                    } else {
                        r == Err::<StreamItem, SessionError>(SessionError::Protocol)
                            && final(self).state is Closed
                    }
                },
                Some(pr) => {
                    &&& final(self).buf@ == old(self).buf@
                    &&& (!(r == Err::<StreamItem, SessionError>(SessionError::Protocol)))
                        ==> final(self).pos == old(self).pos + pr.1
                        && final(self).hist@ == old(self).hist@.push(pr.0)
                    &&& match pr.0 {
                        TokModel::ColMeta(cs) => {
                            if old(self).meta_seen < 0xffffffffffffffffu64 && (forall|j: int|
                                0 <= j < cs.len() ==> wire_type_valid((#[trigger] cs[j]).ty)) {
                                &&& r == Ok::<StreamItem, SessionError>(
                                    StreamItem::Meta {
                                        index: (old(self).meta_seen) as u64,
                                    },
                                )
                                &&& final(self).state is InFlight
                                &&& final(self).meta_seen == old(self).meta_seen + 1
                                &&& session_ctx(final(self).cols) == Some(tys_of(cs))
                            } else {
                                r == Err::<StreamItem, SessionError>(SessionError::Protocol)
                                    && final(self).state is Closed
                            }
                        },
                        TokModel::Row(vs) => {
                            &&& final(self).state is InFlight
                            &&& final(self).meta_seen == old(self).meta_seen
                            &&& final(self).cols == old(self).cols
                            &&& match r {
                                Ok(item) => item matches StreamItem::Row { index, cells }
                                    && index as int == meta_count(old(self).hist@) - 1
                                    && vals_view(cells@) == vs,
                                Err(_) => false,
                            }
                        },
                        TokModel::Done { rows_affected, return_code } => {
                            &&& r == Ok::<StreamItem, SessionError>(
                                StreamItem::Done { rows_affected, return_code },
                            )
                            &&& final(self).state is Ready
                            &&& final(self).cols is None
                        },
                        TokModel::Error { severity, line, message } => {
                            &&& final(self).state is InFlight
                            &&& final(self).cols == old(self).cols
                            &&& final(self).meta_seen == old(self).meta_seen
                            &&& match r {
                                Ok(item) => item matches StreamItem::ServerError {
                                    severity: sv,
                                    line: ln,
                                    message: msg,
                                } && sv == severity && ln == line && msg@ == message,
                                Err(_) => false,
                            }
                        },
                        _ => r == Err::<StreamItem, SessionError>(SessionError::Protocol)
                            && final(self).state is Closed,
                    }
                },
            },
    {
        match self.state {
            SessionState::Closed => {
                return Err(SessionError::SessionClosed);
            },
            SessionState::Ready => {
                return Err(SessionError::NoRequest);
            },
            SessionState::InFlight => {},
        }
        let rem = slice_subrange(self.buf.as_slice(), self.pos, self.buf.len());
        proof {
            assert(rem@ =~= self.buf@.skip(self.pos as int));
        }
        let ctx: Option<&Vec<ColumnDesc>> = match &self.cols {
            None => None,
            Some(cd) => Some(cd),
        };
        let (tok, n) = match crate::tokens::decode_token(rem, ctx) {
            Ok(p) => p,
            Err(e) => {
                match e {
                    crate::codec::DecodeError::NeedMore => {
                        return Ok(StreamItem::NeedMore);
                    },
                    crate::codec::DecodeError::Malformed => {
                        self.state = SessionState::Closed;
                        return Err(SessionError::Protocol);
                    },
                }
            },
        };
        let ghost tm = tok@;
        proof {
            lemma_meta_count_snoc(self.hist@, tm);
            assert(self.hist@.push(tm).take(self.hist@.len() as int) =~= self.hist@);
            assert forall|i: int|
                0 <= i < self.hist@.len() implies self.hist@.push(tm).take(i)
                =~= self.hist@.take(i) by {};
        }
        match tok {
            Token::ColMeta(cs) => {
                if self.meta_seen == 0xffffffffffffffffu64 {
                    self.state = SessionState::Closed;
                    return Err(SessionError::Protocol);
                }
                proof {
                    assert forall|k: int|
                        0 <= k < cs@.len() implies (cols_view(cs@)[k]).ty == (
                    #[trigger] cs@[k]).ty by {
                        assert(cols_view(cs@)[k] == cs@[k]@);
                    };
                }
                let mut j: usize = 0;
                let mut valid_types: bool = true;
                while j < cs.len()
                    invariant
                        j <= cs@.len(),
                        valid_types == (forall|k: int|
                            0 <= k < j ==> wire_type_valid((#[trigger] cs@[k]).ty)),
                    decreases cs@.len() - j,
                {
                    if !check_wire_type(cs[j].ty) {
                        proof {
                            assert(!wire_type_valid(cs@[j as int].ty));
                        }
                        valid_types = false;
                    }
                    j += 1;
                }
                if !valid_types {
                    self.state = SessionState::Closed;
                    return Err(SessionError::Protocol);
                }
                let index = self.meta_seen;
                self.meta_seen = self.meta_seen + 1;
                self.cols = Some(cs);
                self.pos = self.pos + n;
                proof {
                    self.hist@ = self.hist@.push(tm);
                }
                Ok(StreamItem::Meta { index })
            },
            Token::Row(cells) => {
                proof {
                    assert(self.cols is Some);
                }
                let index = self.meta_seen - 1;
                self.pos = self.pos + n;
                proof {
                    self.hist@ = self.hist@.push(tm);
                }
                Ok(StreamItem::Row { index, cells })
            },
            Token::Done { rows_affected, return_code } => {
                self.pos = self.pos + n;
                self.cols = None;
                self.state = SessionState::Ready;
                proof {
                    self.hist@ = self.hist@.push(tm);
                }
                Ok(StreamItem::Done { rows_affected, return_code })
            },
            Token::Error { severity, line, message } => {
                self.pos = self.pos + n;
                proof {
                    self.hist@ = self.hist@.push(tm);
                }
                Ok(StreamItem::ServerError { severity, line, message })
            },
            _ => {
                self.state = SessionState::Closed;
                Err(SessionError::Protocol)
            },
        }
    }

    /// Close the session. Idempotent: closing an already closed
    /// session changes nothing.
    pub fn close(&mut self)
        requires
            old(self).wf(),
        ensures
            final(self).wf(),
            final(self).state is Closed,
            final(self).env == old(self).env,
            old(self).state is Closed ==> *final(self) == *old(self),
    {
        if !matches!(self.state, SessionState::Closed) {
            self.state = SessionState::Closed;
            self.buf = Vec::new();
            self.pos = 0;
            self.cols = None;
        }
    }

    /// The columns of the result set currently being decoded, if a
    /// metadata token has arrived.
    pub fn columns(&self) -> (r: &Option<Vec<ColumnDesc>>)
        ensures
            r == self.cols,
    {
        &self.cols
    }

    /// The session environment captured at login.
    pub fn environment(&self) -> (r: &SessionEnv)
        ensures
            r == self.env,
    {
        &self.env
    }

    /// The session's current state.
    pub fn current_state(&self) -> (r: SessionState)
        ensures
            r == self.state,
    {
        self.state
    }
}

} // verus!

//! The self-describing units of a response stream.
//!
//! A response to one request is a sequence of tokens: column metadata
//! opening a result set, rows belonging to the most recent metadata,
//! in-band server errors, environment changes and login
//! acknowledgements during the handshake, and a completion token
//! closing the statement with its affected-row count and optional
//! return code.
//!
//! Every token travels as `[tag, payload-length (4 bytes), payload]`,
//! so a reader can always tell a short buffer from a malformed token:
//! it waits for the declared payload before judging it. Row payloads
//! can only be decoded with the column types of the current metadata
//! in hand; everything else is self-contained.

use vstd::prelude::*;
use vstd::bytes::{
    spec_u16_to_le_bytes, spec_u16_from_le_bytes, spec_u32_to_le_bytes, spec_u32_from_le_bytes,
    spec_u64_to_le_bytes, spec_u64_from_le_bytes, lemma_auto_spec_u16_to_from_le_bytes,
    lemma_auto_spec_u32_to_from_le_bytes, lemma_auto_spec_u64_to_from_le_bytes,
};
use crate::bytes::{u32_of_i32, lemma_i32_bits_round_trip};
use crate::value::{WireType, Value, ValModel, wire_type_valid, check_wire_type};
use crate::codec::{
    enc_type, dec_type, enc_cell, dec_cell, lemma_type_round_trip, lemma_cell_round_trip,
    encode_type, decode_type, encode_cell, decode_cell, EncodeError, DecodeError,
};
use crate::bytes::{put_u16, put_u32, put_u64, read_u16, read_u32, read_u64};
use vstd::slice::{slice_subrange, slice_to_vec, slice_index_get};

verus! {

/// Tag of a column-metadata token.
pub const TOK_META: u8 = 0x81;

/// Tag of a row token.
pub const TOK_ROW: u8 = 0xd1;

/// Tag of a completion token.
pub const TOK_DONE: u8 = 0xfd;

/// Tag of an in-band server-error token.
pub const TOK_ERROR: u8 = 0xaa;

/// Tag of an environment-change token.
pub const TOK_ENV: u8 = 0xe3;

/// Tag of a login-acknowledgement token.
pub const TOK_LOGINACK: u8 = 0xad;

/// Longest column name, in bytes.
pub const MAX_COLUMN_NAME: usize = 255;

/// Most columns one metadata token can declare.
pub const MAX_COLUMNS: usize = 65535;

/// Longest server-error message, in bytes.
pub const MAX_ERROR_MESSAGE: usize = 65535;

/// Longest database name in an environment change, in bytes.
pub const MAX_DATABASE_NAME: usize = 255;

/// One column of a result set: its name, declared wire type, and
/// whether its cells may be NULL.
#[derive(Clone, Debug, PartialEq, Eq)]
pub struct ColumnDesc {
    /// Column name as raw single-byte characters.
    pub name: Vec<u8>,
    /// Declared wire type of the column's cells.
    pub ty: WireType,
    /// Whether cells of this column may be NULL.
    pub nullable: bool,
}

/// Mathematical model of a column description.
pub struct ColModel {
    pub name: Seq<u8>,
    pub ty: WireType,
    pub nullable: bool,
}

impl View for ColumnDesc {
    type V = ColModel;

    open spec fn view(&self) -> ColModel {
        ColModel { name: self.name@, ty: self.ty, nullable: self.nullable }
    }
}

/// One token of a response stream.
#[derive(Debug, PartialEq, Eq)]
pub enum Token {
    /// Opens a new result set and describes its columns.
    ColMeta(Vec<ColumnDesc>),
    /// One row of the current result set, cells in column order.
    Row(Vec<Value>),
    /// Closes the statement: rows affected and, for procedure calls,
    /// an optional signed return code.
    Done { rows_affected: u64, return_code: Option<i32> },
    /// An in-band server error: fatal to the current statement only.
    Error { severity: u8, line: u32, message: Vec<u8> },
    /// Session state echoed by the server (the active database).
    EnvChange { database: Vec<u8> },
    /// Acknowledges a successful login with the negotiated version.
    LoginAck { version: u32 },
}

/// Mathematical model of a token.
pub enum TokModel {
    ColMeta(Seq<ColModel>),
    Row(Seq<ValModel>),
    Done { rows_affected: u64, return_code: Option<i32> },
    Error { severity: u8, line: u32, message: Seq<u8> },
    EnvChange { database: Seq<u8> },
    LoginAck { version: u32 },
}

/// The models of a column list, in order.
pub open spec fn cols_view(cs: Seq<ColumnDesc>) -> Seq<ColModel> {
    cs.map_values(|c: ColumnDesc| c@)
}

/// The models of a cell list, in order.
pub open spec fn vals_view(vs: Seq<Value>) -> Seq<ValModel> {
    vs.map_values(|v: Value| v@)
}

impl View for Token {
    type V = TokModel;

    open spec fn view(&self) -> TokModel {
        match self {
            Token::ColMeta(cols) => TokModel::ColMeta(cols_view(cols@)),
            Token::Row(cells) => TokModel::Row(vals_view(cells@)),
            Token::Done { rows_affected, return_code } => TokModel::Done {
                rows_affected: *rows_affected,
                return_code: *return_code,
            },
            Token::Error { severity, line, message } => TokModel::Error {
                severity: *severity,
                line: *line,
                message: message@,
            },
            Token::EnvChange { database } => TokModel::EnvChange { database: database@ },
            Token::LoginAck { version } => TokModel::LoginAck { version: *version },
        }
    }
}

/// Whether a column description is well formed.
pub open spec fn col_valid(c: ColModel) -> bool {
    wire_type_valid(c.ty) && c.name.len() <= MAX_COLUMN_NAME
}

/// The declared types of a column list, in order.
pub open spec fn tys_of(cs: Seq<ColModel>) -> Seq<WireType> {
    cs.map_values(|c: ColModel| c.ty)
}

/// Whether a row's cells line up with the given column types: same
/// count, each cell valid and of the declared type.
pub open spec fn row_matches(vs: Seq<ValModel>, tys: Seq<WireType>) -> bool {
    &&& vs.len() == tys.len()
    &&& forall|i: int| 0 <= i < vs.len() ==> (#[trigger] vs[i]).valid() && vs[i].wire_type()
        == tys[i]
}

/// The encoding of one column description.
pub open spec fn enc_col(c: ColModel) -> Seq<u8> {
    enc_type(c.ty) + seq![if c.nullable { 1u8 } else { 0u8 }, c.name.len() as u8] + c.name
}

/// The encoding of a column list.
pub open spec fn enc_cols(cs: Seq<ColModel>) -> Seq<u8>
    decreases cs.len(),
{
    if cs.len() == 0 {
        Seq::empty()
    } else {
        enc_col(cs[0]) + enc_cols(cs.drop_first())
    }
}

/// The encoding of a row's cells, in order.
pub open spec fn enc_cells(vs: Seq<ValModel>) -> Seq<u8>
    decreases vs.len(),
{
    if vs.len() == 0 {
        Seq::empty()
    } else {
        enc_cell(vs[0]) + enc_cells(vs.drop_first())
    }
}

/// Specification-level decoder of one column description at the head
/// of `s`: `None` on any shortage or malformation.
pub open spec fn dec_col(s: Seq<u8>) -> Option<(ColModel, int)> {
    match dec_type(s) {
        None => None,
        Some((ty, tn)) => {
            if s.len() < tn + 2 {
                None
            } else {
                let nul = s[tn];
                let nl = s[tn + 1] as int;
                if nul != 0 && nul != 1 {
                    None
                } else if s.len() < tn + 2 + nl {
                    None
                } else {
                    Some(
                        (
                            ColModel {
                                name: s.subrange(tn + 2, tn + 2 + nl),
                                ty,
                                nullable: nul == 1,
                            },
                            tn + 2 + nl,
                        ),
                    )
                }
            }
        },
    }
}

/// Specification-level decoder of `cnt` column descriptions.
pub open spec fn dec_cols(s: Seq<u8>, cnt: int) -> Option<(Seq<ColModel>, int)>
    decreases cnt,
{
    if cnt <= 0 {
        Some((Seq::empty(), 0))
    } else {
        match dec_col(s) {
            None => None,
            Some((c, n)) => match dec_cols(s.skip(n), cnt - 1) {
                None => None,
                Some((cs, m)) => Some((seq![c] + cs, n + m)),
            },
        }
    }
}

/// Specification-level decoder of one cell per given type, in order.
pub open spec fn dec_cells(s: Seq<u8>, tys: Seq<WireType>) -> Option<(Seq<ValModel>, int)>
    decreases tys.len(),
{
    if tys.len() == 0 {
        Some((Seq::empty(), 0))
    } else {
        match dec_cell(s, tys[0]) {
            None => None,
            Some((v, n)) => match dec_cells(s.skip(n), tys.drop_first()) {
                None => None,
                Some((vs, m)) => Some((seq![v] + vs, n + m)),
            },
        }
    }
}

/// The payload of a token (everything after the tag and length).
pub open spec fn enc_payload(t: TokModel) -> Seq<u8> {
    match t {
        TokModel::ColMeta(cs) => spec_u16_to_le_bytes(cs.len() as u16) + enc_cols(cs),
        TokModel::Row(vs) => enc_cells(vs),
        TokModel::Done { rows_affected, return_code } => match return_code {
            None => seq![0u8] + spec_u64_to_le_bytes(rows_affected),
            Some(code) => seq![1u8] + spec_u64_to_le_bytes(rows_affected)
                + spec_u32_to_le_bytes(u32_of_i32(code)),
        },
        TokModel::Error { severity, line, message } => seq![severity] + spec_u32_to_le_bytes(line)
            + spec_u16_to_le_bytes(message.len() as u16) + message,
        TokModel::EnvChange { database } => seq![database.len() as u8] + database,
        TokModel::LoginAck { version } => spec_u32_to_le_bytes(version),
    }
}

/// The tag byte of a token.
pub open spec fn tag_of(t: TokModel) -> u8 {
    match t {
        TokModel::ColMeta(_) => TOK_META,
        TokModel::Row(_) => TOK_ROW,
        TokModel::Done { .. } => TOK_DONE,
        TokModel::Error { .. } => TOK_ERROR,
        TokModel::EnvChange { .. } => TOK_ENV,
        TokModel::LoginAck { .. } => TOK_LOGINACK,
    }
}

/// Whether a token is well formed, so that it can be encoded without
/// loss: sizes within their prefixes, every column and cell valid.
pub open spec fn tok_valid(t: TokModel) -> bool {
    match t {
        TokModel::ColMeta(cs) => {
            &&& cs.len() <= MAX_COLUMNS
            &&& (forall|i: int| 0 <= i < cs.len() ==> col_valid(#[trigger] cs[i]))
        },
        TokModel::Row(vs) => {
            &&& vs.len() <= MAX_COLUMNS
            &&& (forall|i: int| 0 <= i < vs.len() ==> (#[trigger] vs[i]).valid())
            &&& enc_cells(vs).len() <= 0xffffffff
        },
        TokModel::Error { severity: _, line: _, message } => message.len() <= MAX_ERROR_MESSAGE,
        TokModel::EnvChange { database } => database.len() <= MAX_DATABASE_NAME,
        _ => true,
    }
}

/// The full encoding of a token: tag, payload length, payload.
pub open spec fn enc_token(t: TokModel) -> Seq<u8> {
    seq![tag_of(t)] + spec_u32_to_le_bytes(enc_payload(t).len() as u32) + enc_payload(t)
}

/// Specification-level decoder of the token at the head of `s`. Rows
/// need the current column types `ctx`; a row token without metadata
/// in effect is malformed. Returns the token and the bytes consumed,
/// or `None` on shortage ([`token_more`]) or malformation.
pub open spec fn dec_token(s: Seq<u8>, ctx: Option<Seq<WireType>>) -> Option<(TokModel, int)> {
    if s.len() < 5 {
        None
    } else {
        let plen = spec_u32_from_le_bytes(s.subrange(1, 5)) as int;
        if s.len() < 5 + plen {
            None
        } else {
            let p = s.subrange(5, 5 + plen);
            match dec_payload(s[0], p, ctx) {
                None => None,
                Some(t) => Some((t, 5 + plen)),
            }
        }
    }
}

/// Whether a token decode failed only because the buffer is short.
pub open spec fn token_more(s: Seq<u8>) -> bool {
    if s.len() < 5 {
        true
    } else {
        let plen = spec_u32_from_le_bytes(s.subrange(1, 5)) as int;
        s.len() < 5 + plen
    }
}

/// Specification-level decoder of a complete token payload `p` under
/// tag `tag`. The payload must be consumed exactly.
pub open spec fn dec_payload(tag: u8, p: Seq<u8>, ctx: Option<Seq<WireType>>) -> Option<
    TokModel,
> {
    if tag == TOK_META {
        if p.len() < 2 {
            None
        } else {
            let cnt = spec_u16_from_le_bytes(p.subrange(0, 2)) as int;
            match dec_cols(p.skip(2), cnt) {
                None => None,
                Some((cs, n)) => if n == p.len() - 2 {
                    Some(TokModel::ColMeta(cs))
                } else {
                    None
                },
            }
        }
    } else if tag == TOK_ROW {
        match ctx {
            None => None,
            Some(tys) => match dec_cells(p, tys) {
                None => None,
                Some((vs, n)) => if n == p.len() {
                    Some(TokModel::Row(vs))
                } else {
                    None
                },
            },
        }
    } else if tag == TOK_DONE {
        if p.len() == 9 && p[0] == 0 {
            Some(
                TokModel::Done {
                    rows_affected: spec_u64_from_le_bytes(p.subrange(1, 9)),
                    return_code: None,
                },
            )
        } else if p.len() == 13 && p[0] == 1 {
            Some(
                TokModel::Done {
                    rows_affected: spec_u64_from_le_bytes(p.subrange(1, 9)),
                    return_code: Some(spec_u32_from_le_bytes(p.subrange(9, 13)) as i32),
                },
            )
        } else {
            None
        }
    } else if tag == TOK_ERROR {
        if p.len() < 7 {
            None
        } else {
            let ml = spec_u16_from_le_bytes(p.subrange(5, 7)) as int;
            if p.len() == 7 + ml {
                Some(
                    TokModel::Error {
                        severity: p[0],
                        line: spec_u32_from_le_bytes(p.subrange(1, 5)),
                        message: p.skip(7),
                    },
                )
            } else {
                None
            }
        }
    } else if tag == TOK_ENV {
        if p.len() < 1 {
            None
        } else if p.len() == 1 + p[0] as int {
            Some(TokModel::EnvChange { database: p.skip(1) })
        } else {
            None
        }
    } else if tag == TOK_LOGINACK {
        if p.len() == 4 {
            Some(TokModel::LoginAck { version: spec_u32_from_le_bytes(p) })
        } else {
            None
        }
    } else {
        None
    }
}


/// The declared types of a row's cells, in order.
pub open spec fn row_tys(vs: Seq<ValModel>) -> Seq<WireType> {
    vs.map_values(|v: ValModel| v.wire_type())
}

pub proof fn lemma_enc_cols_len(cs: Seq<ColModel>)
    requires
        forall|i: int| 0 <= i < cs.len() ==> col_valid(#[trigger] cs[i]),
    ensures
        enc_cols(cs).len() <= 259 * cs.len(),
    decreases cs.len(),
{
    if cs.len() > 0 {
        assert(col_valid(cs[0]));
        assert(enc_col(cs[0]).len() <= 259);
        assert(forall|i: int| 0 <= i < cs.drop_first().len() ==> col_valid(
            #[trigger] cs.drop_first()[i],
        ));
        lemma_enc_cols_len(cs.drop_first());
    }
}

/// Decoding a column description inverts encoding it.
pub proof fn lemma_col_round_trip(c: ColModel, rest: Seq<u8>)
    requires
        col_valid(c),
    ensures
        dec_col(enc_col(c) + rest) == Some((c, enc_col(c).len() as int)),
{
    let tail = seq![if c.nullable { 1u8 } else { 0u8 }, c.name.len() as u8] + c.name + rest;
    let s = enc_col(c) + rest;
    assert(s =~= enc_type(c.ty) + tail);
    lemma_type_round_trip(c.ty, tail);
    let tn = enc_type(c.ty).len() as int;
    assert(s[tn] == (if c.nullable { 1u8 } else { 0u8 }));
    assert(s[tn + 1] == c.name.len() as u8);
    assert(s.subrange(tn + 2, tn + 2 + c.name.len() as int) =~= c.name);
    assert(enc_col(c).len() == tn + 2 + c.name.len());
}

/// Decoding a column list inverts encoding it.
pub proof fn lemma_cols_round_trip(cs: Seq<ColModel>, rest: Seq<u8>)
    requires
        forall|i: int| 0 <= i < cs.len() ==> col_valid(#[trigger] cs[i]),
    ensures
        dec_cols(enc_cols(cs) + rest, cs.len() as int) == Some(
            (cs, enc_cols(cs).len() as int),
        ),
    decreases cs.len(),
{
    let s = enc_cols(cs) + rest;
    if cs.len() == 0 {
        assert(cs =~= Seq::<ColModel>::empty());
    } else {
        let c0 = cs[0];
        let tail = cs.drop_first();
        assert(s =~= enc_col(c0) + (enc_cols(tail) + rest));
        lemma_col_round_trip(c0, enc_cols(tail) + rest);
        let n0 = enc_col(c0).len() as int;
        assert(dec_col(s) == Some((c0, n0)));
        assert(s.skip(n0) =~= enc_cols(tail) + rest);
        assert(forall|i: int| 0 <= i < tail.len() ==> col_valid(#[trigger] tail[i]));
        lemma_cols_round_trip(tail, rest);
        assert(seq![c0] + tail =~= cs);
        assert(enc_cols(cs).len() == n0 + enc_cols(tail).len());
    }
}

/// Decoding a row's cells at their own types inverts encoding them.
pub proof fn lemma_cells_round_trip(vs: Seq<ValModel>, rest: Seq<u8>)
    requires
        forall|i: int| 0 <= i < vs.len() ==> (#[trigger] vs[i]).valid(),
    ensures
        dec_cells(enc_cells(vs) + rest, row_tys(vs)) == Some(
            (vs, enc_cells(vs).len() as int),
        ),
    decreases vs.len(),
{
    let s = enc_cells(vs) + rest;
    let tys = row_tys(vs);
    if vs.len() == 0 {
        assert(vs =~= Seq::<ValModel>::empty());
        assert(tys.len() == 0);
    } else {
        let v0 = vs[0];
        let tail = vs.drop_first();
        assert(tys[0] == v0.wire_type());
        assert(s =~= enc_cell(v0) + (enc_cells(tail) + rest));
        lemma_cell_round_trip(v0, enc_cells(tail) + rest);
        let n0 = enc_cell(v0).len() as int;
        assert(dec_cell(s, tys[0]) == Some((v0, n0)));
        assert(s.skip(n0) =~= enc_cells(tail) + rest);
        assert(forall|i: int| 0 <= i < tail.len() ==> (#[trigger] tail[i]).valid());
        lemma_cells_round_trip(tail, rest);
        assert(tys.drop_first() =~= row_tys(tail));
        assert(seq![v0] + tail =~= vs);
        assert(enc_cells(vs).len() == n0 + enc_cells(tail).len());
    }
}

/// The payload of a well-formed token fits its four-byte length prefix.
pub proof fn lemma_payload_len(t: TokModel)
    requires
        tok_valid(t),
    ensures
        enc_payload(t).len() <= 0xffffffff,
{
    lemma_auto_spec_u16_to_from_le_bytes();
    lemma_auto_spec_u32_to_from_le_bytes();
    lemma_auto_spec_u64_to_from_le_bytes();
    match t {
        TokModel::ColMeta(cs) => {
            lemma_enc_cols_len(cs);
        },
        _ => {},
    }
}

/// Decoding a token inverts encoding it: for every well-formed token,
/// and (for rows) with the matching column types in effect, decoding
/// the encoding returns the token itself and consumes exactly the
/// encoding, whatever bytes follow.
pub proof fn lemma_token_round_trip(t: TokModel, ctx: Option<Seq<WireType>>, rest: Seq<u8>)
    requires
        tok_valid(t),
        t matches TokModel::Row(vs) ==> ctx == Some(row_tys(vs)),
    ensures
        dec_token(enc_token(t) + rest, ctx) == Some((t, enc_token(t).len() as int)),
{
    lemma_auto_spec_u16_to_from_le_bytes();
    lemma_auto_spec_u32_to_from_le_bytes();
    lemma_auto_spec_u64_to_from_le_bytes();
    lemma_payload_len(t);
    let pay = enc_payload(t);
    let plen = pay.len() as int;
    let s = enc_token(t) + rest;
    assert(s[0] == tag_of(t));
    assert(s.subrange(1, 5) =~= spec_u32_to_le_bytes(pay.len() as u32));
    assert(spec_u32_from_le_bytes(s.subrange(1, 5)) == pay.len() as u32);
    assert(s.len() == 5 + plen + rest.len());
    let p = s.subrange(5, 5 + plen);
    assert(p =~= pay);
    match t {
        TokModel::ColMeta(cs) => {
            assert(p.subrange(0, 2) =~= spec_u16_to_le_bytes(cs.len() as u16));
            assert(spec_u16_from_le_bytes(p.subrange(0, 2)) == cs.len() as u16);
            assert(p.skip(2) =~= enc_cols(cs) + Seq::<u8>::empty());
            lemma_cols_round_trip(cs, Seq::empty());
            assert(enc_cols(cs).len() == p.len() - 2);
        },
        TokModel::Row(vs) => {
            assert(p =~= enc_cells(vs) + Seq::<u8>::empty());
            lemma_cells_round_trip(vs, Seq::empty());
        },
        TokModel::Done { rows_affected, return_code } => {
            match return_code {
                None => {
                    assert(p[0] == 0);
                    assert(p.len() == 9);
                    assert(p.subrange(1, 9) =~= spec_u64_to_le_bytes(rows_affected));
                },
                Some(code) => {
                    assert(p[0] == 1);
                    assert(p.len() == 13);
                    assert(p.subrange(1, 9) =~= spec_u64_to_le_bytes(rows_affected));
                    assert(p.subrange(9, 13) =~= spec_u32_to_le_bytes(u32_of_i32(code)));
                    lemma_i32_bits_round_trip(code);
                },
            }
        },
        TokModel::Error { severity, line, message } => {
            assert(p[0] == severity);
            assert(p.subrange(1, 5) =~= spec_u32_to_le_bytes(line));
            assert(p.subrange(5, 7) =~= spec_u16_to_le_bytes(message.len() as u16));
            assert(spec_u16_from_le_bytes(p.subrange(5, 7)) == message.len() as u16);
            assert(p.len() == 7 + message.len());
            assert(p.skip(7) =~= message);
        },
        TokModel::EnvChange { database } => {
            assert(p[0] == database.len() as u8);
            assert(p.len() == 1 + database.len());
            assert(p.skip(1) =~= database);
        },
        TokModel::LoginAck { version } => {
            assert(p =~= spec_u32_to_le_bytes(version));
            assert(p.len() == 4);
        },
    }
}

pub proof fn lemma_enc_cols_snoc(cs: Seq<ColModel>, c: ColModel)
    ensures
        enc_cols(cs.push(c)) == enc_cols(cs) + enc_col(c),
    decreases cs.len(),
{
    if cs.len() == 0 {
        assert(cs.push(c)[0] == c);
        assert(cs.push(c).drop_first() =~= Seq::<ColModel>::empty());
        assert(enc_cols(Seq::<ColModel>::empty()) == Seq::<u8>::empty());
        assert(enc_cols(cs) == Seq::<u8>::empty());
        assert(enc_cols(cs.push(c)) == enc_col(c) + Seq::<u8>::empty());
        assert(enc_cols(cs.push(c)) =~= enc_cols(cs) + enc_col(c));
    } else {
        assert(cs.push(c).drop_first() =~= cs.drop_first().push(c));
        lemma_enc_cols_snoc(cs.drop_first(), c);
        assert(enc_cols(cs.push(c)) =~= enc_cols(cs) + enc_col(c));
    }
}

pub proof fn lemma_enc_cells_snoc(vs: Seq<ValModel>, v: ValModel)
    ensures
        enc_cells(vs.push(v)) == enc_cells(vs) + enc_cell(v),
    decreases vs.len(),
{
    if vs.len() == 0 {
        assert(vs.push(v)[0] == v);
        assert(vs.push(v).drop_first() =~= Seq::<ValModel>::empty());
        assert(enc_cells(Seq::<ValModel>::empty()) == Seq::<u8>::empty());
        assert(enc_cells(vs) == Seq::<u8>::empty());
        assert(enc_cells(vs.push(v)) == enc_cell(v) + Seq::<u8>::empty());
        assert(enc_cells(vs.push(v)) =~= enc_cells(vs) + enc_cell(v));
    } else {
        assert(vs.push(v).drop_first() =~= vs.drop_first().push(v));
        lemma_enc_cells_snoc(vs.drop_first(), v);
        assert(enc_cells(vs.push(v)) =~= enc_cells(vs) + enc_cell(v));
    }
}

/// Append the encoding of one token to `out`. A token outside the
/// format's limits is rejected whole: nothing is appended.
pub fn encode_token(out: &mut Vec<u8>, t: &Token) -> (r: Result<usize, EncodeError>)
    ensures
        (r is Ok) == tok_valid(t@),
        tok_valid(t@) ==> final(out)@ == old(out)@ + enc_token(t@) && r == Ok::<
            usize,
            EncodeError,
        >(enc_token(t@).len() as usize),
        (!tok_valid(t@)) ==> final(out)@ == old(out)@,
{
    let start = out.len();
    let mut pay: Vec<u8> = Vec::new();
    match t {
        Token::ColMeta(cols) => {
            let ghost cs = t@->ColMeta_0;
            proof {
                assert(t@ == TokModel::ColMeta(cols_view(cols@)));
                assert(cs.len() == cols@.len());
                assert forall|j: int| 0 <= j < cs.len() implies cs[j] == cols@[j]@ by {
                    assert(cs[j] == cols_view(cols@)[j]);
                };
            }
            if cols.len() > MAX_COLUMNS {
                return Err(EncodeError::ValueOutOfRange);
            }
            put_u16(&mut pay, cols.len() as u16);
            let mut i: usize = 0;
            while i < cols.len()
                invariant
                    t@ == TokModel::ColMeta(cs),
                    cs.len() == cols@.len() <= MAX_COLUMNS,
                    forall|j: int| 0 <= j < cs.len() ==> #[trigger] cs[j] == cols@[j]@,
                    i <= cols@.len(),
                    pay@ == spec_u16_to_le_bytes(cs.len() as u16) + enc_cols(
                        cs.take(i as int),
                    ),
                    forall|j: int| 0 <= j < i ==> col_valid(#[trigger] cs[j]),
                decreases cols@.len() - i,
            {
                let c = &cols[i];
                proof {
                    assert(cs[i as int] == cols@[i as int]@);
                }
                if c.name.len() > MAX_COLUMN_NAME {
                    proof {
                        assert(!col_valid(cs[i as int]));
                    }
                    return Err(EncodeError::ValueOutOfRange);
                }
                if !check_wire_type(c.ty) {
                    proof {
                        assert(!col_valid(cs[i as int]));
                    }
                    return Err(EncodeError::ValueOutOfRange);
                }
                proof {
                    assert(cs[i as int] == c@);
                    lemma_enc_cols_snoc(cs.take(i as int), c@);
                    assert(cs.take(i as int).push(c@) =~= cs.take(i as int + 1));
                }
                encode_type(&mut pay, c.ty);
                if c.nullable {
                    pay.push(1);
                } else {
                    pay.push(0);
                }
                pay.push(c.name.len() as u8);
                pay.extend_from_slice(c.name.as_slice());
                proof {
                    assert(pay@ =~= spec_u16_to_le_bytes(cs.len() as u16) + enc_cols(
                        cs.take(i as int + 1),
                    ));
                }
                i += 1;
            }
            proof {
                assert(cs.take(cols@.len() as int) =~= cs);
            }
        },
        Token::Row(cells) => {
            let ghost vs = t@->Row_0;
            proof {
                assert(t@ == TokModel::Row(vals_view(cells@)));
                assert(vs.len() == cells@.len());
                assert forall|j: int| 0 <= j < vs.len() implies vs[j] == cells@[j]@ by {
                    assert(vs[j] == vals_view(cells@)[j]);
                };
            }
            if cells.len() > MAX_COLUMNS {
                return Err(EncodeError::ValueOutOfRange);
            }
            let mut i: usize = 0;
            while i < cells.len()
                invariant
                    t@ == TokModel::Row(vs),
                    vs.len() == cells@.len() <= MAX_COLUMNS,
                    forall|j: int| 0 <= j < vs.len() ==> #[trigger] vs[j] == cells@[j]@,
                    i <= cells@.len(),
                    pay@ == enc_cells(vs.take(i as int)),
                    forall|j: int| 0 <= j < i ==> (#[trigger] vs[j]).valid(),
                decreases cells@.len() - i,
            {
                proof {
                    assert(vs[i as int] == cells@[i as int]@);
                    assert(cells@[i as int]@ == cells[i as int]@);
                    lemma_enc_cells_snoc(vs.take(i as int), vs[i as int]);
                    assert(vs.take(i as int).push(vs[i as int]) =~= vs.take(i as int + 1));
                }
                match encode_cell(&mut pay, &cells[i]) {
                    Ok(_) => {},
                    Err(e) => {
                        proof {
                            assert(!vs[i as int].valid());
                        }
                        return Err(e);
                    },
                }
                i += 1;
            }
            proof {
                assert(vs.take(cells@.len() as int) =~= vs);
            }
        },
        Token::Done { rows_affected, return_code } => {
            match return_code {
                None => {
                    pay.push(0);
                    put_u64(&mut pay, *rows_affected);
                },
                Some(code) => {
                    pay.push(1);
                    put_u64(&mut pay, *rows_affected);
                    put_u32(&mut pay, *code as u32);
                },
            }
            proof {
                assert(pay@ =~= enc_payload(t@));
            }
        },
        Token::Error { severity, line, message } => {
            if message.len() > MAX_ERROR_MESSAGE {
                return Err(EncodeError::ValueOutOfRange);
            }
            pay.push(*severity);
            put_u32(&mut pay, *line);
            put_u16(&mut pay, message.len() as u16);
            pay.extend_from_slice(message.as_slice());
            proof {
                assert(pay@ =~= enc_payload(t@));
            }
        },
        Token::EnvChange { database } => {
            if database.len() > MAX_DATABASE_NAME {
                return Err(EncodeError::ValueOutOfRange);
            }
            pay.push(database.len() as u8);
            pay.extend_from_slice(database.as_slice());
            proof {
                assert(pay@ =~= enc_payload(t@));
            }
        },
        Token::LoginAck { version } => {
            put_u32(&mut pay, *version);
            proof {
                assert(pay@ =~= enc_payload(t@));
            }
        },
    }
    if pay.len() > 0xffffffffusize {
        proof {
            if tok_valid(t@) {
                lemma_payload_len(t@);
            }
        }
        return Err(EncodeError::ValueOutOfRange);
    }
    let tag = match t {
        Token::ColMeta(_) => TOK_META,
        Token::Row(_) => TOK_ROW,
        Token::Done { .. } => TOK_DONE,
        Token::Error { .. } => TOK_ERROR,
        Token::EnvChange { .. } => TOK_ENV,
        Token::LoginAck { .. } => TOK_LOGINACK,
    };
    let n = pay.len();
    out.push(tag);
    put_u32(out, n as u32);
    out.append(&mut pay);
    proof {
        assert(out@ =~= old(out)@ + enc_token(t@));
    }
    Ok(out.len() - start)
}

/// The column types currently in effect, as seen by the decoder.
pub open spec fn ctx_view(cols: Option<&Vec<ColumnDesc>>) -> Option<Seq<WireType>> {
    match cols {
        None => None,
        Some(cd) => Some(tys_of(cols_view(cd@))),
    }
}

fn decode_meta_payload(p: &[u8]) -> (r: Result<Token, DecodeError>)
    ensures
        match r {
            Ok(tok) => dec_payload(TOK_META, p@, None) == Some(tok@),
            Err(e) => dec_payload(TOK_META, p@, None) is None && e == DecodeError::Malformed,
        },
{
    let plen = p.len();
    let ghost sp = p@;
    if plen < 2 {
        return Err(DecodeError::Malformed);
    }
    let cnt = read_u16(p, 0) as usize;
    let ghost cnt0 = cnt as int;
    let mut acc: Vec<ColumnDesc> = Vec::new();
    let mut pos: usize = 2;
    let mut i: usize = 0;
    proof {
        let r0 = dec_cols(sp.skip(2), cnt0);
        match r0 {
            Option::None => {},
            Option::Some(pr) => {
                assert(Seq::<ColModel>::empty() + pr.0 =~= pr.0);
            },
        }
        assert(cols_view(acc@) =~= Seq::<ColModel>::empty());
    }
    while i < cnt
        invariant
            sp == p@,
            plen == sp.len(),
            cnt0 == cnt as int,
            cnt0 == spec_u16_from_le_bytes(sp.subrange(0, 2)) as int,
            2 <= pos <= plen,
            i <= cnt,
            acc@.len() == i,
            dec_cols(sp.skip(2), cnt0) == (match dec_cols(sp.skip(pos as int), cnt0 - i) {
                Option::None => Option::<(Seq<ColModel>, int)>::None,
                Option::Some(pr) => Option::Some(
                    (cols_view(acc@) + pr.0, (pos - 2) as int + pr.1),
                ),
            }),
        decreases cnt - i,
    {
        let rem = slice_subrange(p, pos, plen);
        proof {
            assert(rem@ =~= sp.skip(pos as int));
        }
        let tyn = decode_type(rem);
        let (ty, tn) = match tyn {
            Ok(x) => x,
            Err(_) => {
                proof {
                    assert(dec_col(sp.skip(pos as int)) is None);
                    assert(dec_cols(sp.skip(pos as int), cnt0 - i) is None);
                }
                return Err(DecodeError::Malformed);
            },
        };
        if plen - pos - tn < 2 {
            proof {
                assert(dec_col(sp.skip(pos as int)) is None);
                assert(dec_cols(sp.skip(pos as int), cnt0 - i) is None);
            }
            return Err(DecodeError::Malformed);
        }
        let nul = *slice_index_get(p, pos + tn);
        proof {
            assert(sp.skip(pos as int)[tn as int] == sp[pos as int + tn as int]);
        }
        if nul > 1 {
            proof {
                assert(dec_col(sp.skip(pos as int)) is None);
                assert(dec_cols(sp.skip(pos as int), cnt0 - i) is None);
            }
            return Err(DecodeError::Malformed);
        }
        let nl = *slice_index_get(p, pos + tn + 1) as usize;
        proof {
            assert(sp.skip(pos as int)[tn as int + 1] == sp[pos as int + tn as int + 1]);
        }
        if plen - (pos + tn + 2) < nl {
            proof {
                assert(dec_col(sp.skip(pos as int)) is None);
                assert(dec_cols(sp.skip(pos as int), cnt0 - i) is None);
            }
            return Err(DecodeError::Malformed);
        }
        let name = slice_to_vec(slice_subrange(p, pos + tn + 2, pos + tn + 2 + nl));
        let cd = ColumnDesc { name, ty, nullable: nul == 1 };
        let k = tn + 2 + nl;
        proof {
            assert(sp.skip(pos as int).subrange(tn as int + 2, tn as int + 2 + nl as int)
                =~= sp.subrange(
                pos as int + tn as int + 2,
                pos as int + tn as int + 2 + nl as int,
            ));
            assert(dec_col(sp.skip(pos as int)) == Some((cd@, k as int)));
            assert(sp.skip(pos as int).skip(k as int) =~= sp.skip(pos as int + k as int));
            let r1 = dec_cols(sp.skip(pos as int + k as int), cnt0 - i - 1);
            match r1 {
                Option::None => {},
                Option::Some(pr) => {
                    assert(cols_view(acc@) + (seq![cd@] + pr.0) =~= (cols_view(acc@).push(cd@))
                        + pr.0);
                },
            }
            assert(cols_view(acc@.push(cd)) =~= cols_view(acc@).push(cd@));
        }
        acc.push(cd);
        pos = pos + k;
        i += 1;
    }
    proof {
        assert(cols_view(acc@) + Seq::<ColModel>::empty() =~= cols_view(acc@));
        assert(dec_cols(sp.skip(2), cnt0) == Some((cols_view(acc@), (pos - 2) as int)));
    }
    if pos != plen {
        return Err(DecodeError::Malformed);
    }
    Ok(Token::ColMeta(acc))
}

fn decode_row_payload(p: &[u8], cd: &Vec<ColumnDesc>) -> (r: Result<Token, DecodeError>)
    requires
        forall|j: int| 0 <= j < cd@.len() ==> wire_type_valid((#[trigger] cd@[j]).ty),
    ensures
        match r {
            Ok(tok) => dec_payload(TOK_ROW, p@, Some(tys_of(cols_view(cd@)))) == Some(tok@),
            Err(e) => dec_payload(TOK_ROW, p@, Some(tys_of(cols_view(cd@)))) is None && e
                == DecodeError::Malformed,
        },
{
    let plen = p.len();
    let ghost sp = p@;
    let ghost tys = tys_of(cols_view(cd@));
    let n = cd.len();
    proof {
        assert(tys.len() == cd@.len());
        assert forall|j: int| 0 <= j < tys.len() implies tys[j] == cd@[j].ty by {
            assert(cols_view(cd@)[j] == cd@[j]@);
            assert(tys[j] == cols_view(cd@)[j].ty);
        };
        let r0 = dec_cells(sp, tys);
        match r0 {
            Option::None => {},
            Option::Some(pr) => {
                assert(Seq::<ValModel>::empty() + pr.0 =~= pr.0);
            },
        }
        assert(sp.skip(0) =~= sp);
        assert(tys.skip(0) =~= tys);
        assert(vals_view(Seq::<Value>::empty()) =~= Seq::<ValModel>::empty());
    }
    let mut acc: Vec<Value> = Vec::new();
    let mut pos: usize = 0;
    let mut i: usize = 0;
    while i < n
        invariant
            sp == p@,
            plen == sp.len(),
            n == cd@.len(),
            tys == tys_of(cols_view(cd@)),
            tys.len() == n,
            forall|j: int| 0 <= j < tys.len() ==> #[trigger] tys[j] == cd@[j].ty,
            forall|j: int| 0 <= j < cd@.len() ==> wire_type_valid((#[trigger] cd@[j]).ty),
            pos <= plen,
            i <= n,
            acc@.len() == i,
            dec_cells(sp, tys) == (match dec_cells(sp.skip(pos as int), tys.skip(i as int)) {
                Option::None => Option::<(Seq<ValModel>, int)>::None,
                Option::Some(pr) => Option::Some(
                    (vals_view(acc@) + pr.0, pos as int + pr.1),
                ),
            }),
        decreases n - i,
    {
        let rem = slice_subrange(p, pos, plen);
        proof {
            assert(rem@ =~= sp.skip(pos as int));
            assert(tys.skip(i as int)[0] == tys[i as int]);
        }
        let ty = cd[i].ty;
        match decode_cell(rem, ty) {
            Ok((v, k)) => {
                proof {
                    assert(dec_cell(sp.skip(pos as int), ty) == Some((v@, k as int)));
                    assert(sp.skip(pos as int).skip(k as int) =~= sp.skip(
                        pos as int + k as int,
                    ));
                    assert(tys.skip(i as int).drop_first() =~= tys.skip(i as int + 1));
                    let r1 = dec_cells(sp.skip(pos as int + k as int), tys.skip(i as int + 1));
                    match r1 {
                        Option::None => {},
                        Option::Some(pr) => {
                            assert(vals_view(acc@) + (seq![v@] + pr.0) =~= (vals_view(
                                acc@,
                            ).push(v@)) + pr.0);
                        },
                    }
                    assert(vals_view(acc@.push(v)) =~= vals_view(acc@).push(v@));
                }
                acc.push(v);
                pos = pos + k;
                i += 1;
            },
            Err(_) => {
                proof {
                    assert(dec_cell(sp.skip(pos as int), tys[i as int]) is None);
                    assert(dec_cells(sp.skip(pos as int), tys.skip(i as int)) is None);
                }
                return Err(DecodeError::Malformed);
            },
        }
    }
    proof {
        assert(tys.skip(n as int) =~= Seq::<WireType>::empty());
        assert(vals_view(acc@) + Seq::<ValModel>::empty() =~= vals_view(acc@));
        assert(dec_cells(sp, tys) == Some((vals_view(acc@), pos as int)));
    }
    if pos != plen {
        return Err(DecodeError::Malformed);
    }
    Ok(Token::Row(acc))
}

/// Decode the token at the head of `input`, with the column
/// descriptions of the current result set (if any) supplying row cell
/// types. `NeedMore` reports a short buffer; `Malformed` reports bytes
/// that cannot encode a token here.
pub fn decode_token(input: &[u8], cols: Option<&Vec<ColumnDesc>>) -> (r: Result<
    (Token, usize),
    DecodeError,
>)
    requires
        match cols {
            None => true,
            Some(cd) => forall|j: int|
                0 <= j < cd@.len() ==> wire_type_valid((#[trigger] cd@[j]).ty),
        },
    ensures
        match r {
            Ok(p) => dec_token(input@, ctx_view(cols)) == Some((p.0@, p.1 as int)) && p.1
                <= input@.len(),
            Err(DecodeError::NeedMore) => dec_token(input@, ctx_view(cols)) is None
                && token_more(input@),
            Err(DecodeError::Malformed) => dec_token(input@, ctx_view(cols)) is None && (
            !token_more(input@)),
        },
{
    let len = input.len();
    if len < 5 {
        return Err(DecodeError::NeedMore);
    }
    let tag = *slice_index_get(input, 0);
    let plen32 = read_u32(input, 1);
    let plen = plen32 as usize;
    if len - 5 < plen {
        return Err(DecodeError::NeedMore);
    }
    let p = slice_subrange(input, 5, 5 + plen);
    let ghost sp = input@.subrange(5, 5 + plen as int);
    proof {
        assert(p@ =~= sp);
    }
    let consumed = 5 + plen;
    if tag == TOK_META {
        match decode_meta_payload(p) {
            Ok(tok) => {
                proof {
                    assert(dec_payload(tag, sp, ctx_view(cols)) == dec_payload(
                        TOK_META,
                        sp,
                        None,
                    ));
                }
                Ok((tok, consumed))
            },
            Err(_) => {
                proof {
                    assert(dec_payload(tag, sp, ctx_view(cols)) == dec_payload(
                        TOK_META,
                        sp,
                        None,
                    ));
                }
                Err(DecodeError::Malformed)
            },
        }
    } else if tag == TOK_ROW {
        match cols {
            None => Err(DecodeError::Malformed),
            Some(cd) => {
                match decode_row_payload(p, cd) {
                    Ok(tok) => Ok((tok, consumed)),
                    Err(_) => Err(DecodeError::Malformed),
                }
            },
        }
    } else if tag == TOK_DONE {
        if plen == 9 {
            let flag = *slice_index_get(p, 0);
            if flag != 0 {
                return Err(DecodeError::Malformed);
            }
            let rows = read_u64(p, 1);
            proof {
                assert(sp.subrange(1, 9) =~= p@.subrange(1, 9));
            }
            Ok((Token::Done { rows_affected: rows, return_code: None }, consumed))
        } else if plen == 13 {
            let flag = *slice_index_get(p, 0);
            if flag != 1 {
                return Err(DecodeError::Malformed);
            }
            let rows = read_u64(p, 1);
            let code = read_u32(p, 9);
            proof {
                assert(sp.subrange(1, 9) =~= p@.subrange(1, 9));
                assert(sp.subrange(9, 13) =~= p@.subrange(9, 13));
            }
            Ok(
                (
                    Token::Done { rows_affected: rows, return_code: Some(code as i32) },
                    consumed,
                ),
            )
        } else {
            Err(DecodeError::Malformed)
        }
    } else if tag == TOK_ERROR {
        if plen < 7 {
            return Err(DecodeError::Malformed);
        }
        let ml = read_u16(p, 5) as usize;
        proof {
            assert(sp.subrange(5, 7) =~= p@.subrange(5, 7));
        }
        if plen - 7 != ml {
            return Err(DecodeError::Malformed);
        }
        let severity = *slice_index_get(p, 0);
        let line = read_u32(p, 1);
        let message = slice_to_vec(slice_subrange(p, 7, plen));
        proof {
            assert(sp.subrange(1, 5) =~= p@.subrange(1, 5));
            assert(message@ =~= sp.skip(7));
        }
        Ok((Token::Error { severity, line, message }, consumed))
    } else if tag == TOK_ENV {
        if plen < 1 {
            return Err(DecodeError::Malformed);
        }
        let dbl = *slice_index_get(p, 0) as usize;
        if plen - 1 != dbl {
            return Err(DecodeError::Malformed);
        }
        let database = slice_to_vec(slice_subrange(p, 1, plen));
        proof {
            assert(database@ =~= sp.skip(1));
        }
        Ok((Token::EnvChange { database }, consumed))
    } else if tag == TOK_LOGINACK {
        if plen != 4 {
            return Err(DecodeError::Malformed);
        }
        let version = read_u32(p, 0);
        proof {
            assert(p@.subrange(0, 4) =~= sp);
        }
        Ok((Token::LoginAck { version }, consumed))
    } else {
        Err(DecodeError::Malformed)
    }
}

/// The models of a token list, in order.
pub open spec fn toks_view(ts: Seq<Token>) -> Seq<TokModel> {
    ts.map_values(|t: Token| t@)
}

/// Specification-level decoder of a whole buffer into tokens, rows
/// excluded (no metadata context): `None` unless the buffer is exactly
/// a sequence of well-formed non-row tokens.
pub open spec fn dec_tokens(s: Seq<u8>) -> Option<Seq<TokModel>>
    decreases s.len(),
{
    if s.len() == 0 {
        Some(Seq::empty())
    } else {
        match dec_token(s, None) {
            None => None,
            Some((t, n)) => {
                if n < 5 || n > s.len() {
                    None
                } else {
                    match dec_tokens(s.skip(n)) {
                        None => None,
                        Some(ts) => Some(seq![t] + ts),
                    }
                }
            },
        }
    }
}

/// Decode a complete buffer into its sequence of tokens (rows
/// excluded, as in a handshake response). Fails unless the buffer is
/// consumed exactly.
pub fn decode_tokens(payload: &[u8]) -> (r: Result<Vec<Token>, DecodeError>)
    ensures
        match r {
            Ok(ts) => dec_tokens(payload@) == Some(toks_view(ts@)),
            Err(e) => dec_tokens(payload@) is None && e == DecodeError::Malformed,
        },
{
    let ghost sp = payload@;
    let len = payload.len();
    let mut acc: Vec<Token> = Vec::new();
    let mut pos: usize = 0;
    proof {
        assert(sp.skip(0) =~= sp);
        assert(toks_view(acc@) =~= Seq::<TokModel>::empty());
        let r0 = dec_tokens(sp);
        match r0 {
            Option::None => {},
            Option::Some(ts) => {
                assert(Seq::<TokModel>::empty() + ts =~= ts);
            },
        }
    }
    while pos < len
        invariant
            sp == payload@,
            len == sp.len(),
            pos <= len,
            dec_tokens(sp) == (match dec_tokens(sp.skip(pos as int)) {
                Option::None => Option::<Seq<TokModel>>::None,
                Option::Some(ts) => Option::Some(toks_view(acc@) + ts),
            }),
        decreases len - pos,
    {
        let rem = slice_subrange(payload, pos, len);
        proof {
            assert(rem@ =~= sp.skip(pos as int));
        }
        match decode_token(rem, None) {
            Ok((tok, n)) => {
                proof {
                    assert(dec_token(sp.skip(pos as int), None) == Some((tok@, n as int)));
                    assert(n as int == 5 + spec_u32_from_le_bytes(
                        sp.skip(pos as int).subrange(1, 5),
                    ) as int);
                    assert(sp.skip(pos as int).skip(n as int) =~= sp.skip(
                        pos as int + n as int,
                    ));
                    let r1 = dec_tokens(sp.skip(pos as int + n as int));
                    match r1 {
                        Option::None => {},
                        Option::Some(ts) => {
                            assert(toks_view(acc@) + (seq![tok@] + ts) =~= (toks_view(
                                acc@,
                            ).push(tok@)) + ts);
                        },
                    }
                    assert(toks_view(acc@.push(tok)) =~= toks_view(acc@).push(tok@));
                }
                acc.push(tok);
                pos = pos + n;
            },
            Err(_) => {
                return Err(DecodeError::Malformed);
            },
        }
    }
    proof {
        assert(sp.skip(pos as int) =~= Seq::<u8>::empty());
        assert(toks_view(acc@) + Seq::<TokModel>::empty() =~= toks_view(acc@));
    }
    Ok(acc)
}
} // verus!

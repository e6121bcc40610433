//! Requests: a SQL batch or a parameterised (RPC-style) call.
//!
//! A statement is immutable once built: its text and, for a
//! parameterised call, an ordered list of typed parameters, each with
//! an optional name and a direction. The executor encodes a statement
//! into one request message; the caller supplies each parameter's wire
//! type through its [`Value`], nothing is inferred at run time. An
//! out-of-range value fails the whole encoding: a request is either
//! fully framed or not produced at all.
//!
//! An output parameter's post-execution value comes back through the
//! ordinary result stream (as rows of a result set), not through a
//! separate channel: the executor exposes that protocol quirk rather
//! than hiding it.

use vstd::prelude::*;
use vstd::bytes::{spec_u16_to_le_bytes, spec_u32_to_le_bytes};
use crate::bytes::{put_u16, put_u32};
use crate::value::{Value, ValModel};
use crate::codec::{enc_type, enc_cell, encode_type, encode_cell, EncodeError};

verus! {

/// Message kind byte of a simple batch.
pub const REQ_BATCH: u8 = 0x01;

/// Message kind byte of a parameterised call.
pub const REQ_RPC: u8 = 0x02;

/// Longest parameter name, in bytes.
pub const MAX_PARAM_NAME: usize = 255;

/// Most parameters one request can carry.
pub const MAX_PARAMS: usize = 65535;

/// Longest statement text, in bytes.
pub const MAX_TEXT: usize = 0xffffffff;

/// Direction of a parameter.
#[derive(Clone, Copy, Debug, PartialEq, Eq, Structural)]
pub enum ParamDirection {
    /// Supplied by the caller.
    Input,
    /// Filled by the server; its value is read back out of the result
    /// stream by the caller.
    Output,
}

/// One typed parameter of a parameterised call.
#[derive(Debug, PartialEq, Eq)]
pub struct Param {
    /// Parameter name as raw single-byte characters (may be empty for
    /// positional binding).
    pub name: Vec<u8>,
    /// The typed value; for an output parameter, the initial value.
    pub value: Value,
    pub direction: ParamDirection,
}

/// Mathematical model of a parameter.
pub struct ParamModel {
    pub name: Seq<u8>,
    pub value: ValModel,
    pub direction: ParamDirection,
}

impl View for Param {
    type V = ParamModel;

    open spec fn view(&self) -> ParamModel {
        ParamModel { name: self.name@, value: self.value@, direction: self.direction }
    }
}

/// A statement: batch text, or procedure text plus parameters.
#[derive(Debug, PartialEq, Eq)]
pub struct Statement {
    /// SQL text or procedure name, as raw single-byte characters.
    pub text: Vec<u8>,
    /// Empty for a simple batch.
    pub params: Vec<Param>,
}

/// Mathematical model of a statement.
pub struct StmtModel {
    pub text: Seq<u8>,
    pub params: Seq<ParamModel>,
}

impl View for Statement {
    type V = StmtModel;

    open spec fn view(&self) -> StmtModel {
        StmtModel { text: self.text@, params: params_view(self.params@) }
    }
}

/// The models of a parameter list, in order.
pub open spec fn params_view(ps: Seq<Param>) -> Seq<ParamModel> {
    ps.map_values(|p: Param| p@)
}

impl Statement {
    /// A simple batch: raw SQL text, no parameters.
    pub fn batch(text: Vec<u8>) -> (st: Statement)
        ensures
            st@.text == text@,
            st@.params.len() == 0,
    {
        let st = Statement { text, params: Vec::new() };
        proof {
            assert(params_view(st.params@) =~= Seq::<ParamModel>::empty());
        }
        st
    }

    /// A parameterised call: procedure name or ad-hoc SQL plus an
    /// ordered parameter list.
    pub fn rpc(text: Vec<u8>, params: Vec<Param>) -> (st: Statement)
        ensures
            st@.text == text@,
            st@.params == params_view(params@),
    {
        Statement { text, params }
    }
}

/// The direction byte of a parameter.
pub open spec fn dir_byte(d: ParamDirection) -> u8 {
    match d {
        ParamDirection::Input => 0,
        ParamDirection::Output => 1,
    }
}

/// Whether a parameter is within the format's limits.
pub open spec fn param_valid(p: ParamModel) -> bool {
    p.name.len() <= MAX_PARAM_NAME && p.value.valid()
}

/// Whether a statement is within the format's limits.
pub open spec fn stmt_valid(st: StmtModel) -> bool {
    &&& st.text.len() <= MAX_TEXT
    &&& st.params.len() <= MAX_PARAMS
    &&& (forall|i: int| 0 <= i < st.params.len() ==> param_valid(#[trigger] st.params[i]))
}

/// The encoding of one parameter: name, direction, declared type, and
/// the value cell.
pub open spec fn enc_param(p: ParamModel) -> Seq<u8> {
    seq![p.name.len() as u8] + p.name + seq![dir_byte(p.direction)] + enc_type(
        p.value.wire_type(),
    ) + enc_cell(p.value)
}

/// The encoding of a parameter list.
pub open spec fn enc_params(ps: Seq<ParamModel>) -> Seq<u8>
    decreases ps.len(),
{
    if ps.len() == 0 {
        Seq::empty()
    } else {
        enc_param(ps[0]) + enc_params(ps.drop_first())
    }
}

pub proof fn lemma_enc_params_snoc(ps: Seq<ParamModel>, p: ParamModel)
    ensures
        enc_params(ps.push(p)) == enc_params(ps) + enc_param(p),
    decreases ps.len(),
{
    if ps.len() == 0 {
        assert(ps.push(p)[0] == p);
        assert(ps.push(p).drop_first() =~= Seq::<ParamModel>::empty());
        assert(enc_params(Seq::<ParamModel>::empty()) == Seq::<u8>::empty());
        assert(enc_params(ps) == Seq::<u8>::empty());
        assert(enc_params(ps.push(p)) == enc_param(p) + Seq::<u8>::empty());
        assert(enc_params(ps.push(p)) =~= enc_params(ps) + enc_param(p));
    } else {
        assert(ps.push(p).drop_first() =~= ps.drop_first().push(p));
        lemma_enc_params_snoc(ps.drop_first(), p);
        assert(enc_params(ps.push(p)) =~= enc_params(ps) + enc_param(p));
    }
}

/// The request message encoding a statement: a batch message when the
/// parameter list is empty, a parameterised-call message otherwise.
pub open spec fn enc_request(st: StmtModel) -> Seq<u8> {
    if st.params.len() == 0 {
        seq![REQ_BATCH] + spec_u32_to_le_bytes(st.text.len() as u32) + st.text
    } else {
        seq![REQ_RPC] + spec_u32_to_le_bytes(st.text.len() as u32) + st.text
            + spec_u16_to_le_bytes(st.params.len() as u16) + enc_params(st.params)
    }
}

/// Encode a statement into one request message. A statement outside
/// the format's limits is rejected whole: no bytes are produced.
pub fn encode_request(st: &Statement) -> (r: Result<Vec<u8>, EncodeError>)
    ensures
        (r is Ok) == stmt_valid(st@),
        match r {
            Ok(msg) => msg@ == enc_request(st@),
            Err(e) => e == EncodeError::ValueOutOfRange,
        },
{
    let mut out: Vec<u8> = Vec::new();
    let ghost ps = st@.params;
    proof {
        assert(ps.len() == st.params@.len());
        assert forall|j: int| 0 <= j < ps.len() implies ps[j] == st.params@[j]@ by {
            assert(ps[j] == params_view(st.params@)[j]);
        };
    }
    if st.text.len() > MAX_TEXT {
        return Err(EncodeError::ValueOutOfRange);
    }
    if st.params.len() > MAX_PARAMS {
        return Err(EncodeError::ValueOutOfRange);
    }
    if st.params.len() == 0 {
        out.push(REQ_BATCH);
        put_u32(&mut out, st.text.len() as u32);
        out.extend_from_slice(st.text.as_slice());
        proof {
            assert(out@ =~= enc_request(st@));
        }
        return Ok(out);
    }
    out.push(REQ_RPC);
    put_u32(&mut out, st.text.len() as u32);
    out.extend_from_slice(st.text.as_slice());
    put_u16(&mut out, st.params.len() as u16);
    let ghost head = out@;
    let n = st.params.len();
    let mut i: usize = 0;
    while i < n
        invariant
            ps == st@.params,
            ps.len() == st.params@.len() == n,
            forall|j: int| 0 <= j < ps.len() ==> #[trigger] ps[j] == st.params@[j]@,
            i <= n,
            out@ == head + enc_params(ps.take(i as int)),
            forall|j: int| 0 <= j < i ==> param_valid(#[trigger] ps[j]),
        decreases n - i,
    {
        let p = &st.params[i];
        proof {
            assert(ps[i as int] == p@);
        }
        if p.name.len() > MAX_PARAM_NAME {
            return Err(EncodeError::ValueOutOfRange);
        }
        proof {
            lemma_enc_params_snoc(ps.take(i as int), p@);
            assert(ps.take(i as int).push(p@) =~= ps.take(i as int + 1));
        }
        out.push(p.name.len() as u8);
        out.extend_from_slice(p.name.as_slice());
        match p.direction {
            ParamDirection::Input => out.push(0),
            ParamDirection::Output => out.push(1),
        }
        encode_type(&mut out, p.value.wire_type());
        match encode_cell(&mut out, &p.value) {
            Ok(_) => {},
            Err(e) => {
                proof {
                    assert(!param_valid(ps[i as int]));
                }
                return Err(e);
            },
        }
        proof {
            assert(out@ =~= head + enc_params(ps.take(i as int + 1)));
        }
        i += 1;
    }
    proof {
        assert(ps.take(n as int) =~= ps);
        assert(out@ =~= enc_request(st@));
    }
    Ok(out)
}

} // verus!

//! Packet framing.
//!
//! A message (a request or a handshake payload) travels as one or more
//! packets, each `[type, status, total-length (2 bytes)]` followed by
//! up to [`MAX_PACKET_PAYLOAD`] payload bytes. The status byte of the
//! last packet of a message is [`PKT_EOM`]; earlier packets carry `0`.
//! The message's type is the first packet's type byte.
//!
//! [`frame_message`] splits a message; [`unframe_message`] reassembles
//! one from the head of a receive buffer, telling a short buffer
//! (`NeedMore`) from a malformed packet header (`Malformed`).

use vstd::prelude::*;
use vstd::bytes::{
    spec_u16_to_le_bytes, spec_u16_from_le_bytes, lemma_auto_spec_u16_to_from_le_bytes,
};
use vstd::slice::{slice_subrange, slice_index_get};
use crate::bytes::{put_u16, read_u16};
use crate::codec::DecodeError;

verus! {

/// Most payload bytes one packet can carry.
pub const MAX_PACKET_PAYLOAD: usize = 4088;

/// Status byte of the last packet of a message.
pub const PKT_EOM: u8 = 1;

/// Packet type of a pre-login message.
pub const PT_PRELOGIN: u8 = 0x12;

/// Packet type of a login message.
pub const PT_LOGIN: u8 = 0x10;

/// Packet type of a request (batch or parameterised call).
pub const PT_REQUEST: u8 = 0x03;

/// Packet type of a server response.
pub const PT_RESPONSE: u8 = 0x04;

/// The encoding of one packet: header and payload.
pub open spec fn enc_packet(ptype: u8, status: u8, payload: Seq<u8>) -> Seq<u8> {
    seq![ptype, status] + spec_u16_to_le_bytes((4 + payload.len()) as u16) + payload
}

/// The framing of a whole message into packets.
pub open spec fn enc_packets(ptype: u8, msg: Seq<u8>) -> Seq<u8>
    decreases msg.len(),
{
    if msg.len() <= MAX_PACKET_PAYLOAD {
        enc_packet(ptype, PKT_EOM, msg)
    } else {
        enc_packet(ptype, 0, msg.take(MAX_PACKET_PAYLOAD as int)) + enc_packets(
            ptype,
            msg.skip(MAX_PACKET_PAYLOAD as int),
        )
    }
}

/// Specification-level reassembly of the message at the head of `s`:
/// the message type, its payload, and the bytes consumed, or `None` on
/// shortage ([`frame_more`]) or a malformed header.
pub open spec fn dec_frame(s: Seq<u8>) -> Option<((u8, Seq<u8>), int)>
    decreases s.len(),
{
    if s.len() < 4 {
        None
    } else {
        let l = spec_u16_from_le_bytes(s.subrange(2, 4)) as int;
        if l < 4 {
            None
        } else if s.len() < l {
            None
        } else {
            let payload = s.subrange(4, l);
            if s[1] == PKT_EOM {
                Some(((s[0], payload), l))
            } else if s[1] == 0 {
                match dec_frame(s.skip(l)) {
                    None => None,
                    Some(((_pt, rest), n)) => Some(((s[0], payload + rest), l + n)),
                }
            } else {
                None
            }
        }
    }
}

/// Whether reassembly failed only because the buffer is short.
pub open spec fn frame_more(s: Seq<u8>) -> bool
    decreases s.len(),
{
    if s.len() < 4 {
        true
    } else {
        let l = spec_u16_from_le_bytes(s.subrange(2, 4)) as int;
        if l < 4 {
            false
        } else if s.len() < l {
            true
        } else if s[1] == 0 {
            frame_more(s.skip(l))
        } else {
            false
        }
    }
}

/// Reassembling the framing of a message returns the message itself
/// and consumes exactly the framing, whatever bytes follow.
pub proof fn lemma_frame_round_trip(ptype: u8, msg: Seq<u8>, rest: Seq<u8>)
    ensures
        dec_frame(enc_packets(ptype, msg) + rest) == Some(
            ((ptype, msg), enc_packets(ptype, msg).len() as int),
        ),
    decreases msg.len(),
{
    lemma_auto_spec_u16_to_from_le_bytes();
    let s = enc_packets(ptype, msg) + rest;
    if msg.len() <= MAX_PACKET_PAYLOAD {
        let l = 4 + msg.len() as int;
        assert(s.subrange(2, 4) =~= spec_u16_to_le_bytes((4 + msg.len()) as u16));
        assert(spec_u16_from_le_bytes(s.subrange(2, 4)) == (4 + msg.len()) as u16);
        assert(s[0] == ptype && s[1] == PKT_EOM);
        assert(s.subrange(4, l) =~= msg);
    } else {
        let head = msg.take(MAX_PACKET_PAYLOAD as int);
        let tail = msg.skip(MAX_PACKET_PAYLOAD as int);
        let l = 4 + MAX_PACKET_PAYLOAD as int;
        assert(s.subrange(2, 4) =~= spec_u16_to_le_bytes((4 + head.len()) as u16));
        assert(spec_u16_from_le_bytes(s.subrange(2, 4)) == (4 + head.len()) as u16);
        assert(s[0] == ptype && s[1] == 0);
        assert(s.subrange(4, l) =~= head);
        assert(s.skip(l) =~= enc_packets(ptype, tail) + rest);
        lemma_frame_round_trip(ptype, tail, rest);
        assert(head + tail =~= msg);
        assert(enc_packets(ptype, msg).len() == l + enc_packets(ptype, tail).len());
    }
}

/// Split a message into packets of the given type.
pub fn frame_message(ptype: u8, msg: &Vec<u8>) -> (out: Vec<u8>)
    ensures
        out@ == enc_packets(ptype, msg@),
{
    let ghost sm = msg@;
    let mut out: Vec<u8> = Vec::new();
    let mut pos: usize = 0;
    let len = msg.len();
    proof {
        assert(sm.skip(0) =~= sm);
        assert(Seq::<u8>::empty() + enc_packets(ptype, sm) =~= enc_packets(ptype, sm));
    }
    loop
        invariant
            sm == msg@,
            len == sm.len(),
            pos <= len,
            pos == 0 || len - pos > 0,
            enc_packets(ptype, sm) == out@ + enc_packets(ptype, sm.skip(pos as int)),
        decreases len - pos,
    {
        let remaining = len - pos;
        if remaining <= MAX_PACKET_PAYLOAD {
            out.push(ptype);
            out.push(PKT_EOM);
            put_u16(&mut out, (4 + remaining) as u16);
            out.extend_from_slice(slice_subrange(msg.as_slice(), pos, len));
            proof {
                assert(sm.skip(pos as int) =~= sm.subrange(pos as int, len as int));
                assert(out@ =~= enc_packets(ptype, sm));
            }
            return out;
        }
        proof {
            assert(sm.skip(pos as int).take(MAX_PACKET_PAYLOAD as int) =~= sm.subrange(
                pos as int,
                pos as int + MAX_PACKET_PAYLOAD as int,
            ));
            assert(sm.skip(pos as int).skip(MAX_PACKET_PAYLOAD as int) =~= sm.skip(
                pos as int + MAX_PACKET_PAYLOAD as int,
            ));
        }
        out.push(ptype);
        out.push(0);
        put_u16(&mut out, (4 + MAX_PACKET_PAYLOAD) as u16);
        out.extend_from_slice(slice_subrange(msg.as_slice(), pos, pos + MAX_PACKET_PAYLOAD));
        pos = pos + MAX_PACKET_PAYLOAD;
    }
}

/// Reassemble the message at the head of `buf`: its type, its payload,
/// and the bytes consumed.
pub fn unframe_message(buf: &[u8]) -> (r: Result<(u8, Vec<u8>, usize), DecodeError>)
    ensures
        match r {
            Ok(p) => dec_frame(buf@) == Some(((p.0, p.1@), p.2 as int)) && p.2 <= buf@.len(),
            Err(DecodeError::NeedMore) => dec_frame(buf@) is None && frame_more(buf@),
            Err(DecodeError::Malformed) => dec_frame(buf@) is None && (!frame_more(buf@)),
        },
{
    let ghost sb = buf@;
    let len = buf.len();
    let mut acc: Vec<u8> = Vec::new();
    let mut pos: usize = 0;
    let mut ptype: u8 = 0;
    let mut first: bool = true;
    loop
        invariant
            sb == buf@,
            len == sb.len(),
            pos <= len,
            first ==> pos == 0 && acc@ == Seq::<u8>::empty(),
            (!first) ==> (match dec_frame(sb.skip(pos as int)) {
                Option::None => dec_frame(sb) is None,
                Option::Some(pr) => dec_frame(sb) == Option::Some(
                    ((ptype, acc@ + pr.0.1), pos as int + pr.1),
                ),
            }) && frame_more(sb) == frame_more(sb.skip(pos as int)) && pos > 0,
        decreases len - pos,
    {
        proof {
            if first {
                assert(sb.skip(0) =~= sb);
            }
        }
        if len - pos < 4 {
            return Err(DecodeError::NeedMore);
        }
        let pt = *slice_index_get(buf, pos);
        let st = *slice_index_get(buf, pos + 1);
        let l = read_u16(buf, pos + 2) as usize;
        proof {
            assert(sb.skip(pos as int).subrange(2, 4) =~= sb.subrange(
                pos as int + 2,
                pos as int + 4,
            ));
            assert(sb.skip(pos as int)[0] == sb[pos as int]);
            assert(sb.skip(pos as int)[1] == sb[pos as int + 1]);
        }
        if l < 4 {
            return Err(DecodeError::Malformed);
        }
        if len - pos < l {
            return Err(DecodeError::NeedMore);
        }
        proof {
            assert(sb.skip(pos as int).subrange(4, l as int) =~= sb.subrange(
                pos as int + 4,
                pos as int + l as int,
            ));
            assert(sb.skip(pos as int).skip(l as int) =~= sb.skip(pos as int + l as int));
        }
        if first {
            ptype = pt;
            first = false;
        }
        let ghost acc_old = acc@;
        acc.extend_from_slice(slice_subrange(buf, pos + 4, pos + l));
        if st == PKT_EOM {
            return Ok((ptype, acc, pos + l));
        }
        if st != 0 {
            return Err(DecodeError::Malformed);
        }
        proof {
            let r2 = dec_frame(sb.skip(pos as int + l as int));
            match r2 {
                Option::None => {},
                Option::Some(pr2) => {
                    assert((acc_old + sb.skip(pos as int).subrange(4, l as int)) + pr2.0.1
                        =~= acc_old + (sb.skip(pos as int).subrange(4, l as int) + pr2.0.1));
                },
            }
        }
        pos = pos + l;
    }
}

} // verus!

//! The wire vocabulary and the framing layer.
//!
//! Every message on a connection travels as a frame: a four-byte
//! big-endian length header followed by that many bytes of serialized
//! payload. This module owns the framing itself — building frames,
//! recognising complete frames in a read buffer — and proves that the
//! two directions invert each other; turning a `Message` into payload
//! bytes and back is the transport's serializer's job.

use vstd::prelude::*;

use crate::command::Command;
use crate::component::{EntityID, Team};
use crate::event::{clone_event, Event};

verus! {

/// Everything either side of a connection may say.
#[derive(Clone, Debug, PartialEq, Eq)]
pub enum Message {
    Connect { name: String, team: Option<Team> },
    AcceptConnection { message: String },
    Ping { id: u64 },
    ReturnPing { id: u64 },
    Kick { reason: String },
    Quit,
    SendChat { message: String },
    ReceiveChat { user: String, message: String },
    Command(Command),
    CommandByPlayer { command: Command, player: EntityID },
    Events(Vec<Event>),
    SetPlayerEntityID(EntityID),
}

/// Message equivalence up to the view of an event batch: what a copy of
/// a message preserves.
pub open spec fn message_matches(a: Message, b: Message) -> bool {
    match (a, b) {
        (Message::Events(x), Message::Events(y)) => x@ == y@,
        _ => a == b,
    }
}

/// An equivalent copy of a message, usable where the original must stay.
pub fn clone_message(m: &Message) -> (r: Message)
    ensures
        message_matches(r, *m),
{
    match m {
        Message::Connect { name, team } => Message::Connect { name: name.clone(), team: *team },
        Message::AcceptConnection { message } => Message::AcceptConnection {
            message: message.clone(),
        },
        Message::Ping { id } => Message::Ping { id: *id },
        Message::ReturnPing { id } => Message::ReturnPing { id: *id },
        Message::Kick { reason } => Message::Kick { reason: reason.clone() },
        Message::Quit => Message::Quit,
        Message::SendChat { message } => Message::SendChat { message: message.clone() },
        Message::ReceiveChat { user, message } => Message::ReceiveChat {
            user: user.clone(),
            message: message.clone(),
        },
        Message::Command(c) => Message::Command(*c),
        Message::CommandByPlayer { command, player } => Message::CommandByPlayer {
            command: *command,
            player: *player,
        },
        Message::Events(es) => Message::Events(clone_events(es)),
        Message::SetPlayerEntityID(id) => Message::SetPlayerEntityID(*id),
    }
}

/// An exact copy of an event batch.
pub fn clone_events(es: &Vec<Event>) -> (r: Vec<Event>)
    ensures
        r@ == es@,
{
    let mut out: Vec<Event> = Vec::new();
    let n = es.len();
    let mut i: usize = 0;
    while i < n
        invariant
            i <= n,
            n == es@.len(),
            out@ =~= es@.take(i as int),
        decreases n - i,
    {
        out.push(clone_event(&es[i]));
        proof {
            assert(out@ =~= es@.take(i as int + 1));
        }
        i = i + 1;
    }
    proof {
        assert(es@.take(n as int) =~= es@);
    }
    out
}

/// The value of a four-byte big-endian length header.
pub open spec fn be_u32_val(b0: u8, b1: u8, b2: u8, b3: u8) -> int {
    b0 * 16777216 + b1 * 65536 + b2 * 256 + b3
}

/// The four big-endian header bytes of a length.
pub open spec fn be_bytes_spec(n: u32) -> Seq<u8> {
    seq![
        (n / 16777216) as u8,
        ((n / 65536) % 256) as u8,
        ((n / 256) % 256) as u8,
        (n % 256) as u8,
    ]
}

/// Reading back the four header bytes of `n` yields `n`.
pub proof fn lemma_be_round_trip(n: u32)
    ensures
        be_u32_val(
            be_bytes_spec(n)[0],
            be_bytes_spec(n)[1],
            be_bytes_spec(n)[2],
            be_bytes_spec(n)[3],
        ) == n,
{
    assert((n / 16777216) as u8 as int * 16777216 + ((n / 65536) % 256) as u8 as int * 65536 + ((n
        / 256) % 256) as u8 as int * 256 + (n % 256) as u8 as int == n) by (bit_vector);
}

/// Encode a length as its four big-endian header bytes.
pub fn u32_to_be_bytes(n: u32) -> (r: Vec<u8>)
    ensures
        r@ == be_bytes_spec(n),
{
    let mut out: Vec<u8> = Vec::new();
    out.push((n / 16777216) as u8);
    out.push(((n / 65536) % 256) as u8);
    out.push(((n / 256) % 256) as u8);
    out.push((n % 256) as u8);
    proof {
        assert(out@ =~= be_bytes_spec(n));
    }
    out
}

/// Decode a four-byte big-endian length header.
pub fn be_bytes_to_u32(b0: u8, b1: u8, b2: u8, b3: u8) -> (r: u32)
    ensures
        r as int == be_u32_val(b0, b1, b2, b3),
{
    (b0 as u32) * 16777216 + (b1 as u32) * 65536 + (b2 as u32) * 256 + (b3 as u32)
}

/// A frame: the payload length as a big-endian header, then the payload.
pub open spec fn encode_frame_spec(payload: Seq<u8>) -> Seq<u8>
    recommends
        payload.len() <= u32::MAX,
{
    be_bytes_spec(payload.len() as u32) + payload
}

/// Build the frame for one payload; a payload too long for the header is
/// refused.
pub fn encode_frame(payload: &Vec<u8>) -> (r: Option<Vec<u8>>)
    ensures
        match r {
            Some(v) => payload@.len() <= u32::MAX && v@ == encode_frame_spec(payload@),
            None => payload@.len() > u32::MAX,
        },
{
    if payload.len() > u32::MAX as usize {
        return None;
    }
    let mut out: Vec<u8> = u32_to_be_bytes(payload.len() as u32);
    let n = payload.len();
    let mut i: usize = 0;
    while i < n
        invariant
            i <= n,
            n == payload@.len(),
            out@ =~= be_bytes_spec(n as u32) + payload@.take(i as int),
        decreases n - i,
    {
        out.push(payload[i]);
        proof {
            assert(out@ =~= be_bytes_spec(n as u32) + payload@.take(i as int + 1));
        }
        i = i + 1;
    }
    proof {
        assert(payload@.take(n as int) =~= payload@);
    }
    Some(out)
}

/// What a read buffer holds: a complete first frame's payload and the
/// number of bytes it occupies, or nothing complete yet.
pub open spec fn parse_frame_spec(b: Seq<u8>) -> Option<(Seq<u8>, int)> {
    if b.len() < 4 {
        None
    } else {
        let n = be_u32_val(b[0], b[1], b[2], b[3]);
        if b.len() >= 4 + n {
            Some((b.subrange(4, 4 + n), 4 + n))
        } else {
            None
        }
    }
}

/// Extract the first complete frame's payload from a read buffer, with
/// how many bytes to consume; `None` while the frame is still partial.
pub fn parse_frame(buf: &Vec<u8>) -> (r: Option<(Vec<u8>, usize)>)
    ensures
        match r {
            Some(pair) => parse_frame_spec(buf@) == Some((pair.0@, pair.1 as int)),
            None => parse_frame_spec(buf@) is None,
        },
{
    if buf.len() < 4 {
        return None;
    }
    let n: u32 = be_bytes_to_u32(buf[0], buf[1], buf[2], buf[3]);
    let rest: usize = buf.len() - 4;
    if (n as usize) > rest {
        return None;
    }
    let need: usize = n as usize;
    let total: usize = buf.len();
    let mut payload: Vec<u8> = Vec::new();
    let mut i: usize = 0;
    while i < need
        invariant
            i <= need,
            total == buf@.len(),
            need + 4 <= total,
            payload@ =~= buf@.subrange(4, 4 + i as int),
        decreases need - i,
    {
        payload.push(buf[4 + i]);
        proof {
            assert(payload@ =~= buf@.subrange(4, 4 + i as int + 1));
        }
        i = i + 1;
    }
    Some((payload, 4 + need))
}

/// Framing round-trips: a buffer starting with the frame of a payload
/// parses back to exactly that payload, consuming exactly the frame.
pub proof fn lemma_frame_round_trip(payload: Seq<u8>, rest: Seq<u8>)
    requires
        payload.len() <= u32::MAX,
    ensures
        parse_frame_spec(encode_frame_spec(payload) + rest) == Some(
            (payload, 4 + payload.len() as int),
        ),
{
    let b = encode_frame_spec(payload) + rest;
    lemma_be_round_trip(payload.len() as u32);
    assert(b[0] == be_bytes_spec(payload.len() as u32)[0]);
    assert(b[1] == be_bytes_spec(payload.len() as u32)[1]);
    assert(b[2] == be_bytes_spec(payload.len() as u32)[2]);
    assert(b[3] == be_bytes_spec(payload.len() as u32)[3]);
    assert(be_u32_val(b[0], b[1], b[2], b[3]) == payload.len());
    assert(b.subrange(4, 4 + payload.len() as int) =~= payload);
}

} // verus!

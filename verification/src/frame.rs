//! Length-prefixed framing of messages on a stream: a big-endian 16-bit
//! payload length, then the encoded message.
use vstd::prelude::*;
use vstd::slice::slice_subrange;
use crate::codec::{be_u16, lemma_take_u16, take_u16, DecodeError, Field};
use crate::protocol::{
    lemma_message_roundtrip, message_bytes, message_well_formed, parse_message, Message, MessageView,
};

verus! {

/// The frame of a message: the payload length (modulo 2^16, as a 16-bit
/// field holds it) and the payload.
pub open spec fn frame_bytes(m: MessageView) -> Seq<u8> {
    be_u16((message_bytes(m).len() % 0x10000) as u16) + message_bytes(m)
}

/// Decodes the frame at the start of `b`: the message and the number of
/// bytes the frame occupies.
pub open spec fn parse_frame(b: Seq<u8>) -> Result<(MessageView, int), DecodeError> {
    match take_u16(b, 0) {
        Err(e) => Err(e),
        Ok((len, p)) => if p + len > b.len() {
            Err(DecodeError::UnexpectedEof(Field::Payload))
        } else {
            match parse_message(b.subrange(p, p + len)) {
                Err(e) => Err(e),
                Ok(m) => Ok((m, p + len)),
            }
        },
    }
}

/// Appends the frame of `msg` to `out`, the bytes to be written to the
/// stream.
pub fn send_frame(out: &mut Vec<u8>, msg: &Message)
    ensures
        final(out)@ == old(out)@ + frame_bytes(msg@),
{
    let payload = msg.serialize();
    let len = (payload.len() % 0x10000) as u16;
    out.push((len / 256) as u8);
    out.push((len % 256) as u8);
    let ghost start = out@;
    let mut i: usize = 0;
    while i < payload.len()
        invariant
            i <= payload@.len(),
            out@ == start + payload@.take(i as int),
        decreases payload@.len() - i,
    {
        out.push(payload[i]);
        i = i + 1;
        assert(out@ =~= start + payload@.take(i as int));
    }
    assert(payload@.take(payload@.len() as int) =~= payload@);
    assert(out@ =~= old(out)@ + frame_bytes(msg@));
}

/// Decodes the frame at the start of `buf`, giving the message and the
/// number of bytes the frame occupies.
pub fn read_frame(buf: &[u8]) -> (res: Result<(Message, usize), DecodeError>)
    ensures
        match res {
            Ok((m, n)) => parse_frame(buf@) == Ok::<(MessageView, int), DecodeError>((m@, n as int)),
            Err(e) => parse_frame(buf@) == Err::<(MessageView, int), DecodeError>(e),
        },
{
    if buf.len() < 2 {
        return Err(DecodeError::UnexpectedEof(Field::U16));
    }
    let len = (buf[0] as usize) * 256 + (buf[1] as usize);
    if buf.len() - 2 < len {
        return Err(DecodeError::UnexpectedEof(Field::Payload));
    }
    let payload = slice_subrange(buf, 2, 2 + len);
    let msg = Message::deserialize(payload)?;
    Ok((msg, 2 + len))
}

/// Reading back the frame of a well-formed message whose encoding fits a
/// frame, followed by any bytes, gives the message and the frame's length.
pub proof fn lemma_frame_roundtrip(m: MessageView, rest: Seq<u8>)
    requires
        message_well_formed(m),
        message_bytes(m).len() < 0x10000,
    ensures
        parse_frame(frame_bytes(m) + rest) == Ok::<(MessageView, int), DecodeError>((m, frame_bytes(m).len() as int)),
{
    let payload = message_bytes(m);
    let b = frame_bytes(m) + rest;
    let len = payload.len() as u16;
    assert(b.subrange(0, 2) =~= be_u16(len));
    lemma_take_u16(b, 0, len);
    assert(b.subrange(2, 2 + payload.len() as int) =~= payload + Seq::<u8>::empty());
    lemma_message_roundtrip(m, Seq::<u8>::empty());
}

} // verus!

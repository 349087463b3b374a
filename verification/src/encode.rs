//! Writing a message into a buffer.

use crate::bytes::{
    i32_to_bits, lemma_overwrite, lemma_overwrite_append, overwrite, put_be_u32, put_bytes,
    put_zeros, zeros,
};
use crate::laws::lemma_decode_encode;
use crate::message::{MessageView, OscMessage, OscValue, ParserError, ValueView};
use crate::wire::{
    address_block, decode_message, lemma_message_len, lemma_padded_len, message_bytes, padded,
    padded_len, payload, tag_block, tag_byte, COMMA, TAG_FALSE, TAG_FLOAT, TAG_INT, TAG_STRING,
    TAG_TRUE,
};
use vstd::prelude::*;
use vstd::string::StringSliceAdditionalSpecFns;
use vstd::utf8::encode_utf8;

verus! {

/// The length of the block that holds `n` bytes of text, if it is at most
/// `room`.
fn padded_size(n: usize, room: usize) -> (r: Option<usize>)
    ensures
        r == if padded_len(n + 1) <= room {
            Some(padded_len(n + 1) as usize)
        } else {
            None
        },
{
    let whole: usize = n - n % 4;
    if room < 4 || whole > room - 4 {
        None
    } else {
        Some(whole + 4)
    }
}

/// The length of `msg` on the wire, if it is at most `room`.
pub fn encoded_len(msg: &OscMessage, room: usize) -> (r: Option<usize>)
    ensures
        r == if message_bytes(msg@).len() <= room {
            Some(message_bytes(msg@).len() as usize)
        } else {
            None
        },
{
    proof {
        lemma_message_len(msg@);
        lemma_padded_len(encode_utf8(msg@.address));
        if let ValueView::String(s) = msg@.value {
            lemma_padded_len(encode_utf8(s));
        }
    }
    let head: usize = match padded_size(msg.address.as_str().as_bytes().len(), room) {
        Some(n) => n,
        None => {
            return None;
        },
    };
    if room - head < 4 {
        return None;
    }
    let rest: usize = room - head - 4;
    let body: usize = match &msg.value {
        OscValue::Int(_) => 4,
        OscValue::Float(_) => 4,
        OscValue::Bool(_) => 0,
        OscValue::String(s) => match padded_size(s.as_str().as_bytes().len(), rest) {
            Some(n) => n,
            None => {
                return None;
            },
        },
    };
    if body > rest {
        None
    } else {
        Some(head + 4 + body)
    }
}

/// Writes `bytes`, a terminator and the padding at `at`, and returns the
/// index behind them.
fn put_padded(buf: &mut [u8], at: usize, bytes: &[u8]) -> (end: usize)
    requires
        at + padded(bytes@).len() <= old(buf)@.len(),
    ensures
        final(buf)@ == overwrite(old(buf)@, at as int, padded(bytes@)),
        end == at + padded(bytes@).len(),
{
    let n: usize = bytes.len();
    let pad: usize = 4 - n % 4;
    assert(pad == padded_len(n + 1) - n && padded(bytes@).len() == n + pad) by {
        lemma_padded_len(bytes@);
    }
    assert(at + n + pad <= buf.len());
    put_bytes(buf, at, bytes);
    assert(buf@.len() == old(buf)@.len()) by {
        lemma_overwrite(old(buf)@, at as int, bytes@);
    }
    put_zeros(buf, at + n, pad);
    assert(buf@ == overwrite(old(buf)@, at as int, padded(bytes@))) by {
        lemma_overwrite_append(old(buf)@, at as int, bytes@, zeros(pad as int));
    }
    at + n + pad
}

/// Writes the address block for `address` at `*ix`.
///
/// Where the block fits between `*ix` and the end of the buffer, it is
/// written there (the address, a zero byte, and zero bytes up to the next
/// multiple of four), `*ix` moves behind it and the result is `true`.
/// Otherwise nothing changes and the result is `false`.
pub fn write_address(buf: &mut [u8], ix: &mut usize, address: &str) -> (ok: bool)
    ensures
        ok == (*old(ix) + address_block(address@).len() <= old(buf)@.len()),
        ok ==> final(buf)@ == overwrite(old(buf)@, *old(ix) as int, address_block(address@)),
        ok ==> *final(ix) == *old(ix) + address_block(address@).len(),
        !ok ==> final(buf)@ == old(buf)@ && *final(ix) == *old(ix),
{
    let len: usize = buf.len();
    let at: usize = *ix;
    if at > len {
        return false;
    }
    let bytes = address.as_bytes();
    match padded_size(bytes.len(), len - at) {
        Some(_) => {
            *ix = put_padded(buf, at, bytes);
            true
        },
        None => false,
    }
}

/// The tag character of `value`.
fn tag_of(value: &OscValue) -> (tag: u8)
    ensures
        tag == tag_byte(value@),
{
    match value {
        OscValue::Int(_) => TAG_INT,
        OscValue::Float(_) => TAG_FLOAT,
        OscValue::Bool(true) => TAG_TRUE,
        OscValue::Bool(false) => TAG_FALSE,
        OscValue::String(_) => TAG_STRING,
    }
}

/// Writes `msg` at `at`, if it fits between there and the end of the buffer.
pub(crate) fn encode_at(buf: &mut [u8], at: usize, msg: &OscMessage) -> (written: Option<usize>)
    ensures
        written is Some <==> at + message_bytes(msg@).len() <= old(buf)@.len(),
        written is Some ==> written->0 == message_bytes(msg@).len(),
        written is Some ==> final(buf)@ == overwrite(old(buf)@, at as int, message_bytes(msg@)),
        written is None ==> final(buf)@ == old(buf)@,
{
    let len: usize = buf.len();
    if at > len {
        return None;
    }
    let n: usize = match encoded_len(msg, len - at) {
        Some(n) => n,
        None => {
            return None;
        },
    };
    let ghost head = address_block(msg@.address);
    let ghost tag = tag_block(msg@.value);
    let ghost body = payload(msg@.value);
    let tag_at: usize = put_padded(buf, at, msg.address.as_str().as_bytes());
    proof {
        lemma_overwrite(old(buf)@, at as int, head);
    }
    let ghost with_head = buf@;
    buf[tag_at] = COMMA;
    buf[tag_at + 1] = tag_of(&msg.value);
    buf[tag_at + 2] = 0;
    buf[tag_at + 3] = 0;
    assert(buf@ =~= overwrite(with_head, tag_at as int, tag));
    proof {
        lemma_overwrite_append(old(buf)@, at as int, head, tag);
        lemma_overwrite(old(buf)@, at as int, head + tag);
    }
    let body_at: usize = tag_at + 4;
    match &msg.value {
        OscValue::Int(v) => {
            put_be_u32(buf, body_at, i32_to_bits(*v));
        },
        OscValue::Float(bits) => {
            put_be_u32(buf, body_at, *bits);
        },
        OscValue::Bool(_) => {
            assert(buf@ =~= overwrite(buf@, body_at as int, body));
        },
        OscValue::String(s) => {
            put_padded(buf, body_at, s.as_str().as_bytes());
        },
    }
    proof {
        lemma_overwrite_append(old(buf)@, at as int, head + tag, body);
    }
    Some(n)
}

/// Writes `msg` at the start of `buf` and returns the number of bytes
/// written.
///
/// The address block comes first, then the type tag block (`,`, the tag
/// character, two zero bytes), then the payload: four big-endian bytes for an
/// integer or a float, nothing for a boolean, and for a string its bytes, a
/// zero byte and zero bytes up to the next multiple of four. Every byte of the
/// message is written, the padding too; the bytes behind it stay.
///
/// Where the message is longer than the buffer the result is `None` and the
/// buffer is left as it was.
pub fn create_osc_message(buf: &mut [u8], msg: &OscMessage) -> (written: Option<usize>)
    ensures
        written is Some <==> message_bytes(msg@).len() <= old(buf)@.len(),
        written is Some ==> written->0 == message_bytes(msg@).len(),
        written is Some ==> final(buf)@ == overwrite(old(buf)@, 0, message_bytes(msg@)),
        written is None ==> final(buf)@ == old(buf)@,
        written is Some && msg@.is_valid() ==> decode_message(final(buf)@) == Ok::<
            MessageView,
            ParserError,
        >(msg@),
{
    let written = encode_at(buf, 0, msg);
    proof {
        if written is Some && msg@.is_valid() {
            let bytes = message_bytes(msg@);
            let rest = old(buf)@.subrange(bytes.len() as int, old(buf)@.len() as int);
            lemma_decode_encode(msg@, rest);
            assert(buf@ =~= bytes + rest);
        }
    }
    written
}

} // verus!

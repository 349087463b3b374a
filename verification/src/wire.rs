//! The wire format of a message, as functions on byte sequences.
//!
//! A message is three blocks, each a multiple of four bytes long:
//!
//! ```text
//! address  the address, a zero byte, zero bytes up to the next multiple of 4
//! type tag `,`, one tag character, two zero bytes
//! payload  `i`, `f`: four bytes, big-endian;  `T`, `F`: nothing;
//!          `s`: laid out as the address is
//! ```
//!
//! Exactly one value follows the address: the type tag block is always four
//! bytes, and a tag string that names several arguments is not a message.
//!
//! [`message_bytes`] says what a message looks like on the wire and
//! [`decode_message`] which message, if any, a buffer holds.

use crate::bytes::{be_bytes, be_value, to_signed, to_unsigned, zeros};
use crate::message::{MessageView, ParserError, ValueView};
use vstd::prelude::*;
use vstd::utf8::encode_utf8;

verus! {

/// `/`, the first byte of a message.
pub const SLASH: u8 = 47;

/// `,`, the first byte of the type tag block.
pub const COMMA: u8 = 44;

/// `i`, the tag of a 32-bit integer.
pub const TAG_INT: u8 = 105;

/// `f`, the tag of a 32-bit float.
pub const TAG_FLOAT: u8 = 102;

/// `T`, the tag of the boolean true.
pub const TAG_TRUE: u8 = 84;

/// `F`, the tag of the boolean false.
pub const TAG_FALSE: u8 = 70;

/// `s`, the tag of a string.
pub const TAG_STRING: u8 = 115;

/// True of the five characters that name a type.
pub open spec fn is_tag(b: u8) -> bool {
    b == TAG_INT || b == TAG_FLOAT || b == TAG_TRUE || b == TAG_FALSE || b == TAG_STRING
}

/// `n` rounded up to a multiple of four.
pub open spec fn padded_len(n: int) -> int {
    (n + 3) / 4 * 4
}

/// `bytes`, a terminator, and padding: the layout of an address and of a
/// string payload.
pub open spec fn padded(bytes: Seq<u8>) -> Seq<u8> {
    bytes + zeros(padded_len(bytes.len() as int + 1) - bytes.len())
}

/// The address block of a message to `address`.
pub open spec fn address_block(address: Seq<char>) -> Seq<u8> {
    padded(encode_utf8(address))
}

/// The character that announces a value of this kind.
pub open spec fn tag_byte(value: ValueView) -> u8 {
    match value {
        ValueView::Int(_) => TAG_INT,
        ValueView::Float(_) => TAG_FLOAT,
        ValueView::Bool(true) => TAG_TRUE,
        ValueView::Bool(false) => TAG_FALSE,
        ValueView::String(_) => TAG_STRING,
    }
}

/// The type tag block of a message that carries `value`.
pub open spec fn tag_block(value: ValueView) -> Seq<u8> {
    seq![COMMA, tag_byte(value), 0u8, 0u8]
}

/// The bytes that carry `value` itself.
pub open spec fn payload(value: ValueView) -> Seq<u8> {
    match value {
        ValueView::Int(v) => be_bytes(to_unsigned(v)),
        ValueView::Float(bits) => be_bytes(bits),
        ValueView::Bool(_) => Seq::empty(),
        ValueView::String(s) => padded(encode_utf8(s)),
    }
}

/// A message on the wire.
pub open spec fn message_bytes(m: MessageView) -> Seq<u8> {
    address_block(m.address) + tag_block(m.value) + payload(m.value)
}

/// A padded block is a positive multiple of four long, and between one and
/// four bytes longer than what it holds.
pub proof fn lemma_padded_len(bytes: Seq<u8>)
    ensures
        padded(bytes).len() == padded_len(bytes.len() as int + 1),
        padded(bytes).len() % 4 == 0,
        bytes.len() + 1 <= padded(bytes).len() <= bytes.len() + 4,
{
}

/// The length of a message is the sum of the lengths of its three blocks.
pub proof fn lemma_message_len(m: MessageView)
    ensures
        message_bytes(m).len() == address_block(m.address).len() + 4 + payload(m.value).len(),
        message_bytes(m).len() % 4 == 0,
        message_bytes(m).len() >= 8,
{
    lemma_padded_len(encode_utf8(m.address));
    match m.value {
        ValueView::String(s) => {
            lemma_padded_len(encode_utf8(s));
        },
        _ => {},
    }
}

/// The index of the first zero byte at or after `from`; `buf.len()` where
/// there is none.
pub open spec fn find_zero(buf: Seq<u8>, from: int) -> int
    decreases buf.len() - from,
{
    if from < 0 || from >= buf.len() {
        buf.len() as int
    } else if buf[from] == 0 {
        from
    } else {
        find_zero(buf, from + 1)
    }
}

/// The first zero byte at or after `from` is found where it is.
pub proof fn lemma_find_zero(buf: Seq<u8>, from: int, at: int)
    requires
        0 <= from <= at < buf.len(),
        buf[at] == 0,
        forall|i: int| from <= i < at ==> buf[i] != 0,
    ensures
        find_zero(buf, from) == at,
    decreases at - from,
{
    if from < at {
        lemma_find_zero(buf, from + 1, at);
    }
}

/// What `find_zero` finds: no zero byte lies between `from` and the index
/// found, and one lies at it unless it is the end of the buffer.
pub proof fn lemma_find_zero_is_first(buf: Seq<u8>, from: int)
    requires
        0 <= from <= buf.len(),
    ensures
        from <= find_zero(buf, from) <= buf.len(),
        forall|i: int| from <= i < find_zero(buf, from) ==> buf[i] != 0,
        find_zero(buf, from) < buf.len() ==> buf[find_zero(buf, from)] == 0,
    decreases buf.len() - from,
{
    if from < buf.len() && buf[from] != 0 {
        lemma_find_zero_is_first(buf, from + 1);
    }
}

/// Bytes read as characters, one for one.
pub open spec fn text(bytes: Seq<u8>) -> Seq<char> {
    Seq::new(bytes.len(), |i: int| bytes[i] as char)
}

/// The text that starts at `from`, where a terminator follows it, and the
/// cursor behind its block: the next multiple of four behind the terminator.
///
/// The padding is not looked at, and the buffer may end before the cursor.
pub open spec fn decode_text(buf: Seq<u8>, from: int) -> Option<(Seq<char>, int)> {
    let end = find_zero(buf, from);
    if end < buf.len() {
        Some((text(buf.subrange(from, end)), padded_len(end + 1)))
    } else {
        None
    }
}

/// The address read at `cursor`, and the cursor behind its block.
///
/// The buffer must start with `/`, whatever the cursor.
pub open spec fn decode_address(buf: Seq<u8>, cursor: int) -> Result<(Seq<char>, int), ParserError> {
    if buf.len() == 0 || buf[0] != SLASH {
        Err(ParserError::InvalidAddress)
    } else {
        match decode_text(buf, cursor) {
            Some(found) => Ok(found),
            None => Err(ParserError::InvalidAddress),
        }
    }
}

/// Where the type tag block of a message begins: behind the address block.
pub open spec fn tag_position(buf: Seq<u8>) -> int {
    padded_len(find_zero(buf, 0) + 1)
}

/// The value read at `cursor`, where the type tag block begins, and the
/// cursor behind the payload.
///
/// Of the type tag block only the first two bytes are looked at; the payload
/// begins four bytes behind `cursor`.
pub open spec fn decode_value(buf: Seq<u8>, cursor: int) -> Result<(ValueView, int), ParserError> {
    if cursor < 0 || cursor + 1 >= buf.len() || buf[cursor] != COMMA {
        Err(ParserError::InvalidType)
    } else {
        let tag = buf[cursor + 1];
        let start = cursor + 4;
        if tag == TAG_TRUE {
            Ok((ValueView::Bool(true), start))
        } else if tag == TAG_FALSE {
            Ok((ValueView::Bool(false), start))
        } else if tag == TAG_INT || tag == TAG_FLOAT {
            if start + 4 <= buf.len() {
                let bits = be_value(buf.subrange(start, start + 4));
                if tag == TAG_INT {
                    Ok((ValueView::Int(to_signed(bits)), start + 4))
                } else {
                    Ok((ValueView::Float(bits), start + 4))
                }
            } else {
                Err(ParserError::InvalidValue)
            }
        } else if tag == TAG_STRING {
            match decode_text(buf, start) {
                Some((s, next)) => Ok((ValueView::String(s), next)),
                None => Err(ParserError::InvalidValue),
            }
        } else {
            Err(ParserError::InvalidType)
        }
    }
}

/// The message that a buffer holds: its address, read from the start, and
/// the value behind it. Bytes behind the message are not looked at.
pub open spec fn decode_message(buf: Seq<u8>) -> Result<MessageView, ParserError> {
    match decode_address(buf, 0) {
        Err(e) => Err(e),
        Ok((address, cursor)) => match decode_value(buf, cursor) {
            Err(e) => Err(e),
            Ok((value, _)) => Ok(MessageView { address, value }),
        },
    }
}

} // verus!

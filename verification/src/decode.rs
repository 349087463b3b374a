//! Reading a message out of a buffer.

use crate::bytes::{i32_from_bits, read_be_u32};
use crate::message::{OscMessage, OscType, OscValue, ParserError};
use crate::wire::{
    decode_address, decode_message, decode_text, decode_value, find_zero, is_tag,
    lemma_find_zero_is_first, padded_len, tag_position, text, COMMA, SLASH, TAG_FALSE, TAG_FLOAT,
    TAG_INT, TAG_STRING, TAG_TRUE,
};
use vstd::prelude::*;

verus! {

/// A cursor as a `usize`, where it fits one.
pub open spec fn as_cursor(next: int) -> Option<usize> {
    if 0 <= next <= usize::MAX {
        Some(next as usize)
    } else {
        None
    }
}

/// What decoding a field gives where its cursor has to fit a `usize`: the
/// field as it is where the cursor fits, and the error `e` where it does not.
///
/// A cursor that does not fit lies behind the end of every buffer: it takes
/// a buffer that ends within three bytes of the largest `usize`.
pub open spec fn with_cursor<T>(field: Result<(T, int), ParserError>, e: ParserError) -> Result<
    (T, int),
    ParserError,
> {
    match field {
        Ok((_, next)) => if as_cursor(next) is Some {
            field
        } else {
            Err(e)
        },
        Err(_) => field,
    }
}

/// The cursor behind a block whose terminator is at `end`.
fn cursor_behind(end: usize) -> (next: Option<usize>)
    requires
        end < usize::MAX,
    ensures
        next == as_cursor(padded_len(end + 1)),
{
    let past: usize = end + 1;
    let rem: usize = past % 4;
    if rem == 0 {
        Some(past)
    } else if past > usize::MAX - (4 - rem) {
        None
    } else {
        Some(past + (4 - rem))
    }
}

/// Collects the bytes from `from` up to the next zero byte, and finds the
/// cursor behind their block.
fn scan_text(buf: &[u8], from: usize) -> (r: Option<(String, Option<usize>)>)
    ensures
        match (decode_text(buf@, from as int), r) {
            (Some((s, next)), Some((found, cursor))) => found@ == s && cursor == as_cursor(next),
            (None, None) => true,
            _ => false,
        },
{
    let len: usize = buf.len();
    if from >= len {
        return None;
    }
    let mut s = String::new();
    let mut i: usize = from;
    while i < len && buf[i] != 0
        invariant
            len == buf@.len(),
            from <= i <= len,
            find_zero(buf@, i as int) == find_zero(buf@, from as int),
            s@ == text(buf@.subrange(from as int, i as int)),
        decreases len - i,
    {
        s.push(buf[i] as char);
        i += 1;
        assert(s@ =~= text(buf@.subrange(from as int, i as int)));
    }
    if i >= len {
        None
    } else {
        Some((s, cursor_behind(i)))
    }
}

/// Reads the address at `from`, and finds the cursor behind its block.
fn read_address(buf: &[u8], from: usize) -> (r: Result<(String, Option<usize>), ParserError>)
    ensures
        match (decode_address(buf@, from as int), r) {
            (Ok((address, next)), Ok((found, cursor))) => found@ == address && cursor == as_cursor(
                next,
            ),
            (Err(e), Err(got)) => got == e,
            _ => false,
        },
{
    if buf.len() == 0 || buf[0] != SLASH {
        return Err(ParserError::InvalidAddress);
    }
    match scan_text(buf, from) {
        Some(found) => Ok(found),
        None => Err(ParserError::InvalidAddress),
    }
}

/// Reads the type tag block at `at` and the value behind it, and finds the
/// cursor behind the payload.
fn read_value(buf: &[u8], at: usize) -> (r: Result<(OscValue, Option<usize>), ParserError>)
    ensures
        match (decode_value(buf@, at as int), r) {
            (Ok((value, next)), Ok((found, cursor))) => found@ == value && cursor == as_cursor(
                next,
            ),
            (Err(e), Err(got)) => got == e,
            _ => false,
        },
{
    let len: usize = buf.len();
    if len < 2 || at >= len - 1 || buf[at] != COMMA {
        return Err(ParserError::InvalidType);
    }
    let tag: u8 = buf[at + 1];
    let start: Option<usize> = if at <= usize::MAX - 4 {
        Some(at + 4)
    } else {
        None
    };
    if tag == TAG_TRUE {
        Ok((OscValue::Bool(true), start))
    } else if tag == TAG_FALSE {
        Ok((OscValue::Bool(false), start))
    } else if tag == TAG_INT || tag == TAG_FLOAT {
        let bits: Option<u32> = match start {
            Some(start) => read_be_u32(buf, start),
            None => None,
        };
        match bits {
            Some(bits) => {
                let next: Option<usize> = Some(at + 8);
                if tag == TAG_INT {
                    Ok((OscValue::Int(i32_from_bits(bits)), next))
                } else {
                    Ok((OscValue::Float(bits), next))
                }
            },
            None => Err(ParserError::InvalidValue),
        }
    } else if tag == TAG_STRING {
        let text: Option<(String, Option<usize>)> = match start {
            Some(start) => scan_text(buf, start),
            None => None,
        };
        match text {
            Some((s, next)) => Ok((OscValue::String(s), next)),
            None => Err(ParserError::InvalidValue),
        }
    } else {
        Err(ParserError::InvalidType)
    }
}

/// Reads the address of a message.
///
/// The buffer must start with `/`. The address is read from `*ix` up to the
/// next zero byte, each byte giving one character, and `*ix` moves behind the
/// address block: to the next multiple of four behind the terminator, whether
/// or not the buffer reaches that far. Where the buffer is empty, starts with
/// another byte or holds no zero byte from `*ix` on, the result is
/// `InvalidAddress`, and `*ix` stays.
///
/// `InvalidAddress` is also the result where the new cursor would not fit a
/// `usize`.
pub fn extract_osc_address(buf: &[u8], ix: &mut usize) -> (r: Result<String, ParserError>)
    ensures
        match (with_cursor(decode_address(buf@, *old(ix) as int), ParserError::InvalidAddress), r) {
            (Ok((address, next)), Ok(found)) => found@ == address && *final(ix) == next,
            (Err(e), Err(got)) => got == e && *final(ix) == *old(ix),
            _ => false,
        },
        buf@.len() <= usize::MAX - 3 ==> with_cursor(
            decode_address(buf@, *old(ix) as int),
            ParserError::InvalidAddress,
        ) == decode_address(buf@, *old(ix) as int),
{
    proof {
        lemma_cursor_fits(buf@, *ix as int);
    }
    match read_address(buf, *ix) {
        Ok((address, Some(next))) => {
            *ix = next;
            Ok(address)
        },
        Ok((_, None)) => Err(ParserError::InvalidAddress),
        Err(e) => Err(e),
    }
}

/// Reads the type tag block at `*ix` and the value behind it.
///
/// `*ix` moves behind the payload, which begins four bytes behind the start
/// of the block. On an error it stays: `InvalidType` where the block does not
/// start with `,` or its second byte names no type, and `InvalidValue` where
/// the payload is cut short.
///
/// `InvalidValue` is also the result where the new cursor would not fit a
/// `usize`.
pub fn extract_osc_value(buf: &[u8], ix: &mut usize) -> (r: Result<(OscType, OscValue), ParserError>)
    ensures
        match (with_cursor(decode_value(buf@, *old(ix) as int), ParserError::InvalidValue), r) {
            (Ok((value, next)), Ok((kind, found))) => found@ == value && kind == value.osc_type()
                && *final(ix) == next,
            (Err(e), Err(got)) => got == e && *final(ix) == *old(ix),
            _ => false,
        },
        buf@.len() <= usize::MAX - 3 ==> with_cursor(
            decode_value(buf@, *old(ix) as int),
            ParserError::InvalidValue,
        ) == decode_value(buf@, *old(ix) as int),
{
    proof {
        lemma_cursor_fits(buf@, *ix as int);
    }
    match read_value(buf, *ix) {
        Ok((value, Some(next))) => {
            *ix = next;
            Ok((value.osc_type(), value))
        },
        Ok((_, None)) => Err(ParserError::InvalidValue),
        Err(e) => Err(e),
    }
}

/// In a buffer that ends more than three bytes before the largest `usize`,
/// every cursor fits.
pub proof fn lemma_cursor_fits(buf: Seq<u8>, cursor: int)
    requires
        0 <= cursor,
    ensures
        buf.len() <= usize::MAX - 3 ==> with_cursor(
            decode_address(buf, cursor),
            ParserError::InvalidAddress,
        ) == decode_address(buf, cursor) && with_cursor(
            decode_value(buf, cursor),
            ParserError::InvalidValue,
        ) == decode_value(buf, cursor),
{
    if cursor <= buf.len() {
        lemma_find_zero_is_first(buf, cursor);
    }
    if cursor + 4 <= buf.len() {
        lemma_find_zero_is_first(buf, cursor + 4);
    }
}

/// Decodes the message at the start of `buf`.
///
/// The address is read first, then the value behind it; the first of the two
/// that fails gives the error. Bytes behind the message are ignored.
pub fn parse(buf: &[u8]) -> (r: Result<OscMessage, ParserError>)
    ensures
        match (decode_message(buf@), r) {
            (Ok(m), Ok(found)) => found@ == m,
            (Err(e), Err(got)) => got == e,
            _ => false,
        },
        buf@.len() == 0 || buf@[0] != SLASH ==> r == Err::<OscMessage, ParserError>(
            ParserError::InvalidAddress,
        ),
        decode_address(buf@, 0) is Ok && (tag_position(buf@) >= buf@.len() || buf@[tag_position(
            buf@,
        )] != COMMA) ==> r == Err::<OscMessage, ParserError>(ParserError::InvalidType),
        decode_address(buf@, 0) is Ok && tag_position(buf@) + 1 < buf@.len() && !is_tag(
            buf@[tag_position(buf@) + 1],
        ) ==> r == Err::<OscMessage, ParserError>(ParserError::InvalidType),
{
    let (address, cursor) = match read_address(buf, 0) {
        Ok(found) => found,
        Err(e) => {
            return Err(e);
        },
    };
    let at: usize = match cursor {
        Some(at) => at,
        None => {
            // The type tag block would begin behind the end of the buffer.
            proof {
                lemma_find_zero_is_first(buf@, 0);
                assert(tag_position(buf@) > usize::MAX >= buf.len());
            }
            return Err(ParserError::InvalidType);
        },
    };
    match read_value(buf, at) {
        Ok((value, _)) => Ok(OscMessage { address, value }),
        Err(e) => Err(e),
    }
}

/// Decodes `buf` into `msg`, and says whether it held a message. Where it
/// did not, `msg` is left as it was.
pub fn parse_osc(buf: &[u8], msg: &mut OscMessage) -> (ok: bool)
    ensures
        match decode_message(buf@) {
            Ok(m) => ok && final(msg)@ == m,
            Err(_) => !ok && *final(msg) == *old(msg),
        },
{
    match parse(buf) {
        Ok(parsed) => {
            *msg = parsed;
            true
        },
        Err(_) => false,
    }
}

} // verus!

//! What holds of the codec as a whole: between encoding and decoding, of
//! the blocks of a message, of buffers that are not messages, and of bundles
//! that are resumed.

use crate::bundle::{
    bundle_bytes, bundle_next, element, element_fits, elements, lemma_element_len,
    lemma_elements_split, lemma_packed_until, packed_until, HEADER_LEN,
};
use crate::bytes::{lemma_be_value_of_bytes, lemma_signed_unsigned, to_unsigned};
use crate::message::{is_address, is_plain_text, MessageView, ParserError, ValueView};
use crate::wire::{
    address_block, decode_address, decode_message, decode_text, decode_value, find_zero, is_tag,
    lemma_find_zero, lemma_message_len, lemma_padded_len, message_bytes, padded, payload,
    tag_block, tag_byte, tag_position, text, COMMA, SLASH,
};
use vstd::prelude::*;
use vstd::utf8::{encode_utf8, is_ascii_chars, is_ascii_chars_encode_utf8};

verus! {

/// Plain text is encoded one byte to a character, none of them zero, and
/// reading the bytes as characters gives the text back.
pub proof fn lemma_plain_text_bytes(s: Seq<char>)
    requires
        is_plain_text(s),
    ensures
        encode_utf8(s).len() == s.len(),
        forall|i: int| 0 <= i < s.len() ==> #[trigger] encode_utf8(s)[i] == s[i] as u8,
        forall|i: int| 0 <= i < s.len() ==> #[trigger] encode_utf8(s)[i] != 0,
        text(encode_utf8(s)) == s,
{
    assert(is_ascii_chars(s));
    is_ascii_chars_encode_utf8(s);
    assert forall|i: int| 0 <= i < s.len() implies #[trigger] encode_utf8(s)[i] == s[i] as u8
        && encode_utf8(s)[i] != 0 by {
        assert('\0' < s[i] <= '\u{7f}');
    }
    assert(text(encode_utf8(s)) =~= s);
}

/// A padded block of zero-free bytes that begins at a multiple of four is
/// read back as those bytes, and the cursor ends behind the block.
proof fn lemma_decode_padded(buf: Seq<u8>, from: int, bytes: Seq<u8>)
    requires
        0 <= from,
        from % 4 == 0,
        from + padded(bytes).len() <= buf.len(),
        buf.subrange(from, from + padded(bytes).len()) == padded(bytes),
        forall|i: int| 0 <= i < bytes.len() ==> bytes[i] != 0,
    ensures
        decode_text(buf, from) == Some((text(bytes), from + padded(bytes).len())),
{
    lemma_padded_len(bytes);
    let block = padded(bytes);
    let end = from + bytes.len();
    assert forall|i: int| from <= i < end implies buf[i] != 0 by {
        assert(buf[i] == block[i - from]);
        assert(block[i - from] == bytes[i - from]);
    }
    assert(buf[end] == 0) by {
        assert(buf[end] == block[end - from]);
    }
    lemma_find_zero(buf, from, end);
    assert(buf.subrange(from, end) =~= bytes) by {
        assert forall|i: int| 0 <= i < bytes.len() implies buf.subrange(from, end)[i]
            == bytes[i] by {
            assert(buf[from + i] == block[i]);
        }
    }
}

/// Decoding what was encoded gives the message back, whatever follows it in
/// the buffer.
pub proof fn lemma_decode_encode(m: MessageView, rest: Seq<u8>)
    requires
        m.is_valid(),
    ensures
        decode_message(message_bytes(m) + rest) == Ok::<MessageView, ParserError>(m),
{
    let head = address_block(m.address);
    let tag = tag_block(m.value);
    let body = payload(m.value);
    let buf = message_bytes(m) + rest;
    let address_bytes = encode_utf8(m.address);
    lemma_plain_text_bytes(m.address);
    lemma_padded_len(address_bytes);
    lemma_message_len(m);
    assert(buf.subrange(0, head.len() as int) =~= head);
    assert(buf[0] == head[0] && head[0] == address_bytes[0]);
    assert(m.address[0] as u8 == SLASH);
    lemma_decode_padded(buf, 0, address_bytes);
    let tag_at = head.len() as int;
    assert(decode_address(buf, 0) == Ok::<(Seq<char>, int), ParserError>((m.address, tag_at)));
    assert(buf[tag_at] == tag[0]);
    assert(buf[tag_at + 1] == tag[1]);
    let start = tag_at + 4;
    assert(buf.subrange(start, start + body.len()) =~= body);
    match m.value {
        ValueView::Int(v) => {
            lemma_be_value_of_bytes(to_unsigned(v));
            lemma_signed_unsigned(v, 0);
        },
        ValueView::Float(bits) => {
            lemma_be_value_of_bytes(bits);
        },
        ValueView::Bool(_) => {},
        ValueView::String(s) => {
            lemma_plain_text_bytes(s);
            lemma_decode_padded(buf, start, encode_utf8(s));
        },
    }
    assert(decode_value(buf, tag_at) == Ok::<(ValueView, int), ParserError>(
        (m.value, start + body.len()),
    ));
}

/// The address block of an address is a positive multiple of four long. It
/// holds the address, whose bytes are not zero, then the terminator, and
/// behind it nothing but zero bytes: at most three of them.
pub proof fn lemma_address_block(address: Seq<char>)
    requires
        is_address(address),
    ensures
        address_block(address).len() > 0,
        address_block(address).len() % 4 == 0,
        address.len() < address_block(address).len() <= address.len() + 4,
        forall|i: int|
            0 <= i < address.len() ==> #[trigger] address_block(address)[i] == address[i] as u8
                && address_block(address)[i] != 0,
        forall|i: int|
            address.len() <= i < address_block(address).len() ==> #[trigger] address_block(
                address,
            )[i] == 0,
        find_zero(address_block(address), 0) == address.len(),
{
    let bytes = encode_utf8(address);
    lemma_plain_text_bytes(address);
    lemma_padded_len(bytes);
    let block = address_block(address);
    assert forall|i: int| 0 <= i < address.len() implies #[trigger] block[i] == address[i] as u8
        && block[i] != 0 by {
        assert(block[i] == bytes[i]);
    }
    lemma_find_zero(block, 0, address.len() as int);
}

/// The type tag block is four bytes: `,`, the tag character, and two zero
/// bytes. It follows the address block directly, and the payload follows it.
pub proof fn lemma_tag_block(m: MessageView)
    ensures
        tag_block(m.value).len() == 4,
        tag_block(m.value) == seq![COMMA, tag_byte(m.value), 0u8, 0u8],
        is_tag(tag_byte(m.value)),
        message_bytes(m).subrange(
            address_block(m.address).len() as int,
            address_block(m.address).len() as int + 4,
        ) == tag_block(m.value),
        message_bytes(m).subrange(
            address_block(m.address).len() as int + 4,
            message_bytes(m).len() as int,
        ) == payload(m.value),
{
    let head = address_block(m.address).len() as int;
    assert(message_bytes(m).subrange(head, head + 4) =~= tag_block(m.value));
    assert(message_bytes(m).subrange(head + 4, message_bytes(m).len() as int) =~= payload(
        m.value,
    ));
}

/// Three ways in which a buffer is not a message: it does not start with
/// `/`; the byte behind the address block is not `,`; the byte behind that
/// names no type.
pub proof fn lemma_malformed(buf: Seq<u8>)
    ensures
        buf.len() == 0 || buf[0] != SLASH ==> decode_message(buf) == Err::<
            MessageView,
            ParserError,
        >(ParserError::InvalidAddress),
        decode_address(buf, 0) is Ok && (tag_position(buf) >= buf.len() || buf[tag_position(buf)]
            != COMMA) ==> decode_message(buf) == Err::<MessageView, ParserError>(
            ParserError::InvalidType,
        ),
        decode_address(buf, 0) is Ok && tag_position(buf) + 1 < buf.len() && !is_tag(
            buf[tag_position(buf) + 1],
        ) ==> decode_message(buf) == Err::<MessageView, ParserError>(ParserError::InvalidType),
        decode_address(buf, 0) is Err ==> decode_message(buf) == Err::<MessageView, ParserError>(
            ParserError::InvalidAddress,
        ),
{
}

/// A bundle never outgrows its buffer. It ends at or after the index it
/// starts at, and not behind the last message unless it starts there; where
/// it ends before the last message, that message does not fit what is left of
/// the buffer.
pub proof fn lemma_bundle_within_capacity(
    cap: int,
    timetag: u64,
    msgs: Seq<MessageView>,
    start: int,
)
    requires
        0 <= cap,
        0 <= start,
    ensures
        bundle_bytes(cap, timetag, msgs, start).len() <= cap,
        start <= bundle_next(cap, msgs, start),
        start <= msgs.len() ==> bundle_next(cap, msgs, start) <= msgs.len(),
        start >= msgs.len() ==> bundle_next(cap, msgs, start) == start,
        cap >= HEADER_LEN && bundle_next(cap, msgs, start) < msgs.len() ==> !element_fits(
            msgs[bundle_next(cap, msgs, start)],
            cap - bundle_bytes(cap, timetag, msgs, start).len(),
        ),
{
    if cap >= HEADER_LEN {
        lemma_packed_until(msgs, start, cap - HEADER_LEN);
    }
}

/// Where no message is too long for the four bytes that announce its
/// length, a bundle ends at the first message with which it would outgrow the
/// buffer: the header and the elements up to and including any message before
/// that index fit the buffer, and those up to and including the message at it
/// do not.
pub proof fn lemma_bundle_ends_at_first_overflow(cap: int, msgs: Seq<MessageView>, start: int)
    requires
        HEADER_LEN <= cap,
        0 <= start <= msgs.len(),
        forall|i: int|
            start <= i < msgs.len() ==> message_bytes(#[trigger] msgs[i]).len() <= u32::MAX,
    ensures
        start <= bundle_next(cap, msgs, start) <= msgs.len(),
        forall|j: int|
            start <= j < bundle_next(cap, msgs, start) ==> HEADER_LEN + (#[trigger] elements(
                msgs,
                start,
                j + 1,
            )).len() <= cap,
        bundle_next(cap, msgs, start) < msgs.len() ==> HEADER_LEN + elements(
            msgs,
            start,
            bundle_next(cap, msgs, start) + 1,
        ).len() > cap,
{
    let room = cap - HEADER_LEN;
    let next = bundle_next(cap, msgs, start);
    lemma_packed_until(msgs, start, room);
    assert forall|j: int| start <= j < next implies HEADER_LEN + (#[trigger] elements(
        msgs,
        start,
        j + 1,
    )).len() <= cap by {
        lemma_elements_split(msgs, start, j + 1, next);
    }
    if next < msgs.len() {
        lemma_element_len(msgs[next]);
        assert(message_bytes(msgs[next]).len() <= u32::MAX);
    }
}

/// With more room, packing gets at least as far.
pub proof fn lemma_packed_until_monotone(msgs: Seq<MessageView>, from: int, less: int, more: int)
    requires
        0 <= from,
        less <= more,
    ensures
        packed_until(msgs, from, less) <= packed_until(msgs, from, more),
    decreases msgs.len() - from,
{
    if from < msgs.len() && element_fits(msgs[from], less) {
        let used = element(msgs[from]).len() as int;
        lemma_packed_until_monotone(msgs, from + 1, less - used, more - used);
    } else {
        lemma_packed_until(msgs, from, more);
    }
}

/// Where a bundle started at `k` holds the message at `k`, a bundle started
/// one message later, in a buffer of the same size, gets at least as far. It
/// is shorter by the element that it skips, and longer by the elements that
/// it holds beyond the end of the first.
pub proof fn lemma_resume_account(cap: int, timetag: u64, msgs: Seq<MessageView>, k: int)
    requires
        HEADER_LEN <= cap,
        0 <= k < msgs.len(),
        element_fits(msgs[k], cap - HEADER_LEN),
    ensures
        k < bundle_next(cap, msgs, k) <= bundle_next(cap, msgs, k + 1),
        bundle_bytes(cap, timetag, msgs, k + 1).len() + element(msgs[k]).len() == bundle_bytes(
            cap,
            timetag,
            msgs,
            k,
        ).len() + elements(msgs, bundle_next(cap, msgs, k), bundle_next(cap, msgs, k + 1)).len(),
{
    let room = cap - HEADER_LEN;
    let used = element(msgs[k]).len() as int;
    let first = bundle_next(cap, msgs, k);
    let second = bundle_next(cap, msgs, k + 1);
    lemma_element_len(msgs[k]);
    assert(first == packed_until(msgs, k + 1, room - used));
    lemma_packed_until(msgs, k + 1, room - used);
    lemma_packed_until_monotone(msgs, k + 1, room - used, room);
    lemma_elements_split(msgs, k, k + 1, first);
    lemma_elements_split(msgs, k + 1, first, second);
    assert(elements(msgs, k, k + 1) =~= element(msgs[k])) by {
        assert(elements(msgs, k, k) =~= Seq::<u8>::empty());
    }
}

/// Resuming one message later never writes more, provided that what the
/// later bundle holds beyond the end of the earlier one is no longer than the
/// element it skips; and it writes less where that is shorter, as it is where
/// the earlier bundle reached the last message.
///
/// Without the proviso the later bundle can be the longer one: a long
/// message that ended the earlier bundle may fit once a short one before it
/// is skipped.
pub proof fn lemma_resume_writes_no_more(cap: int, timetag: u64, msgs: Seq<MessageView>, k: int)
    requires
        0 <= cap,
        0 <= k,
        bundle_next(cap, msgs, k + 1) == k + 1 || (HEADER_LEN <= cap && k < msgs.len()
            && element_fits(msgs[k], cap - HEADER_LEN) && elements(
            msgs,
            bundle_next(cap, msgs, k),
            bundle_next(cap, msgs, k + 1),
        ).len() <= element(msgs[k]).len()),
    ensures
        bundle_bytes(cap, timetag, msgs, k + 1).len() <= bundle_bytes(cap, timetag, msgs, k).len(),
        HEADER_LEN <= cap && k < msgs.len() && bundle_next(cap, msgs, k) == msgs.len()
            ==> bundle_bytes(cap, timetag, msgs, k + 1).len() < bundle_bytes(
            cap,
            timetag,
            msgs,
            k,
        ).len(),
{
    if HEADER_LEN <= cap && k < msgs.len() && element_fits(msgs[k], cap - HEADER_LEN) {
        lemma_resume_account(cap, timetag, msgs, k);
        lemma_element_len(msgs[k]);
        lemma_bundle_within_capacity(cap, timetag, msgs, k + 1);
        let first = bundle_next(cap, msgs, k);
        let second = bundle_next(cap, msgs, k + 1);
        if second == k + 1 {
            assert(first == second);
        }
        if first == msgs.len() {
            assert(second == first);
        }
        if first == second {
            assert(elements(msgs, first, second) =~= Seq::<u8>::empty());
        }
    } else {
        assert(elements(msgs, k + 1, k + 1) =~= Seq::<u8>::empty());
        if HEADER_LEN <= cap && k < msgs.len() {
            assert(bundle_next(cap, msgs, k) == k);
        }
    }
}

} // verus!

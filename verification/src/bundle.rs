//! Packing messages into a bundle.
//!
//! A bundle is a header of sixteen bytes, `#bundle` with a zero byte behind
//! it and a time tag of eight bytes, big-endian, and then its elements: each
//! a message, with its length before it as four bytes, big-endian.
//!
//! A bundle is packed into whatever buffer the caller has. The messages go
//! in one after the other, and the first that does not fit ends the bundle;
//! the caller is told its index and can go on from there in another buffer.

use crate::bytes::{
    be_bytes, be_bytes64, lemma_overwrite, lemma_overwrite_append, overwrite, put_be_u32,
};
use crate::encode::{encode_at, encoded_len};
use crate::message::{MessageView, OscMessage};
use crate::trusted::{duration_secs, duration_subsec_nanos, since_unix_epoch};
use crate::wire::{lemma_message_len, message_bytes};
use std::time::{Duration, SystemTime, SystemTimeError};
use vstd::prelude::*;

verus! {

/// The length of a bundle's header.
pub const HEADER_LEN: usize = 16;

/// The eight bytes that open a bundle: `#bundle` and a zero byte.
pub open spec fn bundle_marker() -> Seq<u8> {
    seq![35u8, 98u8, 117u8, 110u8, 100u8, 108u8, 101u8, 0u8]
}

/// The header of a bundle with the given time tag.
pub open spec fn bundle_header(timetag: u64) -> Seq<u8> {
    bundle_marker() + be_bytes64(timetag)
}

/// A message as an element of a bundle: its length, then the message.
pub open spec fn element(m: MessageView) -> Seq<u8> {
    be_bytes(message_bytes(m).len() as u32) + message_bytes(m)
}

/// Whether `m` can be an element where `room` bytes are left: its length
/// must fit the four bytes that announce it, and the element the room.
pub open spec fn element_fits(m: MessageView, room: int) -> bool {
    message_bytes(m).len() <= u32::MAX && 4 + message_bytes(m).len() <= room
}

/// The index at which packing stops when it starts at `from` with `room`
/// bytes left: that of the first message that does not fit behind those
/// before it, or the first index that holds no message.
pub open spec fn packed_until(msgs: Seq<MessageView>, from: int, room: int) -> int
    decreases msgs.len() - from,
{
    if 0 <= from < msgs.len() && element_fits(msgs[from], room) {
        packed_until(msgs, from + 1, room - element(msgs[from]).len())
    } else {
        from
    }
}

/// The elements for the messages from index `from` up to `to`, in order.
pub open spec fn elements(msgs: Seq<MessageView>, from: int, to: int) -> Seq<u8>
    decreases to - from,
{
    if from < to {
        elements(msgs, from, to - 1) + element(msgs[to - 1])
    } else {
        Seq::empty()
    }
}

/// The index of the first message that a bundle started at `start` does not
/// hold, in a buffer of `cap` bytes.
pub open spec fn bundle_next(cap: int, msgs: Seq<MessageView>, start: int) -> int {
    if cap < HEADER_LEN {
        start
    } else {
        packed_until(msgs, start, cap - HEADER_LEN)
    }
}

/// The bundle that is packed into a buffer of `cap` bytes from the messages
/// at `start` and after: nothing where the header does not fit.
pub open spec fn bundle_bytes(cap: int, timetag: u64, msgs: Seq<MessageView>, start: int) -> Seq<
    u8,
> {
    if cap < HEADER_LEN {
        Seq::empty()
    } else {
        bundle_header(timetag) + elements(msgs, start, bundle_next(cap, msgs, start))
    }
}

/// The time tag for a clock that stands `secs` seconds and `nanos`
/// nanoseconds after the epoch: the seconds, as far as 32 bits hold them,
/// above the nanoseconds.
///
/// This is not the fixed-point fraction of NTP: the lower half counts
/// nanoseconds, not units of 2^-32 seconds.
pub open spec fn timetag_of(secs: u64, nanos: u32) -> u64 {
    ((secs % 0x1_0000_0000) * 0x1_0000_0000 + nanos) as u64
}

/// An element is four bytes longer than its message.
pub proof fn lemma_element_len(m: MessageView)
    ensures
        element(m).len() == 4 + message_bytes(m).len(),
        element(m).len() >= 12,
{
    lemma_message_len(m);
}

/// Packing stops at or after the index it starts at, and not after the last
/// message unless it starts there. What it packs fits the room it had, and
/// the message it stops at, if there is one, does not fit what is left.
pub proof fn lemma_packed_until(msgs: Seq<MessageView>, from: int, room: int)
    requires
        0 <= from,
    ensures
        from <= packed_until(msgs, from, room),
        from <= msgs.len() ==> packed_until(msgs, from, room) <= msgs.len(),
        from >= msgs.len() ==> packed_until(msgs, from, room) == from,
        room >= 0 ==> elements(msgs, from, packed_until(msgs, from, room)).len() <= room,
        packed_until(msgs, from, room) < msgs.len() ==> !element_fits(
            msgs[packed_until(msgs, from, room)],
            room - elements(msgs, from, packed_until(msgs, from, room)).len(),
        ),
    decreases msgs.len() - from,
{
    if from < msgs.len() && element_fits(msgs[from], room) {
        let used = element(msgs[from]).len() as int;
        lemma_element_len(msgs[from]);
        lemma_packed_until(msgs, from + 1, room - used);
        lemma_elements_split(msgs, from, from + 1, packed_until(msgs, from, room));
        assert(elements(msgs, from, from + 1) =~= element(msgs[from])) by {
            assert(elements(msgs, from, from) =~= Seq::<u8>::empty());
        }
    } else {
        assert(elements(msgs, from, from) =~= Seq::<u8>::empty());
    }
}

/// The elements of a range are those of its first part and then those of
/// its second.
pub proof fn lemma_elements_split(msgs: Seq<MessageView>, from: int, mid: int, to: int)
    requires
        from <= mid <= to,
    ensures
        elements(msgs, from, to) == elements(msgs, from, mid) + elements(msgs, mid, to),
    decreases to - mid,
{
    if mid < to {
        lemma_elements_split(msgs, from, mid, to - 1);
        assert(elements(msgs, from, to) =~= elements(msgs, from, mid) + elements(msgs, mid, to));
    } else {
        assert(elements(msgs, from, to) =~= elements(msgs, from, mid) + elements(msgs, mid, to));
    }
}

/// The time tag for `secs` seconds and `nanos` nanoseconds.
pub fn timetag(secs: u64, nanos: u32) -> (t: u64)
    ensures
        t == timetag_of(secs, nanos),
{
    let t: u64 = (secs << 32) | (nanos as u64);
    assert(((secs << 32) | (nanos as u64)) == (secs % 0x1_0000_0000) * 0x1_0000_0000 + nanos)
        by (bit_vector);
    t
}

/// The time tag for the present moment, read from the system clock; nothing
/// where the clock stands before the epoch.
pub fn current_timetag() -> (t: Option<u64>)
    ensures
        t is Some ==> (exists|secs: u64, nanos: u32|
            nanos < 1_000_000_000 && t->0 == #[trigger] timetag_of(secs, nanos)),
        t is Some ==> t->0 % 0x1_0000_0000 < 1_000_000_000,
{
    let now = SystemTime::now();
    timetag_since_epoch(since_unix_epoch(&now))
}

/// The time tag for a reading of the clock: for the time that has passed
/// since the epoch, the tag of its whole seconds and of its nanoseconds below
/// a second; for a clock that stands before the epoch, nothing.
pub fn timetag_since_epoch(elapsed: Result<Duration, SystemTimeError>) -> (t: Option<u64>)
    ensures
        elapsed is Ok ==> t == Some(
            timetag_of(duration_secs(elapsed->Ok_0), duration_subsec_nanos(elapsed->Ok_0)),
        ),
        elapsed is Ok ==> duration_subsec_nanos(elapsed->Ok_0) < 1_000_000_000,
        elapsed is Err ==> t is None,
        t is Some ==> t->0 % 0x1_0000_0000 < 1_000_000_000,
{
    match elapsed {
        Ok(elapsed) => {
            let secs: u64 = elapsed.as_secs();
            let nanos: u32 = elapsed.subsec_nanos();
            Some(timetag(secs, nanos))
        },
        Err(_) => None,
    }
}

/// Writes the header of a bundle at the start of `buf`.
fn put_header(buf: &mut [u8], timetag: u64)
    requires
        old(buf)@.len() >= HEADER_LEN,
    ensures
        final(buf)@ == overwrite(old(buf)@, 0, bundle_header(timetag)),
{
    buf[0] = 35;
    buf[1] = 98;
    buf[2] = 117;
    buf[3] = 110;
    buf[4] = 100;
    buf[5] = 108;
    buf[6] = 101;
    buf[7] = 0;
    assert(buf@ =~= overwrite(old(buf)@, 0, bundle_marker()));
    put_be_u32(buf, 8, (timetag / 0x1_0000_0000) as u32);
    put_be_u32(buf, 12, (timetag % 0x1_0000_0000) as u32);
    proof {
        let high = be_bytes((timetag / 0x1_0000_0000) as u32);
        let low = be_bytes((timetag % 0x1_0000_0000) as u32);
        lemma_overwrite_append(old(buf)@, 0, bundle_marker(), high);
        lemma_overwrite_append(old(buf)@, 0, bundle_marker() + high, low);
        assert(bundle_marker() + high + low =~= bundle_header(timetag));
    }
}

/// Packs the messages from `*messages_index` on into a bundle with the given
/// time tag, at the start of `buf`, and returns the number of bytes written.
///
/// The header is written first. Then each message in turn is written behind
/// what is there, its length before it, as long as it fits: the first message
/// that does not fit between what is written and the end of the buffer, or
/// whose length does not fit four bytes, ends the bundle. `*messages_index`
/// becomes the index of that message, or the number of messages where all
/// were written, and is where another call goes on.
///
/// Nothing is written behind the bytes that the result counts. In a buffer
/// too short for the header nothing is written at all, the result is zero and
/// `*messages_index` stays.
pub fn create_osc_bundle_at(
    buf: &mut [u8],
    timetag: u64,
    messages: &[OscMessage],
    messages_index: &mut usize,
) -> (written: usize)
    ensures
        written == bundle_bytes(
            old(buf)@.len() as int,
            timetag,
            messages.deep_view(),
            *old(messages_index) as int,
        ).len(),
        written <= old(buf)@.len(),
        final(buf)@ == overwrite(
            old(buf)@,
            0,
            bundle_bytes(
                old(buf)@.len() as int,
                timetag,
                messages.deep_view(),
                *old(messages_index) as int,
            ),
        ),
        *final(messages_index) == bundle_next(
            old(buf)@.len() as int,
            messages.deep_view(),
            *old(messages_index) as int,
        ),
        *old(messages_index) <= *final(messages_index),
        *old(messages_index) <= messages@.len() ==> *final(messages_index) <= messages@.len(),
        old(buf)@.len() >= HEADER_LEN && *final(messages_index) < messages@.len()
            ==> !element_fits(
            messages.deep_view()[*final(messages_index) as int],
            old(buf)@.len() - written,
        ),
{
    let cap: usize = buf.len();
    let start: usize = *messages_index;
    let ghost msgs = messages.deep_view();
    if cap < HEADER_LEN {
        assert(buf@ =~= overwrite(buf@, 0, Seq::<u8>::empty()));
        return 0;
    }
    put_header(buf, timetag);
    let ghost header = bundle_header(timetag);
    let count: usize = messages.len();
    let mut at: usize = HEADER_LEN;
    let mut i: usize = start;
    assert(elements(msgs, start as int, start as int) =~= Seq::<u8>::empty());
    assert(header + elements(msgs, start as int, start as int) =~= header);
    while i < count
        invariant
            cap == buf@.len() == old(buf)@.len(),
            count == messages@.len(),
            msgs == messages.deep_view(),
            header == bundle_header(timetag),
            start <= i,
            HEADER_LEN <= at <= cap,
            at == HEADER_LEN + elements(msgs, start as int, i as int).len(),
            buf@ == overwrite(old(buf)@, 0, header + elements(msgs, start as int, i as int)),
            packed_until(msgs, i as int, cap - at) == packed_until(
                msgs,
                start as int,
                cap - HEADER_LEN,
            ),
        ensures
            i < count ==> !element_fits(msgs[i as int], cap - at),
        decreases count - i,
    {
        let msg = &messages[i];
        assert(msgs[i as int] == msg@);
        if cap - at < 4 {
            break;
        }
        let len: usize = match encoded_len(msg, cap - at - 4) {
            Some(len) => len,
            None => {
                break;
            },
        };
        if len > 0xffff_ffff {
            break;
        }
        let ghost before = buf@;
        let ghost packed = header + elements(msgs, start as int, i as int);
        put_be_u32(buf, at, len as u32);
        encode_at(buf, at + 4, msg);
        proof {
            let prefix = be_bytes(len as u32);
            lemma_overwrite(before, at as int, prefix);
            lemma_overwrite_append(before, at as int, prefix, message_bytes(msg@));
            assert(prefix + message_bytes(msg@) == element(msg@));
            lemma_overwrite_append(old(buf)@, 0, packed, element(msg@));
            assert(packed + element(msg@) =~= header + elements(msgs, start as int, i + 1));
        }
        at = at + 4 + len;
        i = i + 1;
    }
    proof {
        lemma_packed_until(msgs, start as int, cap - HEADER_LEN);
    }
    *messages_index = i;
    at
}

/// Packs the messages from `*messages_index` on into a bundle tagged with
/// the present time, as [`create_osc_bundle_at`] does with a time tag given.
///
/// Where the system clock stands before the epoch there is no time tag to
/// write: the result is `None`, and neither `buf` nor `*messages_index`
/// changes.
pub fn create_osc_bundle(
    buf: &mut [u8],
    messages: &[OscMessage],
    messages_index: &mut usize,
) -> (written: Option<usize>)
    ensures
        written is Some ==> written->0 <= old(buf)@.len(),
        written is Some ==> *final(messages_index) == bundle_next(
            old(buf)@.len() as int,
            messages.deep_view(),
            *old(messages_index) as int,
        ),
        written is Some ==> (exists|timetag: u64|
            timetag % 0x1_0000_0000 < 1_000_000_000 && written->0 == (#[trigger] bundle_bytes(
                old(buf)@.len() as int,
                timetag,
                messages.deep_view(),
                *old(messages_index) as int,
            )).len() && final(buf)@ == overwrite(
                old(buf)@,
                0,
                bundle_bytes(
                    old(buf)@.len() as int,
                    timetag,
                    messages.deep_view(),
                    *old(messages_index) as int,
                ),
            )),
        written is None ==> final(buf)@ == old(buf)@ && *final(messages_index) == *old(
            messages_index,
        ),
{
    create_osc_bundle_with(buf, current_timetag(), messages, messages_index)
}

/// Packs the messages from `*messages_index` on into a bundle with the time
/// tag that a reading of the clock gave, as [`create_osc_bundle_at`] does.
/// Where the reading gave none, the result is `None`, and neither `buf` nor
/// `*messages_index` changes.
pub fn create_osc_bundle_with(
    buf: &mut [u8],
    timetag: Option<u64>,
    messages: &[OscMessage],
    messages_index: &mut usize,
) -> (written: Option<usize>)
    ensures
        written is Some <==> timetag is Some,
        timetag is Some ==> written->0 == bundle_bytes(
            old(buf)@.len() as int,
            timetag->0,
            messages.deep_view(),
            *old(messages_index) as int,
        ).len(),
        timetag is Some ==> final(buf)@ == overwrite(
            old(buf)@,
            0,
            bundle_bytes(
                old(buf)@.len() as int,
                timetag->0,
                messages.deep_view(),
                *old(messages_index) as int,
            ),
        ),
        timetag is Some ==> *final(messages_index) == bundle_next(
            old(buf)@.len() as int,
            messages.deep_view(),
            *old(messages_index) as int,
        ),
        timetag is Some ==> written->0 <= old(buf)@.len(),
        timetag is None ==> final(buf)@ == old(buf)@ && *final(messages_index) == *old(
            messages_index,
        ),
{
    match timetag {
        Some(timetag) => Some(create_osc_bundle_at(buf, timetag, messages, messages_index)),
        None => None,
    }
}

} // verus!

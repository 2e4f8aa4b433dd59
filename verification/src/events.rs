//! The keystroke event stream and its wire format: a 16-bit little-endian
//! event count followed by 3 bytes per event (2-byte little-endian delay in
//! milliseconds, then a 1-byte key code).

use vstd::prelude::*;

use crate::bytes::spec_u16_from_le;
use crate::bytes::spec_u16_le;
use crate::bytes::u16_from_le;
use crate::bytes::u16_le;
use crate::errors::ReplayError;

verus! {

/// The highest key code denoting a letter (a–z are 0–25).
pub const KEY_A_MAX: u8 = 25;

/// The key code of the space bar.
pub const KEY_SPACE: u8 = 26;

/// The key code of backspace: removes the last output character, if any.
pub const KEY_BACKSPACE: u8 = 27;

/// The key code of enter: an end marker, ignored for output. Also the
/// highest accepted key code.
pub const KEY_ENTER: u8 = 28;

/// One keystroke: the delay since the previous key, and the key code.
#[derive(Clone, Copy, Debug, PartialEq, Eq, Structural)]
pub struct ReplayEvent {
    pub dt_ms: u16,
    pub key: u8,
}

/// The 3-byte wire form of one event.
pub open spec fn spec_event_bytes(e: ReplayEvent) -> Seq<u8> {
    spec_u16_le(e.dt_ms).push(e.key)
}

/// The concatenated wire forms of a sequence of events.
pub open spec fn events_payload(evs: Seq<ReplayEvent>) -> Seq<u8>
    decreases evs.len(),
{
    if evs.len() == 0 {
        Seq::<u8>::empty()
    } else {
        events_payload(evs.drop_last()) + spec_event_bytes(evs.last())
    }
}

/// The full wire form: the event count, then the payload.
pub open spec fn spec_encode_events(evs: Seq<ReplayEvent>) -> Seq<u8> {
    spec_u16_le(evs.len() as u16) + events_payload(evs)
}

/// The event count declared by the first two bytes.
pub open spec fn spec_event_count(bytes: Seq<u8>) -> int {
    spec_u16_from_le(bytes[0], bytes[1]) as int
}

/// Whether the byte count agrees with the declared event count.
pub open spec fn events_len_ok(bytes: Seq<u8>) -> bool {
    bytes.len() >= 2 && bytes.len() == 2 + 3 * spec_event_count(bytes)
}

/// The event denoted by the 3 bytes at position `i` of the stream.
pub open spec fn spec_parsed_event(bytes: Seq<u8>, i: int) -> ReplayEvent {
    ReplayEvent {
        dt_ms: spec_u16_from_le(bytes[2 + 3 * i], bytes[3 + 3 * i]),
        key: bytes[4 + 3 * i],
    }
}

/// All events denoted by a well-formed stream.
pub open spec fn spec_parsed_events(bytes: Seq<u8>) -> Seq<ReplayEvent> {
    Seq::new(spec_event_count(bytes) as nat, |i: int| spec_parsed_event(bytes, i))
}

/// Whether every key code of a well-formed stream is in range.
pub open spec fn events_keys_ok(bytes: Seq<u8>) -> bool {
    forall|i: int|
        0 <= i < spec_event_count(bytes) ==> #[trigger] spec_parsed_event(bytes, i).key
            <= KEY_ENTER
}

/// The payload is 3 bytes per event, and the bytes at position `i` are
/// exactly event `i`'s wire form.
proof fn lemma_events_payload_index(evs: Seq<ReplayEvent>, i: int)
    requires
        0 <= i < evs.len(),
    ensures
        events_payload(evs).len() == 3 * evs.len(),
        events_payload(evs)[3 * i] == spec_u16_le(evs[i].dt_ms)[0],
        events_payload(evs)[3 * i + 1] == spec_u16_le(evs[i].dt_ms)[1],
        events_payload(evs)[3 * i + 2] == evs[i].key,
    decreases evs.len(),
{
    lemma_events_payload_len(evs);
    if i < evs.len() - 1 {
        lemma_events_payload_index(evs.drop_last(), i);
    }
}

/// The payload length is 3 bytes per event.
proof fn lemma_events_payload_len(evs: Seq<ReplayEvent>)
    ensures
        events_payload(evs).len() == 3 * evs.len(),
    decreases evs.len(),
{
    if evs.len() > 0 {
        lemma_events_payload_len(evs.drop_last());
    }
}

/// Round trip: a well-formed event sequence's wire form is well-formed
/// and denotes exactly that sequence.
pub proof fn lemma_events_round_trip(evs: Seq<ReplayEvent>)
    requires
        evs.len() <= 65535,
        forall|i: int| 0 <= i < evs.len() ==> #[trigger] evs[i].key <= KEY_ENTER,
    ensures
        events_len_ok(spec_encode_events(evs)),
        events_keys_ok(spec_encode_events(evs)),
        spec_parsed_events(spec_encode_events(evs)) == evs,
{
    let bytes = spec_encode_events(evs);
    lemma_events_payload_len(evs);
    crate::bytes::lemma_u16_le_round_trip(evs.len() as u16);
    assert(bytes[0] == spec_u16_le(evs.len() as u16)[0]);
    assert(bytes[1] == spec_u16_le(evs.len() as u16)[1]);
    assert(spec_event_count(bytes) == evs.len());
    assert(events_len_ok(bytes));
    assert forall|i: int| 0 <= i < evs.len() implies #[trigger] spec_parsed_event(bytes, i)
        == evs[i] by {
        lemma_events_payload_index(evs, i);
        assert(bytes[2 + 3 * i] == spec_u16_le(evs[i].dt_ms)[0]);
        assert(bytes[3 + 3 * i] == spec_u16_le(evs[i].dt_ms)[1]);
        assert(bytes[4 + 3 * i] == evs[i].key);
        crate::bytes::lemma_u16_le_round_trip(evs[i].dt_ms);
    }
    assert(spec_parsed_events(bytes) =~= evs);
}

/// Encodes events into the wire form. Fails with `LengthMismatch` if more
/// than 65535 events were given, else with `InvalidKey` if a key code is
/// out of range; otherwise returns exactly the wire bytes.
pub fn encode_events(events: &[ReplayEvent]) -> (r: Result<Vec<u8>, ReplayError>)
    ensures
        match r {
            Ok(v) => events@.len() <= 65535 && (forall|i: int|
                0 <= i < events@.len() ==> #[trigger] events@[i].key <= KEY_ENTER) && v@
                == spec_encode_events(events@),
            Err(e) => (e == ReplayError::LengthMismatch && events@.len() > 65535) || (e
                == ReplayError::InvalidKey && events@.len() <= 65535 && (exists|i: int|
                0 <= i < events@.len() && #[trigger] events@[i].key > KEY_ENTER)),
        },
{
    let n = events.len();
    if n > 65535 {
        return Err(ReplayError::LengthMismatch);
    }
    let mut out: Vec<u8> = Vec::new();
    u16_le(n as u16, &mut out);
    assert(events@.take(0) =~= Seq::<ReplayEvent>::empty());
    assert(out@ =~= spec_u16_le(events@.len() as u16) + events_payload(events@.take(0)));
    let mut i: usize = 0;
    while i < n
        invariant
            i <= n,
            n == events@.len(),
            n <= 65535,
            forall|j: int| 0 <= j < i ==> #[trigger] events@[j].key <= KEY_ENTER,
            out@ == spec_u16_le(events@.len() as u16) + events_payload(events@.take(i as int)),
        decreases n - i,
    {
        let e = events[i];
        if e.key > KEY_ENTER {
            return Err(ReplayError::InvalidKey);
        }
        u16_le(e.dt_ms, &mut out);
        out.push(e.key);
        assert(events@.take(i + 1).drop_last() =~= events@.take(i as int));
        assert(events@.take(i + 1).last() == events@[i as int]);
        assert(out@ =~= spec_u16_le(events@.len() as u16) + events_payload(
            events@.take(i + 1),
        ));
        i += 1;
    }
    assert(events@.take(n as int) =~= events@);
    Ok(out)
}

/// Parses the wire form. Fails with `EventsTruncated` if the declared count
/// disagrees with the byte count, else with `InvalidKey` if a key code is
/// out of range; otherwise returns exactly the denoted events.
pub fn parse_events(bytes: &[u8]) -> (r: Result<Vec<ReplayEvent>, ReplayError>)
    ensures
        match r {
            Ok(evs) => events_len_ok(bytes@) && events_keys_ok(bytes@) && evs@
                == spec_parsed_events(bytes@),
            Err(e) => (e == ReplayError::EventsTruncated && !events_len_ok(bytes@)) || (e
                == ReplayError::InvalidKey && events_len_ok(bytes@) && !events_keys_ok(bytes@)),
        },
{
    if bytes.len() < 2 {
        return Err(ReplayError::EventsTruncated);
    }
    let count = u16_from_le(bytes, 0) as usize;
    if bytes.len() != 2 + count * 3 {
        return Err(ReplayError::EventsTruncated);
    }
    let mut evs: Vec<ReplayEvent> = Vec::new();
    let mut i: usize = 0;
    while i < count
        invariant
            i <= count,
            bytes@.len() == 2 + 3 * count,
            count == spec_event_count(bytes@),
            evs@.len() == i,
            forall|j: int| 0 <= j < i ==> evs@[j] == spec_parsed_event(bytes@, j),
            forall|j: int| 0 <= j < i ==> #[trigger] spec_parsed_event(bytes@, j).key <= KEY_ENTER,
        decreases count - i,
    {
        let off = 2 + i * 3;
        let dt_ms = u16_from_le(bytes, off);
        let key = bytes[off + 2];
        if key > KEY_ENTER {
            assert(spec_parsed_event(bytes@, i as int).key > KEY_ENTER);
            assert(!events_keys_ok(bytes@));
            return Err(ReplayError::InvalidKey);
        }
        evs.push(ReplayEvent { dt_ms, key });
        i += 1;
    }
    assert(evs@ =~= spec_parsed_events(bytes@));
    Ok(evs)
}

} // verus!

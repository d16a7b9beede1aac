//! Byte encoding of the values the bridge commits to chain storage: a
//! message payload (declared weight, then the opaque bytes) and an inbound
//! lane's state (confirmation floor, then the unrewarded-relayer records).
//!
//! Whatever a storage proof reveals is a byte string; these functions are
//! the only bridge between those bytes and the typed values the protocol
//! works on, and decoding rejects anything the encoder could not have
//! produced.

use vstd::prelude::*;

use crate::inbound::UnrewardedRelayerEntry;
use crate::types::{BridgeError, MessagePayload};

verus! {

/// The eight little-endian bytes of `v`.
pub open spec fn u64_le_bytes(v: u64) -> Seq<u8> {
    seq![
        (v & 0xff) as u8,
        ((v >> 8) & 0xff) as u8,
        ((v >> 16) & 0xff) as u8,
        ((v >> 24) & 0xff) as u8,
        ((v >> 32) & 0xff) as u8,
        ((v >> 40) & 0xff) as u8,
        ((v >> 48) & 0xff) as u8,
        ((v >> 56) & 0xff) as u8,
    ]
}

/// The value eight little-endian bytes stand for.
pub open spec fn u64_from_le_bytes(s: Seq<u8>) -> u64
    recommends
        s.len() == 8,
{
    (s[0] as u64) | ((s[1] as u64) << 8) | ((s[2] as u64) << 16) | ((s[3] as u64) << 24)
        | ((s[4] as u64) << 32) | ((s[5] as u64) << 40) | ((s[6] as u64) << 48)
        | ((s[7] as u64) << 56)
}

/// Reading back the eight little-endian bytes of `v` yields `v`.
pub proof fn lemma_u64_le_roundtrip(v: u64)
    ensures
        u64_from_le_bytes(u64_le_bytes(v)) == v,
{
    assert(((v & 0xff) as u8) as u64 | ((((v >> 8) & 0xff) as u8) as u64) << 8
        | ((((v >> 16) & 0xff) as u8) as u64) << 16 | ((((v >> 24) & 0xff) as u8) as u64) << 24
        | ((((v >> 32) & 0xff) as u8) as u64) << 32 | ((((v >> 40) & 0xff) as u8) as u64) << 40
        | ((((v >> 48) & 0xff) as u8) as u64) << 48 | ((((v >> 56) & 0xff) as u8) as u64) << 56
        == v) by (bit_vector);
}

/// Append the eight little-endian bytes of `v`.
pub fn encode_u64(v: u64, out: &mut Vec<u8>)
    ensures
        final(out)@ == old(out)@ + u64_le_bytes(v),
{
    out.push((v & 0xff) as u8);
    out.push(((v >> 8) & 0xff) as u8);
    out.push(((v >> 16) & 0xff) as u8);
    out.push(((v >> 24) & 0xff) as u8);
    out.push(((v >> 32) & 0xff) as u8);
    out.push(((v >> 40) & 0xff) as u8);
    out.push(((v >> 48) & 0xff) as u8);
    out.push(((v >> 56) & 0xff) as u8);
    proof {
        assert(out@ =~= old(out)@ + u64_le_bytes(v));
    }
}

/// Read the eight little-endian bytes at `at`.
pub fn decode_u64(bytes: &Vec<u8>, at: usize) -> (r: u64)
    requires
        at + 8 <= bytes@.len(),
    ensures
        r == u64_from_le_bytes(bytes@.subrange(at as int, at + 8)),
{
    let ghost s = bytes@.subrange(at as int, at + 8);
    let n: usize = bytes.len();
    let r = (bytes[at] as u64) | ((bytes[at + 1] as u64) << 8) | ((bytes[at + 2] as u64) << 16)
        | ((bytes[at + 3] as u64) << 24) | ((bytes[at + 4] as u64) << 32)
        | ((bytes[at + 5] as u64) << 40) | ((bytes[at + 6] as u64) << 48)
        | ((bytes[at + 7] as u64) << 56);
    proof {
        assert(s[0] == bytes@[at as int] && s[1] == bytes@[at + 1] && s[2] == bytes@[at + 2]
            && s[3] == bytes@[at + 3] && s[4] == bytes@[at + 4] && s[5] == bytes@[at + 5]
            && s[6] == bytes@[at + 6] && s[7] == bytes@[at + 7]);
    }
    r
}

/// The committed byte form of a payload: its declared dispatch weight,
/// little-endian, followed by its opaque bytes.
pub open spec fn payload_bytes(weight: u64, data: Seq<u8>) -> Seq<u8> {
    u64_le_bytes(weight) + data
}

/// What a byte string decodes to as a payload: `None` for anything the
/// encoder could not have produced (too short to carry the weight).
pub open spec fn spec_decode_payload(bytes: Seq<u8>) -> Option<(u64, Seq<u8>)> {
    if bytes.len() < 8 {
        None
    } else {
        Some((u64_from_le_bytes(bytes.subrange(0, 8)), bytes.skip(8)))
    }
}

/// Encode one payload for commitment to storage.
pub fn encode_payload(payload: &MessagePayload) -> (r: Vec<u8>)
    ensures
        r@ == payload_bytes(payload.declared_weight, payload.data@),
{
    let mut out: Vec<u8> = Vec::new();
    encode_u64(payload.declared_weight, &mut out);
    let mut i: usize = 0;
    while i < payload.data.len()
        invariant
            0 <= i <= payload.data@.len(),
            out@ == u64_le_bytes(payload.declared_weight) + payload.data@.subrange(0, i as int),
        decreases payload.data@.len() - i,
    {
        out.push(payload.data[i]);
        i = i + 1;
        proof {
            assert(out@ =~= u64_le_bytes(payload.declared_weight)
                + payload.data@.subrange(0, i as int));
        }
    }
    proof {
        assert(payload.data@.subrange(0, payload.data@.len() as int) =~= payload.data@);
    }
    out
}

/// Decode one payload revealed by a storage proof. Fails with
/// `PayloadDecodeError` exactly on byte strings no encoding produced.
pub fn decode_payload(bytes: &Vec<u8>) -> (r: Result<MessagePayload, BridgeError>)
    ensures
        spec_decode_payload(bytes@) is None ==> r == Err::<MessagePayload, BridgeError>(
            BridgeError::PayloadDecodeError,
        ),
        spec_decode_payload(bytes@) matches Some(decoded) ==> r matches Ok(payload)
            && payload.declared_weight == decoded.0 && payload.data@ == decoded.1,
    {
    if bytes.len() < 8 {
        return Err(BridgeError::PayloadDecodeError);
    }
    let weight = decode_u64(bytes, 0);
    let mut data: Vec<u8> = Vec::new();
    let mut i: usize = 8;
    while i < bytes.len()
        invariant
            8 <= i <= bytes@.len(),
            data@ == bytes@.subrange(8, i as int),
        decreases bytes@.len() - i,
    {
        data.push(bytes[i]);
        i = i + 1;
        proof {
            assert(data@ =~= bytes@.subrange(8, i as int));
        }
    }
    proof {
        assert(bytes@.subrange(8, bytes@.len() as int) =~= bytes@.skip(8));
    }
    Ok(MessagePayload { data, declared_weight: weight })
}

/// The committed byte form of one unrewarded-relayer record.
pub open spec fn entry_bytes(entry: UnrewardedRelayerEntry) -> Seq<u8> {
    u64_le_bytes(entry.relayer) + u64_le_bytes(entry.begin) + u64_le_bytes(entry.end)
}

/// The committed byte form of a record sequence, in order.
pub open spec fn entries_bytes(entries: Seq<UnrewardedRelayerEntry>) -> Seq<u8>
    decreases entries.len(),
{
    if entries.len() == 0 {
        Seq::empty()
    } else {
        entry_bytes(entries[0]) + entries_bytes(entries.drop_first())
    }
}

/// Appending one record appends its 24 bytes.
pub proof fn lemma_entries_bytes_snoc(entries: Seq<UnrewardedRelayerEntry>, entry: UnrewardedRelayerEntry)
    ensures
        entries_bytes(entries.push(entry)) == entries_bytes(entries) + entry_bytes(entry),
    decreases entries.len(),
{
    if entries.len() == 0 {
        assert(entries.push(entry).drop_first() =~= entries);
        assert(entries_bytes(entries.push(entry))
            =~= entries_bytes(entries) + entry_bytes(entry));
    } else {
        assert(entries.push(entry).drop_first() =~= entries.drop_first().push(entry));
        lemma_entries_bytes_snoc(entries.drop_first(), entry);
        assert(entries.push(entry)[0] == entries[0]);
        assert(entries_bytes(entries.push(entry))
            =~= entries_bytes(entries) + entry_bytes(entry));
    }
}

/// A record sequence takes exactly 24 bytes per record.
pub proof fn lemma_entries_bytes_len(entries: Seq<UnrewardedRelayerEntry>)
    ensures
        entries_bytes(entries).len() == 24 * entries.len(),
    decreases entries.len(),
{
    if entries.len() > 0 {
        lemma_entries_bytes_len(entries.drop_first());
    }
}

/// The committed byte form of an inbound lane's state: the confirmation
/// floor, the record count, then the records.
pub open spec fn lane_state_bytes(last_confirmed: u64, entries: Seq<UnrewardedRelayerEntry>) -> Seq<u8> {
    u64_le_bytes(last_confirmed) + u64_le_bytes(entries.len() as u64) + entries_bytes(entries)
}

/// What a byte string decodes to as an inbound lane state: `None` for
/// anything the encoder could not have produced (wrong length for the
/// declared record count).
pub open spec fn spec_decode_lane_state(bytes: Seq<u8>) -> Option<(u64, Seq<UnrewardedRelayerEntry>)> {
    if bytes.len() < 16 {
        None
    } else {
        let count = u64_from_le_bytes(bytes.subrange(8, 16)) as int;
        if bytes.len() != 16 + 24 * count {
            None
        } else {
            Some(
                (
                    u64_from_le_bytes(bytes.subrange(0, 8)),
                    Seq::new(count as nat, |i: int| UnrewardedRelayerEntry {
                        relayer: u64_from_le_bytes(bytes.subrange(16 + 24 * i, 24 + 24 * i)),
                        begin: u64_from_le_bytes(bytes.subrange(24 + 24 * i, 32 + 24 * i)),
                        end: u64_from_le_bytes(bytes.subrange(32 + 24 * i, 40 + 24 * i)),
                    }),
                ),
            )
        }
    }
}

/// Encode an inbound lane's state for commitment to storage.
pub fn encode_lane_state(last_confirmed: u64, entries: &Vec<UnrewardedRelayerEntry>) -> (r: Vec<u8>)
    ensures
        r@ == lane_state_bytes(last_confirmed, entries@),
{
    let mut out: Vec<u8> = Vec::new();
    encode_u64(last_confirmed, &mut out);
    encode_u64(entries.len() as u64, &mut out);
    let ghost header = u64_le_bytes(last_confirmed) + u64_le_bytes(entries@.len() as u64);
    let mut i: usize = 0;
    while i < entries.len()
        invariant
            0 <= i <= entries@.len(),
            header == u64_le_bytes(last_confirmed) + u64_le_bytes(entries@.len() as u64),
            out@ == header + entries_bytes(entries@.subrange(0, i as int)),
        decreases entries@.len() - i,
    {
        let entry = entries[i];
        encode_u64(entry.relayer, &mut out);
        encode_u64(entry.begin, &mut out);
        encode_u64(entry.end, &mut out);
        i = i + 1;
        proof {
            lemma_entries_bytes_snoc(entries@.subrange(0, i - 1), entry);
            assert(entries@.subrange(0, i - 1).push(entry) =~= entries@.subrange(0, i as int));
            assert(out@ =~= header + entries_bytes(entries@.subrange(0, i as int)));
        }
    }
    proof {
        assert(entries@.subrange(0, entries@.len() as int) =~= entries@);
    }
    out
}

/// Decode an inbound lane state revealed by a storage proof.
pub fn decode_lane_state(bytes: &Vec<u8>) -> (r: Result<(u64, Vec<UnrewardedRelayerEntry>), BridgeError>)
    ensures
        spec_decode_lane_state(bytes@) is None ==> r == Err::<
            (u64, Vec<UnrewardedRelayerEntry>),
            BridgeError,
        >(BridgeError::InvalidProof),
        spec_decode_lane_state(bytes@) matches Some(decoded) ==> r matches Ok(state)
            && state.0 == decoded.0 && state.1@ == decoded.1,
{
    let n: usize = bytes.len();
    if n < 16 {
        return Err(BridgeError::InvalidProof);
    }
    let last_confirmed = decode_u64(bytes, 0);
    let count64 = decode_u64(bytes, 8);
    if count64 > ((usize::MAX - 16) / 24) as u64 {
        // The declared count cannot match the byte length we hold.
        proof {
            assert(bytes@.len() != 16 + 24 * (count64 as int));
        }
        return Err(BridgeError::InvalidProof);
    }
    let count: usize = count64 as usize;
    if n != 16 + 24 * count {
        return Err(BridgeError::InvalidProof);
    }
    let ghost decoded = spec_decode_lane_state(bytes@)->Some_0;
    let mut entries: Vec<UnrewardedRelayerEntry> = Vec::new();
    let mut i: usize = 0;
    while i < count
        invariant
            0 <= i <= count,
            n == 16 + 24 * count,
            n == bytes@.len(),
            count == decoded.1.len(),
            entries@ == decoded.1.subrange(0, i as int),
            decoded == spec_decode_lane_state(bytes@)->Some_0,
            spec_decode_lane_state(bytes@) is Some,
        decreases count - i,
    {
        let base: usize = 16 + 24 * i;
        let relayer = decode_u64(bytes, base);
        let begin = decode_u64(bytes, base + 8);
        let end = decode_u64(bytes, base + 16);
        entries.push(UnrewardedRelayerEntry { relayer, begin, end });
        i = i + 1;
        proof {
            assert(decoded.1[i - 1] == UnrewardedRelayerEntry { relayer, begin, end });
            assert(entries@ =~= decoded.1.subrange(0, i as int));
        }
    }
    proof {
        assert(decoded.1.subrange(0, count as int) =~= decoded.1);
    }
    Ok((last_confirmed, entries))
}

/// One record's 24 bytes sit at its own offset in the record-sequence
/// bytes.
pub proof fn lemma_entries_bytes_index(entries: Seq<UnrewardedRelayerEntry>, i: int)
    requires
        0 <= i < entries.len(),
    ensures
        entries_bytes(entries).subrange(24 * i, 24 * i + 24) == entry_bytes(entries[i]),
    decreases i,
{
    lemma_entries_bytes_len(entries);
    if i == 0 {
        lemma_entries_bytes_len(entries.drop_first());
        assert(entries_bytes(entries).subrange(0, 24) =~= entry_bytes(entries[0]));
    } else {
        let rest = entries.drop_first();
        lemma_entries_bytes_index(rest, i - 1);
        lemma_entries_bytes_len(rest);
        assert(rest[i - 1] == entries[i]);
        assert(entries_bytes(entries).subrange(24 * i, 24 * i + 24)
            =~= entries_bytes(rest).subrange(24 * (i - 1), 24 * (i - 1) + 24));
    }
}

/// A lane state encodes and decodes back to itself.
pub proof fn lemma_lane_state_roundtrip(last_confirmed: u64, entries: Seq<UnrewardedRelayerEntry>)
    requires
        entries.len() <= u64::MAX,
    ensures
        spec_decode_lane_state(lane_state_bytes(last_confirmed, entries))
            == Some((last_confirmed, entries)),
{
    let bytes = lane_state_bytes(last_confirmed, entries);
    lemma_entries_bytes_len(entries);
    assert(bytes.subrange(0, 8) =~= u64_le_bytes(last_confirmed));
    assert(bytes.subrange(8, 16) =~= u64_le_bytes(entries.len() as u64));
    lemma_u64_le_roundtrip(last_confirmed);
    lemma_u64_le_roundtrip(entries.len() as u64);
    assert(bytes.len() == 16 + 24 * entries.len());
    let decoded = spec_decode_lane_state(bytes)->Some_0;
    assert forall|i: int| 0 <= i < entries.len() implies decoded.1[i] == entries[i] by {
        lemma_entries_bytes_index(entries, i);
        let e = entries[i];
        assert(bytes.subrange(16 + 24 * i, 24 + 24 * i)
            =~= entries_bytes(entries).subrange(24 * i, 24 * i + 8));
        assert(bytes.subrange(24 + 24 * i, 32 + 24 * i)
            =~= entries_bytes(entries).subrange(24 * i + 8, 24 * i + 16));
        assert(bytes.subrange(32 + 24 * i, 40 + 24 * i)
            =~= entries_bytes(entries).subrange(24 * i + 16, 24 * i + 24));
        assert(entries_bytes(entries).subrange(24 * i, 24 * i + 8)
            =~= entry_bytes(e).subrange(0, 8));
        assert(entries_bytes(entries).subrange(24 * i + 8, 24 * i + 16)
            =~= entry_bytes(e).subrange(8, 16));
        assert(entries_bytes(entries).subrange(24 * i + 16, 24 * i + 24)
            =~= entry_bytes(e).subrange(16, 24));
        assert(entry_bytes(e).subrange(0, 8) =~= u64_le_bytes(e.relayer));
        assert(entry_bytes(e).subrange(8, 16) =~= u64_le_bytes(e.begin));
        assert(entry_bytes(e).subrange(16, 24) =~= u64_le_bytes(e.end));
        lemma_u64_le_roundtrip(e.relayer);
        lemma_u64_le_roundtrip(e.begin);
        lemma_u64_le_roundtrip(e.end);
    }
    assert(decoded.1 =~= entries);
}

/// A payload encodes and decodes back to itself.
pub proof fn lemma_payload_roundtrip(weight: u64, data: Seq<u8>)
    ensures
        spec_decode_payload(payload_bytes(weight, data)) == Some((weight, data)),
{
    let bytes = payload_bytes(weight, data);
    assert(bytes.subrange(0, 8) =~= u64_le_bytes(weight));
    lemma_u64_le_roundtrip(weight);
    assert(bytes.skip(8) =~= data);
}

} // verus!

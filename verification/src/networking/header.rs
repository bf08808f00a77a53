//! Framing data for each transmission of bytes.

use vstd::prelude::*;
use vstd::slice::slice_subrange;
use std::ops::Range;

use crate::networking::bytes::{be_bytes, be_u64, read_u64, read_u64_into, write_u64};
use crate::networking::bytes::{law_read_after_write, law_write_after_read};

verus! {

/// The number of integer fields in [`MessageHeader`].
pub const FIELDS: usize = 6;

/// Framing data for each transmission of bytes, indicating a typed channel, the source and
/// destination workers, and the length in bytes.
#[derive(Debug, PartialEq, Eq, Structural, Hash, Clone, Copy)]
pub struct MessageHeader {
    /// index of channel.
    pub channel: usize,
    /// index of worker sending message.
    pub source: usize,
    /// lower bound of index of worker receiving message.
    pub target_lower: usize,
    /// upper bound of index of worker receiving message.
    ///
    /// This is often `self.target_lower + 1` for point to point messages,
    /// but can be larger for broadcast messages.
    pub target_upper: usize,
    /// number of bytes in message.
    pub length: usize,
    /// sequence number.
    pub seqno: usize,
}

/// The number of bytes that a header occupies.
pub open spec fn header_len() -> nat {
    8 * FIELDS as nat
}

/// The header that the first bytes of `s` represent. A field too large for the machine's index
/// type is cut to its low bits.
pub open spec fn decode(s: Seq<u8>) -> MessageHeader {
    MessageHeader {
        channel: be_u64(s, 0) as usize,
        source: be_u64(s, 8) as usize,
        target_lower: be_u64(s, 16) as usize,
        target_upper: be_u64(s, 24) as usize,
        length: be_u64(s, 32) as usize,
        seqno: be_u64(s, 40) as usize,
    }
}

/// Whether `s` begins with a whole message: a header and as many bytes as it announces.
pub open spec fn has_message(s: Seq<u8>) -> bool {
    s.len() >= header_len() && s.len() >= decode(s).message_len()
}

/// The channel and the target workers that the first bytes of `s` give, where there are enough.
pub open spec fn routing_info(s: Seq<u8>) -> Option<(usize, Range<usize>)> {
    if s.len() >= 32 {
        Some(
            (
                be_u64(s, 0) as usize,
                Range { start: be_u64(s, 16) as usize, end: be_u64(s, 24) as usize },
            ),
        )
    } else {
        None
    }
}

impl MessageHeader {
    /// The binary representation of the header.
    pub open spec fn encode(self) -> Seq<u8> {
        be_bytes(self.channel as u64) + be_bytes(self.source as u64) + be_bytes(
            self.target_lower as u64,
        ) + be_bytes(self.target_upper as u64) + be_bytes(self.length as u64) + be_bytes(
            self.seqno as u64,
        )
    }

    /// The number of bytes of the header and of the data that it announces.
    pub open spec fn message_len(self) -> nat {
        header_len() + self.length as nat
    }

    /// Whether the message goes to worker `worker`.
    pub open spec fn targets(self, worker: int) -> bool {
        self.target_lower <= worker < self.target_upper
    }

    /// Returns a header when there is enough supporting data
    pub fn try_read(bytes: &[u8]) -> (header: Option<MessageHeader>)
        ensures
            header == (if has_message(bytes@) {
                Some(decode(bytes@))
            } else {
                None
            }),
    {
        let buffer = match read_u64_into::<FIELDS>(bytes) {
            Some(buffer) => buffer,
            None => return None,
        };
        proof {
            assert(buffer[0] == be_u64(bytes@, 0));
            assert(buffer[1] == be_u64(bytes@, 8));
            assert(buffer[2] == be_u64(bytes@, 16));
            assert(buffer[3] == be_u64(bytes@, 24));
            assert(buffer[4] == be_u64(bytes@, 32));
            assert(buffer[5] == be_u64(bytes@, 40));
        }
        let header = MessageHeader {
            // Order must match writing order.
            channel: buffer[0] as usize,
            source: buffer[1] as usize,
            target_lower: buffer[2] as usize,
            target_upper: buffer[3] as usize,
            length: buffer[4] as usize,
            seqno: buffer[5] as usize,
        };
        // A length so large that no buffer holds the message is never supported by data.
        if bytes.len() - header.header_bytes() >= header.length {
            Some(header)
        } else {
            None
        }
    }

    /// Returns (channel, target workers' indices)
    pub fn try_read_routing_info(bytes: &[u8]) -> (info: Option<(usize, Range<usize>)>)
        ensures
            info == routing_info(bytes@),
    {
        let channel = match read_u64_at(bytes, 0) {
            Some(value) => value as usize,
            None => return None,
        };
        // source
        match read_u64_at(bytes, 8) {
            Some(_) => {},
            None => return None,
        }
        // target
        let lower = match read_u64_at(bytes, 16) {
            Some(value) => value as usize,
            None => return None,
        };
        let upper = match read_u64_at(bytes, 24) {
            Some(value) => value as usize,
            None => return None,
        };
        Some((channel, lower..upper))
    }

    /// Writes the header as binary data.
    pub fn write_to(&self, writer: &mut Vec<u8>)
        ensures
            final(writer)@ == old(writer)@ + self.encode(),
    {
        // Order must match reading order.
        write_u64(writer, self.channel as u64);
        write_u64(writer, self.source as u64);
        write_u64(writer, self.target_lower as u64);
        write_u64(writer, self.target_upper as u64);
        write_u64(writer, self.length as u64);
        write_u64(writer, self.seqno as u64);
        assert(writer@ =~= old(writer)@ + self.encode());
    }

    /// The number of bytes required for the header and data.
    pub fn required_bytes(&self) -> (required: usize)
        requires
            self.message_len() <= usize::MAX,
        ensures
            required == self.message_len(),
            required == 48 + self.length,
    {
        self.header_bytes() + self.length
    }

    /// The number of bytes required for the header.
    pub fn header_bytes(&self) -> (required: usize)
        ensures
            required == header_len(),
            required == 48,
    {
        8 * FIELDS
    }
}

/// Reads the integer at position `at`, where there are enough bytes.
fn read_u64_at(bytes: &[u8], at: usize) -> (value: Option<u64>)
    ensures
        value == (if bytes@.len() >= at + 8 {
            Some(be_u64(bytes@, at as int))
        } else {
            None
        }),
{
    if bytes.len() < at {
        None
    } else {
        read_u64(slice_subrange(bytes, at, bytes.len()))
    }
}

/// A header that was written is read back, whatever follows it, and the number of bytes that it
/// occupies does not depend on what it holds.
pub proof fn law_header_round_trip(header: MessageHeader, tail: Seq<u8>)
    ensures
        header.encode().len() == header_len(),
        decode(header.encode() + tail) == header,
{
    let s = header.encode() + tail;
    assert(s.subrange(0, 8) =~= be_bytes(header.channel as u64));
    law_read_after_write(s, 0, header.channel as u64);
    assert(s.subrange(8, 16) =~= be_bytes(header.source as u64));
    law_read_after_write(s, 8, header.source as u64);
    assert(s.subrange(16, 24) =~= be_bytes(header.target_lower as u64));
    law_read_after_write(s, 16, header.target_lower as u64);
    assert(s.subrange(24, 32) =~= be_bytes(header.target_upper as u64));
    law_read_after_write(s, 24, header.target_upper as u64);
    assert(s.subrange(32, 40) =~= be_bytes(header.length as u64));
    law_read_after_write(s, 32, header.length as u64);
    assert(s.subrange(40, 48) =~= be_bytes(header.seqno as u64));
    law_read_after_write(s, 40, header.seqno as u64);
}

/// Whether every field of the header at the front of `s` fits the machine's index type.
pub open spec fn fields_fit(s: Seq<u8>) -> bool {
    &&& be_u64(s, 0) <= usize::MAX
    &&& be_u64(s, 8) <= usize::MAX
    &&& be_u64(s, 16) <= usize::MAX
    &&& be_u64(s, 24) <= usize::MAX
    &&& be_u64(s, 32) <= usize::MAX
    &&& be_u64(s, 40) <= usize::MAX
}

/// A header that was read is written as the bytes that it was read from.
pub proof fn law_header_bytes_round_trip(s: Seq<u8>)
    requires
        s.len() >= header_len(),
        fields_fit(s),
    ensures
        decode(s).encode() == s.take(header_len() as int),
{
    law_write_after_read(s, 0);
    law_write_after_read(s, 8);
    law_write_after_read(s, 16);
    law_write_after_read(s, 24);
    law_write_after_read(s, 32);
    law_write_after_read(s, 40);
    assert(decode(s).encode() =~= s.take(header_len() as int));
}

/// Where a header can be read, its routing information is what the header says, and more bytes
/// do not change it.
pub proof fn law_routing_info_of_header(s: Seq<u8>, tail: Seq<u8>)
    requires
        s.len() >= header_len(),
    ensures
        routing_info(s) == Some(
            (
                decode(s).channel,
                (Range { start: decode(s).target_lower, end: decode(s).target_upper }),
            ),
        ),
        routing_info(s + tail) == routing_info(s),
{
    assert(forall|i: int| 0 <= i < header_len() ==> (s + tail)[i] == s[i]);
}

/// What a header reads as depends on its own bytes alone.
pub proof fn law_header_prefix(s: Seq<u8>, tail: Seq<u8>)
    requires
        s.len() >= header_len(),
    ensures
        decode(s + tail) == decode(s),
{
    assert(forall|i: int| 0 <= i < header_len() ==> (s + tail)[i] == s[i]);
}

/// A header is six integers of eight bytes each: the channel, the source, the lower and the upper
/// bound of the targets, the length and the sequence number, in this order.
pub proof fn law_header_layout(header: MessageHeader)
    ensures
        header.encode().len() == 48,
        header.encode().subrange(0, 8) == be_bytes(header.channel as u64),
        header.encode().subrange(8, 16) == be_bytes(header.source as u64),
        header.encode().subrange(16, 24) == be_bytes(header.target_lower as u64),
        header.encode().subrange(24, 32) == be_bytes(header.target_upper as u64),
        header.encode().subrange(32, 40) == be_bytes(header.length as u64),
        header.encode().subrange(40, 48) == be_bytes(header.seqno as u64),
{
}

/// Each field of a header is read from its own eight bytes.
pub proof fn law_header_fields(s: Seq<u8>)
    ensures
        decode(s).channel == be_u64(s, 0) as usize,
        decode(s).source == be_u64(s, 8) as usize,
        decode(s).target_lower == be_u64(s, 16) as usize,
        decode(s).target_upper == be_u64(s, 24) as usize,
        decode(s).length == be_u64(s, 32) as usize,
        decode(s).seqno == be_u64(s, 40) as usize,
{
}

/// A message is there once its header is there and as many bytes behind it as the header announces:
/// one byte less is not enough, and one more makes no difference.
pub proof fn law_message_is_there(s: Seq<u8>)
    ensures
        header_len() == 48,
        decode(s).message_len() == 48 + decode(s).length,
        has_message(s) <==> s.len() >= 48 && s.len() - 48 >= decode(s).length,
{
}

/// The routing information is there once the first four integers are, and is the first, the third
/// and the fourth of them.
pub proof fn law_routing_info_is_there(s: Seq<u8>)
    ensures
        s.len() < 32 ==> routing_info(s) is None,
        s.len() >= 32 ==> {
            &&& routing_info(s) matches Some((channel, targets))
            &&& channel == be_u64(s, 0) as usize
            &&& targets.start == be_u64(s, 16) as usize
            &&& targets.end == be_u64(s, 24) as usize
        },
{
}

/// A message is for the workers from the lower bound of its targets on and below the upper bound,
/// for each of them and for no other.
pub proof fn law_targets_are_a_range(header: MessageHeader, worker: int)
    ensures
        header.targets(worker) <==> header.target_lower <= worker && worker < header.target_upper,
{
}

} // verus!

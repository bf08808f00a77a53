//! A stream of bytes as a sequence of messages, each a header followed by its data.

use vstd::prelude::*;
use vstd::slice::slice_subrange;

use crate::networking::header::{
    MessageHeader, decode, has_message, header_len, law_header_prefix, law_header_round_trip,
};

verus! {

/// The whole messages at the front of `s`, each with its header.
pub open spec fn frames(s: Seq<u8>) -> Seq<Seq<u8>>
    decreases s.len(),
{
    if has_message(s) {
        let n = decode(s).message_len() as int;
        seq![s.take(n)] + frames(s.skip(n))
    } else {
        Seq::empty()
    }
}

/// What is left of `s` behind its whole messages.
pub open spec fn rest(s: Seq<u8>) -> Seq<u8>
    decreases s.len(),
{
    if has_message(s) {
        rest(s.skip(decode(s).message_len() as int))
    } else {
        s
    }
}

/// The bytes of all `parts`, one after the other.
pub open spec fn concat(parts: Seq<Seq<u8>>) -> Seq<u8>
    decreases parts.len(),
{
    if parts.len() == 0 {
        Seq::empty()
    } else {
        parts[0] + concat(parts.drop_first())
    }
}

/// Whether `s` is one message and nothing more.
pub open spec fn is_message(s: Seq<u8>) -> bool {
    s.len() >= header_len() && s.len() == decode(s).message_len()
}

/// Whether every one of `parts` is a message.
pub open spec fn all_messages(parts: Seq<Seq<u8>>) -> bool {
    forall|i: int| 0 <= i < parts.len() ==> is_message(#[trigger] parts[i])
}

/// The messages in `s` and what is behind them make up `s`: carving loses no byte.
pub proof fn law_frames_cover(s: Seq<u8>)
    ensures
        concat(frames(s)) + rest(s) == s,
        all_messages(frames(s)),
        !has_message(rest(s)),
    decreases s.len(),
{
    if has_message(s) {
        let n = decode(s).message_len() as int;
        let (head, tail) = (s.take(n), s.skip(n));
        law_frames_cover(tail);
        assert(frames(s).drop_first() =~= frames(tail));
        assert(head + tail =~= s);
        assert(concat(frames(s)) + rest(s) =~= head + (concat(frames(tail)) + rest(tail)));
        law_header_prefix(head, tail);
        assert forall|i: int| 0 <= i < frames(s).len() implies is_message(
            #[trigger] frames(s)[i],
        ) by {
            if i > 0 {
                assert(frames(s)[i] == frames(tail)[i - 1]);
            }
        }
    } else {
        assert(concat(frames(s)) + rest(s) =~= s);
    }
}

/// Bytes that arrive later do not change the messages that were there already: those of `s`
/// followed by `t` are those of `s`, then those of what `s` left behind followed by `t`.
pub proof fn law_frames_append(s: Seq<u8>, t: Seq<u8>)
    ensures
        frames(s + t) == frames(s) + frames(rest(s) + t),
        rest(s + t) == rest(rest(s) + t),
    decreases s.len(),
{
    if has_message(s) {
        let n = decode(s).message_len() as int;
        law_header_prefix(s, t);
        law_frames_append(s.skip(n), t);
        assert((s + t).take(n) =~= s.take(n));
        assert((s + t).skip(n) =~= s.skip(n) + t);
        assert(frames(s + t) =~= frames(s) + frames(rest(s) + t));
    } else {
        assert(frames(s + t) =~= frames(s) + frames(rest(s) + t));
    }
}

/// A stream made of whole messages is carved into exactly these messages, and nothing is left.
pub proof fn law_frames_of_messages(parts: Seq<Seq<u8>>)
    requires
        all_messages(parts),
    ensures
        frames(concat(parts)) == parts,
        rest(concat(parts)) == Seq::<u8>::empty(),
    decreases parts.len(),
{
    if parts.len() > 0 {
        let (head, tail) = (parts[0], parts.drop_first());
        let s = concat(parts);
        assert(is_message(head));
        assert forall|i: int| 0 <= i < tail.len() implies is_message(#[trigger] tail[i]) by {
            assert(tail[i] == parts[i + 1]);
        }
        law_frames_of_messages(tail);
        law_header_prefix(head, concat(tail));
        assert(s.take(head.len() as int) =~= head);
        assert(s.skip(head.len() as int) =~= concat(tail));
        assert(frames(s) =~= parts);
    } else {
        assert(frames(concat(parts)) =~= parts);
    }
}

/// A header followed by as many bytes as it announces is one message.
pub proof fn law_header_and_data_are_message(header: MessageHeader, data: Seq<u8>)
    requires
        data.len() == header.length,
    ensures
        is_message(header.encode() + data),
        decode(header.encode() + data) == header,
{
    law_header_round_trip(header, data);
}

/// Joining two lists of parts joins their bytes.
pub(crate) proof fn lemma_concat_append(a: Seq<Seq<u8>>, b: Seq<Seq<u8>>)
    ensures
        concat(a + b) == concat(a) + concat(b),
    decreases a.len(),
{
    if a.len() == 0 {
        assert(a + b =~= b);
        assert(concat(a + b) =~= concat(a) + concat(b));
    } else {
        assert((a + b).drop_first() =~= a.drop_first() + b);
        lemma_concat_append(a.drop_first(), b);
        assert(concat(a + b) =~= concat(a) + concat(b));
    }
}

/// The headers of the whole messages at the front of `bytes`, in order.
pub fn headers_in(bytes: &[u8]) -> (headers: Vec<MessageHeader>)
    ensures
        headers@ == frames(bytes@).map_values(|frame: Seq<u8>| decode(frame)),
{
    let ghost decoded = |frame: Seq<u8>| decode(frame);
    let mut headers: Vec<MessageHeader> = Vec::new();
    let mut offset: usize = 0;
    assert(bytes@.skip(0) =~= bytes@);
    assert(headers@ + frames(bytes@).map_values(decoded) =~= frames(bytes@).map_values(decoded));
    loop
        invariant
            offset <= bytes@.len(),
            decoded == |frame: Seq<u8>| decode(frame),
            headers@ + frames(bytes@.skip(offset as int)).map_values(decoded) == frames(
                bytes@,
            ).map_values(decoded),
        ensures
            headers@ == frames(bytes@).map_values(decoded),
        decreases bytes@.len() - offset,
    {
        let ghost s = bytes@.skip(offset as int);
        assert(bytes@.subrange(offset as int, bytes@.len() as int) =~= s);
        let header = match MessageHeader::try_read(slice_subrange(bytes, offset, bytes.len())) {
            Some(header) => header,
            None => {
                assert(headers@ + frames(s).map_values(decoded) =~= headers@);
                break ;
            },
        };
        proof {
            let n = header.message_len() as int;
            law_header_prefix(s.take(n), s.skip(n));
            assert(s.take(n) + s.skip(n) =~= s);
            assert(s.skip(n) =~= bytes@.skip(offset + n));
            assert(headers@.push(header) + frames(s.skip(n)).map_values(decoded) =~= headers@
                + frames(s).map_values(decoded));
        }
        headers.push(header);
        offset = offset + header.required_bytes();
    }
    headers
}

/// The bytes of some parts and of others behind them are the bytes of the ones and then those of the
/// others; one part has its own bytes, and no part has none.
pub proof fn law_concat(a: Seq<Seq<u8>>, b: Seq<Seq<u8>>, part: Seq<u8>)
    ensures
        concat(Seq::empty()) == Seq::<u8>::empty(),
        concat(seq![part]) == part,
        concat(a + b) == concat(a) + concat(b),
{
    reveal_with_fuel(concat, 2);
    assert(concat(seq![part]) =~= part);
    lemma_concat_append(a, b);
}

/// A message is a header and exactly as many bytes as it announces.
pub proof fn law_message_form(parts: Seq<Seq<u8>>, s: Seq<u8>)
    ensures
        is_message(s) <==> s.len() >= 48 && s.len() == 48 + decode(s).length,
        all_messages(parts) <==> forall|i: int|
            0 <= i < parts.len() ==> (#[trigger] parts[i]).len() >= 48 && parts[i].len() == 48
                + decode(parts[i]).length,
{
    if all_messages(parts) {
        assert forall|i: int| 0 <= i < parts.len() implies (#[trigger] parts[i]).len() >= 48
            && parts[i].len() == 48 + decode(parts[i]).length by {
            assert(is_message(parts[i]));
        }
    }
}

/// What is at the front of a stream decides what its first message is: it is there exactly where a
/// whole message is, and what follows it is carved in the same way.
pub proof fn law_first_frame(message: Seq<u8>, later: Seq<u8>)
    requires
        message.len() >= 48,
        message.len() == 48 + decode(message).length,
    ensures
        frames(message + later) == seq![message] + frames(later),
        rest(message + later) == rest(later),
{
    let s = message + later;
    law_header_prefix(message, later);
    assert(s.take(message.len() as int) =~= message);
    assert(s.skip(message.len() as int) =~= later);
}

} // verus!

//! Cutting a byte stream into messages.
//!
//! A message is a type byte, a big-endian 32-bit length that counts itself and the body but not
//! the type byte, and the body.
use vstd::prelude::*;
use vstd::slice::slice_subrange;
use vstd::slice::slice_to_vec;
use crate::wire::numbers::{i32_at, i32_bytes, law_i32_round_trip, read_i32_at};

verus! {

pub const NEGATIVE_FRAME_LENGTH: &'static str = "couldn't parse i32 to usize";

pub const FRAME_LENGTH_TOO_SMALL: &'static str =
    "length below protocol minimum, stream desynced";

/// How many consumed bytes are kept at most before they are given up.
pub const CONSUMED_LIMIT: usize = 9_000;

/// The first message of `pending`: none where not all of it is there yet, an error text where its
/// length cannot be.
pub open spec fn first_frame(pending: Seq<u8>) -> Result<Option<Seq<u8>>, Seq<char>> {
    if pending.len() < 5 {
        Ok(None)
    } else {
        let length = i32_at(pending, 1);
        if length < 0 {
            Err(NEGATIVE_FRAME_LENGTH@)
        } else if length < 4 {
            Err(FRAME_LENGTH_TOO_SMALL@)
        } else if pending.len() < length + 1 {
            Ok(None)
        } else {
            Ok(Some(pending.take(length + 1)))
        }
    }
}

/// What is left of `pending` once its first message is taken.
pub open spec fn after_first_frame(pending: Seq<u8>) -> Seq<u8> {
    match first_frame(pending) {
        Ok(Some(frame)) => pending.skip(frame.len() as int),
        _ => pending,
    }
}

/// The messages of `pending`, up to where one is incomplete or its length cannot be.
pub open spec fn frames(pending: Seq<u8>) -> Seq<Seq<u8>>
    decreases pending.len(),
{
    match first_frame(pending) {
        Ok(Some(frame)) => seq![frame] + frames(after_first_frame(pending)),
        _ => Seq::empty(),
    }
}

/// What is left of `pending` once all its messages are taken.
pub open spec fn after_frames(pending: Seq<u8>) -> Seq<u8>
    decreases pending.len(),
{
    match first_frame(pending) {
        Ok(Some(frame)) => after_frames(after_first_frame(pending)),
        _ => pending,
    }
}

/// The error text of the first message of `pending` that has an impossible length.
pub open spec fn framing_error(pending: Seq<u8>) -> Option<Seq<char>> {
    match first_frame(after_frames(pending)) {
        Err(message) => Some(message),
        Ok(_) => None,
    }
}

/// The bytes of all `parts` in a row.
pub open spec fn concatenated(parts: Seq<Seq<u8>>) -> Seq<u8>
    decreases parts.len(),
{
    if parts.len() == 0 {
        Seq::empty()
    } else {
        parts[0] + concatenated(parts.skip(1))
    }
}

/// Collects bytes and hands them out message by message.
pub struct MessageFramer {
    pub buffer: Vec<u8>,
    pub cursor: usize,
}

impl View for MessageFramer {
    type V = Seq<u8>;

    /// The bytes that were not handed out yet.
    open spec fn view(&self) -> Seq<u8> {
        self.buffer@.skip(self.cursor as int)
    }
}

impl MessageFramer {
    pub open spec fn wf(self) -> bool {
        self.cursor <= self.buffer.len()
    }

    pub fn new() -> (framer: Self)
        ensures
            framer.wf(),
            framer@ == Seq::<u8>::empty(),
    {
        Self { buffer: Vec::new(), cursor: 0 }
    }

    /// Forgets what is there and starts over with `buffer`.
    pub fn set_buffer(&mut self, buffer: Vec<u8>)
        ensures
            final(self).wf(),
            final(self)@ == buffer@,
            final(self).buffer == buffer,
    {
        self.buffer = buffer;
        self.cursor = 0;
        assert(self@ =~= buffer@);
    }

    pub fn add_buffer(&mut self, bytes: &[u8])
        requires
            old(self).wf(),
        ensures
            final(self).wf(),
            final(self)@ == old(self)@ + bytes@,
            final(self).buffer@ == old(self).buffer@ + bytes@,
            final(self).cursor == old(self).cursor,
    {
        self.buffer.extend_from_slice(bytes);
        assert(self@ =~= old(self)@ + bytes@);
    }

    /// Gives up the bytes that were handed out.
    pub fn compact(&mut self)
        ensures
            old(self).wf() ==> {
                &&& final(self).wf()
                &&& final(self).cursor == 0
                &&& final(self).buffer@ == old(self)@
            },
            !old(self).wf() ==> *final(self) == *old(self),
            final(self)@ == old(self)@,
    {
        if self.cursor <= self.buffer.len() {
            self.buffer =
            slice_to_vec(slice_subrange(self.buffer.as_slice(), self.cursor, self.buffer.len()));
            self.cursor = 0;
            assert(self@ =~= old(self)@);
        }
    }

    /// The next message, if all of it is there. Bytes that were handed out are given up once they
    /// are many, or nothing stands behind them.
    pub fn next_message(&mut self) -> (result: Result<Option<Vec<u8>>, String>)
        requires
            old(self).wf(),
        ensures
            final(self).wf(),
            final(self)@ == after_first_frame(old(self)@),
            final(self).buffer@ == if old(self).cursor >= CONSUMED_LIMIT || old(self).cursor == old(
                self,
            ).buffer.len() {
                old(self)@
            } else {
                old(self).buffer@
            },
            match (result, first_frame(old(self)@)) {
                (Ok(Some(message)), Ok(Some(frame))) => message@ == frame,
                (Ok(None), Ok(None)) => true,
                (Err(error), Err(message)) => error@ == message,
                _ => false,
            },
    {
        if self.cursor >= CONSUMED_LIMIT || self.cursor == self.buffer.len() {
            self.compact();
        }
        let available: usize = self.buffer.len() - self.cursor;
        if available < 5 {
            return Ok(None);
        }
        let length: i32 = read_i32_at(&self.buffer, self.cursor + 1);
        assert(length == i32_at(self@, 1));
        if length < 0 {
            return Err(NEGATIVE_FRAME_LENGTH.to_string());
        }
        if length < 4 {
            return Err(FRAME_LENGTH_TOO_SMALL.to_string());
        }
        if available - 1 < length as usize {
            return Ok(None);
        }
        let end: usize = self.cursor + length as usize + 1;
        let message: Vec<u8> = slice_to_vec(
            slice_subrange(self.buffer.as_slice(), self.cursor, end),
        );
        self.cursor = end;
        proof {
            assert(message@ =~= old(self)@.take(length + 1));
            assert(self@ =~= old(self)@.skip(length + 1));
        }
        Ok(Some(message))
    }
}

/// The messages that are handed out and the bytes that are left make up what came in: nothing is
/// lost, doubled or changed.
pub proof fn law_framing_keeps_every_byte(pending: Seq<u8>)
    ensures
        concatenated(frames(pending)) + after_frames(pending) == pending,
    decreases pending.len(),
{
    if let Ok(Some(frame)) = first_frame(pending) {
        let rest = after_first_frame(pending);
        law_framing_keeps_every_byte(rest);
        assert(frames(pending).skip(1) =~= frames(rest));
        assert(pending =~= frame + rest);
        assert(concatenated(frames(pending)) + after_frames(pending) =~= frame + (concatenated(
            frames(rest),
        ) + after_frames(rest)));
    } else {
        assert(concatenated(frames(pending)) + after_frames(pending) =~= pending);
    }
}

/// A message that is all there is handed out whatever follows it.
pub proof fn lemma_first_frame_stays(pending: Seq<u8>, more: Seq<u8>)
    requires
        first_frame(pending) != Ok::<Option<Seq<u8>>, Seq<char>>(None),
    ensures
        first_frame(pending + more) == first_frame(pending),
        after_first_frame(pending + more) == after_first_frame(pending) + more,
{
    assert(i32_at(pending + more, 1) == i32_at(pending, 1));
    if let Ok(Some(frame)) = first_frame(pending) {
        assert((pending + more).take(frame.len() as int) =~= frame);
        assert((pending + more).skip(frame.len() as int) =~= pending.skip(frame.len() as int)
            + more);
    } else {
        assert(pending + more =~= after_first_frame(pending + more));
    }
}

/// It does not matter in how many pieces the bytes come in: the messages of the first piece, then
/// those of what it left together with the second piece, are the messages of both.
pub proof fn law_pieces_do_not_matter(pending: Seq<u8>, more: Seq<u8>)
    ensures
        frames(pending + more) == frames(pending) + frames(after_frames(pending) + more),
        after_frames(pending + more) == after_frames(after_frames(pending) + more),
    decreases pending.len(),
{
    if let Ok(Some(frame)) = first_frame(pending) {
        let rest = after_first_frame(pending);
        lemma_first_frame_stays(pending, more);
        law_pieces_do_not_matter(rest, more);
        assert(frames(pending + more) =~= frames(pending) + frames(after_frames(pending) + more));
    } else {
        assert(frames(pending + more) =~= frames(pending) + frames(after_frames(pending) + more));
    }
}

/// `bytes` is one whole message and nothing else.
pub open spec fn is_frame(bytes: Seq<u8>) -> bool {
    first_frame(bytes) == Ok::<Option<Seq<u8>>, Seq<char>>(Some(bytes))
}

/// Every message that is handed out is one whole message.
pub proof fn law_frames_are_whole(pending: Seq<u8>)
    ensures
        forall|i: int| 0 <= i < frames(pending).len() ==> is_frame(#[trigger] frames(pending)[i]),
    decreases pending.len(),
{
    if let Ok(Some(frame)) = first_frame(pending) {
        let rest = after_first_frame(pending);
        law_frames_are_whole(rest);
        assert(i32_at(frame, 1) == i32_at(pending, 1));
        assert(frame.take(frame.len() as int) =~= frame);
        assert forall|i: int| 0 <= i < frames(pending).len() implies is_frame(
            #[trigger] frames(pending)[i],
        ) by {
            if i > 0 {
                assert(frames(pending)[i] == frames(rest)[i - 1]);
            }
        }
    }
}

/// A part more adds its bytes.
pub proof fn lemma_concatenated_push(parts: Seq<Seq<u8>>, part: Seq<u8>)
    ensures
        concatenated(parts.push(part)) == concatenated(parts) + part,
    decreases parts.len(),
{
    if parts.len() == 0 {
        reveal_with_fuel(concatenated, 2);
        assert(parts.push(part).skip(1) =~= Seq::<Seq<u8>>::empty());
        assert(concatenated(parts.push(part)) =~= part);
        assert(concatenated(parts) + part =~= part);
    } else {
        assert(parts.push(part).skip(1) =~= parts.skip(1).push(part));
        lemma_concatenated_push(parts.skip(1), part);
        assert(concatenated(parts.push(part)) =~= concatenated(parts) + part);
    }
}

/// The parts of two rows in a row.
pub proof fn lemma_concatenated_joined(first: Seq<Seq<u8>>, second: Seq<Seq<u8>>)
    ensures
        concatenated(first + second) == concatenated(first) + concatenated(second),
    decreases second.len(),
{
    if second.len() == 0 {
        assert(first + second =~= first);
        assert(concatenated(first) + concatenated(second) =~= concatenated(first));
    } else {
        let rest = second.drop_last();
        lemma_concatenated_joined(first, rest);
        lemma_concatenated_push(first + rest, second.last());
        lemma_concatenated_push(rest, second.last());
        assert(first + second =~= (first + rest).push(second.last()));
        assert(second =~= rest.push(second.last()));
        assert(concatenated(first + second) =~= concatenated(first) + concatenated(second));
    }
}

/// A whole message is the first of what it stands in front of.
pub proof fn lemma_frame_in_front(message: Seq<u8>, rest: Seq<u8>)
    requires
        is_frame(message),
    ensures
        first_frame(message + rest) == Ok::<Option<Seq<u8>>, Seq<char>>(Some(message)),
        after_first_frame(message + rest) == rest,
{
    lemma_first_frame_stays(message, rest);
    assert(message.skip(message.len() as int) + rest =~= rest);
}

/// A message is one byte for its type, four for a length that counts itself and what stands behind
/// it, and that many bytes. It is handed out once all of it is there; a length that does not count
/// itself is refused.
pub proof fn law_length_says_where_a_message_ends(byte: u8, length: i32, rest: Seq<u8>)
    ensures
        ({
            let pending = seq![byte] + i32_bytes(length as int) + rest;
            first_frame(pending) == if length < 0 {
                Err::<Option<Seq<u8>>, Seq<char>>(NEGATIVE_FRAME_LENGTH@)
            } else if length < 4 {
                Err(FRAME_LENGTH_TOO_SMALL@)
            } else if rest.len() < length - 4 {
                Ok(None)
            } else {
                Ok(Some(seq![byte] + i32_bytes(length as int) + rest.take(length - 4)))
            }
        }),
{
    let pending = seq![byte] + i32_bytes(length as int) + rest;
    law_i32_round_trip(length, seq![byte], rest);
    if length >= 4 && rest.len() >= length - 4 {
        assert(pending.take(length + 1) =~= seq![byte] + i32_bytes(length as int) + rest.take(
            length - 4,
        ));
    }
}

/// Before its length is there, nothing is handed out of a message.
pub proof fn law_a_length_is_waited_for(pending: Seq<u8>)
    requires
        pending.len() < 5,
    ensures
        first_frame(pending) == Ok::<Option<Seq<u8>>, Seq<char>>(None),
        frames(pending).len() == 0,
        after_frames(pending) == pending,
{
}

} // verus!

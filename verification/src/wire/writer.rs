//! Cutting sections out of a byte buffer.
use std::ops::Range;
use vstd::prelude::*;
use crate::wire::types::{ReplayTrim, ReplayTrimExtended, ReplayTrimSimple};

verus! {

/// `section`, in a buffer that lost `offset` bytes in front of it, does not lie within the `len`
/// bytes that are left.
pub open spec fn out_of_reach(len: nat, section: Range<usize>, offset: int) -> bool {
    ||| section.start < offset
    ||| section.end < offset
    ||| section.start - offset >= len
    ||| section.end - offset > len
}

/// `bytes`, of which `offset` are gone already, without `section`. One that is out of reach is left
/// alone.
pub open spec fn without_section(bytes: Seq<u8>, section: Range<usize>, offset: int) -> Seq<u8> {
    if out_of_reach(bytes.len(), section, offset) {
        bytes
    } else {
        bytes.take(section.start - offset) + bytes.skip(section.end - offset)
    }
}

/// How many bytes are gone once `section` was cut out as well.
pub open spec fn offset_after(len: nat, section: Range<usize>, offset: int) -> int {
    if out_of_reach(len, section, offset) {
        offset
    } else {
        offset + section.end - section.start
    }
}

/// `section` can be cut out, or is out of reach.
pub open spec fn can_drain(len: nat, section: Range<usize>, offset: int) -> bool {
    out_of_reach(len, section, offset) || section.start <= section.end
}

/// `bytes` without `sections`, which are cut out one after the other.
pub open spec fn trimmed(bytes: Seq<u8>, sections: Seq<Range<usize>>, offset: int) -> Seq<u8>
    decreases sections.len(),
{
    if sections.len() == 0 {
        bytes
    } else {
        trimmed(
            without_section(bytes, sections[0], offset),
            sections.skip(1),
            offset_after(bytes.len(), sections[0], offset),
        )
    }
}

/// How many bytes are gone once `sections` were cut out.
pub open spec fn offset_at_end(bytes: Seq<u8>, sections: Seq<Range<usize>>, offset: int) -> int
    decreases sections.len(),
{
    if sections.len() == 0 {
        offset
    } else {
        offset_at_end(
            without_section(bytes, sections[0], offset),
            sections.skip(1),
            offset_after(bytes.len(), sections[0], offset),
        )
    }
}

/// Each of `sections` can be cut out when its turn comes, or is out of reach then.
pub open spec fn can_trim(bytes: Seq<u8>, sections: Seq<Range<usize>>, offset: int) -> bool
    decreases sections.len(),
{
    sections.len() == 0 || {
        &&& can_drain(bytes.len(), sections[0], offset)
        &&& can_trim(
            without_section(bytes, sections[0], offset),
            sections.skip(1),
            offset_after(bytes.len(), sections[0], offset),
        )
    }
}

/// The section, if there is one.
pub open spec fn optional_section(section: Option<Range<usize>>) -> Seq<Range<usize>> {
    match section {
        Some(section) => seq![section],
        None => Seq::empty(),
    }
}

/// The sections of an answered request, in the order in which they are cut out.
pub open spec fn trim_sections(trim: ReplayTrim) -> Seq<Range<usize>> {
    match trim {
        ReplayTrim::Extended(trim) => optional_section(trim.parse) + optional_section(trim.bind)
            + optional_section(trim.describe) + seq![trim.execute] + optional_section(trim.sync),
        ReplayTrim::Simple(trim) => seq![trim.query],
    }
}

/// The sections of several answered requests.
pub open spec fn all_sections(trims: Seq<ReplayTrim>) -> Seq<Range<usize>>
    decreases trims.len(),
{
    if trims.len() == 0 {
        Seq::empty()
    } else {
        trim_sections(trims[0]) + all_sections(trims.skip(1))
    }
}

/// Cutting out `first` and then `second` is cutting out both.
proof fn lemma_trim_in_parts(
    bytes: Seq<u8>,
    first: Seq<Range<usize>>,
    second: Seq<Range<usize>>,
    offset: int,
)
    ensures
        trimmed(bytes, first + second, offset) == trimmed(
            trimmed(bytes, first, offset),
            second,
            offset_at_end(bytes, first, offset),
        ),
        offset_at_end(bytes, first + second, offset) == offset_at_end(
            trimmed(bytes, first, offset),
            second,
            offset_at_end(bytes, first, offset),
        ),
        can_trim(bytes, first + second, offset) <==> can_trim(bytes, first, offset) && can_trim(
            trimmed(bytes, first, offset),
            second,
            offset_at_end(bytes, first, offset),
        ),
    decreases first.len(),
{
    if first.len() == 0 {
        assert(first + second =~= second);
    } else {
        assert((first + second).skip(1) =~= first.skip(1) + second);
        lemma_trim_in_parts(
            without_section(bytes, first[0], offset),
            first.skip(1),
            second,
            offset_after(bytes.len(), first[0], offset),
        );
    }
}

/// What cutting out one section comes to.
proof fn lemma_trim_one(bytes: Seq<u8>, section: Range<usize>, offset: int)
    ensures
        trimmed(bytes, seq![section], offset) == without_section(bytes, section, offset),
        offset_at_end(bytes, seq![section], offset) == offset_after(bytes.len(), section, offset),
        can_trim(bytes, seq![section], offset) == can_drain(bytes.len(), section, offset),
{
    assert(seq![section].skip(1) =~= Seq::<Range<usize>>::empty());
    reveal_with_fuel(trimmed, 2);
    reveal_with_fuel(offset_at_end, 2);
    reveal_with_fuel(can_trim, 2);
}

/// `sections` lie in `bytes` from `from` on, one behind the other.
pub open spec fn in_order(len: nat, sections: Seq<Range<usize>>, from: int) -> bool
    decreases sections.len(),
{
    sections.len() == 0 || {
        &&& from <= sections[0].start <= sections[0].end <= len
        &&& in_order(len, sections.skip(1), sections[0].end as int)
    }
}

/// The bytes from `from` on that lie outside `sections`.
pub open spec fn outside(bytes: Seq<u8>, sections: Seq<Range<usize>>, from: int) -> Seq<u8>
    decreases sections.len(),
{
    if sections.len() == 0 {
        bytes.skip(from)
    } else {
        bytes.subrange(from, sections[0].start as int) + outside(
            bytes,
            sections.skip(1),
            sections[0].end as int,
        )
    }
}

/// Sections that stand one behind the other are cut out, and the bytes outside them stay.
pub proof fn law_sections_are_cut_out(bytes: Seq<u8>, sections: Seq<Range<usize>>)
    requires
        in_order(bytes.len(), sections, 0),
    ensures
        can_trim(bytes, sections, 0),
        trimmed(bytes, sections, 0) == outside(bytes, sections, 0),
{
    assert(Seq::<u8>::empty() + bytes.skip(0) =~= bytes);
    assert(Seq::<u8>::empty() + outside(bytes, sections, 0) =~= outside(bytes, sections, 0));
    lemma_cut_out(Seq::empty(), bytes, sections, 0, 0);
}

proof fn lemma_cut_out(
    kept: Seq<u8>,
    bytes: Seq<u8>,
    sections: Seq<Range<usize>>,
    from: int,
    offset: int,
)
    requires
        0 <= from <= bytes.len(),
        0 <= offset,
        kept.len() == from - offset,
        in_order(bytes.len(), sections, from),
    ensures
        can_trim(kept + bytes.skip(from), sections, offset),
        trimmed(kept + bytes.skip(from), sections, offset) == kept + outside(bytes, sections, from),
    decreases sections.len(),
{
    if sections.len() > 0 {
        let section = sections[0];
        let all = kept + bytes.skip(from);
        let more = kept + bytes.subrange(from, section.start as int);
        let end = section.end as int;
        let after = offset_after(all.len(), section, offset);
        assert(without_section(all, section, offset) =~= more + bytes.skip(end));
        lemma_cut_out(more, bytes, sections.skip(1), end, after);
        assert(kept + outside(bytes, sections, from) =~= more + outside(
            bytes,
            sections.skip(1),
            end,
        ));
    }
}

/// An answered request is cut out with all its messages: its Parse, its Bind, its Describe, its
/// Execute and its Sync, where they stand in that order. What stands between and around them stays.
pub proof fn law_answered_request_is_cut_out(
    bytes: Seq<u8>,
    parse: Range<usize>,
    bind: Range<usize>,
    describe: Range<usize>,
    execute: Range<usize>,
    sync: Range<usize>,
)
    requires
        parse.start <= parse.end <= bind.start <= bind.end <= describe.start <= describe.end,
        describe.end <= execute.start <= execute.end <= sync.start <= sync.end <= bytes.len(),
    ensures
        ({
            let trim = ReplayTrim::Extended(
                ReplayTrimExtended {
                    execute,
                    parse: Some(parse),
                    bind: Some(bind),
                    describe: Some(describe),
                    sync: Some(sync),
                },
            );
            &&& can_trim(bytes, all_sections(seq![trim]), 0)
            &&& trimmed(bytes, all_sections(seq![trim]), 0) == bytes.take(parse.start as int)
                + bytes.subrange(parse.end as int, bind.start as int) + bytes.subrange(
                bind.end as int,
                describe.start as int,
            ) + bytes.subrange(describe.end as int, execute.start as int) + bytes.subrange(
                execute.end as int,
                sync.start as int,
            ) + bytes.skip(sync.end as int)
        }),
{
    let trim = ReplayTrim::Extended(
        ReplayTrimExtended {
            execute,
            parse: Some(parse),
            bind: Some(bind),
            describe: Some(describe),
            sync: Some(sync),
        },
    );
    let sections = seq![parse, bind, describe, execute, sync];
    lemma_sections_of_one(trim);
    assert(trim_sections(trim) =~= sections);
    let s1 = sections.skip(1);
    let s2 = s1.skip(1);
    let s3 = s2.skip(1);
    let s4 = s3.skip(1);
    let s5 = s4.skip(1);
    assert(s5 =~= Seq::<Range<usize>>::empty());
    assert(in_order(bytes.len(), s5, sync.end as int));
    assert(in_order(bytes.len(), s4, execute.end as int));
    assert(in_order(bytes.len(), s3, describe.end as int));
    assert(in_order(bytes.len(), s2, bind.end as int));
    assert(in_order(bytes.len(), s1, parse.end as int));
    assert(in_order(bytes.len(), sections, 0));
    law_sections_are_cut_out(bytes, sections);
    let o5 = outside(bytes, s5, sync.end as int);
    let o4 = outside(bytes, s4, execute.end as int);
    let o3 = outside(bytes, s3, describe.end as int);
    let o2 = outside(bytes, s2, bind.end as int);
    let o1 = outside(bytes, s1, parse.end as int);
    assert(o5 == bytes.skip(sync.end as int));
    assert(o4 == bytes.subrange(execute.end as int, sync.start as int) + o5);
    assert(o3 == bytes.subrange(describe.end as int, execute.start as int) + o4);
    assert(o2 == bytes.subrange(bind.end as int, describe.start as int) + o3);
    assert(o1 == bytes.subrange(parse.end as int, bind.start as int) + o2);
    assert(outside(bytes, sections, 0) == bytes.subrange(0, parse.start as int) + o1);
    assert(bytes.subrange(0, parse.start as int) =~= bytes.take(parse.start as int));
    assert(outside(bytes, sections, 0) =~= bytes.take(parse.start as int) + bytes.subrange(
        parse.end as int,
        bind.start as int,
    ) + bytes.subrange(bind.end as int, describe.start as int) + bytes.subrange(
        describe.end as int,
        execute.start as int,
    ) + bytes.subrange(execute.end as int, sync.start as int) + bytes.skip(sync.end as int));
}

proof fn lemma_sections_of_one(trim: ReplayTrim)
    ensures
        all_sections(seq![trim]) == trim_sections(trim),
{
    assert(seq![trim].skip(1) =~= Seq::<ReplayTrim>::empty());
    assert(all_sections(seq![trim].skip(1)) =~= Seq::<Range<usize>>::empty());
    assert(all_sections(seq![trim]) =~= trim_sections(trim));
}

/// Of an answered request whose other messages are not there, the Execute alone is cut out; of an
/// answered simple query, the query.
pub proof fn law_single_message_is_cut_out(bytes: Seq<u8>, section: Range<usize>)
    requires
        section.start <= section.end <= bytes.len(),
    ensures
        ({
            let execution = ReplayTrim::Extended(
                ReplayTrimExtended {
                    execute: section,
                    parse: None,
                    bind: None,
                    describe: None,
                    sync: None,
                },
            );
            let query = ReplayTrim::Simple(ReplayTrimSimple { query: section });
            let rest = bytes.take(section.start as int) + bytes.skip(section.end as int);
            &&& can_trim(bytes, all_sections(seq![execution]), 0)
            &&& trimmed(bytes, all_sections(seq![execution]), 0) == rest
            &&& can_trim(bytes, all_sections(seq![query]), 0)
            &&& trimmed(bytes, all_sections(seq![query]), 0) == rest
        }),
{
    let execution = ReplayTrim::Extended(
        ReplayTrimExtended {
            execute: section,
            parse: None,
            bind: None,
            describe: None,
            sync: None,
        },
    );
    let query = ReplayTrim::Simple(ReplayTrimSimple { query: section });
    lemma_sections_of_one(execution);
    lemma_sections_of_one(query);
    assert(trim_sections(execution) =~= seq![section]);
    lemma_trim_one(bytes, section, 0);
    assert(bytes.take(section.start as int) + bytes.skip(section.end as int)
        =~= without_section(bytes, section, 0));
}

/// The sections of several requests are those of each, one request behind the other.
pub proof fn law_requests_are_cut_out_in_order(first: Seq<ReplayTrim>, second: Seq<ReplayTrim>)
    ensures
        all_sections(first + second) == all_sections(first) + all_sections(second),
    decreases first.len(),
{
    if first.len() == 0 {
        assert(first + second =~= second);
        assert(all_sections(first) + all_sections(second) =~= all_sections(second));
    } else {
        assert((first + second).skip(1) =~= first.skip(1) + second);
        law_requests_are_cut_out_in_order(first.skip(1), second);
        assert(all_sections(first + second) =~= all_sections(first) + all_sections(second));
    }
}

/// Edits a buffer in place.
pub struct ByteWriter<'a> {
    pub buffer: &'a mut Vec<u8>,
    pub cursor: usize,
}

impl<'a> ByteWriter<'a> {
    pub fn new(buffer: &'a mut Vec<u8>, cursor: usize) -> (writer: Self)
        ensures
            writer.buffer@ == old(buffer)@,
            *final(writer.buffer) == *final(buffer),
            writer.cursor == cursor,
    {
        Self { buffer, cursor }
    }

    pub fn get_buffer(&self) -> (buffer: &Vec<u8>)
        ensures
            buffer@ == old(self.buffer)@,
    {
        &self.buffer
    }

    /// The bytes from `start` up to `end`.
    pub fn slice_out_section(&self, start: usize, end: usize) -> (section: Vec<u8>)
        requires
            start <= end,
            start < end ==> end <= old(self.buffer).len(),
        ensures
            start < end ==> section@ == old(self.buffer)@.subrange(start as int, end as int),
            start == end ==> section@ == Seq::<u8>::empty(),
    {
        let len: usize = end - start;
        let mut result: Vec<u8> = Vec::with_capacity(len);
        let mut i: usize = 0;
        while i < len
            invariant
                i <= len,
                len == end - start,
                start < end ==> end <= self.buffer.len(),
                result.len() == i,
                forall|j: int| 0 <= j < i ==> result[j] == self.buffer[start + j],
            decreases len - i,
        {
            result.push(self.buffer[start + i]);
            i = i + 1;
        }
        proof {
            if start < end {
                assert(result@ =~= self.buffer@.subrange(start as int, end as int));
            }
        }
        result
    }

    /// Cuts the sections of the answered requests out of the buffer.
    pub fn trim_from_pending_commands(&mut self, pending_commands: &[ReplayTrim])
        requires
            can_trim(old(self).buffer@, all_sections(pending_commands@), 0),
        ensures
            final(self).buffer@ == trimmed(old(self).buffer@, all_sections(pending_commands@), 0),
            final(self).cursor == old(self).cursor,
            *final(final(self).buffer) == *final(old(self).buffer),
    {
        let mut removed_indexes: usize = 0;
        let mut i: usize = 0;
        let ghost total: usize = self.buffer.len();
        let ghost start = self.buffer@;
        assert(pending_commands@.skip(0) =~= pending_commands@);
        while i < pending_commands.len()
            invariant
                i <= pending_commands.len(),
                removed_indexes + self.buffer.len() == total,
                self.cursor == old(self).cursor,
                *final(self.buffer) == *final(old(self).buffer),
                can_trim(
                    self.buffer@,
                    all_sections(pending_commands@.skip(i as int)),
                    removed_indexes as int,
                ),
                trimmed(
                    self.buffer@,
                    all_sections(pending_commands@.skip(i as int)),
                    removed_indexes as int,
                ) == trimmed(start, all_sections(pending_commands@), 0),
            decreases pending_commands.len() - i,
        {
            let ghost rest = pending_commands@.skip(i as int);
            proof {
                assert(rest.skip(1) =~= pending_commands@.skip(i + 1));
                lemma_trim_in_parts(
                    self.buffer@,
                    trim_sections(rest[0]),
                    all_sections(rest.skip(1)),
                    removed_indexes as int,
                );
            }
            match &pending_commands[i] {
                ReplayTrim::Extended(command) => {
                    removed_indexes = self.drain_extended(command, removed_indexes);
                },
                ReplayTrim::Simple(command) => {
                    proof {
                        lemma_trim_one(self.buffer@, command.query, removed_indexes as int);
                    }
                    removed_indexes = self.drain_section(&command.query, removed_indexes);
                },
            }
            i = i + 1;
        }
    }

    fn drain_extended(&mut self, command: &ReplayTrimExtended, offset: usize) -> (removed: usize)
        requires
            can_trim(
                old(self).buffer@,
                trim_sections(ReplayTrim::Extended(*command)),
                offset as int,
            ),
            offset + old(self).buffer.len() <= usize::MAX,
        ensures
            final(self).buffer@ == trimmed(
                old(self).buffer@,
                trim_sections(ReplayTrim::Extended(*command)),
                offset as int,
            ),
            removed == offset_at_end(
                old(self).buffer@,
                trim_sections(ReplayTrim::Extended(*command)),
                offset as int,
            ),
            removed + final(self).buffer.len() == offset + old(self).buffer.len(),
            final(self).cursor == old(self).cursor,
            *final(final(self).buffer) == *final(old(self).buffer),
    {
        let ghost all = trim_sections(ReplayTrim::Extended(*command));
        let ghost after_parse = optional_section(command.bind) + (optional_section(command.describe)
            + (seq![command.execute] + optional_section(command.sync)));
        let ghost after_bind = optional_section(command.describe) + (seq![command.execute]
            + optional_section(command.sync));
        let ghost after_describe = seq![command.execute] + optional_section(command.sync);
        proof {
            assert(all =~= optional_section(command.parse) + after_parse);
            lemma_trim_in_parts(
                self.buffer@,
                optional_section(command.parse),
                after_parse,
                offset as int,
            );
        }
        let mut removed: usize = self.drain_optional(&command.parse, offset);
        proof {
            lemma_trim_in_parts(
                self.buffer@,
                optional_section(command.bind),
                after_bind,
                removed as int,
            );
        }
        removed = self.drain_optional(&command.bind, removed);
        proof {
            lemma_trim_in_parts(
                self.buffer@,
                optional_section(command.describe),
                after_describe,
                removed as int,
            );
        }
        removed = self.drain_optional(&command.describe, removed);
        proof {
            lemma_trim_in_parts(
                self.buffer@,
                seq![command.execute],
                optional_section(command.sync),
                removed as int,
            );
            lemma_trim_one(self.buffer@, command.execute, removed as int);
        }
        removed = self.drain_section(&command.execute, removed);
        self.drain_optional(&command.sync, removed)
    }

    fn drain_optional(&mut self, section: &Option<Range<usize>>, offset: usize) -> (removed: usize)
        requires
            can_trim(old(self).buffer@, optional_section(*section), offset as int),
            offset + old(self).buffer.len() <= usize::MAX,
        ensures
            final(self).buffer@ == trimmed(
                old(self).buffer@,
                optional_section(*section),
                offset as int,
            ),
            removed == offset_at_end(old(self).buffer@, optional_section(*section), offset as int),
            removed + final(self).buffer.len() == offset + old(self).buffer.len(),
            final(self).cursor == old(self).cursor,
            *final(final(self).buffer) == *final(old(self).buffer),
    {
        match section {
            Some(section) => {
                proof {
                    lemma_trim_one(self.buffer@, *section, offset as int);
                }
                self.drain_section(section, offset)
            },
            None => offset,
        }
    }

    /// Cuts one section out, and returns how many bytes are gone then.
    pub fn drain_section(&mut self, section: &Range<usize>, offset: usize) -> (removed: usize)
        requires
            can_drain(old(self).buffer@.len(), *section, offset as int),
            offset + old(self).buffer.len() <= usize::MAX,
        ensures
            final(self).buffer@ == without_section(old(self).buffer@, *section, offset as int),
            removed == offset_after(old(self).buffer@.len(), *section, offset as int),
            removed + final(self).buffer.len() == offset + old(self).buffer.len(),
            final(self).cursor == old(self).cursor,
            *final(final(self).buffer) == *final(old(self).buffer),
    {
        if section.start < offset || section.end < offset || section.start - offset
            >= self.buffer.len() || section.end - offset > self.buffer.len() {
            return offset;
        }
        let mut tail: Vec<u8> = self.buffer.split_off(section.end - offset);
        self.buffer.truncate(section.start - offset);
        self.buffer.append(&mut tail);
        offset + (section.end - section.start)
    }
}

} // verus!

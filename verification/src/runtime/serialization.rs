//! Writing request records into a slot buffer: a cursor that reserves aligned
//! regions, and the layout of a closure record (captured environment, then
//! serialized arguments).

use vstd::prelude::*;
use crate::runtime::slots::{Aligned, FatClosurePtr, PropertyPtr, RequestRecordHeader, SLOT_BYTES, splice};
use crate::runtime::slots::header::{boundary_offset, effective_align, next_boundary_offset};

verus! {

/// A cursor over a slot buffer that reserves regions front to back.
pub struct SlotWriter<'a> {
    /// The slot buffer written into.
    pub buf: &'a mut Aligned<SLOT_BYTES>,
    /// Bytes of the buffer that may be used.
    pub len: usize,
    /// Offset of the next free byte.
    pub cursor: usize,
}

impl<'a> SlotWriter<'a> {
    /// Creates a writer at the start of `buf`.
    pub fn new(buf: &'a mut Aligned<SLOT_BYTES>) -> (w: Self)
        ensures
            w.cursor == 0,
            w.len == SLOT_BYTES,
            w.buf.0@ == old(buf).0@,
            *final(buf) == *final(w.buf),
    {
        SlotWriter { buf, len: SLOT_BYTES, cursor: 0 }
    }

    /// Reserves `size` bytes at the next `align` boundary (0 counts as 1) and
    /// returns the offset of the reserved region; the cursor moves past it.
    /// The region must fit within `len`.
    pub fn alloc_aligned(&mut self, size: usize, align: usize) -> (pos: usize)
        requires
            old(self).len <= SLOT_BYTES,
            old(self).cursor + effective_align(align) <= usize::MAX,
            boundary_offset(old(self).cursor as int, align as int) + size
                <= old(self).len,
        ensures
            pos == boundary_offset(old(self).cursor as int, align as int),
            final(self).cursor == pos + size,
            final(self).len == old(self).len,
            final(self).buf.0@ == old(self).buf.0@,
            *final(final(self).buf) == *final(old(self).buf),
    {
        let pos = next_boundary_offset(self.cursor, size, align);
        self.cursor = pos + size;
        pos
    }

    /// Copies `bytes` at the cursor (no extra alignment) and returns the
    /// offset where they start; the cursor moves past them.
    pub fn write_bytes(&mut self, bytes: &[u8]) -> (pos: usize)
        requires
            old(self).len <= SLOT_BYTES,
            old(self).cursor + bytes@.len() <= old(self).len,
        ensures
            pos == old(self).cursor,
            final(self).cursor == pos + bytes@.len(),
            final(self).len == old(self).len,
            final(self).buf.0@ == splice(old(self).buf.0@, pos as int, bytes@),
            *final(final(self).buf) == *final(old(self).buf),
    {
        let pos = self.alloc_aligned(bytes.len(), 1);
        let ghost start = self.buf.0@;
        let ghost cur = self.cursor;
        let ghost len = self.len;
        let mut i: usize = 0;
        while i < bytes.len()
            invariant
                i <= bytes@.len(),
                pos + bytes@.len() <= SLOT_BYTES,
                self.buf.0@.len() == SLOT_BYTES,
                start.len() == SLOT_BYTES,
                self.cursor == cur,
                self.len == len,
                *final(self.buf) == *final(old(self).buf),
                self.buf.0@ =~= splice(start, pos as int, bytes@.subrange(0, i as int)),
            decreases bytes@.len() - i,
        {
            self.buf.0[pos + i] = bytes[i];
            i = i + 1;
        }
        assert(bytes@.subrange(0, bytes@.len() as int) =~= bytes@);
        pos
    }
}

/// Regions that a writer reserves one after another never overlap: each
/// starts at or after the cursor that the previous one left.
pub proof fn lemma_reservations_disjoint(cursor: int, size1: int, align1: int, size2: int, align2: int)
    requires
        0 <= cursor,
        0 <= size1,
        0 <= size2,
        0 <= align1,
        0 <= align2,
    ensures
        ({
            let p1 = boundary_offset(cursor, align1);
            let p2 = boundary_offset(p1 + size1, align2);
            cursor <= p1 && p1 + size1 <= p2
        }),
{
    let a1 = if align1 == 0 { 1 } else { align1 };
    let p1 = boundary_offset(cursor, align1);
    let a2 = if align2 == 0 { 1 } else { align2 };
    crate::runtime::slots::header::lemma_round_up(cursor, a1);
    crate::runtime::slots::header::lemma_round_up(p1 + size1, a2);
}

/// Where a closure record's captured environment goes when the writer
/// stands at `cursor`.
pub open spec fn env_position(cursor: int, env_size: int, env_align: int) -> int {
    boundary_offset(cursor, env_align)
}

/// Where a closure record's serialized arguments go: right after the
/// environment.
pub open spec fn args_position(cursor: int, env_size: int, env_align: int, args_len: int) -> int {
    env_position(cursor, env_size, env_align) + env_size
}

/// The record header that names a closure laid out from `cursor`.
pub open spec fn record_for(
    cursor: int,
    property_ptr: PropertyPtr,
    env_size: usize,
    env_align: usize,
    vtable: u64,
    args_len: usize,
) -> RequestRecordHeader {
    RequestRecordHeader {
        closure: FatClosurePtr {
            data: env_position(cursor, env_size as int, env_align as int) as u64,
            vtable,
        },
        property_ptr,
        captured_len: env_size as u32,
        args_len: args_len as u32,
        args_offset: args_position(cursor, env_size as int, env_align as int, args_len as int) as u32,
        repeat_count: 1,
    }
}

/// The header of a record laid out from `cursor` names what it was given:
/// the record's kind and vtable unchanged, a single run, the environment's
/// size, and the arguments' length. The environment starts at the first
/// multiple of its alignment (0 counting as 1) at or after the cursor, and
/// the arguments start right where the environment ends.
pub proof fn lemma_record_for_fields(
    cursor: int,
    property_ptr: PropertyPtr,
    env_size: usize,
    env_align: usize,
    vtable: u64,
    args_len: usize,
)
    requires
        0 <= cursor,
        cursor + effective_align(env_align) + env_size + args_len <= u32::MAX,
    ensures
        ({
            let h = record_for(cursor, property_ptr, env_size, env_align, vtable, args_len);
            let a = effective_align(env_align);
            &&& h.property_ptr == property_ptr
            &&& h.closure.vtable == vtable
            &&& h.repeat_count == 1
            &&& h.captured_len == env_size
            &&& h.args_len == args_len
            &&& cursor <= h.closure.data < cursor + a
            &&& (h.closure.data as int) % a == 0
            &&& forall|y: int| cursor <= y && #[trigger] (y % a) == 0 ==> h.closure.data <= y
            &&& h.args_offset == h.closure.data + env_size
        }),
{
    crate::runtime::slots::header::lemma_round_up(cursor, effective_align(env_align));
}

/// Lays out one closure record from the writer's cursor: reserves the
/// closure's captured environment (`env_size` bytes aligned to `env_align`),
/// then copies the serialized arguments right after it, and returns the
/// record header that names both. The environment's bytes are left for the
/// code that owns the closure to fill in.
pub fn encode_record(
    out: &mut SlotWriter,
    property_ptr: PropertyPtr,
    env_size: usize,
    env_align: usize,
    vtable: u64,
    serialized_args: &[u8],
) -> (hdr: RequestRecordHeader)
    requires
        old(out).len <= SLOT_BYTES,
        old(out).cursor <= SLOT_BYTES,
        env_align <= SLOT_BYTES,
        env_position(old(out).cursor as int, env_size as int, env_align as int) + env_size
            <= old(out).len,
        args_position(old(out).cursor as int, env_size as int, env_align as int, serialized_args@.len() as int)
            + serialized_args@.len() <= old(out).len,
    ensures
        hdr == record_for(old(out).cursor as int, property_ptr, env_size, env_align, vtable, serialized_args@.len() as usize),
        hdr.property_ptr == property_ptr,
        hdr.closure.vtable == vtable,
        hdr.repeat_count == 1,
        final(out).cursor == args_position(old(out).cursor as int, env_size as int, env_align as int, serialized_args@.len() as int)
            + serialized_args@.len(),
        final(out).len == old(out).len,
        *final(final(out).buf) == *final(old(out).buf),
        final(out).buf.0@ == splice(
            old(out).buf.0@,
            args_position(old(out).cursor as int, env_size as int, env_align as int, serialized_args@.len() as int),
            serialized_args@,
        ),
{
    let env_pos = out.alloc_aligned(env_size, env_align);
    let args_pos = out.write_bytes(serialized_args);
    RequestRecordHeader {
        closure: FatClosurePtr { data: env_pos as u64, vtable },
        property_ptr,
        captured_len: env_size as u32,
        args_len: serialized_args.len() as u32,
        args_offset: args_pos as u32,
        repeat_count: 1,
    }
}

} // verus!

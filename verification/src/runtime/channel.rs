//! The handshake on a channel pair. A client posts records and flips the
//! request's ready bit away from the response's; the trustee reads the records
//! and answers by copying the request's ready bit into the response. A request
//! is outstanding exactly while the two ready bits differ.

use vstd::prelude::*;
use crate::runtime::slots::{
    Aligned, ChannelPair, RequestRecordHeader, HEADER_BYTES, RECORD_HEADER_ALIGN, RECORD_HEADER_BYTES,
    SLOT_BYTES, parse_record, record_bytes, splice, lemma_record_roundtrip, lemma_record_bytes_parts,
};
use crate::runtime::slots::header::{
    boundary_offset, count, next_boundary_offset, pack_ready_count, packed_word, ready, round_up,
    word_count, word_ready, lemma_count_of_pack, lemma_ready_of_pack,
};

verus! {

/// Most record headers that fit in one request slot.
pub const MAX_RECORDS: usize = 28;

/// Offset from the slot base where a single-record request's payload (its
/// captured environment, then its arguments) starts: right after the record
/// header at `record_offset(0)`.
pub const PAYLOAD_OFFSET: usize = 48;

/// Offset from the slot base of the `i`-th record header of a batch.
pub open spec fn record_offset(i: int) -> int {
    8 + RECORD_HEADER_BYTES * i
}

proof fn lemma_record_step(i: int)
    requires
        0 <= i,
    ensures
        boundary_offset(
            if i == 0 { HEADER_BYTES as int } else { record_offset(i - 1) + RECORD_HEADER_BYTES },
            RECORD_HEADER_ALIGN as int,
        ) == record_offset(i),
{
    let c = if i == 0 { HEADER_BYTES as int } else { record_offset(i - 1) + RECORD_HEADER_BYTES };
    if i == 0 {
        assert(round_up(4, 8) == 8);
    } else {
        assert(c == 8 * (5 * i + 1)) by (nonlinear_arith)
            requires
                c == 8 + 40 * (i - 1) + 40,
        ;
        vstd::arithmetic::div_mod::lemma_mod_multiples_basic(5 * i + 1, 8);
        assert(c % 8 == 0);
        assert(round_up(c, 8) == c);
    }
}

/// The offsets at which the trustee finds the record headers of a batch of
/// `count` records: walking from the header word, each header goes at the next
/// 8-byte boundary and the walk steps over it.
pub fn record_offsets(count: usize) -> (offsets: Vec<usize>)
    requires
        count <= MAX_RECORDS,
    ensures
        offsets@.len() == count,
        forall|i: int| 0 <= i < count ==> offsets@[i] == record_offset(i),
{
    let mut offsets: Vec<usize> = Vec::new();
    let mut cursor: usize = HEADER_BYTES;
    let mut i: usize = 0;
    while i < count
        invariant
            i <= count <= MAX_RECORDS,
            offsets@.len() == i,
            forall|j: int| 0 <= j < i ==> offsets@[j] == record_offset(j),
            cursor == (if i == 0 { HEADER_BYTES as int } else { record_offset(i - 1)
                + RECORD_HEADER_BYTES }),
        decreases count - i,
    {
        proof {
            lemma_record_step(i as int);
        }
        let at = next_boundary_offset(cursor, RECORD_HEADER_BYTES, RECORD_HEADER_ALIGN);
        offsets.push(at);
        cursor = at + RECORD_HEADER_BYTES;
        i = i + 1;
    }
    offsets
}

impl ChannelPair {
    /// The ready bit of the request slot.
    pub open spec fn request_ready(&self) -> bool {
        word_ready(self.request.primary.header.flags)
    }

    /// The ready bit of the response slot.
    pub open spec fn response_ready(&self) -> bool {
        word_ready(self.response.primary.header.flags)
    }

    /// A request is outstanding: the two ready bits differ.
    pub open spec fn pending(&self) -> bool {
        self.request_ready() != self.response_ready()
    }

    /// The `i`-th record header of the request slot, as its bytes decode.
    pub open spec fn record_at(&self, i: int) -> Option<RequestRecordHeader> {
        parse_record(
            self.request.body().subrange(
                record_offset(i) - HEADER_BYTES,
                record_offset(i) - HEADER_BYTES + RECORD_HEADER_BYTES,
            ),
        )
    }

    /// Whether a request is outstanding on this channel.
    pub fn request_pending(&self) -> (r: bool)
        ensures
            r == self.pending(),
    {
        ready(self.request.primary.header.flags) != ready(self.response.primary.header.flags)
    }

    /// Client side: places `record` as the only record of a new request and
    /// flips the request's ready bit away from the response's. Returns the
    /// ready bit that the trustee's answer will carry.
    pub fn post_record(&mut self, record: &RequestRecordHeader) -> (req_ready: bool)
        ensures
            req_ready == !old(self).response_ready(),
            final(self).request.primary.header.flags == packed_word(req_ready, 1),
            final(self).request.body() == splice(
                old(self).request.body(),
                record_offset(0) - HEADER_BYTES,
                record_bytes(*record),
            ),
            final(self).response == old(self).response,
            final(self).client_lock == old(self).client_lock,
            final(self).pending(),
            final(self).record_at(0) == Some(*record),
    {
        let bytes = record.to_bytes();
        self.request.write_at(8, bytes.as_slice());
        let req_ready = !ready(self.response.primary.header.flags);
        self.request.primary.header.flags = pack_ready_count(req_ready, 1);
        proof {
            lemma_ready_of_pack(req_ready, 1);
            lemma_record_roundtrip(*record);
            let b = self.request.body();
            assert(b.subrange(4, 44) =~= record_bytes(*record));
        }
        req_ready
    }

    /// Client side: copies the staged record payload (captured environment
    /// and arguments), which a `SlotWriter` laid out from `PAYLOAD_OFFSET` up
    /// to `end`, into the request slot, then posts `record` as with
    /// `post_record`. Returns the ready bit that the answer will carry.
    pub fn post_call(&mut self, staged: &Aligned<SLOT_BYTES>, end: usize, record: &RequestRecordHeader) -> (req_ready: bool)
        requires
            PAYLOAD_OFFSET <= end <= SLOT_BYTES,
        ensures
            req_ready == !old(self).response_ready(),
            final(self).request.primary.header.flags == packed_word(req_ready, 1),
            final(self).request.body() == splice(
                splice(
                    old(self).request.body(),
                    PAYLOAD_OFFSET - HEADER_BYTES,
                    staged.0@.subrange(PAYLOAD_OFFSET as int, end as int),
                ),
                record_offset(0) - HEADER_BYTES,
                record_bytes(*record),
            ),
            final(self).response == old(self).response,
            final(self).client_lock == old(self).client_lock,
            final(self).pending(),
            final(self).record_at(0) == Some(*record),
            final(self).request.body().subrange(
                PAYLOAD_OFFSET - HEADER_BYTES,
                end - HEADER_BYTES,
            ) == staged.0@.subrange(PAYLOAD_OFFSET as int, end as int),
    {
        let payload = vstd::slice::slice_subrange(vstd::array::array_as_slice(&staged.0), PAYLOAD_OFFSET, end);
        self.request.write_at(PAYLOAD_OFFSET, payload);
        let ghost mid = self.request.body();
        let r = self.post_record(record);
        proof {
            let b = self.request.body();
            lemma_record_bytes_parts(*record);
            assert(mid.len() == SLOT_BYTES - HEADER_BYTES);
            assert(b.subrange(PAYLOAD_OFFSET - HEADER_BYTES, end - HEADER_BYTES) =~= mid.subrange(
                PAYLOAD_OFFSET - HEADER_BYTES,
                end - HEADER_BYTES,
            ));
            assert(mid.subrange(PAYLOAD_OFFSET - HEADER_BYTES, end - HEADER_BYTES) =~= staged.0@.subrange(
                PAYLOAD_OFFSET as int,
                end as int,
            ));
        }
        r
    }

    /// Trustee side: the record headers of the outstanding batch, as many as
    /// the request's count says. `None` when the count exceeds `MAX_RECORDS` or
    /// some header does not decode.
    pub fn pending_records(&self) -> (records: Option<Vec<RequestRecordHeader>>)
        ensures
            match records {
                Some(v) => {
                    &&& word_count(self.request.primary.header.flags) <= MAX_RECORDS
                    &&& v@.len() == word_count(self.request.primary.header.flags)
                    &&& forall|i: int| 0 <= i < v@.len() ==> self.record_at(i) == Some(v@[i])
                },
                None => word_count(self.request.primary.header.flags) > MAX_RECORDS || exists|i: int|
                    0 <= i < word_count(self.request.primary.header.flags) && self.record_at(i) is None,
            },
    {
        let n = count(self.request.primary.header.flags);
        if n as usize > MAX_RECORDS {
            return None;
        }
        let offsets = record_offsets(n as usize);
        let mut out: Vec<RequestRecordHeader> = Vec::new();
        let mut i: usize = 0;
        while i < n as usize
            invariant
                n == word_count(self.request.primary.header.flags),
                n <= MAX_RECORDS,
                i <= n,
                offsets@.len() == n,
                forall|j: int| 0 <= j < n ==> offsets@[j] == record_offset(j),
                out@.len() == i,
                forall|j: int| 0 <= j < i ==> self.record_at(j) == Some(out@[j]),
            decreases n - i,
        {
            let bytes = self.request.read_at(offsets[i], RECORD_HEADER_BYTES);
            match RequestRecordHeader::from_bytes(bytes.as_slice()) {
                Some(h) => out.push(h),
                None => {
                    assert(self.record_at(i as int) is None);
                    return None;
                },
            }
            i = i + 1;
        }
        Some(out)
    }

    /// Trustee side: answers the outstanding request by copying `req_ready`
    /// into the response's ready bit, with the number of records processed.
    pub fn respond(&mut self, req_ready: bool, processed: u32)
        ensures
            final(self).response.primary.header.flags == packed_word(req_ready, processed),
            final(self).response.body() == old(self).response.body(),
            final(self).request == old(self).request,
            final(self).client_lock == old(self).client_lock,
            final(self).response_ready() == req_ready,
            req_ready == old(self).request_ready() ==> !final(self).pending(),
    {
        self.response.primary.header.flags = pack_ready_count(req_ready, processed);
        proof {
            lemma_ready_of_pack(req_ready, processed);
        }
    }

    /// Client side: whether the trustee's answer carrying `req_ready` has arrived.
    pub fn response_arrived(&self, req_ready: bool) -> (r: bool)
        ensures
            r == (self.response_ready() == req_ready),
    {
        ready(self.response.primary.header.flags) == req_ready
    }

    /// Trustee side: writes a result right after the response's header word.
    pub fn write_response(&mut self, bytes: &[u8])
        requires
            bytes@.len() <= SLOT_BYTES - HEADER_BYTES,
        ensures
            final(self).response.primary.header == old(self).response.primary.header,
            final(self).response.body() == splice(old(self).response.body(), 0, bytes@),
            final(self).request == old(self).request,
            final(self).client_lock == old(self).client_lock,
    {
        self.response.write_at(HEADER_BYTES, bytes);
    }

    /// Client side: reads `len` result bytes after the response's header word.
    pub fn read_response(&self, len: usize) -> (out: Vec<u8>)
        requires
            len <= SLOT_BYTES - HEADER_BYTES,
        ensures
            out@ == self.response.body().subrange(0, len as int),
    {
        self.response.read_at(HEADER_BYTES, len)
    }
}

/// A request that the trustee has answered is no longer outstanding, and
/// the client that posted it sees the answer with the count the trustee
/// stored: the client posts (its request word is `packed_word(req_ready, 1)`),
/// then the trustee stores `packed_word(req_ready, k)` in the response.
pub proof fn lemma_post_then_respond(posted: ChannelPair, answered: ChannelPair, req_ready: bool, k: u32)
    requires
        posted.request.primary.header.flags == packed_word(req_ready, 1),
        answered.request == posted.request,
        answered.response.primary.header.flags == packed_word(req_ready, k),
    ensures
        posted.request_ready() == req_ready,
        !answered.pending(),
        answered.response_ready() == req_ready,
        word_count(answered.response.primary.header.flags) == k as int % 0x8000_0000,
{
    lemma_ready_of_pack(req_ready, 1);
    lemma_ready_of_pack(req_ready, k);
    lemma_count_of_pack(req_ready, k);
}

/// Each post opens a new request whatever state the channel was in: the new
/// request's ready bit is the opposite of the response's.
pub proof fn lemma_post_opens_request(before: ChannelPair, after: ChannelPair, req_ready: bool)
    requires
        req_ready == !before.response_ready(),
        after.request.primary.header.flags == packed_word(req_ready, 1),
        after.response == before.response,
    ensures
        after.pending(),
        word_count(after.request.primary.header.flags) == 1,
{
    lemma_ready_of_pack(req_ready, 1);
    lemma_count_of_pack(req_ready, 1);
}

} // verus!

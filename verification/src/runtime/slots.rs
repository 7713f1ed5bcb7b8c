//! Layout of the request and response slots of a client/trustee channel, and
//! the byte encoding of the request records that a client places in them.

pub mod header;

use vstd::prelude::*;
use vstd::bytes::*;

verus! {

/// Bytes in the primary block of a slot (header word included).
pub const PRIMARY_BYTES: usize = 128;

/// Bytes in the trailing block of a slot.
pub const TRAILING_BYTES: usize = 1024;

/// Bytes in a whole slot: primary block, then trailing block.
pub const SLOT_BYTES: usize = PRIMARY_BYTES + TRAILING_BYTES;

/// Bytes of the header word at the start of the primary block.
pub const HEADER_BYTES: usize = 4;

/// Bytes of the primary block that follow the header word.
pub const PRIMARY_DATA_BYTES: usize = 124;

/// Bytes of an encoded request record header.
pub const RECORD_HEADER_BYTES: usize = 40;

/// Alignment of an encoded request record header inside a slot.
pub const RECORD_HEADER_ALIGN: usize = 8;

/// Smallest request record: a closure pointer pair and the property word.
pub const MIN_REQUEST_RECORD_BYTES: usize = 24;

/// A byte buffer of `N` bytes that serves as slot storage.
pub struct Aligned<const N: usize>(pub [u8; N]);

impl<const N: usize> Aligned<N> {
    /// Wraps `bytes` as slot storage.
    pub fn new(bytes: [u8; N]) -> (r: Self)
        ensures
            r.0 == bytes,
    {
        Aligned(bytes)
    }
}

/// The 32-bit header word of a slot: bit 0 is the ready/match bit; bits
/// [31:1] carry the request count (request slot) or the processed count
/// (response slot).
pub struct SlotHeader {
    pub flags: u32,
}

impl Default for SlotHeader {
    fn default() -> (r: Self)
        ensures
            r.flags == 0,
    {
        SlotHeader { flags: 0 }
    }
}

/// A pointer pair naming a closure: where its captured environment lies
/// inside the slot, and the handle of the code that calls and drops it.
#[derive(Clone, Copy, Debug, PartialEq, Eq, Structural)]
pub struct FatClosurePtr {
    pub data: u64,
    pub vtable: u64,
}

/// What the trustee does with a request record.
#[derive(Clone, Copy, Debug, PartialEq, Eq, Structural)]
pub enum PropertyPtr {
    /// Call the closure on the property; no result.
    CallMutRetUnit,
    /// Call the closure on the property; it writes its result to the response slot.
    CallMutOutPtr,
    /// As `CallMutOutPtr`, with serialized arguments that follow the closure.
    CallMutArgsOutPtr,
    /// Move the property out into the response slot and stop the trustee.
    IntoInner,
    /// Run the closure on a separate fiber and answer when it finishes.
    Launch,
    /// Stop the trustee.
    Terminate,
}

/// The 64-bit code of each kind of record.
pub open spec fn property_code(p: PropertyPtr) -> u64 {
    match p {
        PropertyPtr::CallMutRetUnit => 0,
        PropertyPtr::CallMutOutPtr => 1,
        PropertyPtr::CallMutArgsOutPtr => 2,
        PropertyPtr::IntoInner => 3,
        PropertyPtr::Launch => 4,
        PropertyPtr::Terminate => 0xFFFF_FFFF_FFFF_FFFF,
    }
}

/// The kind of record that a 64-bit code names, if any.
pub open spec fn property_of_code(code: u64) -> Option<PropertyPtr> {
    if code == 0 {
        Some(PropertyPtr::CallMutRetUnit)
    } else if code == 1 {
        Some(PropertyPtr::CallMutOutPtr)
    } else if code == 2 {
        Some(PropertyPtr::CallMutArgsOutPtr)
    } else if code == 3 {
        Some(PropertyPtr::IntoInner)
    } else if code == 4 {
        Some(PropertyPtr::Launch)
    } else if code == 0xFFFF_FFFF_FFFF_FFFF {
        Some(PropertyPtr::Terminate)
    } else {
        None
    }
}

impl PropertyPtr {
    /// The 64-bit code of this kind of record.
    pub fn code(&self) -> (c: u64)
        ensures
            c == property_code(*self),
    {
        match self {
            PropertyPtr::CallMutRetUnit => 0,
            PropertyPtr::CallMutOutPtr => 1,
            PropertyPtr::CallMutArgsOutPtr => 2,
            PropertyPtr::IntoInner => 3,
            PropertyPtr::Launch => 4,
            PropertyPtr::Terminate => 0xFFFF_FFFF_FFFF_FFFF,
        }
    }

    /// The kind of record that `code` names; `None` for any other code.
    pub fn from_code(code: u64) -> (p: Option<PropertyPtr>)
        ensures
            p == property_of_code(code),
    {
        if code == 0 {
            Some(PropertyPtr::CallMutRetUnit)
        } else if code == 1 {
            Some(PropertyPtr::CallMutOutPtr)
        } else if code == 2 {
            Some(PropertyPtr::CallMutArgsOutPtr)
        } else if code == 3 {
            Some(PropertyPtr::IntoInner)
        } else if code == 4 {
            Some(PropertyPtr::Launch)
        } else if code == 0xFFFF_FFFF_FFFF_FFFF {
            Some(PropertyPtr::Terminate)
        } else {
            None
        }
    }
}

/// Each kind of record is named by exactly one code.
pub proof fn lemma_property_code_roundtrip(p: PropertyPtr, code: u64)
    ensures
        property_of_code(property_code(p)) == Some(p),
        property_of_code(code) == Some(p) <==> property_code(p) == code,
{
}

/// Header of one request record: the closure to run, what to do with it, and
/// where its captured environment and serialized arguments lie in the slot.
#[derive(Clone, Copy, Debug, PartialEq, Eq, Structural)]
pub struct RequestRecordHeader {
    pub closure: FatClosurePtr,
    pub property_ptr: PropertyPtr,
    /// Bytes of the captured environment.
    pub captured_len: u32,
    /// Bytes of the serialized arguments.
    pub args_len: u32,
    /// Offset from the slot base to the first argument byte.
    pub args_offset: u32,
    /// How many times the trustee runs the closure.
    pub repeat_count: u32,
}

/// The 40-byte little-endian image of a record header: the closure's data and
/// vtable words, the property code, then the four 32-bit fields.
pub open spec fn record_bytes(h: RequestRecordHeader) -> Seq<u8> {
    spec_u64_to_le_bytes(h.closure.data) + spec_u64_to_le_bytes(h.closure.vtable)
        + spec_u64_to_le_bytes(property_code(h.property_ptr)) + spec_u32_to_le_bytes(h.captured_len)
        + spec_u32_to_le_bytes(h.args_len) + spec_u32_to_le_bytes(h.args_offset)
        + spec_u32_to_le_bytes(h.repeat_count)
}

/// The record header that the first 40 bytes of `b` encode, if the property
/// code among them names a kind of record.
pub open spec fn parse_record(b: Seq<u8>) -> Option<RequestRecordHeader> {
    if b.len() < RECORD_HEADER_BYTES {
        None
    } else {
        match property_of_code(spec_u64_from_le_bytes(b.subrange(16, 24))) {
            Some(p) => Some(
                RequestRecordHeader {
                    closure: FatClosurePtr {
                        data: spec_u64_from_le_bytes(b.subrange(0, 8)),
                        vtable: spec_u64_from_le_bytes(b.subrange(8, 16)),
                    },
                    property_ptr: p,
                    captured_len: spec_u32_from_le_bytes(b.subrange(24, 28)),
                    args_len: spec_u32_from_le_bytes(b.subrange(28, 32)),
                    args_offset: spec_u32_from_le_bytes(b.subrange(32, 36)),
                    repeat_count: spec_u32_from_le_bytes(b.subrange(36, 40)),
                },
            ),
            None => None,
        }
    }
}

/// Where each field of a record header lies in its 40 encoded bytes.
pub proof fn lemma_record_bytes_parts(h: RequestRecordHeader)
    ensures
        record_bytes(h).len() == RECORD_HEADER_BYTES,
        record_bytes(h).subrange(0, 8) == spec_u64_to_le_bytes(h.closure.data),
        record_bytes(h).subrange(8, 16) == spec_u64_to_le_bytes(h.closure.vtable),
        record_bytes(h).subrange(16, 24) == spec_u64_to_le_bytes(property_code(h.property_ptr)),
        record_bytes(h).subrange(24, 28) == spec_u32_to_le_bytes(h.captured_len),
        record_bytes(h).subrange(28, 32) == spec_u32_to_le_bytes(h.args_len),
        record_bytes(h).subrange(32, 36) == spec_u32_to_le_bytes(h.args_offset),
        record_bytes(h).subrange(36, 40) == spec_u32_to_le_bytes(h.repeat_count),
{
    lemma_auto_spec_u64_to_from_le_bytes();
    lemma_auto_spec_u32_to_from_le_bytes();
    let a = spec_u64_to_le_bytes(h.closure.data);
    let b = spec_u64_to_le_bytes(h.closure.vtable);
    let c = spec_u64_to_le_bytes(property_code(h.property_ptr));
    let d = spec_u32_to_le_bytes(h.captured_len);
    let e = spec_u32_to_le_bytes(h.args_len);
    let f = spec_u32_to_le_bytes(h.args_offset);
    let g = spec_u32_to_le_bytes(h.repeat_count);
    let all = a + b + c + d + e + f + g;
    assert(all.subrange(0, 8) =~= a);
    assert(all.subrange(8, 16) =~= b);
    assert(all.subrange(16, 24) =~= c);
    assert(all.subrange(24, 28) =~= d);
    assert(all.subrange(28, 32) =~= e);
    assert(all.subrange(32, 36) =~= f);
    assert(all.subrange(36, 40) =~= g);
}

/// Decoding the bytes of an encoded record header gives the header back.
pub proof fn lemma_record_roundtrip(h: RequestRecordHeader)
    ensures
        parse_record(record_bytes(h)) == Some(h),
{
    lemma_record_bytes_parts(h);
    lemma_auto_spec_u64_to_from_le_bytes();
    lemma_auto_spec_u32_to_from_le_bytes();
    lemma_property_code_roundtrip(h.property_ptr, 0);
}

/// Decoding looks at the first 40 bytes only: bytes that follow them change
/// nothing, so an encoded header followed by anything decodes to that header.
pub proof fn lemma_parse_record_prefix(b: Seq<u8>, h: RequestRecordHeader, rest: Seq<u8>)
    ensures
        b.len() >= RECORD_HEADER_BYTES ==> parse_record(b) == parse_record(
            b.subrange(0, RECORD_HEADER_BYTES as int),
        ),
        parse_record(record_bytes(h) + rest) == Some(h),
{
    if b.len() >= RECORD_HEADER_BYTES {
        let p = b.subrange(0, RECORD_HEADER_BYTES as int);
        assert(p.subrange(0, 8) =~= b.subrange(0, 8));
        assert(p.subrange(8, 16) =~= b.subrange(8, 16));
        assert(p.subrange(16, 24) =~= b.subrange(16, 24));
        assert(p.subrange(24, 28) =~= b.subrange(24, 28));
        assert(p.subrange(28, 32) =~= b.subrange(28, 32));
        assert(p.subrange(32, 36) =~= b.subrange(32, 36));
        assert(p.subrange(36, 40) =~= b.subrange(36, 40));
    }
    let e = record_bytes(h) + rest;
    lemma_record_bytes_parts(h);
    lemma_record_roundtrip(h);
    let q = e.subrange(0, RECORD_HEADER_BYTES as int);
    assert(q =~= record_bytes(h));
    assert(q.subrange(0, 8) =~= e.subrange(0, 8));
    assert(q.subrange(8, 16) =~= e.subrange(8, 16));
    assert(q.subrange(16, 24) =~= e.subrange(16, 24));
    assert(q.subrange(24, 28) =~= e.subrange(24, 28));
    assert(q.subrange(28, 32) =~= e.subrange(28, 32));
    assert(q.subrange(32, 36) =~= e.subrange(32, 36));
    assert(q.subrange(36, 40) =~= e.subrange(36, 40));
}

/// Whenever 40 bytes decode to a header, encoding that header gives the same bytes.
pub proof fn lemma_record_bytes_of_parse(b: Seq<u8>)
    requires
        b.len() == RECORD_HEADER_BYTES,
        parse_record(b) is Some,
    ensures
        record_bytes(parse_record(b).unwrap()) == b,
{
    let h = parse_record(b).unwrap();
    lemma_record_bytes_parts(h);
    lemma_auto_spec_u64_to_from_le_bytes();
    lemma_auto_spec_u32_to_from_le_bytes();
    lemma_property_code_roundtrip(h.property_ptr, spec_u64_from_le_bytes(b.subrange(16, 24)));
    assert(b.subrange(16, 24).len() == 8);
    assert(record_bytes(h) =~= b.subrange(0, 8) + b.subrange(8, 16) + b.subrange(16, 24)
        + b.subrange(24, 28) + b.subrange(28, 32) + b.subrange(32, 36) + b.subrange(36, 40));
    assert(b =~= b.subrange(0, 8) + b.subrange(8, 16) + b.subrange(16, 24)
        + b.subrange(24, 28) + b.subrange(28, 32) + b.subrange(32, 36) + b.subrange(36, 40));
}

impl RequestRecordHeader {
    /// The header of a record that tells the trustee to stop.
    pub fn terminate() -> (h: Self)
        ensures
            h.property_ptr == PropertyPtr::Terminate,
            h.closure == (FatClosurePtr { data: 0, vtable: 0 }),
            h.captured_len == 0,
            h.args_len == 0,
            h.args_offset == 0,
            h.repeat_count == 0,
    {
        RequestRecordHeader {
            closure: FatClosurePtr { data: 0, vtable: 0 },
            property_ptr: PropertyPtr::Terminate,
            captured_len: 0,
            args_len: 0,
            args_offset: 0,
            repeat_count: 0,
        }
    }

    /// Encodes this header as its 40 little-endian bytes.
    pub fn to_bytes(&self) -> (b: Vec<u8>)
        ensures
            b@ == record_bytes(*self),
            b@.len() == RECORD_HEADER_BYTES,
    {
        proof {
            lemma_record_bytes_parts(*self);
        }
        let mut out = u64_to_le_bytes(self.closure.data);
        let mut part = u64_to_le_bytes(self.closure.vtable);
        out.append(&mut part);
        let mut part = u64_to_le_bytes(self.property_ptr.code());
        out.append(&mut part);
        let mut part = u32_to_le_bytes(self.captured_len);
        out.append(&mut part);
        let mut part = u32_to_le_bytes(self.args_len);
        out.append(&mut part);
        let mut part = u32_to_le_bytes(self.args_offset);
        out.append(&mut part);
        let mut part = u32_to_le_bytes(self.repeat_count);
        out.append(&mut part);
        out
    }

    /// Decodes a header from the first 40 bytes of `b`; `None` when `b` is
    /// shorter or its property code names no kind of record.
    pub fn from_bytes(b: &[u8]) -> (h: Option<Self>)
        ensures
            h == parse_record(b@),
    {
        if b.len() < RECORD_HEADER_BYTES {
            return None;
        }
        let code = u64_from_le_bytes(vstd::slice::slice_subrange(b, 16, 24));
        match PropertyPtr::from_code(code) {
            Some(p) => Some(
                RequestRecordHeader {
                    closure: FatClosurePtr {
                        data: u64_from_le_bytes(vstd::slice::slice_subrange(b, 0, 8)),
                        vtable: u64_from_le_bytes(vstd::slice::slice_subrange(b, 8, 16)),
                    },
                    property_ptr: p,
                    captured_len: u32_from_le_bytes(vstd::slice::slice_subrange(b, 24, 28)),
                    args_len: u32_from_le_bytes(vstd::slice::slice_subrange(b, 28, 32)),
                    args_offset: u32_from_le_bytes(vstd::slice::slice_subrange(b, 32, 36)),
                    repeat_count: u32_from_le_bytes(vstd::slice::slice_subrange(b, 36, 40)),
                },
            ),
            None => None,
        }
    }
}

} // verus!

verus! {

/// Sizes of the erased closure environment that a record carries. The call
/// and drop entry points belong to the code that knows the closure's type.
pub struct ErasedVTable {
    pub env_align: u32,
    pub env_size: u32,
}

/// Prefix of a variable-sized response: the length of the payload after it.
pub struct VarResponsePrefix {
    pub len: u32,
}

/// Primary block of a request slot: the header word, then packed records.
pub struct RequestPrimary {
    pub header: SlotHeader,
    pub data: [u8; PRIMARY_DATA_BYTES],
}

/// Primary block of a response slot: the header word, then response bytes.
pub struct ResponsePrimary {
    pub header: SlotHeader,
    pub data: [u8; PRIMARY_DATA_BYTES],
}

/// A request slot: primary block then trailing block; only the client writes it.
pub struct RequestSlot {
    pub primary: RequestPrimary,
    pub trailing: [u8; TRAILING_BYTES],
}

/// A response slot: primary block then trailing block; only the trustee writes it.
pub struct ResponseSlot {
    pub primary: ResponsePrimary,
    pub trailing: [u8; TRAILING_BYTES],
}

/// The pair of slots that one client shares with its trustee.
pub struct ChannelPair {
    pub request: RequestSlot,
    pub response: ResponseSlot,
    /// Held by a client while it uses the request slot.
    pub client_lock: bool,
}

/// The bytes of a slot after its header word: offset `o` from the slot base
/// is index `o - HEADER_BYTES` here.
pub open spec fn body_bytes(data: [u8; PRIMARY_DATA_BYTES], trailing: [u8; TRAILING_BYTES]) -> Seq<u8> {
    data@ + trailing@
}

/// `s` with `bytes` written over it from index `at`.
pub open spec fn splice(s: Seq<u8>, at: int, bytes: Seq<u8>) -> Seq<u8> {
    s.subrange(0, at) + bytes + s.subrange(at + bytes.len(), s.len() as int)
}

fn body_get(data: &[u8; PRIMARY_DATA_BYTES], trailing: &[u8; TRAILING_BYTES], offset: usize) -> (b: u8)
    requires
        HEADER_BYTES <= offset < SLOT_BYTES,
    ensures
        b == body_bytes(*data, *trailing)[offset - HEADER_BYTES],
{
    if offset < PRIMARY_BYTES {
        data[offset - HEADER_BYTES]
    } else {
        trailing[offset - PRIMARY_BYTES]
    }
}

fn body_set(data: &mut [u8; PRIMARY_DATA_BYTES], trailing: &mut [u8; TRAILING_BYTES], offset: usize, b: u8)
    requires
        HEADER_BYTES <= offset < SLOT_BYTES,
    ensures
        body_bytes(*final(data), *final(trailing)) == body_bytes(*old(data), *old(trailing)).update(
            offset - HEADER_BYTES,
            b,
        ),
{
    if offset < PRIMARY_BYTES {
        data[offset - HEADER_BYTES] = b;
    } else {
        trailing[offset - PRIMARY_BYTES] = b;
    }
    assert(body_bytes(*data, *trailing) =~= body_bytes(*old(data), *old(trailing)).update(
        offset - HEADER_BYTES,
        b,
    ));
}

fn body_write(
    data: &mut [u8; PRIMARY_DATA_BYTES],
    trailing: &mut [u8; TRAILING_BYTES],
    offset: usize,
    bytes: &[u8],
)
    requires
        HEADER_BYTES <= offset,
        offset + bytes@.len() <= SLOT_BYTES,
    ensures
        body_bytes(*final(data), *final(trailing)) == splice(
            body_bytes(*old(data), *old(trailing)),
            offset - HEADER_BYTES,
            bytes@,
        ),
{
    let ghost start = body_bytes(*data, *trailing);
    let mut i: usize = 0;
    while i < bytes.len()
        invariant
            i <= bytes@.len(),
            HEADER_BYTES <= offset,
            offset + bytes@.len() <= SLOT_BYTES,
            body_bytes(*data, *trailing).len() == start.len(),
            body_bytes(*data, *trailing) =~= splice(
                start,
                offset - HEADER_BYTES,
                bytes@.subrange(0, i as int),
            ),
        decreases bytes@.len() - i,
    {
        body_set(data, trailing, offset + i, bytes[i]);
        i = i + 1;
    }
    assert(bytes@.subrange(0, bytes@.len() as int) =~= bytes@);
}

fn body_read(
    data: &[u8; PRIMARY_DATA_BYTES],
    trailing: &[u8; TRAILING_BYTES],
    offset: usize,
    len: usize,
) -> (out: Vec<u8>)
    requires
        HEADER_BYTES <= offset,
        offset + len <= SLOT_BYTES,
    ensures
        out@ == body_bytes(*data, *trailing).subrange(
            offset - HEADER_BYTES,
            offset - HEADER_BYTES + len,
        ),
{
    let mut out: Vec<u8> = Vec::new();
    let mut i: usize = 0;
    while i < len
        invariant
            i <= len,
            HEADER_BYTES <= offset,
            offset + len <= SLOT_BYTES,
            out@ =~= body_bytes(*data, *trailing).subrange(
                offset - HEADER_BYTES,
                offset - HEADER_BYTES + i,
            ),
        decreases len - i,
    {
        let b = body_get(data, trailing, offset + i);
        out.push(b);
        i = i + 1;
    }
    out
}

impl RequestSlot {
    /// The slot's bytes after its header word.
    pub open spec fn body(&self) -> Seq<u8> {
        body_bytes(self.primary.data, self.trailing)
    }

    /// Writes `bytes` at `offset` from the slot base; the header word is untouched.
    pub fn write_at(&mut self, offset: usize, bytes: &[u8])
        requires
            HEADER_BYTES <= offset,
            offset + bytes@.len() <= SLOT_BYTES,
        ensures
            final(self).primary.header == old(self).primary.header,
            final(self).body() == splice(old(self).body(), offset - HEADER_BYTES, bytes@),
    {
        body_write(&mut self.primary.data, &mut self.trailing, offset, bytes);
    }

    /// Reads `len` bytes at `offset` from the slot base.
    pub fn read_at(&self, offset: usize, len: usize) -> (out: Vec<u8>)
        requires
            HEADER_BYTES <= offset,
            offset + len <= SLOT_BYTES,
        ensures
            out@ == self.body().subrange(offset - HEADER_BYTES, offset - HEADER_BYTES + len),
    {
        body_read(&self.primary.data, &self.trailing, offset, len)
    }
}

impl ResponseSlot {
    /// The slot's bytes after its header word.
    pub open spec fn body(&self) -> Seq<u8> {
        body_bytes(self.primary.data, self.trailing)
    }

    /// Writes `bytes` at `offset` from the slot base; the header word is untouched.
    pub fn write_at(&mut self, offset: usize, bytes: &[u8])
        requires
            HEADER_BYTES <= offset,
            offset + bytes@.len() <= SLOT_BYTES,
        ensures
            final(self).primary.header == old(self).primary.header,
            final(self).body() == splice(old(self).body(), offset - HEADER_BYTES, bytes@),
    {
        body_write(&mut self.primary.data, &mut self.trailing, offset, bytes);
    }

    /// Reads `len` bytes at `offset` from the slot base.
    pub fn read_at(&self, offset: usize, len: usize) -> (out: Vec<u8>)
        requires
            HEADER_BYTES <= offset,
            offset + len <= SLOT_BYTES,
        ensures
            out@ == self.body().subrange(offset - HEADER_BYTES, offset - HEADER_BYTES + len),
    {
        body_read(&self.primary.data, &self.trailing, offset, len)
    }
}

impl Default for RequestPrimary {
    fn default() -> (r: Self)
        ensures
            r.header.flags == 0,
            forall|i: int| 0 <= i < PRIMARY_DATA_BYTES ==> r.data[i] == 0,
    {
        RequestPrimary { header: SlotHeader::default(), data: [0u8; PRIMARY_DATA_BYTES] }
    }
}

impl Default for ResponsePrimary {
    fn default() -> (r: Self)
        ensures
            r.header.flags == 0,
            forall|i: int| 0 <= i < PRIMARY_DATA_BYTES ==> r.data[i] == 0,
    {
        ResponsePrimary { header: SlotHeader::default(), data: [0u8; PRIMARY_DATA_BYTES] }
    }
}

impl Default for RequestSlot {
    fn default() -> (r: Self)
        ensures
            r.primary.header.flags == 0,
            forall|i: int| 0 <= i < r.body().len() ==> r.body()[i] == 0,
    {
        RequestSlot { primary: RequestPrimary::default(), trailing: [0u8; TRAILING_BYTES] }
    }
}

impl Default for ResponseSlot {
    fn default() -> (r: Self)
        ensures
            r.primary.header.flags == 0,
            forall|i: int| 0 <= i < r.body().len() ==> r.body()[i] == 0,
    {
        ResponseSlot { primary: ResponsePrimary::default(), trailing: [0u8; TRAILING_BYTES] }
    }
}

impl Default for ChannelPair {
    fn default() -> (r: Self)
        ensures
            r.request.primary.header.flags == 0,
            r.response.primary.header.flags == 0,
            forall|i: int| 0 <= i < r.request.body().len() ==> r.request.body()[i] == 0,
            forall|i: int| 0 <= i < r.response.body().len() ==> r.response.body()[i] == 0,
            !r.client_lock,
    {
        ChannelPair {
            request: RequestSlot::default(),
            response: ResponseSlot::default(),
            client_lock: false,
        }
    }
}

} // verus!

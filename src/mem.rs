//! The guest's physical memory: one zero-initialised region, addressed by
//! guest-physical addresses, with bounds-checked typed accessors.
use vstd::prelude::*;

use vstd::bytes::{
    lemma_auto_spec_u32_to_from_le_bytes, lemma_auto_spec_u64_to_from_le_bytes,
    spec_u32_from_le_bytes, spec_u32_to_le_bytes, spec_u64_from_le_bytes, spec_u64_to_le_bytes,
    u32_from_le_bytes, u32_to_le_bytes, u64_from_le_bytes, u64_to_le_bytes,
};
use vstd::slice::{slice_subrange, slice_to_vec};

verus! {

/// Errors of accesses to guest memory.
#[derive(Debug, Clone, Copy, PartialEq, Eq, Structural)]
pub enum MemoryError {
    /// The access does not lie inside guest memory.
    BoundsViolation,
}

/// A value with a fixed little-endian layout in guest memory.
pub trait GuestValue: Sized {
    /// Number of bytes the value takes in guest memory.
    spec fn byte_len() -> nat;

    /// The value's bytes in guest memory.
    spec fn encode(&self) -> Seq<u8>;

    /// The value that `b` holds.
    spec fn decode(b: Seq<u8>) -> Self;

    fn size() -> (r: usize)
        ensures
            r as nat == Self::byte_len(),
    ;

    fn to_bytes(&self) -> (r: Vec<u8>)
        ensures
            r@ == self.encode(),
    ;

    fn from_bytes(b: &[u8]) -> (r: Self)
        requires
            b@.len() == Self::byte_len(),
        ensures
            r == Self::decode(b@),
    ;

    /// Decoding the bytes of a value gives the value back.
    proof fn lemma_round_trip(v: Self)
        ensures
            v.encode().len() == Self::byte_len(),
            Self::decode(v.encode()) == v,
    ;
}

impl GuestValue for u32 {
    open spec fn byte_len() -> nat {
        4
    }

    open spec fn encode(&self) -> Seq<u8> {
        spec_u32_to_le_bytes(*self)
    }

    open spec fn decode(b: Seq<u8>) -> u32 {
        spec_u32_from_le_bytes(b)
    }

    fn size() -> (r: usize) {
        4
    }

    fn to_bytes(&self) -> (r: Vec<u8>) {
        u32_to_le_bytes(*self)
    }

    fn from_bytes(b: &[u8]) -> (r: u32) {
        u32_from_le_bytes(b)
    }

    proof fn lemma_round_trip(v: u32) {
        lemma_auto_spec_u32_to_from_le_bytes();
        assert(spec_u32_to_le_bytes(v).len() == 4);
    }
}

impl GuestValue for i32 {
    open spec fn byte_len() -> nat {
        4
    }

    open spec fn encode(&self) -> Seq<u8> {
        spec_u32_to_le_bytes(*self as u32)
    }

    open spec fn decode(b: Seq<u8>) -> i32 {
        spec_u32_from_le_bytes(b) as i32
    }

    fn size() -> (r: usize) {
        4
    }

    fn to_bytes(&self) -> (r: Vec<u8>) {
        u32_to_le_bytes(*self as u32)
    }

    fn from_bytes(b: &[u8]) -> (r: i32) {
        u32_from_le_bytes(b) as i32
    }

    proof fn lemma_round_trip(v: i32) {
        lemma_auto_spec_u32_to_from_le_bytes();
        assert(spec_u32_to_le_bytes(v as u32).len() == 4);
        assert((v as u32) as i32 == v) by (bit_vector);
    }
}

impl GuestValue for u64 {
    open spec fn byte_len() -> nat {
        8
    }

    open spec fn encode(&self) -> Seq<u8> {
        spec_u64_to_le_bytes(*self)
    }

    open spec fn decode(b: Seq<u8>) -> u64 {
        spec_u64_from_le_bytes(b)
    }

    fn size() -> (r: usize) {
        8
    }

    fn to_bytes(&self) -> (r: Vec<u8>) {
        u64_to_le_bytes(*self)
    }

    fn from_bytes(b: &[u8]) -> (r: u64) {
        u64_from_le_bytes(b)
    }

    proof fn lemma_round_trip(v: u64) {
        lemma_auto_spec_u64_to_from_le_bytes();
    }
}

impl GuestValue for i64 {
    open spec fn byte_len() -> nat {
        8
    }

    open spec fn encode(&self) -> Seq<u8> {
        spec_u64_to_le_bytes(*self as u64)
    }

    open spec fn decode(b: Seq<u8>) -> i64 {
        spec_u64_from_le_bytes(b) as i64
    }

    fn size() -> (r: usize) {
        8
    }

    fn to_bytes(&self) -> (r: Vec<u8>) {
        u64_to_le_bytes(*self as u64)
    }

    fn from_bytes(b: &[u8]) -> (r: i64) {
        u64_from_le_bytes(b) as i64
    }

    proof fn lemma_round_trip(v: i64) {
        lemma_auto_spec_u64_to_from_le_bytes();
        assert((v as u64) as i64 == v) by (bit_vector);
    }
}

impl GuestValue for usize {
    open spec fn byte_len() -> nat {
        8
    }

    open spec fn encode(&self) -> Seq<u8> {
        spec_u64_to_le_bytes(*self as u64)
    }

    open spec fn decode(b: Seq<u8>) -> usize {
        spec_u64_from_le_bytes(b) as usize
    }

    fn size() -> (r: usize) {
        8
    }

    fn to_bytes(&self) -> (r: Vec<u8>) {
        u64_to_le_bytes(*self as u64)
    }

    fn from_bytes(b: &[u8]) -> (r: usize) {
        u64_from_le_bytes(b) as usize
    }

    proof fn lemma_round_trip(v: usize) {
        lemma_auto_spec_u64_to_from_le_bytes();
    }
}

impl GuestValue for isize {
    open spec fn byte_len() -> nat {
        8
    }

    open spec fn encode(&self) -> Seq<u8> {
        spec_u64_to_le_bytes(*self as i64 as u64)
    }

    open spec fn decode(b: Seq<u8>) -> isize {
        spec_u64_from_le_bytes(b) as i64 as isize
    }

    fn size() -> (r: usize) {
        8
    }

    fn to_bytes(&self) -> (r: Vec<u8>) {
        u64_to_le_bytes(*self as i64 as u64)
    }

    fn from_bytes(b: &[u8]) -> (r: isize) {
        u64_from_le_bytes(b) as i64 as isize
    }

    proof fn lemma_round_trip(v: isize) {
        lemma_auto_spec_u64_to_from_le_bytes();
        let w = v as i64;
        assert((w as u64) as i64 == w) by (bit_vector);
    }
}

/// `bytes` with `new` written over it from offset `off` on.
pub open spec fn splice(bytes: Seq<u8>, off: int, new: Seq<u8>) -> Seq<u8> {
    bytes.subrange(0, off) + new + bytes.subrange(off + new.len(), bytes.len() as int)
}

/// Index of the first NUL byte in `s` at or after `from`, or `s.len()` if
/// none.
pub open spec fn first_nul(s: Seq<u8>, from: int) -> int
    decreases s.len() - from,
{
    if from >= s.len() {
        s.len() as int
    } else if s[from] == 0 {
        from
    } else {
        first_nul(s, from + 1)
    }
}

/// The guest's physical memory, starting at guest-physical address
/// `guest_address`.
pub struct MmapMemory {
    guest_address: u64,
    mem: Vec<u8>,
}

impl MmapMemory {
    /// The first guest-physical address of the region.
    pub closed spec fn base(&self) -> u64 {
        self.guest_address
    }

    /// The region's bytes: byte `i` is guest-physical address `base() + i`.
    pub closed spec fn bytes(&self) -> Seq<u8> {
        self.mem@
    }

    pub closed spec fn wf(&self) -> bool {
        &&& self.guest_address + self.mem@.len() <= u64::MAX
        &&& self.mem@.len() <= isize::MAX
    }

    /// The region ends inside the address space.
    pub proof fn lemma_wf_bounds(&self)
        requires
            self.wf(),
        ensures
            self.base() + self.bytes().len() <= u64::MAX,
            self.bytes().len() <= isize::MAX,
    {
    }

    /// `n` bytes from `gpa` on lie inside the region.
    pub open spec fn in_bounds(&self, gpa: int, n: int) -> bool {
        &&& self.base() <= gpa
        &&& gpa + n <= self.base() + self.bytes().len()
    }

    /// Index in `bytes()` of guest-physical address `gpa`.
    pub open spec fn offset(&self, gpa: int) -> int {
        gpa - self.base()
    }

    /// The `n` bytes from `gpa` on.
    pub open spec fn bytes_at(&self, gpa: int, n: int) -> Seq<u8> {
        self.bytes().subrange(self.offset(gpa), self.offset(gpa) + n)
    }

    /// The value of type `T` stored at `gpa`.
    pub open spec fn value_at<T: GuestValue>(&self, gpa: int) -> T {
        T::decode(self.bytes_at(gpa, T::byte_len() as int))
    }

    /// The NUL-terminated string at `gpa`, without its NUL; `None` where `gpa`
    /// lies outside the region or no NUL follows it inside the region.
    pub open spec fn cstr_at(&self, gpa: int) -> Option<Seq<u8>> {
        let off = self.offset(gpa);
        let end = first_nul(self.bytes(), off);
        if self.in_bounds(gpa, 1) && end < self.bytes().len() {
            Some(self.bytes().subrange(off, end))
        } else {
            None
        }
    }

    /// A zeroed region of `memory_size` bytes at `guest_address`.
    pub fn new(
        memory_size: usize,
        guest_address: u64,
    ) -> (r: MmapMemory)
        requires
            guest_address + memory_size <= u64::MAX,
            memory_size <= isize::MAX,
        ensures
            r.wf(),
            r.base() == guest_address,
            r.bytes() == Seq::new(memory_size as nat, |i: int| 0u8),
    {
        let mem = vec![0u8; memory_size];
        let r = MmapMemory { guest_address, mem };
        assert(r.bytes() =~= Seq::new(memory_size as nat, |i: int| 0u8));
        r
    }

    pub fn guest_address(&self) -> (r: u64)
        ensures
            r == self.base(),
    {
        self.guest_address
    }

    pub fn memory_size(&self) -> (r: usize)
        ensures
            r == self.bytes().len(),
    {
        self.mem.len()
    }

    /// The index in the region of the `n` bytes from `gpa` on, or
    /// `BoundsViolation` where they do not lie inside it.
    pub fn offset_of(&self, gpa: u64, n: usize) -> (r: Result<usize, MemoryError>)
        requires
            self.wf(),
        ensures
            self.in_bounds(gpa as int, n as int) ==> r == Ok::<usize, MemoryError>(
                self.offset(gpa as int) as usize,
            ),
            !self.in_bounds(gpa as int, n as int) ==> r == Err::<usize, MemoryError>(
                MemoryError::BoundsViolation,
            ),
    {
        let len = self.mem.len() as u64;
        if gpa < self.guest_address {
            return Err(MemoryError::BoundsViolation);
        }
        let off = gpa - self.guest_address;
        if off > len || len - off < n as u64 {
            return Err(MemoryError::BoundsViolation);
        }
        Ok(off as usize)
    }

    /// The `len` bytes from `gpa` on.
    pub fn slice_at(&self, gpa: u64, len: usize) -> (r: Result<&[u8], MemoryError>)
        requires
            self.wf(),
        ensures
            self.in_bounds(gpa as int, len as int) ==> r.is_ok() && r.unwrap()@ == self.bytes_at(
                gpa as int,
                len as int,
            ),
            !self.in_bounds(gpa as int, len as int) ==> r == Err::<&[u8], MemoryError>(
                MemoryError::BoundsViolation,
            ),
    {
        match self.offset_of(gpa, len) {
            Ok(off) => {
                Ok(slice_subrange(self.mem.as_slice(), off, off + len))
            },
            Err(e) => Err(e),
        }
    }

    /// The NUL-terminated string at `gpa`, without its NUL.
    pub fn read_cstr(&self, gpa: u64) -> (r: Result<Vec<u8>, MemoryError>)
        requires
            self.wf(),
        ensures
            match self.cstr_at(gpa as int) {
                Some(s) => r.is_ok() && r.unwrap()@ == s,
                None => r == Err::<Vec<u8>, MemoryError>(MemoryError::BoundsViolation),
            },
    {
        let off = match self.offset_of(gpa, 1) {
            Ok(off) => off,
            Err(e) => return Err(e),
        };
        let mut end = off;
        while end < self.mem.len()
            invariant
                off <= end <= self.mem@.len(),
                self.in_bounds(gpa as int, 1),
                off == self.offset(gpa as int),
                first_nul(self.mem@, off as int) == first_nul(self.mem@, end as int),
            decreases self.mem.len() - end,
        {
            if self.mem[end] == 0 {
                assert(first_nul(self.mem@, end as int) == end);
                return Ok(slice_to_vec(slice_subrange(self.mem.as_slice(), off, end)));
            }
            end += 1;
        }
        Err(MemoryError::BoundsViolation)
    }

    /// The value of type `T` at `gpa`.
    pub fn read_typed<T: GuestValue>(&self, gpa: u64) -> (r: Result<T, MemoryError>)
        requires
            self.wf(),
        ensures
            self.in_bounds(gpa as int, T::byte_len() as int) ==> r == Ok::<T, MemoryError>(
                self.value_at::<T>(gpa as int),
            ),
            !self.in_bounds(gpa as int, T::byte_len() as int) ==> r == Err::<T, MemoryError>(
                MemoryError::BoundsViolation,
            ),
    {
        match self.slice_at(gpa, T::size()) {
            Ok(bytes) => Ok(T::from_bytes(bytes)),
            Err(e) => Err(e),
        }
    }

    /// Writes `data` from `gpa` on.
    pub fn write_bytes(&mut self, gpa: u64, data: &[u8]) -> (r: Result<(), MemoryError>)
        requires
            old(self).wf(),
        ensures
            final(self).wf(),
            final(self).base() == old(self).base(),
            old(self).in_bounds(gpa as int, data@.len() as int) ==> r == Ok::<(), MemoryError>(())
                && final(self).bytes() == splice(
                old(self).bytes(),
                old(self).offset(gpa as int),
                data@,
            ),
            !old(self).in_bounds(gpa as int, data@.len() as int) ==> r == Err::<(), MemoryError>(
                MemoryError::BoundsViolation,
            ) && final(self).bytes() == old(self).bytes(),
    {
        let off = match self.offset_of(gpa, data.len()) {
            Ok(off) => off,
            Err(e) => return Err(e),
        };
        let n = data.len();
        let mut i: usize = 0;
        while i < n
            invariant
                n == data@.len(),
                off + n <= self.mem@.len() <= usize::MAX,
                self.mem@.len() == old(self).mem@.len(),
                self.guest_address == old(self).guest_address,
                0 <= i <= n,
                forall|j: int| 0 <= j < off ==> self.mem@[j] == old(self).mem@[j],
                forall|j: int| off <= j < off + i ==> self.mem@[j] == data@[j - off],
                forall|j: int| off + i <= j < self.mem@.len() ==> self.mem@[j] == old(self).mem@[j],
            decreases n - i,
        {
            self.mem[off + i] = data[i];
            i += 1;
        }
        assert(self.mem@ =~= splice(old(self).mem@, off as int, data@));
        Ok(())
    }

    /// Writes `v` at `gpa`.
    pub fn write_typed<T: GuestValue>(&mut self, gpa: u64, v: &T) -> (r: Result<(), MemoryError>)
        requires
            old(self).wf(),
        ensures
            final(self).wf(),
            final(self).base() == old(self).base(),
            old(self).in_bounds(gpa as int, T::byte_len() as int) ==> r == Ok::<(), MemoryError>(
                (),
            ) && final(self).bytes() == splice(
                old(self).bytes(),
                old(self).offset(gpa as int),
                v.encode(),
            ),
            !old(self).in_bounds(gpa as int, T::byte_len() as int) ==> r == Err::<
                (),
                MemoryError,
            >(MemoryError::BoundsViolation) && final(self).bytes() == old(self).bytes(),
    {
        proof {
            T::lemma_round_trip(*v);
        }
        let bytes = v.to_bytes();
        self.write_bytes(gpa, bytes.as_slice())
    }
}

/// Writing over `off..off + new.len()` keeps the other bytes and the length.
pub proof fn lemma_splice_frame(bytes: Seq<u8>, off: int, new: Seq<u8>)
    requires
        0 <= off,
        off + new.len() <= bytes.len(),
    ensures
        splice(bytes, off, new).len() == bytes.len(),
        forall|j: int|
            0 <= j < bytes.len() && !(off <= j < off + new.len()) ==> #[trigger] splice(
                bytes,
                off,
                new,
            )[j] == bytes[j],
        splice(bytes, off, new).subrange(off, off + new.len()) == new,
{
    assert(splice(bytes, off, new).subrange(off, off + new.len()) =~= new);
}

/// A value of type `T` at `gpa` is the same in `a` and `b` where none of its
/// bytes differ.
pub proof fn lemma_same_value<T: GuestValue>(a: MmapMemory, b: MmapMemory, gpa: int)
    requires
        a.base() == b.base(),
        a.in_bounds(gpa, T::byte_len() as int),
        a.bytes().len() == b.bytes().len(),
        forall|j: int|
            a.offset(gpa) <= j < a.offset(gpa) + T::byte_len() ==> a.bytes()[j] == b.bytes()[j],
    ensures
        a.value_at::<T>(gpa) == b.value_at::<T>(gpa),
{
    assert(a.bytes_at(gpa, T::byte_len() as int) =~= b.bytes_at(gpa, T::byte_len() as int));
}

/// A value written at `gpa` is read back unchanged.
pub proof fn lemma_write_then_read<T: GuestValue>(before: MmapMemory, after: MmapMemory, gpa: int, v: T)
    requires
        before.in_bounds(gpa, T::byte_len() as int),
        after.base() == before.base(),
        after.bytes() == splice(before.bytes(), before.offset(gpa), v.encode()),
    ensures
        after.value_at::<T>(gpa) == v,
{
    T::lemma_round_trip(v);
    assert(after.bytes_at(gpa, T::byte_len() as int) =~= v.encode());
}

} // verus!

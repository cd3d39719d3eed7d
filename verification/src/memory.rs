//! Byte-addressed memories and the memory map that places them in the
//! 32-bit address space.
use crate::bytes_buf::{bytes_get, bytes_len, bytes_set, bytes_view};
use bytes::BytesMut;
use vstd::prelude::*;

verus! {

/// The address `k` bytes after `a`, wrapping around the 32-bit address space.
pub open spec fn addr_after(a: u32, k: u32) -> u32 {
    if a + k > u32::MAX {
        (a + k - 0x1_0000_0000) as u32
    } else {
        (a + k) as u32
    }
}

/// How many bytes `a` lies after `base`, counting around the address space.
pub open spec fn word_offset(base: u32, a: u32) -> int {
    if a >= base {
        a - base
    } else {
        a + 0x1_0000_0000 - base
    }
}

/// The little-endian 16-bit value of two bytes.
pub open spec fn half_le(b0: u8, b1: u8) -> u16 {
    (b0 as u16) | ((b1 as u16) << 8u16)
}

/// The little-endian 32-bit value of four bytes.
pub open spec fn word_le(b0: u8, b1: u8, b2: u8, b3: u8) -> u32 {
    (b0 as u32) | ((b1 as u32) << 8u32) | ((b2 as u32) << 16u32) | ((b3 as u32) << 24u32)
}

/// Byte `k` (0 the least significant) of `v`.
pub open spec fn stored_byte(v: u32, k: int) -> u8 {
    if k == 0 {
        (v & 0xFF) as u8
    } else if k == 1 {
        ((v >> 8u32) & 0xFF) as u8
    } else if k == 2 {
        ((v >> 16u32) & 0xFF) as u8
    } else {
        ((v >> 24u32) & 0xFF) as u8
    }
}

/// The byte at `a` after `value` is written little-endian at `base`
/// (`width` bytes), where it held `old_byte` and `backed` says whether a
/// write there takes effect.
pub open spec fn byte_after_write(
    old_byte: u8,
    backed: bool,
    base: u32,
    width: int,
    value: u32,
    a: u32,
) -> u8 {
    if backed && word_offset(base, a) < width {
        stored_byte(value, word_offset(base, a))
    } else {
        old_byte
    }
}

/// A memory: bytes at 32-bit addresses.
///
/// `readable` and `writable` say where reading and writing may be asked for;
/// `backed` says where a write is kept (elsewhere it is ignored); the sizes
/// and these three predicates never change.
pub trait Memory {
    spec fn spec_size(&self) -> u32;

    spec fn byte_at(&self, addr: u32) -> u8;

    spec fn readable(&self, addr: u32) -> bool;

    spec fn writable(&self, addr: u32) -> bool;

    spec fn backed(&self, addr: u32) -> bool;

    fn size(&self) -> (r: u32)
        ensures
            r == self.spec_size(),
    ;

    fn read(&self, addr: u32) -> (r: u8)
        requires
            self.readable(addr),
        ensures
            r == self.byte_at(addr),
    ;

    fn write(&mut self, addr: u32, value: u8)
        requires
            old(self).writable(addr),
        ensures
            final(self).spec_size() == old(self).spec_size(),
            forall|x: u32| #[trigger] final(self).readable(x) == old(self).readable(x),
            forall|x: u32| #[trigger] final(self).writable(x) == old(self).writable(x),
            forall|x: u32| #[trigger] final(self).backed(x) == old(self).backed(x),
            forall|a: u32| #[trigger]
                final(self).byte_at(a) == (if a == addr && old(self).backed(addr) {
                    value
                } else {
                    old(self).byte_at(a)
                }),
    ;

    fn read_u16(&self, addr: u32) -> (r: u16)
        requires
            self.readable(addr),
            self.readable(addr_after(addr, 1)),
        ensures
            r == half_le(self.byte_at(addr), self.byte_at(addr_after(addr, 1))),
    {
        let b1 = self.read(addr);
        let b2 = self.read(addr.wrapping_add(1));
        (b1 as u16) | ((b2 as u16) << 8)
    }

    fn read_u32(&self, addr: u32) -> (r: u32)
        requires
            self.readable(addr),
            self.readable(addr_after(addr, 1)),
            self.readable(addr_after(addr, 2)),
            self.readable(addr_after(addr, 3)),
        ensures
            r == word_le(
                self.byte_at(addr),
                self.byte_at(addr_after(addr, 1)),
                self.byte_at(addr_after(addr, 2)),
                self.byte_at(addr_after(addr, 3)),
            ),
    {
        let b1 = self.read(addr);
        let b2 = self.read(addr.wrapping_add(1));
        let b3 = self.read(addr.wrapping_add(2));
        let b4 = self.read(addr.wrapping_add(3));
        (b1 as u32) | ((b2 as u32) << 8) | ((b3 as u32) << 16) | ((b4 as u32) << 24)
    }

    fn write_u16(&mut self, addr: u32, value: u16)
        requires
            old(self).writable(addr),
            old(self).writable(addr_after(addr, 1)),
        ensures
            final(self).spec_size() == old(self).spec_size(),
            forall|x: u32| #[trigger] final(self).readable(x) == old(self).readable(x),
            forall|x: u32| #[trigger] final(self).writable(x) == old(self).writable(x),
            forall|x: u32| #[trigger] final(self).backed(x) == old(self).backed(x),
            forall|a: u32| #[trigger]
                final(self).byte_at(a) == byte_after_write(
                    old(self).byte_at(a),
                    old(self).backed(a),
                    addr,
                    2,
                    value as u32,
                    a,
                ),
    {
        let b1 = (value & 0xFF) as u8;
        let b2 = ((value >> 8) & 0xFF) as u8;
        let ghost v = value as u32;
        assert(b1 == stored_byte(v, 0) && b2 == stored_byte(v, 1)) by (bit_vector)
            requires
                v == value as u32,
                b1 == (value & 0xFF) as u8,
                b2 == ((value >> 8) & 0xFF) as u8,
        ;
        self.write(addr, b1);
        self.write(addr.wrapping_add(1), b2);
        proof {
            lemma_word_offsets(addr);
            assert forall|a: u32| #[trigger]
                self.byte_at(a) == byte_after_write(
                    old(self).byte_at(a),
                    old(self).backed(a),
                    addr,
                    2,
                    v,
                    a,
                ) by {
                lemma_word_offset_unique(addr, a);
            }
        }
    }

    fn write_u32(&mut self, addr: u32, value: u32)
        requires
            old(self).writable(addr),
            old(self).writable(addr_after(addr, 1)),
            old(self).writable(addr_after(addr, 2)),
            old(self).writable(addr_after(addr, 3)),
        ensures
            final(self).spec_size() == old(self).spec_size(),
            forall|x: u32| #[trigger] final(self).readable(x) == old(self).readable(x),
            forall|x: u32| #[trigger] final(self).writable(x) == old(self).writable(x),
            forall|x: u32| #[trigger] final(self).backed(x) == old(self).backed(x),
            forall|a: u32| #[trigger]
                final(self).byte_at(a) == byte_after_write(
                    old(self).byte_at(a),
                    old(self).backed(a),
                    addr,
                    4,
                    value,
                    a,
                ),
    {
        let b1 = (value & 0xFF) as u8;
        let b2 = ((value >> 8) & 0xFF) as u8;
        let b3 = ((value >> 16) & 0xFF) as u8;
        let b4 = ((value >> 24) & 0xFF) as u8;
        self.write(addr, b1);
        self.write(addr.wrapping_add(1), b2);
        self.write(addr.wrapping_add(2), b3);
        self.write(addr.wrapping_add(3), b4);
        proof {
            lemma_word_offsets(addr);
            assert forall|a: u32| #[trigger]
                self.byte_at(a) == byte_after_write(
                    old(self).byte_at(a),
                    old(self).backed(a),
                    addr,
                    4,
                    value,
                    a,
                ) by {
                lemma_word_offset_unique(addr, a);
            }
        }
    }

    /// The byte at `addr` after a pre-step call on this memory.
    spec fn byte_after_pre_step(&self, addr: u32) -> u8;

    /// The byte at `addr` after a post-step call on this memory.
    spec fn byte_after_post_step(&self, addr: u32) -> u8;

    /// Called before every CPU step; a device may update itself here.
    fn pre_step(&mut self)
        ensures
            final(self).spec_size() == old(self).spec_size(),
            forall|x: u32| #[trigger] final(self).readable(x) == old(self).readable(x),
            forall|x: u32| #[trigger] final(self).writable(x) == old(self).writable(x),
            forall|x: u32| #[trigger] final(self).backed(x) == old(self).backed(x),
            forall|a: u32| #[trigger] final(self).byte_at(a) == old(self).byte_after_pre_step(a),
    ;

    /// Called after every completed CPU step; a device may update itself here.
    fn post_step(&mut self)
        ensures
            final(self).spec_size() == old(self).spec_size(),
            forall|x: u32| #[trigger] final(self).readable(x) == old(self).readable(x),
            forall|x: u32| #[trigger] final(self).writable(x) == old(self).writable(x),
            forall|x: u32| #[trigger] final(self).backed(x) == old(self).backed(x),
            forall|a: u32| #[trigger] final(self).byte_at(a) == old(self).byte_after_post_step(a),
    ;
}

/// Whether two memories have the same size and the same readable, writable
/// and backed addresses.
pub open spec fn same_layout<M: Memory + ?Sized>(a: &M, b: &M) -> bool {
    &&& a.spec_size() == b.spec_size()
    &&& forall|x: u32| #[trigger] a.readable(x) == b.readable(x)
    &&& forall|x: u32| #[trigger] a.writable(x) == b.writable(x)
    &&& forall|x: u32| #[trigger] a.backed(x) == b.backed(x)
}

/// Whether every address below the size of `m` can be read and written.
pub open spec fn accessible_below_size<M: Memory + ?Sized>(m: &M) -> bool {
    forall|off: u32|
        #![trigger m.readable(off)]
        #![trigger m.writable(off)]
        off < m.spec_size() ==> m.readable(off) && m.writable(off)
}

/// The first four addresses from `base` lie 0, 1, 2 and 3 bytes after it.
pub proof fn lemma_word_offsets(base: u32)
    ensures
        word_offset(base, base) == 0,
        word_offset(base, addr_after(base, 1)) == 1,
        word_offset(base, addr_after(base, 2)) == 2,
        word_offset(base, addr_after(base, 3)) == 3,
{
}

/// An address within four bytes after `base` is one of the first four addresses from it.
pub proof fn lemma_word_offset_unique(base: u32, a: u32)
    ensures
        0 <= word_offset(base, a) < 0x1_0000_0000,
        word_offset(base, a) == 0 ==> a == base,
        word_offset(base, a) == 1 ==> a == addr_after(base, 1),
        word_offset(base, a) == 2 ==> a == addr_after(base, 2),
        word_offset(base, a) == 3 ==> a == addr_after(base, 3),
{
}

/// The bytes `s` of a buffer after `value` is written at `addr`: writes
/// past the end are ignored.
pub open spec fn buffer_after_write(s: Seq<u8>, addr: u32, value: u8) -> Seq<u8> {
    if (addr as int) < s.len() {
        s.update(addr as int, value)
    } else {
        s
    }
}

/// The bytes `s` of a buffer after `v` is written little-endian at `addr`:
/// byte by byte, each address past the previous one, writes past the end
/// being ignored.
pub open spec fn buffer_after_word_write(s: Seq<u8>, addr: u32, v: u32) -> Seq<u8> {
    buffer_after_write(
        buffer_after_write(
            buffer_after_write(
                buffer_after_write(s, addr, stored_byte(v, 0)),
                addr_after(addr, 1),
                stored_byte(v, 1),
            ),
            addr_after(addr, 2),
            stored_byte(v, 2),
        ),
        addr_after(addr, 3),
        stored_byte(v, 3),
    )
}

/// A word written into a buffer where all four bytes fit, below the top of
/// the address space, stands there little-endian, reads back as
/// itself, and leaves the length and every other byte as they were.
pub proof fn lemma_buffer_word_write(s: Seq<u8>, addr: u32, v: u32)
    requires
        addr as int + 3 < s.len(),
        addr as int + 3 <= u32::MAX,
    ensures
        ({
            let t = buffer_after_word_write(s, addr, v);
            &&& t.len() == s.len()
            &&& forall|k: int| 0 <= k < 4 ==> #[trigger] t[addr + k] == stored_byte(v, k)
            &&& forall|j: int| 0 <= j < s.len() && !(addr <= j < addr + 4) ==> #[trigger] t[j] == s[j]
            &&& word_le(t[addr as int], t[addr + 1], t[addr + 2], t[addr + 3]) == v
        }),
{
    lemma_word_bytes(v, 0, 0, 0, 0);
    assert(addr_after(addr, 1) == addr + 1);
    assert(addr_after(addr, 2) == addr + 2);
    assert(addr_after(addr, 3) == addr + 3);
    let t = buffer_after_word_write(s, addr, v);
    assert(t[addr as int] == stored_byte(v, 0));
    assert(t[addr + 1] == stored_byte(v, 1));
    assert(t[addr + 2] == stored_byte(v, 2));
    assert(t[addr + 3] == stored_byte(v, 3));
    assert forall|k: int| 0 <= k < 4 implies #[trigger] t[addr + k] == stored_byte(v, k) by {
        if k == 0 {
            assert(t[addr + k] == t[addr as int]);
        }
    }
}

impl Memory for BytesMut {
    open spec fn spec_size(&self) -> u32 {
        bytes_view(*self).len() as u32
    }

    open spec fn byte_at(&self, addr: u32) -> u8 {
        if addr < bytes_view(*self).len() {
            bytes_view(*self)[addr as int]
        } else {
            0
        }
    }

    open spec fn readable(&self, addr: u32) -> bool {
        addr < bytes_view(*self).len()
    }

    open spec fn writable(&self, addr: u32) -> bool {
        true
    }

    open spec fn backed(&self, addr: u32) -> bool {
        addr < bytes_view(*self).len()
    }

    fn size(&self) -> (r: u32) {
        bytes_len(self) as u32
    }

    fn read(&self, addr: u32) -> (r: u8) {
        bytes_get(self, addr as usize)
    }

    /// Writes past the end are ignored.
    fn write(&mut self, addr: u32, value: u8)
        ensures
            bytes_view(*final(self)) == buffer_after_write(bytes_view(*old(self)), addr, value),
    {
        if (addr as usize) < bytes_len(self) {
            bytes_set(self, addr as usize, value);
        }
    }

    /// Writes `value` little-endian at `addr`, byte by byte.
    fn write_u32(&mut self, addr: u32, value: u32)
        ensures
            bytes_view(*final(self)) == buffer_after_word_write(bytes_view(*old(self)), addr, value),
    {
        let b1 = (value & 0xFF) as u8;
        let b2 = ((value >> 8) & 0xFF) as u8;
        let b3 = ((value >> 16) & 0xFF) as u8;
        let b4 = ((value >> 24) & 0xFF) as u8;
        self.write(addr, b1);
        self.write(addr.wrapping_add(1), b2);
        self.write(addr.wrapping_add(2), b3);
        self.write(addr.wrapping_add(3), b4);
        proof {
            lemma_word_offsets(addr);
            assert forall|a: u32| #[trigger]
                self.byte_at(a) == byte_after_write(
                    old(self).byte_at(a),
                    old(self).backed(a),
                    addr,
                    4,
                    value,
                    a,
                ) by {
                lemma_word_offset_unique(addr, a);
            }
        }
    }

    /// A buffer does nothing before a step.
    open spec fn byte_after_pre_step(&self, addr: u32) -> u8 {
        self.byte_at(addr)
    }

    /// A buffer does nothing after a step.
    open spec fn byte_after_post_step(&self, addr: u32) -> u8 {
        self.byte_at(addr)
    }

    fn pre_step(&mut self)
        ensures
            *final(self) == *old(self),
    {
    }

    fn post_step(&mut self)
        ensures
            *final(self) == *old(self),
    {
    }
}

/// A byte buffer can read and write every address below its size.
pub proof fn lemma_bytes_accessible(b: BytesMut)
    ensures
        accessible_below_size(&b),
{
    let n = bytes_view(b).len();
    assert forall|off: u32| off < b.spec_size() implies #[trigger] b.readable(off) && b.writable(
        off,
    ) by {
        if n <= u32::MAX {
            assert(b.spec_size() == n);
        }
    }
}

impl Memory for Box<dyn Memory> {
    open spec fn spec_size(&self) -> u32 {
        (**self).spec_size()
    }

    open spec fn byte_at(&self, addr: u32) -> u8 {
        (**self).byte_at(addr)
    }

    open spec fn readable(&self, addr: u32) -> bool {
        (**self).readable(addr)
    }

    open spec fn writable(&self, addr: u32) -> bool {
        (**self).writable(addr)
    }

    open spec fn backed(&self, addr: u32) -> bool {
        (**self).backed(addr)
    }

    fn size(&self) -> (r: u32) {
        (**self).size()
    }

    fn read(&self, addr: u32) -> (r: u8) {
        (**self).read(addr)
    }

    fn write(&mut self, addr: u32, value: u8) {
        (**self).write(addr, value)
    }

    /// The boxed memory's own pre-step call.
    open spec fn byte_after_pre_step(&self, addr: u32) -> u8 {
        (**self).byte_after_pre_step(addr)
    }

    /// The boxed memory's own post-step call.
    open spec fn byte_after_post_step(&self, addr: u32) -> u8 {
        (**self).byte_after_post_step(addr)
    }

    fn pre_step(&mut self) {
        (**self).pre_step()
    }

    fn post_step(&mut self) {
        (**self).post_step()
    }
}

/// A memory placed in the address space from `start` to `end`, inclusive.
pub struct MappedMemory<M: Memory> {
    pub start: u32,
    pub end: u32,
    pub inner: M,
}

impl<M: Memory> MappedMemory<M> {
    /// Whether `addr` lies in this region.
    pub open spec fn covers(&self, addr: u32) -> bool {
        self.start <= addr && addr <= self.end
    }

    /// The offset of `addr` in the inner memory.
    pub open spec fn offset(&self, addr: u32) -> u32 {
        (addr - self.start) as u32
    }

    /// The region ends where its memory does, and its memory can be read and
    /// written below its size.
    pub open spec fn wf(&self) -> bool {
        &&& self.end as int == self.start as int + self.inner.spec_size() as int - 1
        &&& forall|off: u32|
            #![trigger self.inner.readable(off)]
            #![trigger self.inner.writable(off)]
            off < self.inner.spec_size() ==> self.inner.readable(off) && self.inner.writable(off)
    }

    /// Places `mem` at `start`. The region must not run past the top of the
    /// address space, and an empty memory cannot be placed at address 0.
    pub fn new(mem: M, start: u32) -> (r: MappedMemory<M>)
        requires
            1 <= start as int + mem.spec_size() as int <= 0x1_0000_0000,
            accessible_below_size(&mem),
        ensures
            r.start == start,
            r.end as int == start as int + mem.spec_size() as int - 1,
            r.inner == mem,
            r.wf(),
    {
        let size = mem.size();
        let end = start.wrapping_add(size).wrapping_sub(1);
        MappedMemory { start, end, inner: mem }
    }
}

impl<M: Memory> Memory for MappedMemory<M> {
    open spec fn spec_size(&self) -> u32 {
        self.inner.spec_size()
    }

    open spec fn byte_at(&self, addr: u32) -> u8 {
        if self.start <= addr {
            self.inner.byte_at(self.offset(addr))
        } else {
            0
        }
    }

    open spec fn readable(&self, addr: u32) -> bool {
        self.start <= addr && self.offset(addr) < self.inner.spec_size() && self.inner.readable(
            self.offset(addr),
        )
    }

    open spec fn writable(&self, addr: u32) -> bool {
        self.start <= addr && self.offset(addr) < self.inner.spec_size() && self.inner.writable(
            self.offset(addr),
        )
    }

    open spec fn backed(&self, addr: u32) -> bool {
        self.start <= addr && self.offset(addr) < self.inner.spec_size() && self.inner.backed(
            self.offset(addr),
        )
    }

    fn size(&self) -> (r: u32) {
        self.inner.size()
    }

    fn read(&self, addr: u32) -> (r: u8) {
        let internal = addr - self.start;
        self.inner.read(internal)
    }

    fn write(&mut self, addr: u32, value: u8)
        ensures
            final(self).start == old(self).start,
            final(self).end == old(self).end,
            same_layout(&old(self).inner, &final(self).inner),
            forall|a: u32| #[trigger]
                final(self).inner.byte_at(a) == (if a == old(self).offset(addr) && old(
                    self,
                ).inner.backed(a) {
                    value
                } else {
                    old(self).inner.byte_at(a)
                }),
    {
        let internal = addr - self.start;
        self.inner.write(internal, value);
    }

    /// A region does nothing of its own before a step; the CPU calls its memory.
    open spec fn byte_after_pre_step(&self, addr: u32) -> u8 {
        self.byte_at(addr)
    }

    /// A region does nothing of its own after a step; the CPU calls its memory.
    open spec fn byte_after_post_step(&self, addr: u32) -> u8 {
        self.byte_at(addr)
    }

    fn pre_step(&mut self) {
    }

    fn post_step(&mut self) {
    }
}

/// The first region of `mems`, from index `from` on, that covers `addr`.
pub open spec fn first_covering<M: Memory>(mems: Seq<MappedMemory<M>>, addr: u32, from: int) -> Option<int>
    decreases mems.len() - from,
{
    if from < 0 || from >= mems.len() {
        None
    } else if mems[from].covers(addr) {
        Some(from)
    } else {
        first_covering(mems, addr, from + 1)
    }
}

/// Whether regions `[a_start, a_end]` and `[b_start, b_end]` count as
/// colliding: never when they start or end at the same address, otherwise
/// when the later one starts before the earlier one ends.
pub open spec fn bounds_collide(a_start: u32, a_end: u32, b_start: u32, b_end: u32) -> bool {
    if a_start == b_start || a_end == b_end {
        false
    } else if a_start < b_start {
        a_end > b_start
    } else {
        a_start < b_end
    }
}

/// Whether the start of one of the regions `[a_start, a_end]` and
/// `[b_start, b_end]` lies strictly inside the other.
pub open spec fn start_strictly_inside(a_start: u32, a_end: u32, b_start: u32, b_end: u32) -> bool {
    (a_start < b_start && b_start < a_end) || (b_start < a_start && a_start < b_end)
}

/// Regions that share their start or their end never collide; otherwise
/// two regions collide exactly when the start of one lies strictly inside
/// the other, so that they share at least that start and the address after it.
pub proof fn lemma_collision_rule(a_start: u32, a_end: u32, b_start: u32, b_end: u32)
    ensures
        (a_start == b_start || a_end == b_end) ==> !bounds_collide(a_start, a_end, b_start, b_end),
        (a_start != b_start && a_end != b_end) ==> (bounds_collide(a_start, a_end, b_start, b_end)
            <==> start_strictly_inside(a_start, a_end, b_start, b_end)),
{
}

/// `add` refuses a region exactly when some region already placed has a
/// different start and a different end and one of the two starts lies
/// strictly inside the other region.
pub proof fn lemma_add_refuses<M: Memory>(mems: Seq<MappedMemory<M>>, start: u32, end: u32)
    ensures
        MemoryMap::<M>::spec_collides(mems, start, end) <==> exists|i: int|
            0 <= i < mems.len() && mems[i].start != start && mems[i].end != end
                && #[trigger] start_strictly_inside(mems[i].start, mems[i].end, start, end),
{
    if MemoryMap::<M>::spec_collides(mems, start, end) {
        let i = choose|i: int|
            0 <= i < mems.len() && #[trigger] bounds_collide(mems[i].start, mems[i].end, start, end);
        assert(start_strictly_inside(mems[i].start, mems[i].end, start, end));
    }
    if exists|i: int|
        0 <= i < mems.len() && mems[i].start != start && mems[i].end != end
            && #[trigger] start_strictly_inside(mems[i].start, mems[i].end, start, end) {
        let i = choose|i: int|
            0 <= i < mems.len() && mems[i].start != start && mems[i].end != end
                && #[trigger] start_strictly_inside(mems[i].start, mems[i].end, start, end);
        assert(bounds_collide(mems[i].start, mems[i].end, start, end));
    }
}

/// The memories of the machine, each placed at its own addresses. An address
/// belongs to the first region that covers it.
pub struct MemoryMap<M: Memory> {
    pub mems: Vec<MappedMemory<M>>,
}

impl<M: Memory> MemoryMap<M> {
    /// Every region is well formed.
    pub open spec fn wf(&self) -> bool {
        forall|i: int| 0 <= i < self.mems@.len() ==> #[trigger] self.mems@[i].wf()
    }

    /// The index of the region that answers for `addr`, if any.
    pub open spec fn responsible(&self, addr: u32) -> Option<int> {
        first_covering(self.mems@, addr, 0)
    }

    /// Whether some region of `mems` collides with `[start, end]`.
    pub open spec fn spec_collides(mems: Seq<MappedMemory<M>>, start: u32, end: u32) -> bool {
        exists|i: int|
            0 <= i < mems.len() && #[trigger] bounds_collide(mems[i].start, mems[i].end, start, end)
    }

    fn pos_resp(&self, addr: u32) -> (r: Option<usize>)
        ensures
            match r {
                Some(i) => self.responsible(addr) == Some(i as int),
                None => self.responsible(addr) is None,
            },
    {
        let n = self.mems.len();
        let mut i: usize = 0;
        while i < n
            invariant
                n == self.mems@.len(),
                i <= n,
                first_covering(self.mems@, addr, 0) == first_covering(self.mems@, addr, i as int),
            decreases n - i,
        {
            let m = &self.mems[i];
            if m.start <= addr && m.end >= addr {
                return Some(i);
            }
            i = i + 1;
        }
        None
    }

    fn get_responsible(&self, addr: u32) -> (r: Option<&MappedMemory<M>>)
        ensures
            match r {
                Some(m) => self.responsible(addr) matches Some(i) && *m == self.mems@[i],
                None => self.responsible(addr) is None,
            },
    {
        match self.pos_resp(addr) {
            Some(idx) => {
                proof {
                    lemma_first_covering_found(self.mems@, addr, 0);
                }
                Some(&self.mems[idx])
            },
            None => None,
        }
    }

    fn collides(&self, b: &MappedMemory<M>) -> (r: bool)
        ensures
            r == Self::spec_collides(self.mems@, b.start, b.end),
    {
        let n = self.mems.len();
        let mut i: usize = 0;
        while i < n
            invariant
                n == self.mems@.len(),
                i <= n,
                forall|j: int|
                    0 <= j < i ==> !#[trigger] bounds_collide(
                        self.mems@[j].start,
                        self.mems@[j].end,
                        b.start,
                        b.end,
                    ),
            decreases n - i,
        {
            let a = &self.mems[i];
            let hit = if a.start == b.start || a.end == b.end {
                false
            } else if a.start < b.start {
                a.end > b.start
            } else {
                a.start < b.end
            };
            if hit {
                assert(bounds_collide(self.mems@[i as int].start, self.mems@[i as int].end, b.start, b.end));
                return true;
            }
            i = i + 1;
        }
        false
    }

    /// Places `mem` at address `at`, after all regions so far, unless it
    /// collides with one of them; then the map stays as it was.
    pub fn add(&mut self, mem: M, at: u32) -> (r: Result<(), ()>)
        requires
            1 <= at as int + mem.spec_size() as int <= 0x1_0000_0000,
            accessible_below_size(&mem),
        ensures
            r is Err <==> Self::spec_collides(
                old(self).mems@,
                at,
                (at as int + mem.spec_size() as int - 1) as u32,
            ),
            r is Err ==> final(self).mems@ == old(self).mems@,
            r is Ok ==> final(self).mems@.len() == old(self).mems@.len() + 1,
            r is Ok ==> final(self).mems@.drop_last() == old(self).mems@,
            r is Ok ==> final(self).mems@.last() == (MappedMemory {
                start: at,
                end: (at as int + mem.spec_size() as int - 1) as u32,
                inner: mem,
            }),
            old(self).wf() ==> final(self).wf(),
    {
        let mapped = MappedMemory::new(mem, at);
        if self.collides(&mapped) {
            return Err(());
        }
        self.mems.push(mapped);
        assert(self.mems@.drop_last() =~= old(self).mems@);
        Ok(())
    }
}

impl<M: Memory> Default for MemoryMap<M> {
    fn default() -> (r: Self)
        ensures
            r.mems@ == Seq::<MappedMemory<M>>::empty(),
    {
        MemoryMap { mems: Vec::new() }
    }
}

/// Regions with the same bounds at every index answer for the same addresses.
pub proof fn lemma_first_covering_bounds<M: Memory>(
    s1: Seq<MappedMemory<M>>,
    s2: Seq<MappedMemory<M>>,
    addr: u32,
    from: int,
)
    requires
        s1.len() == s2.len(),
        forall|i: int|
            0 <= i < s1.len() ==> #[trigger] s1[i].start == s2[i].start && s1[i].end == s2[i].end,
    ensures
        first_covering(s1, addr, from) == first_covering(s2, addr, from),
    decreases s1.len() - from,
{
    if 0 <= from < s1.len() {
        assert(s1[from].start == s2[from].start && s1[from].end == s2[from].end);
        lemma_first_covering_bounds(s1, s2, addr, from + 1);
    }
}

/// The region that `first_covering` finds covers the address, and lies at or after `from`.
pub proof fn lemma_first_covering_found<M: Memory>(s: Seq<MappedMemory<M>>, addr: u32, from: int)
    ensures
        first_covering(s, addr, from) matches Some(i) ==> from <= i < s.len() && s[i].covers(addr),
    decreases s.len() - from,
{
    if 0 <= from < s.len() && !s[from].covers(addr) {
        lemma_first_covering_found(s, addr, from + 1);
    }
}

/// The region that `first_covering` finds from `from` on covers `addr` and
/// is the first that does; when it finds none, none does.
proof fn lemma_first_covering_is_first<M: Memory>(s: Seq<MappedMemory<M>>, addr: u32, from: int)
    requires
        0 <= from,
    ensures
        match first_covering(s, addr, from) {
            Some(i) => from <= i < s.len() && s[i].start <= addr <= s[i].end && forall|j: int|
                from <= j < i ==> !(s[j].start <= addr && addr <= s[j].end),
            None => forall|j: int| from <= j < s.len() ==> !(s[j].start <= addr && addr <= s[j].end),
        },
    decreases s.len() - from,
{
    if from < s.len() && !s[from].covers(addr) {
        lemma_first_covering_is_first(s, addr, from + 1);
    }
}

/// An address belongs to the first region, in the order they were added,
/// whose bounds hold it; to none when no region's bounds hold it.
pub proof fn lemma_responsible_region<M: Memory>(m: MemoryMap<M>, addr: u32)
    ensures
        match m.responsible(addr) {
            Some(i) => 0 <= i < m.mems@.len() && m.mems@[i].start <= addr <= m.mems@[i].end
                && forall|j: int|
                0 <= j < i ==> !(m.mems@[j].start <= addr && addr <= m.mems@[j].end),
            None => forall|j: int|
                0 <= j < m.mems@.len() ==> !(m.mems@[j].start <= addr && addr <= m.mems@[j].end),
        },
{
    lemma_first_covering_is_first(m.mems@, addr, 0);
}

impl<M: Memory> Memory for MemoryMap<M> {
    open spec fn spec_size(&self) -> u32 {
        0xFFFF_FFFF
    }

    open spec fn byte_at(&self, addr: u32) -> u8 {
        match self.responsible(addr) {
            Some(i) => self.mems@[i].byte_at(addr),
            None => 0,
        }
    }

    open spec fn readable(&self, addr: u32) -> bool {
        self.wf()
    }

    open spec fn writable(&self, addr: u32) -> bool {
        self.wf()
    }

    open spec fn backed(&self, addr: u32) -> bool {
        match self.responsible(addr) {
            Some(i) => self.mems@[i].backed(addr),
            None => false,
        }
    }

    fn size(&self) -> (r: u32) {
        u32::MAX
    }

    /// Reads of addresses that no region covers give 0.
    fn read(&self, addr: u32) -> (r: u8) {
        match self.get_responsible(addr) {
            None => 0,
            Some(mem) => {
                proof {
                    lemma_first_covering_found(self.mems@, addr, 0);
                    let i = self.responsible(addr).unwrap();
                    assert(self.mems@[i].wf());
                    assert(mem.inner.readable(mem.offset(addr)));
                }
                mem.read(addr)
            },
        }
    }

    /// Writes to addresses that no region covers are ignored; otherwise only
    /// the first region that covers `addr` gets the write.
    fn write(&mut self, addr: u32, value: u8)
        ensures
            final(self).mems@.len() == old(self).mems@.len(),
            match old(self).responsible(addr) {
                Some(i) => {
                    &&& forall|j: int|
                        0 <= j < old(self).mems@.len() && j != i ==> #[trigger] final(self).mems@[j]
                            == old(self).mems@[j]
                    &&& final(self).mems@[i].start == old(self).mems@[i].start
                    &&& final(self).mems@[i].end == old(self).mems@[i].end
                    &&& forall|a: u32| #[trigger]
                        final(self).mems@[i].inner.byte_at(a) == (if a == old(self).mems@[i].offset(
                            addr,
                        ) && old(self).mems@[i].inner.backed(a) {
                            value
                        } else {
                            old(self).mems@[i].inner.byte_at(a)
                        })
                },
                None => *final(self) == *old(self),
            },
    {
        match self.pos_resp(addr) {
            Some(idx) => {
                proof {
                    lemma_first_covering_found(self.mems@, addr, 0);
                    assert(self.mems@[idx as int].wf());
                    assert(self.mems@[idx as int].inner.writable(
                        self.mems@[idx as int].offset(addr),
                    ));
                }
                self.mems[idx].write(addr, value);
                proof {
                    let s1 = old(self).mems@;
                    let s2 = self.mems@;
                    assert forall|i: int| 0 <= i < s1.len() implies #[trigger] s1[i].start
                        == s2[i].start && s1[i].end == s2[i].end by {}
                    assert forall|a: u32| #[trigger]
                        first_covering(s2, a, 0) == first_covering(s1, a, 0) by {
                        lemma_first_covering_bounds(s1, s2, a, 0);
                    }
                    assert forall|x: u32| #[trigger] self.backed(x) == old(self).backed(x) by {
                        lemma_first_covering_found(s1, x, 0);
                    }
                    assert forall|a: u32| #[trigger]
                        self.byte_at(a) == (if a == addr && old(self).backed(addr) {
                            value
                        } else {
                            old(self).byte_at(a)
                        }) by {
                        lemma_first_covering_found(s1, a, 0);
                        match first_covering(s1, a, 0) {
                            Some(j) => {
                                if j != idx as int {
                                    assert(s2[j] == s1[j]);
                                    assert(a != addr);
                                } else {
                                    assert(s2[j].byte_at(a) == (if a == addr && s1[j].backed(
                                        addr,
                                    ) {
                                        value
                                    } else {
                                        s1[j].byte_at(a)
                                    }));
                                }
                            },
                            None => {},
                        }
                    }
                    assert forall|i: int| 0 <= i < s2.len() implies #[trigger] s2[i].wf() by {
                        assert(s1[i].wf());
                        if i == idx as int {
                            assert(s2[i].inner.spec_size() == s1[i].inner.spec_size());
                            assert forall|off: u32| off < s2[i].inner.spec_size() implies s2[i].inner.readable(off) && s2[i].inner.writable(off) by {
                                assert(s1[i].inner.readable(off));
                                assert(s1[i].inner.writable(off));
                            }
                        } else {
                            assert(s2[i] == s1[i]);
                        }
                    }
                }
            },
            None => {},
        }
    }

    /// The map does nothing of its own before a step; the CPU calls each region's memory.
    open spec fn byte_after_pre_step(&self, addr: u32) -> u8 {
        self.byte_at(addr)
    }

    /// The map does nothing of its own after a step; the CPU calls each region's memory.
    open spec fn byte_after_post_step(&self, addr: u32) -> u8 {
        self.byte_at(addr)
    }

    fn pre_step(&mut self) {
    }

    fn post_step(&mut self) {
    }
}

/// The four little-endian bytes of a word make up that word again, and the
/// bytes of the word made from four bytes are those bytes.
pub proof fn lemma_word_bytes(v: u32, b0: u8, b1: u8, b2: u8, b3: u8)
    ensures
        word_le(stored_byte(v, 0), stored_byte(v, 1), stored_byte(v, 2), stored_byte(v, 3)) == v,
        stored_byte(word_le(b0, b1, b2, b3), 0) == b0,
        stored_byte(word_le(b0, b1, b2, b3), 1) == b1,
        stored_byte(word_le(b0, b1, b2, b3), 2) == b2,
        stored_byte(word_le(b0, b1, b2, b3), 3) == b3,
{
    assert(((v & 0xFF) as u8 as u32) | ((((v >> 8u32) & 0xFF) as u8 as u32) << 8u32) | ((((v
        >> 16u32) & 0xFF) as u8 as u32) << 16u32) | ((((v >> 24u32) & 0xFF) as u8 as u32)
        << 24u32) == v) by (bit_vector);
    let w = word_le(b0, b1, b2, b3);
    assert((w & 0xFF) as u8 == b0 && ((w >> 8u32) & 0xFF) as u8 == b1 && ((w >> 16u32) & 0xFF) as u8
        == b2 && ((w >> 24u32) & 0xFF) as u8 == b3) by (bit_vector)
        requires
            w == (b0 as u32) | ((b1 as u32) << 8u32) | ((b2 as u32) << 16u32) | ((b3 as u32)
                << 24u32),
    ;
}

/// Reading back a word where it was written, all four bytes being kept,
/// gives the word written.
pub proof fn lemma_read_after_write_word<M: Memory + ?Sized>(
    before: &M,
    after: &M,
    addr: u32,
    value: u32,
)
    requires
        forall|a: u32| #[trigger]
            after.byte_at(a) == byte_after_write(
                before.byte_at(a),
                before.backed(a),
                addr,
                4,
                value,
                a,
            ),
        before.backed(addr),
        before.backed(addr_after(addr, 1)),
        before.backed(addr_after(addr, 2)),
        before.backed(addr_after(addr, 3)),
    ensures
        word_le(
            after.byte_at(addr),
            after.byte_at(addr_after(addr, 1)),
            after.byte_at(addr_after(addr, 2)),
            after.byte_at(addr_after(addr, 3)),
        ) == value,
{
    lemma_word_offsets(addr);
    lemma_word_bytes(value, 0, 0, 0, 0);
    assert(after.byte_at(addr) == stored_byte(value, 0));
    assert(after.byte_at(addr_after(addr, 1)) == stored_byte(value, 1));
    assert(after.byte_at(addr_after(addr, 2)) == stored_byte(value, 2));
    assert(after.byte_at(addr_after(addr, 3)) == stored_byte(value, 3));
}

/// Adding a region at the end of the map never changes which region answers
/// for an address some region already covered.
pub proof fn lemma_first_covering_push<M: Memory>(
    s: Seq<MappedMemory<M>>,
    x: MappedMemory<M>,
    a: u32,
    from: int,
)
    requires
        0 <= from,
        first_covering(s, a, from) is Some,
    ensures
        first_covering(s.push(x), a, from) == first_covering(s, a, from),
    decreases s.len() - from,
{
    if from < s.len() && !s[from].covers(a) {
        assert(s.push(x)[from] == s[from]);
        lemma_first_covering_push(s, x, a, from + 1);
    } else if from < s.len() {
        assert(s.push(x)[from] == s[from]);
    }
}

/// A region added to the map leaves what the map holds at every address
/// that was already covered: the same region answers, with the same byte.
pub proof fn lemma_add_keeps_contents<M: Memory>(before: MemoryMap<M>, after: MemoryMap<M>, a: u32)
    requires
        after.mems@.len() == before.mems@.len() + 1,
        after.mems@.drop_last() == before.mems@,
        before.responsible(a) is Some,
    ensures
        after.responsible(a) == before.responsible(a),
        after.byte_at(a) == before.byte_at(a),
        after.backed(a) == before.backed(a),
{
    let s = before.mems@;
    let x = after.mems@.last();
    assert(after.mems@ =~= s.push(x));
    lemma_first_covering_push(s, x, a, 0);
    lemma_first_covering_found(s, a, 0);
}

} // verus!

//! The devices of the machine's memory map: plain memory, and the console,
//! a buffer into which a program writes text, ended by the
//! end-of-transmission-block byte, and from which that text is printed.
use crate::bytes_buf::{bytes_get, bytes_len, bytes_set, bytes_view};
use crate::memory::{accessible_below_size, buffer_after_write, lemma_bytes_accessible, Memory};
use bytes::BytesMut;
use vstd::prelude::*;

verus! {

/// The byte that ends a message in the console buffer.
pub const END_OF_MESSAGE: u8 = 0x17;

/// Whether the buffer holds a complete message.
pub fn ready_to_flush(buf: &BytesMut) -> (r: bool)
    ensures
        r == bytes_view(*buf).contains(END_OF_MESSAGE),
{
    let n = bytes_len(buf);
    let mut i: usize = 0;
    while i < n
        invariant
            n == bytes_view(*buf).len(),
            i <= n,
            forall|j: int| 0 <= j < i ==> bytes_view(*buf)[j] != END_OF_MESSAGE,
        decreases n - i,
    {
        if bytes_get(buf, i) == END_OF_MESSAGE {
            return true;
        }
        i = i + 1;
    }
    false
}

/// What taking a message out of buffer `before` does: `msg` is its bytes
/// before the first end byte (all of them when there is none), and `after`
/// is `before` with those bytes and the end byte made zero.
pub open spec fn flushed(before: Seq<u8>, after: Seq<u8>, msg: Seq<u8>) -> bool {
    let n = msg.len();
    &&& n <= before.len()
    &&& msg == before.take(n as int)
    &&& !msg.contains(END_OF_MESSAGE)
    &&& n < before.len() ==> before[n as int] == END_OF_MESSAGE
    &&& after.len() == before.len()
    &&& forall|j: int| 0 <= j <= n && j < before.len() ==> #[trigger] after[j] == 0
    &&& forall|j: int| n < j < before.len() ==> #[trigger] after[j] == before[j]
}

/// Takes the message out of the buffer: the bytes before the first end
/// byte (all bytes when there is none). Those bytes and the end byte become
/// zero; the bytes after the end byte stay.
pub fn flush(buf: &mut BytesMut) -> (msg: Vec<u8>)
    ensures
        flushed(bytes_view(*old(buf)), bytes_view(*final(buf)), msg@),
{
    let ghost before = bytes_view(*buf);
    let mut bytes: Vec<u8> = Vec::new();
    let n = bytes_len(buf);
    let mut i: usize = 0;
    while i < n
        invariant_except_break
            n == before.len(),
            i <= n,
            bytes@.len() == i,
            bytes@ == before.take(i as int),
            !bytes@.contains(END_OF_MESSAGE),
            bytes_view(*buf).len() == n,
            forall|j: int| 0 <= j < i ==> #[trigger] bytes_view(*buf)[j] == 0,
            forall|j: int| i <= j < n ==> #[trigger] bytes_view(*buf)[j] == before[j],
        ensures
            n == before.len(),
            bytes@.len() <= n,
            bytes@ == before.take(bytes@.len() as int),
            !bytes@.contains(END_OF_MESSAGE),
            bytes_view(*buf).len() == n,
            bytes@.len() < n ==> before[bytes@.len() as int] == END_OF_MESSAGE,
            forall|j: int| 0 <= j <= bytes@.len() && j < n ==> #[trigger] bytes_view(*buf)[j] == 0,
            forall|j: int| bytes@.len() < j < n ==> #[trigger] bytes_view(*buf)[j] == before[j],
        decreases n - i,
    {
        let copy = bytes_get(buf, i);
        bytes_set(buf, i, 0);
        if copy == END_OF_MESSAGE {
            break;
        }
        bytes.push(copy);
        proof {
            assert(before.take(i + 1) =~= before.take(i as int).push(copy));
        }
        i = i + 1;
    }
    bytes
}

/// The number of bytes before the first end byte of `s` (all of them when
/// there is none).
pub open spec fn message_len(s: Seq<u8>) -> nat
    decreases s.len(),
{
    if s.len() == 0 || s[0] == END_OF_MESSAGE {
        0
    } else {
        1 + message_len(s.drop_first())
    }
}

/// A message of `n` bytes without an end byte, followed by an end byte or
/// by the end of `s`, is as long as the message that `s` holds.
pub proof fn lemma_message_len(s: Seq<u8>, n: nat)
    requires
        n <= s.len(),
        forall|j: int| 0 <= j < n ==> s[j] != END_OF_MESSAGE,
        n < s.len() ==> s[n as int] == END_OF_MESSAGE,
    ensures
        message_len(s) == n,
    decreases n,
{
    if n > 0 {
        let t = s.drop_first();
        assert forall|j: int| 0 <= j < n - 1 implies t[j] != END_OF_MESSAGE by {
            assert(t[j] == s[j + 1]);
        }
        lemma_message_len(t, (n - 1) as nat);
    }
}

/// What a console's post-step call makes of `before`: when its buffer holds
/// an end byte, the message is taken out of the buffer and added to the
/// printed text; otherwise nothing changes.
pub open spec fn console_after_post_step(before: Console, after: Console) -> bool {
    if bytes_view(before.0).contains(END_OF_MESSAGE) {
        &&& after.1@.len() >= before.1@.len()
        &&& after.1@.take(before.1@.len() as int) == before.1@
        &&& flushed(bytes_view(before.0), bytes_view(after.0), after.1@.skip(before.1@.len() as int))
    } else {
        after == before
    }
}

/// The console: its buffer, mapped into memory, and the text it has printed
/// that the front end has not taken out yet.
pub struct Console(pub BytesMut, pub Vec<u8>);

impl Console {
    /// Takes out the printed text; the buffer stays as it is.
    pub fn take_output(&mut self) -> (out: Vec<u8>)
        ensures
            out@ == old(self).1@,
            final(self).1@ == Seq::<u8>::empty(),
            final(self).0 == old(self).0,
    {
        let mut out: Vec<u8> = Vec::new();
        std::mem::swap(&mut out, &mut self.1);
        out
    }
}

impl Memory for Console {
    open spec fn spec_size(&self) -> u32 {
        self.0.spec_size()
    }

    open spec fn byte_at(&self, addr: u32) -> u8 {
        self.0.byte_at(addr)
    }

    open spec fn readable(&self, addr: u32) -> bool {
        self.0.readable(addr)
    }

    open spec fn writable(&self, addr: u32) -> bool {
        self.0.writable(addr)
    }

    open spec fn backed(&self, addr: u32) -> bool {
        self.0.backed(addr)
    }

    fn size(&self) -> (r: u32) {
        self.0.size()
    }

    fn read(&self, addr: u32) -> (r: u8) {
        self.0.read(addr)
    }

    /// Writes into the buffer; the printed text stays.
    fn write(&mut self, addr: u32, value: u8)
        ensures
            final(self).1 == old(self).1,
            bytes_view(final(self).0) == buffer_after_write(bytes_view(old(self).0), addr, value),
    {
        self.0.write(addr, value)
    }

    /// A console does nothing before a step.
    open spec fn byte_after_pre_step(&self, addr: u32) -> u8 {
        self.byte_at(addr)
    }

    /// After a step, a console whose buffer holds a complete message has
    /// zeroed the message and its end byte.
    open spec fn byte_after_post_step(&self, addr: u32) -> u8 {
        let s = bytes_view(self.0);
        if s.contains(END_OF_MESSAGE) && addr <= message_len(s) {
            0
        } else {
            self.byte_at(addr)
        }
    }

    fn pre_step(&mut self) {
    }

    /// Prints a complete message.
    fn post_step(&mut self)
        ensures
            console_after_post_step(*old(self), *final(self)),
    {
        if ready_to_flush(&self.0) {
            let ghost printed = self.1@;
            let ghost before = bytes_view(self.0);
            let mut msg = flush(&mut self.0);
            let ghost m = msg@;
            proof {
                assert forall|j: int| 0 <= j < m.len() implies before[j] != END_OF_MESSAGE by {
                    assert(m[j] == before[j]);
                    if before[j] == END_OF_MESSAGE {
                        assert(m.contains(END_OF_MESSAGE));
                    }
                }
                lemma_message_len(before, m.len());
            }
            self.1.append(&mut msg);
            proof {
                assert(self.1@.take(printed.len() as int) =~= printed);
                assert(self.1@.skip(printed.len() as int) =~= m);
            }
        }
    }
}

/// The devices that the machine's memory map holds.
pub enum Device {
    /// plain memory
    Ram(BytesMut),
    /// a console
    Console(Console),
}

impl Memory for Device {
    open spec fn spec_size(&self) -> u32 {
        match self {
            Device::Ram(b) => b.spec_size(),
            Device::Console(c) => c.spec_size(),
        }
    }

    open spec fn byte_at(&self, addr: u32) -> u8 {
        match self {
            Device::Ram(b) => b.byte_at(addr),
            Device::Console(c) => c.byte_at(addr),
        }
    }

    open spec fn readable(&self, addr: u32) -> bool {
        match self {
            Device::Ram(b) => b.readable(addr),
            Device::Console(c) => c.readable(addr),
        }
    }

    open spec fn writable(&self, addr: u32) -> bool {
        match self {
            Device::Ram(b) => b.writable(addr),
            Device::Console(c) => c.writable(addr),
        }
    }

    open spec fn backed(&self, addr: u32) -> bool {
        match self {
            Device::Ram(b) => b.backed(addr),
            Device::Console(c) => c.backed(addr),
        }
    }

    fn size(&self) -> (r: u32) {
        match self {
            Device::Ram(b) => b.size(),
            Device::Console(c) => c.size(),
        }
    }

    fn read(&self, addr: u32) -> (r: u8) {
        match self {
            Device::Ram(b) => b.read(addr),
            Device::Console(c) => c.read(addr),
        }
    }

    /// Writes into the device's buffer; a device stays of its kind, and a
    /// console's printed text stays.
    fn write(&mut self, addr: u32, value: u8)
        ensures
            match (*old(self), *final(self)) {
                (Device::Ram(a), Device::Ram(b)) => bytes_view(b) == buffer_after_write(
                    bytes_view(a),
                    addr,
                    value,
                ),
                (Device::Console(a), Device::Console(b)) => b.1 == a.1 && bytes_view(b.0)
                    == buffer_after_write(bytes_view(a.0), addr, value),
                _ => false,
            },
    {
        match self {
            Device::Ram(b) => b.write(addr, value),
            Device::Console(c) => c.write(addr, value),
        }
    }

    /// The device's own pre-step call.
    open spec fn byte_after_pre_step(&self, addr: u32) -> u8 {
        match self {
            Device::Ram(b) => b.byte_after_pre_step(addr),
            Device::Console(c) => c.byte_after_pre_step(addr),
        }
    }

    /// The device's own post-step call: a console prints a complete message;
    /// plain memory does nothing.
    open spec fn byte_after_post_step(&self, addr: u32) -> u8 {
        match self {
            Device::Ram(b) => b.byte_after_post_step(addr),
            Device::Console(c) => c.byte_after_post_step(addr),
        }
    }

    fn pre_step(&mut self) {
        match self {
            Device::Ram(b) => b.pre_step(),
            Device::Console(c) => c.pre_step(),
        }
    }

    /// A console prints a complete message; plain memory does nothing.
    fn post_step(&mut self)
        ensures
            match (*old(self), *final(self)) {
                (Device::Ram(a), Device::Ram(b)) => b == a,
                (Device::Console(a), Device::Console(b)) => console_after_post_step(a, b),
                _ => false,
            },
    {
        match self {
            Device::Ram(b) => b.post_step(),
            Device::Console(c) => c.post_step(),
        }
    }
}

/// Every device can be read and written below its size.
pub proof fn lemma_device_accessible(d: Device)
    ensures
        accessible_below_size(&d),
{
    match d {
        Device::Ram(b) => lemma_bytes_accessible(b),
        Device::Console(c) => lemma_bytes_accessible(c.0),
    }
}

} // verus!

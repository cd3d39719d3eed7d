//! The CPU: fetch, decode and execute over a memory map.
use crate::decode::spec_decode;
use crate::isa::{
    flag_bits,
    CmpFlags,
    InstVariant,
    Instruction,
    InstructionData,
    Register,
    RegisterFile,
    State,
};
use crate::memory::{addr_after, byte_after_write, same_layout, word_le, Memory, MemoryMap};
use vstd::prelude::*;

verus! {

/// Why the CPU stopped.
#[derive(Clone, Copy, Debug, PartialEq, Eq, Structural)]
pub enum CPUError {
    InvalidInstruction,
    Unimplemented,
    Halt,
}

/// The address `k` bytes before `a`, wrapping around the address space.
pub open spec fn addr_before(a: u32, k: u32) -> u32 {
    if a < k {
        (a + 0x1_0000_0000 - k) as u32
    } else {
        (a - k) as u32
    }
}

/// The little-endian word at `a` of the memory contents `mem`.
pub open spec fn mem_word(mem: spec_fn(u32) -> u8, a: u32) -> u32 {
    word_le(mem(a), mem(addr_after(a, 1)), mem(addr_after(a, 2)), mem(addr_after(a, 3)))
}

/// The contents of a memory map, address by address.
pub open spec fn mem_of<M: Memory>(m: MemoryMap<M>) -> spec_fn(u32) -> u8 {
    |a: u32| m.byte_at(a)
}

/// The addresses where a memory map keeps what is written.
pub open spec fn backed_of<M: Memory>(m: MemoryMap<M>) -> spec_fn(u32) -> bool {
    |a: u32| m.backed(a)
}

/// The byte at `a` after the words `writes` are stored in order over the
/// contents `mem`, where only `backed` addresses keep what is written.
pub open spec fn byte_after_writes(
    mem: spec_fn(u32) -> u8,
    backed: spec_fn(u32) -> bool,
    writes: Seq<(u32, u32)>,
    a: u32,
) -> u8
    decreases writes.len(),
{
    if writes.len() == 0 {
        mem(a)
    } else {
        byte_after_write(
            byte_after_writes(mem, backed, writes.drop_last(), a),
            backed(a),
            writes.last().0,
            4,
            writes.last().1,
            a,
        )
    }
}

/// Whether `after` is `before` with the words `writes` stored in order.
pub open spec fn stored<M: Memory>(
    before: MemoryMap<M>,
    after: MemoryMap<M>,
    writes: Seq<(u32, u32)>,
) -> bool {
    &&& same_layout(&before, &after)
    &&& forall|a: u32| #[trigger]
        after.byte_at(a) == byte_after_writes(mem_of(before), backed_of(before), writes, a)
}

/// Whether `after` has the regions of `before`, at the same addresses, each
/// memory with the same layout: what the devices' own step calls keep.
pub open spec fn regions_kept<M: Memory>(before: MemoryMap<M>, after: MemoryMap<M>) -> bool {
    &&& before.mems@.len() == after.mems@.len()
    &&& forall|i: int|
        0 <= i < before.mems@.len() ==> {
            &&& #[trigger] before.mems@[i].start == after.mems@[i].start
            &&& before.mems@[i].end == after.mems@[i].end
            &&& same_layout(&before.mems@[i].inner, &after.mems@[i].inner)
        }
}

/// What executing one instruction does: the registers afterwards, the words
/// written to memory in order, the result, and whether the instruction ran
/// to completion (only then do the devices get their post-step call).
pub struct Effect {
    pub regs: RegisterFile,
    pub writes: Seq<(u32, u32)>,
    pub result: Result<(), CPUError>,
    pub completed: bool,
}

/// A completed instruction that wrote nothing.
pub open spec fn done(r: RegisterFile) -> Effect {
    Effect { regs: r, writes: Seq::empty(), result: Ok(()), completed: true }
}

/// An instruction that stopped with error `e`.
pub open spec fn failed(r: RegisterFile, e: CPUError) -> Effect {
    Effect { regs: r, writes: Seq::empty(), result: Err(e), completed: false }
}

/// Reading the word at the instruction address, which then moves on by 4.
pub open spec fn fetch(r: RegisterFile, mem: spec_fn(u32) -> u8) -> (u32, RegisterFile) {
    (mem_word(mem, r.ia), RegisterFile { ia: addr_after(r.ia, 4), ..r })
}

/// Target register, first source register, second operand and registers
/// after reading it, of an arithmetic, logic or shift instruction; `wide`
/// says whether a literal word may be the second operand.
pub open spec fn alu_operands(
    id: InstructionData,
    r: RegisterFile,
    mem: spec_fn(u32) -> u8,
    wide: bool,
) -> Option<(Register, Register, u32, RegisterFile)> {
    match id {
        InstructionData::TwoRegisters(a, b) => Some((a, a, r.value(b), r)),
        InstructionData::ThreeRegisters(t, a, b) => Some((t, a, r.value(b), r)),
        InstructionData::RegisterAndU8(x, v) => Some((x, x, v as u32, r)),
        InstructionData::RegisterAndU32(x, _) => if wide {
            Some((x, x, fetch(r, mem).0, fetch(r, mem).1))
        } else {
            None
        },
        InstructionData::TwoRegistersAndU8(t, a, v) => Some((t, a, v as u32, r)),
        InstructionData::TwoRegistersAndU32(t, a, _) => if wide {
            Some((t, a, fetch(r, mem).0, fetch(r, mem).1))
        } else {
            None
        },
        _ => None,
    }
}

/// Rotation of `x` right by `b` bits.
pub open spec fn rotate_right(x: u32, b: u32) -> u32 {
    (x >> (b % 32)) | (x << ((32 - b % 32) % 32) as u32)
}

/// Arithmetic (sign-extending) shift of `x` right by `b` bits.
pub open spec fn shift_arith(x: u32, b: u32) -> u32 {
    ((x as i32) >> (b % 32)) as u32
}

/// The result of an arithmetic, logic or shift operation on `x` and `y`;
/// `Add` with the sign set subtracts. Arithmetic wraps around.
pub open spec fn alu_value(var: InstVariant, sign: bool, x: u32, y: u32) -> u32 {
    match var {
        InstVariant::Add(_) => if sign {
            vstd::wrapping::u32_specs::wrapping_sub(x, y)
        } else {
            vstd::wrapping::u32_specs::wrapping_add(x, y)
        },
        InstVariant::Mul(_) => vstd::wrapping::u32_specs::wrapping_mul(x, y),
        InstVariant::And(_) => x & y,
        InstVariant::Or(_) => x | y,
        InstVariant::Xor(_) => x ^ y,
        InstVariant::Lsl(_) => x << (y % 32),
        InstVariant::Lsr(_) => x >> (y % 32),
        InstVariant::Asr(_) => shift_arith(x, y),
        InstVariant::Ror(_) => rotate_right(x, y),
        _ => 0,
    }
}

/// Target register, operand and registers after reading it, of `Not`.
pub open spec fn unary_operand(id: InstructionData, r: RegisterFile, mem: spec_fn(u32) -> u8) -> Option<
    (Register, u32, RegisterFile),
> {
    match id {
        InstructionData::OneRegister(x) => Some((x, r.value(x), r)),
        InstructionData::TwoRegisters(t, v) => Some((t, r.value(v), r)),
        InstructionData::RegisterAndU8(t, v) => Some((t, v as u32, r)),
        InstructionData::RegisterAndU32(t, _) => Some((t, fetch(r, mem).0, fetch(r, mem).1)),
        _ => None,
    }
}

/// Register compared, value it is compared with, and registers after reading it, of `Cmp`.
pub open spec fn compare_operands(
    id: InstructionData,
    r: RegisterFile,
    mem: spec_fn(u32) -> u8,
) -> Option<(Register, u32, RegisterFile)> {
    match id {
        InstructionData::OneRegister(a) => Some((a, 0, r)),
        InstructionData::TwoRegisters(a, b) => Some((a, r.value(b), r)),
        InstructionData::RegisterAndU8(a, b) => Some((a, b as u32, r)),
        InstructionData::RegisterAndU32(a, _) => Some((a, fetch(r, mem).0, fetch(r, mem).1)),
        _ => None,
    }
}

/// The flags of comparing `x` with `y`.
pub open spec fn flags_of_compare(x: u32, y: u32) -> CmpFlags {
    CmpFlags { gt: x > y, eq: x == y, lt: x < y }
}

/// Registers `r` with the state's comparison flags replaced by `f`.
pub open spec fn with_flags(r: RegisterFile, f: CmpFlags) -> RegisterFile {
    RegisterFile { st: State((r.st.0 & !7u32) | flag_bits(f)), ..r }
}

/// Target register, address and registers after reading it, of `Ld`.
pub open spec fn load_operands(id: InstructionData, r: RegisterFile, mem: spec_fn(u32) -> u8) -> Option<
    (Register, u32, RegisterFile),
> {
    match id {
        InstructionData::TwoRegisters(x, a) => Some((x, r.value(a), r)),
        InstructionData::RegisterAndU32(x, _) => Some((x, fetch(r, mem).0, fetch(r, mem).1)),
        _ => None,
    }
}

/// Value, address and registers after reading them, of `Sto`.
pub open spec fn store_operands(id: InstructionData, r: RegisterFile, mem: spec_fn(u32) -> u8) -> Option<
    (u32, u32, RegisterFile),
> {
    match id {
        InstructionData::TwoRegisters(v, a) => Some((r.value(v), r.value(a), r)),
        InstructionData::RegisterAndU32(v, _) => Some((r.value(v), fetch(r, mem).0, fetch(r, mem).1)),
        _ => None,
    }
}

/// The values `Push` pushes, in order, and the registers after reading them.
pub open spec fn push_operands(id: InstructionData, r: RegisterFile, mem: spec_fn(u32) -> u8) -> (
    Seq<u32>,
    RegisterFile,
) {
    let (imm, r2) = fetch(r, mem);
    match id {
        InstructionData::OneRegister(a) => (seq![r.value(a)], r),
        InstructionData::TwoRegisters(a, b) => (seq![r.value(a), r.value(b)], r),
        InstructionData::ThreeRegisters(a, b, c) => (seq![r.value(a), r.value(b), r.value(c)], r),
        InstructionData::RegisterAndU8(a, b) => (seq![r.value(a), b as u32], r),
        InstructionData::RegisterAndU32(a, _) => (seq![r.value(a), imm], r2),
        InstructionData::TwoRegistersAndU8(a, b, c) => (seq![r.value(a), r.value(b), c as u32], r),
        InstructionData::TwoRegistersAndU32(a, b, _) => (seq![r.value(a), r.value(b), imm], r2),
        InstructionData::ImmediateOnly(_) => (seq![imm], r2),
    }
}

/// Pushing `vals` in order: each moves the stack address down by 4 and
/// stores the value there. The registers afterwards and the words written.
pub open spec fn push_values(r: RegisterFile, vals: Seq<u32>) -> (RegisterFile, Seq<(u32, u32)>)
    decreases vals.len(),
{
    if vals.len() == 0 {
        (r, Seq::empty())
    } else {
        let (r1, ws) = push_values(r, vals.drop_last());
        let sa = addr_before(r1.sa, 4);
        (RegisterFile { sa, ..r1 }, ws.push((sa, vals.last())))
    }
}

/// The registers `Pop` fills, in order.
pub open spec fn pop_targets(id: InstructionData) -> Option<Seq<Register>> {
    match id {
        InstructionData::OneRegister(a) => Some(seq![a]),
        InstructionData::TwoRegisters(a, b) => Some(seq![a, b]),
        InstructionData::ThreeRegisters(a, b, c) => Some(seq![a, b, c]),
        _ => None,
    }
}

/// Popping into `targets` in order: each reads the word at the stack
/// address, moves it up by 4, then stores the word in the target.
pub open spec fn pop_into(r: RegisterFile, mem: spec_fn(u32) -> u8, targets: Seq<Register>) -> RegisterFile
    decreases targets.len(),
{
    if targets.len() == 0 {
        r
    } else {
        let r1 = pop_into(r, mem, targets.drop_last());
        let v = mem_word(mem, r1.sa);
        RegisterFile { sa: addr_after(r1.sa, 4), ..r1 }.with(targets.last(), v)
    }
}

/// Target register, value and registers after reading it, of `Mov`.
pub open spec fn move_operands(id: InstructionData, r: RegisterFile, mem: spec_fn(u32) -> u8) -> Option<
    (Register, u32, RegisterFile),
> {
    match id {
        InstructionData::TwoRegisters(a, b) => Some((a, r.value(b), r)),
        InstructionData::RegisterAndU32(a, _) => Some((a, fetch(r, mem).0, fetch(r, mem).1)),
        InstructionData::RegisterAndU8(a, v) => Some((a, v as u32, r)),
        _ => None,
    }
}

/// Address and registers after reading it, of `Call` and `JmpAbs`.
pub open spec fn target_operand(id: InstructionData, r: RegisterFile, mem: spec_fn(u32) -> u8) -> Option<
    (u32, RegisterFile),
> {
    match id {
        InstructionData::OneRegister(x) => Some((r.value(x), r)),
        InstructionData::ImmediateOnly(_) => Some((fetch(r, mem).0, fetch(r, mem).1)),
        _ => None,
    }
}

/// Distance and registers after reading it, of `Jmp`; a byte counts words.
pub open spec fn jump_operand(id: InstructionData, r: RegisterFile, mem: spec_fn(u32) -> u8) -> Option<
    (u32, RegisterFile),
> {
    match id {
        InstructionData::OneRegister(x) => Some((r.value(x), r)),
        InstructionData::ImmediateOnly(_) => Some((fetch(r, mem).0, fetch(r, mem).1)),
        InstructionData::RegisterAndU8(_, v) => Some((((v as u32) * 4) as u32, r)),
        InstructionData::TwoRegistersAndU8(_, _, v) => Some((((v as u32) * 4) as u32, r)),
        _ => None,
    }
}

/// What running instruction `i`, fetched from `ia0`, does to registers `r`
/// (the instruction address already past it) over memory contents `mem`.
pub open spec fn exec_inst(i: Instruction, ia0: u32, r: RegisterFile, mem: spec_fn(u32) -> u8) -> Effect {
    let bad = failed(r, CPUError::InvalidInstruction);
    match i.var {
        InstVariant::Nop => done(r),
        InstVariant::Halt => failed(r, CPUError::Halt),
        InstVariant::Add(id) | InstVariant::Mul(id) | InstVariant::And(id) | InstVariant::Or(id)
        | InstVariant::Xor(id) => match alu_operands(id, r, mem, true) {
            Some((t, a, y, r2)) => done(r2.with(t, alu_value(i.var, i.sign, r2.value(a), y))),
            None => bad,
        },
        InstVariant::Lsl(id) | InstVariant::Lsr(id) | InstVariant::Asr(id) | InstVariant::Ror(
            id,
        ) => match alu_operands(id, r, mem, false) {
            Some((t, a, y, r2)) => done(r2.with(t, alu_value(i.var, i.sign, r2.value(a), y))),
            None => bad,
        },
        InstVariant::Not(id) => match unary_operand(id, r, mem) {
            Some((t, v, r2)) => done(r2.with(t, !v)),
            None => bad,
        },
        InstVariant::Cmp(id) => match compare_operands(id, r, mem) {
            Some((a, y, r2)) => done(with_flags(r2, flags_of_compare(r2.value(a), y))),
            None => bad,
        },
        InstVariant::SetEn => done(
            RegisterFile {
                st: State(
                    if i.sign {
                        r.st.0 | 8u32
                    } else {
                        r.st.0 & !8u32
                    },
                ),
                ..r
            },
        ),
        InstVariant::Rst => done(with_flags(r, CmpFlags { gt: true, eq: true, lt: true })),
        InstVariant::Ld(id) => match load_operands(id, r, mem) {
            Some((x, a, r2)) => done(r2.with(x, mem_word(mem, a))),
            None => bad,
        },
        InstVariant::Sto(id) => match store_operands(id, r, mem) {
            Some((v, a, r2)) => Effect {
                regs: r2,
                writes: seq![(a, v)],
                result: Ok(()),
                completed: true,
            },
            None => bad,
        },
        InstVariant::Push(id) => {
            let (vals, r2) = push_operands(id, r, mem);
            let (r3, ws) = push_values(r2, vals);
            Effect { regs: r3, writes: ws, result: Ok(()), completed: true }
        },
        InstVariant::Pop(id) => match pop_targets(id) {
            Some(ts) => done(pop_into(r, mem, ts)),
            None => bad,
        },
        InstVariant::Mov(id) => match move_operands(id, r, mem) {
            Some((x, v, r2)) => done(r2.with(x, v)),
            None => bad,
        },
        InstVariant::Call(id) => match target_operand(id, r, mem) {
            Some((target, r2)) => {
                let cs = addr_before(r2.cs, 4);
                Effect {
                    regs: RegisterFile { cs, ra: r2.ia, ia: target, ..r2 },
                    writes: seq![(cs, r2.ra)],
                    result: Ok(()),
                    completed: true,
                }
            },
            None => bad,
        },
        InstVariant::Ret => done(
            RegisterFile { ia: r.ra, ra: mem_word(mem, r.cs), cs: addr_after(r.cs, 4), ..r },
        ),
        InstVariant::Jmp(id) => match jump_operand(id, r, mem) {
            Some((off, r2)) => done(
                RegisterFile {
                    ia: if i.sign {
                        addr_before(ia0, off)
                    } else {
                        addr_after(ia0, off)
                    },
                    ..r2
                },
            ),
            None => bad,
        },
        InstVariant::JmpAbs(id) => match target_operand(id, r, mem) {
            Some((target, r2)) => done(RegisterFile { ia: target, ..r2 }),
            None => bad,
        },
    }
}

/// Whether an instruction with condition flags `f` is skipped in state `st`:
/// conditional execution is on and none of its flags is set.
pub open spec fn skipped(st: State, f: CmpFlags) -> bool {
    st.0 & 8 == 8 && st.0 & flag_bits(f) == 0
}

/// What fetching, decoding and executing one instruction does to registers
/// `r` over memory contents `mem`. A skipped instruction also skips its literal word.
pub open spec fn spec_execute(r: RegisterFile, mem: spec_fn(u32) -> u8) -> Effect {
    let (w, r1) = fetch(r, mem);
    match spec_decode(w) {
        Err(e) => failed(r1, e),
        Ok(i) => if skipped(r1.st, i.cmp) {
            Effect {
                regs: if i.spec_has_upcoming_value() {
                    fetch(r1, mem).1
                } else {
                    r1
                },
                writes: Seq::empty(),
                result: Ok(()),
                completed: false,
            }
        } else {
            exec_inst(i, r.ia, r1, mem)
        },
    }
}

/// Whether `after` is `before` with `v` stored as a little-endian word at `addr`.
pub open spec fn word_stored<M: Memory>(before: MemoryMap<M>, after: MemoryMap<M>, addr: u32, v: u32) -> bool {
    &&& same_layout(&before, &after)
    &&& forall|a: u32| #[trigger]
        after.byte_at(a) == byte_after_write(before.byte_at(a), before.backed(a), addr, 4, v, a)
}

/// A word pushed on a stack, by moving the stack address `sp` down by 4 and
/// storing the word there (as `push_stack` and `push_cs` do), is what
/// popping (`pop_stack`, `pop_cs`) reads back from the new stack address,
/// and popping's move up by 4 gives `sp` back; this when the four bytes of
/// the stack word are kept.
pub proof fn lemma_stack_push_then_pop<M: Memory>(m0: MemoryMap<M>, m1: MemoryMap<M>, sp: u32, v: u32)
    requires
        word_stored(m0, m1, addr_before(sp, 4), v),
        m0.backed(addr_before(sp, 4)),
        m0.backed(addr_after(addr_before(sp, 4), 1)),
        m0.backed(addr_after(addr_before(sp, 4), 2)),
        m0.backed(addr_after(addr_before(sp, 4), 3)),
    ensures
        mem_word(mem_of(m1), addr_before(sp, 4)) == v,
        addr_after(addr_before(sp, 4), 4) == sp,
{
    crate::memory::lemma_read_after_write_word(&m0, &m1, addr_before(sp, 4), v);
}

/// Storing nothing leaves a memory map as it is.
pub proof fn lemma_stored_nothing<M: Memory>(m: MemoryMap<M>)
    ensures
        stored(m, m, Seq::empty()),
{
}

/// Storing one more word after some words is storing the longer list.
pub proof fn lemma_stored_push<M: Memory>(
    m0: MemoryMap<M>,
    m1: MemoryMap<M>,
    m2: MemoryMap<M>,
    ws: Seq<(u32, u32)>,
    addr: u32,
    v: u32,
)
    requires
        stored(m0, m1, ws),
        word_stored(m1, m2, addr, v),
    ensures
        stored(m0, m2, ws.push((addr, v))),
{
    assert(ws.push((addr, v)).drop_last() =~= ws);
    assert forall|a: u32| #[trigger]
        m2.byte_at(a) == byte_after_writes(mem_of(m0), backed_of(m0), ws.push((addr, v)), a) by {
        assert(m1.backed(a) == m0.backed(a));
    }
}

/// The machine: a memory map, the registers, and whether a front end should
/// wait for the user before each step.
pub struct CPU<M: Memory> {
    pub mmap: MemoryMap<M>,
    pub reg: RegisterFile,
    pub step_wait: bool,
}

impl<M: Memory> Default for CPU<M> {
    fn default() -> (r: Self)
        ensures
            r.mmap.mems@ == Seq::<crate::memory::MappedMemory<M>>::empty(),
            r.reg == (RegisterFile {
                r0: 0,
                r1: 0,
                r2: 0,
                r3: 0,
                r4: 0,
                r5: 0,
                r6: 0,
                r7: 0,
                r8: 0,
                r9: 0,
                cs: 0,
                ca: 0,
                st: State(7),
                ia: 0,
                ra: 0,
                sa: 0,
            }),
            !r.step_wait,
    {
        CPU { mmap: MemoryMap::default(), reg: RegisterFile::default(), step_wait: false }
    }
}

/// Arithmetic shift of `x` right by `b` bits.
fn shift_arith_word(x: u32, b: u32) -> (r: u32)
    ensures
        r == shift_arith(x, b),
{
    (x as i32).wrapping_shr(b) as u32
}

/// Rotation of `x` right by `b` bits.
fn rotate_right_word(x: u32, b: u32) -> (r: u32)
    ensures
        r == rotate_right(x, b),
{
    x.wrapping_shr(b) | x.wrapping_shl(32 - b % 32)
}

impl<M: Memory> CPU<M> {
    /// Reads the word at the instruction address and moves past it.
    fn read_ia(&mut self) -> (v: u32)
        requires
            old(self).mmap.wf(),
        ensures
            final(self).mmap == old(self).mmap,
            final(self).step_wait == old(self).step_wait,
            (v, final(self).reg) == fetch(old(self).reg, mem_of(old(self).mmap)),
    {
        let v = self.mmap.read_u32(self.reg.ia);
        self.reg.ia = self.reg.ia.wrapping_add(4);
        v
    }

    /// Moves the stack address down by 4 and stores `v` there.
    fn push_stack(&mut self, v: u32)
        requires
            old(self).mmap.wf(),
        ensures
            final(self).reg == (RegisterFile { sa: addr_before(old(self).reg.sa, 4), ..old(self).reg }),
            final(self).step_wait == old(self).step_wait,
            word_stored(old(self).mmap, final(self).mmap, addr_before(old(self).reg.sa, 4), v),
    {
        self.reg.sa = self.reg.sa.wrapping_sub(4);
        self.mmap.write_u32(self.reg.sa, v);
    }

    /// Reads the word at the stack address and moves it up by 4.
    fn pop_stack(&mut self) -> (v: u32)
        requires
            old(self).mmap.wf(),
        ensures
            final(self).mmap == old(self).mmap,
            final(self).step_wait == old(self).step_wait,
            v == mem_word(mem_of(old(self).mmap), old(self).reg.sa),
            final(self).reg == (RegisterFile { sa: addr_after(old(self).reg.sa, 4), ..old(self).reg }),
    {
        let v = self.mmap.read_u32(self.reg.sa);
        self.reg.sa = self.reg.sa.wrapping_add(4);
        v
    }

    /// Moves the call stack address down by 4 and stores the return address there.
    fn push_cs(&mut self)
        requires
            old(self).mmap.wf(),
        ensures
            final(self).reg == (RegisterFile { cs: addr_before(old(self).reg.cs, 4), ..old(self).reg }),
            final(self).step_wait == old(self).step_wait,
            word_stored(old(self).mmap, final(self).mmap, addr_before(old(self).reg.cs, 4), old(self).reg.ra),
    {
        self.reg.cs = self.reg.cs.wrapping_sub(4);
        self.mmap.write_u32(self.reg.cs, self.reg.ra);
    }

    /// Reads the return address from the call stack and moves it up by 4.
    fn pop_cs(&mut self)
        requires
            old(self).mmap.wf(),
        ensures
            final(self).mmap == old(self).mmap,
            final(self).step_wait == old(self).step_wait,
            final(self).reg == (RegisterFile {
                ra: mem_word(mem_of(old(self).mmap), old(self).reg.cs),
                cs: addr_after(old(self).reg.cs, 4),
                ..old(self).reg
            }),
    {
        self.reg.ra = self.mmap.read_u32(self.reg.cs);
        self.reg.cs = self.reg.cs.wrapping_add(4);
    }

    fn take_alu_operands(&mut self, id: InstructionData, wide: bool) -> (r: Option<(Register, Register, u32)>)
        requires
            old(self).mmap.wf(),
        ensures
            final(self).mmap == old(self).mmap,
            final(self).step_wait == old(self).step_wait,
            match alu_operands(id, old(self).reg, mem_of(old(self).mmap), wide) {
                Some((t, a, y, r2)) => r == Some((t, a, y)) && final(self).reg == r2,
                None => r is None && final(self).reg == old(self).reg,
            },
    {
        match id {
            InstructionData::TwoRegisters(a, b) => Some((a, a, self.reg.get(b))),
            InstructionData::ThreeRegisters(t, a, b) => Some((t, a, self.reg.get(b))),
            InstructionData::RegisterAndU8(x, v) => Some((x, x, v as u32)),
            InstructionData::RegisterAndU32(x, _) => {
                if wide {
                    let v = self.read_ia();
                    Some((x, x, v))
                } else {
                    None
                }
            },
            InstructionData::TwoRegistersAndU8(t, a, v) => Some((t, a, v as u32)),
            InstructionData::TwoRegistersAndU32(t, a, _) => {
                if wide {
                    let v = self.read_ia();
                    Some((t, a, v))
                } else {
                    None
                }
            },
            _ => None,
        }
    }

    fn take_unary_operand(&mut self, id: InstructionData) -> (r: Option<(Register, u32)>)
        requires
            old(self).mmap.wf(),
        ensures
            final(self).mmap == old(self).mmap,
            final(self).step_wait == old(self).step_wait,
            match unary_operand(id, old(self).reg, mem_of(old(self).mmap)) {
                Some((t, v, r2)) => r == Some((t, v)) && final(self).reg == r2,
                None => r is None && final(self).reg == old(self).reg,
            },
    {
        match id {
            InstructionData::OneRegister(x) => Some((x, self.reg.get(x))),
            InstructionData::TwoRegisters(t, v) => Some((t, self.reg.get(v))),
            InstructionData::RegisterAndU8(t, v) => Some((t, v as u32)),
            InstructionData::RegisterAndU32(t, _) => {
                let v = self.read_ia();
                Some((t, v))
            },
            _ => None,
        }
    }

    fn take_compared_operands(&mut self, id: InstructionData) -> (r: Option<(Register, u32)>)
        requires
            old(self).mmap.wf(),
        ensures
            final(self).mmap == old(self).mmap,
            final(self).step_wait == old(self).step_wait,
            match compare_operands(id, old(self).reg, mem_of(old(self).mmap)) {
                Some((a, y, r2)) => r == Some((a, y)) && final(self).reg == r2,
                None => r is None && final(self).reg == old(self).reg,
            },
    {
        match id {
            InstructionData::OneRegister(a) => Some((a, 0)),
            InstructionData::TwoRegisters(a, b) => Some((a, self.reg.get(b))),
            InstructionData::RegisterAndU8(a, b) => Some((a, b as u32)),
            InstructionData::RegisterAndU32(a, _) => {
                let v = self.read_ia();
                Some((a, v))
            },
            _ => None,
        }
    }

    fn take_load_operands(&mut self, id: InstructionData) -> (r: Option<(Register, u32)>)
        requires
            old(self).mmap.wf(),
        ensures
            final(self).mmap == old(self).mmap,
            final(self).step_wait == old(self).step_wait,
            match load_operands(id, old(self).reg, mem_of(old(self).mmap)) {
                Some((x, a, r2)) => r == Some((x, a)) && final(self).reg == r2,
                None => r is None && final(self).reg == old(self).reg,
            },
    {
        match id {
            InstructionData::TwoRegisters(x, a) => Some((x, self.reg.get(a))),
            InstructionData::RegisterAndU32(x, _) => {
                let a = self.read_ia();
                Some((x, a))
            },
            _ => None,
        }
    }

    fn take_store_operands(&mut self, id: InstructionData) -> (r: Option<(u32, u32)>)
        requires
            old(self).mmap.wf(),
        ensures
            final(self).mmap == old(self).mmap,
            final(self).step_wait == old(self).step_wait,
            match store_operands(id, old(self).reg, mem_of(old(self).mmap)) {
                Some((v, a, r2)) => r == Some((v, a)) && final(self).reg == r2,
                None => r is None && final(self).reg == old(self).reg,
            },
    {
        match id {
            InstructionData::TwoRegisters(v, a) => Some((self.reg.get(v), self.reg.get(a))),
            InstructionData::RegisterAndU32(v, _) => {
                let x = self.reg.get(v);
                let a = self.read_ia();
                Some((x, a))
            },
            _ => None,
        }
    }

    fn take_push_operands(&mut self, id: InstructionData) -> (r: Vec<u32>)
        requires
            old(self).mmap.wf(),
        ensures
            final(self).mmap == old(self).mmap,
            final(self).step_wait == old(self).step_wait,
            (r@, final(self).reg) == push_operands(id, old(self).reg, mem_of(old(self).mmap)),
    {
        let mut vals: Vec<u32> = Vec::new();
        match id {
            InstructionData::OneRegister(a) => {
                vals.push(self.reg.get(a));
            },
            InstructionData::TwoRegisters(a, b) => {
                vals.push(self.reg.get(a));
                vals.push(self.reg.get(b));
            },
            InstructionData::ThreeRegisters(a, b, c) => {
                vals.push(self.reg.get(a));
                vals.push(self.reg.get(b));
                vals.push(self.reg.get(c));
            },
            InstructionData::RegisterAndU8(a, b) => {
                vals.push(self.reg.get(a));
                vals.push(b as u32);
            },
            InstructionData::RegisterAndU32(a, _) => {
                vals.push(self.reg.get(a));
                let v = self.read_ia();
                vals.push(v);
            },
            InstructionData::TwoRegistersAndU8(a, b, c) => {
                vals.push(self.reg.get(a));
                vals.push(self.reg.get(b));
                vals.push(c as u32);
            },
            InstructionData::TwoRegistersAndU32(a, b, _) => {
                vals.push(self.reg.get(a));
                vals.push(self.reg.get(b));
                let v = self.read_ia();
                vals.push(v);
            },
            InstructionData::ImmediateOnly(_) => {
                let v = self.read_ia();
                vals.push(v);
            },
        }
        proof {
            let (s, _) = push_operands(id, old(self).reg, mem_of(old(self).mmap));
            assert(vals@ =~= s);
        }
        vals
    }

    fn take_pop_targets(id: InstructionData) -> (r: Option<Vec<Register>>)
        ensures
            match pop_targets(id) {
                Some(ts) => r matches Some(v) && v@ == ts,
                None => r is None,
            },
    {
        let mut ts: Vec<Register> = Vec::new();
        match id {
            InstructionData::OneRegister(a) => {
                ts.push(a);
            },
            InstructionData::TwoRegisters(a, b) => {
                ts.push(a);
                ts.push(b);
            },
            InstructionData::ThreeRegisters(a, b, c) => {
                ts.push(a);
                ts.push(b);
                ts.push(c);
            },
            _ => {
                return None;
            },
        }
        proof {
            assert(ts@ =~= pop_targets(id).unwrap());
        }
        Some(ts)
    }

    fn take_move_operands(&mut self, id: InstructionData) -> (r: Option<(Register, u32)>)
        requires
            old(self).mmap.wf(),
        ensures
            final(self).mmap == old(self).mmap,
            final(self).step_wait == old(self).step_wait,
            match move_operands(id, old(self).reg, mem_of(old(self).mmap)) {
                Some((x, v, r2)) => r == Some((x, v)) && final(self).reg == r2,
                None => r is None && final(self).reg == old(self).reg,
            },
    {
        match id {
            InstructionData::TwoRegisters(a, b) => Some((a, self.reg.get(b))),
            InstructionData::RegisterAndU32(a, _) => {
                let v = self.read_ia();
                Some((a, v))
            },
            InstructionData::RegisterAndU8(a, v) => Some((a, v as u32)),
            _ => None,
        }
    }

    fn take_target_operand(&mut self, id: InstructionData) -> (r: Option<u32>)
        requires
            old(self).mmap.wf(),
        ensures
            final(self).mmap == old(self).mmap,
            final(self).step_wait == old(self).step_wait,
            match target_operand(id, old(self).reg, mem_of(old(self).mmap)) {
                Some((a, r2)) => r == Some(a) && final(self).reg == r2,
                None => r is None && final(self).reg == old(self).reg,
            },
    {
        match id {
            InstructionData::OneRegister(x) => Some(self.reg.get(x)),
            InstructionData::ImmediateOnly(_) => {
                let a = self.read_ia();
                Some(a)
            },
            _ => None,
        }
    }

    fn take_jump_operand(&mut self, id: InstructionData) -> (r: Option<u32>)
        requires
            old(self).mmap.wf(),
        ensures
            final(self).mmap == old(self).mmap,
            final(self).step_wait == old(self).step_wait,
            match jump_operand(id, old(self).reg, mem_of(old(self).mmap)) {
                Some((d, r2)) => r == Some(d) && final(self).reg == r2,
                None => r is None && final(self).reg == old(self).reg,
            },
    {
        match id {
            InstructionData::OneRegister(x) => Some(self.reg.get(x)),
            InstructionData::ImmediateOnly(_) => {
                let d = self.read_ia();
                Some(d)
            },
            InstructionData::RegisterAndU8(_, v) => Some((v as u32) * 4),
            InstructionData::TwoRegistersAndU8(_, _, v) => Some((v as u32) * 4),
            _ => None,
        }
    }

    /// Pushes `vals` in order.
    fn push_all(&mut self, vals: &Vec<u32>)
        requires
            old(self).mmap.wf(),
        ensures
            final(self).reg == push_values(old(self).reg, vals@).0,
            stored(old(self).mmap, final(self).mmap, push_values(old(self).reg, vals@).1),
            final(self).step_wait == old(self).step_wait,
    {
        let ghost m0 = self.mmap;
        let ghost r0 = self.reg;
        proof {
            lemma_stored_nothing(m0);
            assert(vals@.take(0) =~= Seq::<u32>::empty());
        }
        let n = vals.len();
        let mut k: usize = 0;
        while k < n
            invariant
                n == vals@.len(),
                k <= n,
                self.mmap.wf(),
                self.step_wait == old(self).step_wait,
                self.reg == push_values(r0, vals@.take(k as int)).0,
                stored(m0, self.mmap, push_values(r0, vals@.take(k as int)).1),
            decreases n - k,
        {
            let ghost m1 = self.mmap;
            let ghost before = push_values(r0, vals@.take(k as int));
            self.push_stack(vals[k]);
            proof {
                assert(vals@.take(k + 1).drop_last() =~= vals@.take(k as int));
                lemma_stored_push(m0, m1, self.mmap, before.1, addr_before(before.0.sa, 4), vals@[k as int]);
                assert(self.mmap.readable(0) == m1.readable(0));
            }
            k = k + 1;
        }
        proof {
            assert(vals@.take(n as int) =~= vals@);
        }
    }

    /// Pops into the registers `ts` in order.
    fn pop_all(&mut self, ts: &Vec<Register>)
        requires
            old(self).mmap.wf(),
        ensures
            final(self).reg == pop_into(old(self).reg, mem_of(old(self).mmap), ts@),
            final(self).mmap == old(self).mmap,
            final(self).step_wait == old(self).step_wait,
    {
        let ghost m0 = self.mmap;
        let ghost r0 = self.reg;
        proof {
            assert(ts@.take(0) =~= Seq::<Register>::empty());
        }
        let n = ts.len();
        let mut k: usize = 0;
        while k < n
            invariant
                n == ts@.len(),
                k <= n,
                self.mmap == m0,
                m0.wf(),
                self.step_wait == old(self).step_wait,
                self.reg == pop_into(r0, mem_of(m0), ts@.take(k as int)),
            decreases n - k,
        {
            let v = self.pop_stack();
            self.reg.set(ts[k], v);
            proof {
                assert(ts@.take(k + 1).drop_last() =~= ts@.take(k as int));
            }
            k = k + 1;
        }
        proof {
            assert(ts@.take(n as int) =~= ts@);
        }
    }

    /// Runs a decoded instruction fetched from `current_ia`; `Ok(())` when it completed.
    fn run_instruction(&mut self, inst: Instruction, current_ia: u32) -> (res: Result<(), CPUError>)
        requires
            old(self).mmap.wf(),
        ensures
            ({
                let e = exec_inst(inst, current_ia, old(self).reg, mem_of(old(self).mmap));
                &&& final(self).reg == e.regs
                &&& stored(old(self).mmap, final(self).mmap, e.writes)
                &&& final(self).step_wait == old(self).step_wait
                &&& res == e.result
                &&& e.completed == (e.result is Ok)
            }),
    {
        let ghost m0 = self.mmap;
        proof {
            lemma_stored_nothing(m0);
        }
        match inst.var {
            InstVariant::Nop => {},
            InstVariant::Halt => {
                return Err(CPUError::Halt);
            },
            InstVariant::Add(id) | InstVariant::Mul(id) | InstVariant::And(id) | InstVariant::Or(
                id,
            ) | InstVariant::Xor(id) => {
                match self.take_alu_operands(id, true) {
                    Some((t, a, b)) => {
                        let x = self.reg.get(a);
                        let v = match inst.var {
                            InstVariant::Add(_) => if inst.sign {
                                x.wrapping_sub(b)
                            } else {
                                x.wrapping_add(b)
                            },
                            InstVariant::Mul(_) => x.wrapping_mul(b),
                            InstVariant::And(_) => x & b,
                            InstVariant::Or(_) => x | b,
                            _ => x ^ b,
                        };
                        self.reg.set(t, v);
                    },
                    None => {
                        return Err(CPUError::InvalidInstruction);
                    },
                }
            },
            InstVariant::Lsl(id) | InstVariant::Lsr(id) | InstVariant::Asr(id) | InstVariant::Ror(
                id,
            ) => {
                match self.take_alu_operands(id, false) {
                    Some((t, a, b)) => {
                        let x = self.reg.get(a);
                        let v = match inst.var {
                            InstVariant::Lsl(_) => x.wrapping_shl(b),
                            InstVariant::Lsr(_) => x.wrapping_shr(b),
                            InstVariant::Asr(_) => shift_arith_word(x, b),
                            _ => rotate_right_word(x, b),
                        };
                        self.reg.set(t, v);
                    },
                    None => {
                        return Err(CPUError::InvalidInstruction);
                    },
                }
            },
            InstVariant::Not(id) => {
                match self.take_unary_operand(id) {
                    Some((t, v)) => {
                        self.reg.set(t, !v);
                    },
                    None => {
                        return Err(CPUError::InvalidInstruction);
                    },
                }
            },
            InstVariant::Cmp(id) => {
                match self.take_compared_operands(id) {
                    Some((a, b)) => {
                        let x = self.reg.get(a);
                        let f = CmpFlags::new(x, b);
                        self.reg.st.set_cmp(f);
                    },
                    None => {
                        return Err(CPUError::InvalidInstruction);
                    },
                }
            },
            InstVariant::SetEn => {
                self.reg.st.set(State(State::CMP_EN), inst.sign);
            },
            InstVariant::Rst => {
                self.reg.st.set_cmp(CmpFlags { gt: true, eq: true, lt: true });
            },
            InstVariant::Ld(id) => {
                match self.take_load_operands(id) {
                    Some((x, a)) => {
                        let v = self.mmap.read_u32(a);
                        self.reg.set(x, v);
                    },
                    None => {
                        return Err(CPUError::InvalidInstruction);
                    },
                }
            },
            InstVariant::Sto(id) => {
                match self.take_store_operands(id) {
                    Some((v, a)) => {
                        let ghost m1 = self.mmap;
                        self.mmap.write_u32(a, v);
                        proof {
                            lemma_stored_push(m0, m1, self.mmap, Seq::empty(), a, v);
                            assert(Seq::<(u32, u32)>::empty().push((a, v)) =~= seq![(a, v)]);
                        }
                    },
                    None => {
                        return Err(CPUError::InvalidInstruction);
                    },
                }
            },
            InstVariant::Push(id) => {
                let vals = self.take_push_operands(id);
                self.push_all(&vals);
            },
            InstVariant::Pop(id) => {
                match Self::take_pop_targets(id) {
                    Some(ts) => {
                        self.pop_all(&ts);
                    },
                    None => {
                        return Err(CPUError::InvalidInstruction);
                    },
                }
            },
            InstVariant::Mov(id) => {
                match self.take_move_operands(id) {
                    Some((x, v)) => {
                        self.reg.set(x, v);
                    },
                    None => {
                        return Err(CPUError::InvalidInstruction);
                    },
                }
            },
            InstVariant::Call(id) => {
                match self.take_target_operand(id) {
                    Some(call_addr) => {
                        let ghost m1 = self.mmap;
                        let ghost cs = addr_before(self.reg.cs, 4);
                        let ghost ra = self.reg.ra;
                        self.push_cs();
                        proof {
                            lemma_stored_push(m0, m1, self.mmap, Seq::empty(), cs, ra);
                            assert(Seq::<(u32, u32)>::empty().push((cs, ra)) =~= seq![(cs, ra)]);
                        }
                        self.reg.ra = self.reg.ia;
                        self.reg.ia = call_addr;
                    },
                    None => {
                        return Err(CPUError::InvalidInstruction);
                    },
                }
            },
            InstVariant::Ret => {
                self.reg.ia = self.reg.ra;
                self.pop_cs();
            },
            InstVariant::Jmp(id) => {
                match self.take_jump_operand(id) {
                    Some(jump_offset) => {
                        self.reg.ia = if inst.sign {
                            current_ia.wrapping_sub(jump_offset)
                        } else {
                            current_ia.wrapping_add(jump_offset)
                        };
                    },
                    None => {
                        return Err(CPUError::InvalidInstruction);
                    },
                }
            },
            InstVariant::JmpAbs(id) => {
                match self.take_target_operand(id) {
                    Some(jump_addr) => {
                        self.reg.ia = jump_addr;
                    },
                    None => {
                        return Err(CPUError::InvalidInstruction);
                    },
                }
            },
        }
        Ok(())
    }

    /// Fetches, decodes and runs one instruction, without the devices' step
    /// calls: `Ok(true)` when it ran to completion, `Ok(false)` when its
    /// condition flags made it be skipped.
    fn execute(&mut self) -> (res: Result<bool, CPUError>)
        requires
            old(self).mmap.wf(),
        ensures
            ({
                let e = spec_execute(old(self).reg, mem_of(old(self).mmap));
                &&& final(self).reg == e.regs
                &&& stored(old(self).mmap, final(self).mmap, e.writes)
                &&& final(self).step_wait == old(self).step_wait
                &&& match res {
                    Ok(c) => e.result == Ok::<(), CPUError>(()) && c == e.completed,
                    Err(x) => e.result == Err::<(), CPUError>(x) && !e.completed,
                }
            }),
    {
        let ghost m0 = self.mmap;
        proof {
            lemma_stored_nothing(m0);
        }
        let current_ia = self.reg.ia;
        let word = self.read_ia();
        let current_inst = match Instruction::try_from(word) {
            Ok(i) => i,
            Err(e) => {
                return Err(e);
            },
        };
        if self.reg.st.contains(State(State::CMP_EN)) && (self.reg.st.0 & State::from(
            current_inst.cmp,
        ).0) == 0 {
            if current_inst.has_upcoming_value() {
                self.read_ia();
            }
            return Ok(false);
        }
        match self.run_instruction(current_inst, current_ia) {
            Ok(()) => Ok(true),
            Err(e) => Err(e),
        }
    }

    /// Gives every device its pre-step call, in map order.
    pub fn call_peripherals_pre(&mut self)
        ensures
            final(self).reg == old(self).reg,
            final(self).step_wait == old(self).step_wait,
            devices_pre_stepped(old(self).mmap, final(self).mmap),
    {
        let n = self.mmap.mems.len();
        let mut i: usize = 0;
        while i < n
            invariant
                n == self.mmap.mems@.len(),
                i <= n,
                self.reg == old(self).reg,
                self.step_wait == old(self).step_wait,
                regions_kept(old(self).mmap, self.mmap),
                forall|j: int, a: u32|
                    0 <= j < i ==> #[trigger] self.mmap.mems@[j].inner.byte_at(a)
                        == old(self).mmap.mems@[j].inner.byte_after_pre_step(a),
                forall|j: int| i <= j < n ==> #[trigger] self.mmap.mems@[j] == old(self).mmap.mems@[j],
            decreases n - i,
        {
            self.mmap.mems[i].inner.pre_step();
            i = i + 1;
        }
    }

    /// Gives every device its post-step call, in map order.
    pub fn call_peripherals_post(&mut self)
        ensures
            final(self).reg == old(self).reg,
            final(self).step_wait == old(self).step_wait,
            devices_post_stepped(old(self).mmap, final(self).mmap),
    {
        let n = self.mmap.mems.len();
        let mut i: usize = 0;
        while i < n
            invariant
                n == self.mmap.mems@.len(),
                i <= n,
                self.reg == old(self).reg,
                self.step_wait == old(self).step_wait,
                regions_kept(old(self).mmap, self.mmap),
                forall|j: int, a: u32|
                    0 <= j < i ==> #[trigger] self.mmap.mems@[j].inner.byte_at(a)
                        == old(self).mmap.mems@[j].inner.byte_after_post_step(a),
                forall|j: int| i <= j < n ==> #[trigger] self.mmap.mems@[j] == old(self).mmap.mems@[j],
            decreases n - i,
        {
            self.mmap.mems[i].inner.post_step();
            i = i + 1;
        }
    }

    /// One step of the machine: the devices' pre-step calls, then fetching,
    /// decoding and running one instruction, then, when it ran to
    /// completion, the devices' post-step calls.
    pub fn step(&mut self) -> (res: Result<(), CPUError>)
        requires
            old(self).mmap.wf(),
        ensures
            final(self).mmap.wf(),
            final(self).step_wait == old(self).step_wait,
            exists|mid: MemoryMap<M>, post: MemoryMap<M>|
                #[trigger] step_outcome(
                    old(self).reg,
                    old(self).mmap,
                    mid,
                    post,
                    final(self).reg,
                    final(self).mmap,
                    res,
                ),
    {
        self.call_peripherals_pre();
        let ghost mid = self.mmap;
        proof {
            lemma_regions_kept(old(self).mmap, mid);
        }
        let r = self.execute();
        let ghost post = self.mmap;
        proof {
            assert(post.readable(0) == mid.readable(0));
        }
        let res = match r {
            Ok(true) => {
                self.call_peripherals_post();
                proof {
                    lemma_regions_kept(post, self.mmap);
                }
                Ok(())
            },
            Ok(false) => Ok(()),
            Err(e) => Err(e),
        };
        assert(step_outcome(old(self).reg, old(self).mmap, mid, post, self.reg, self.mmap, res));
        res
    }
}

/// What running until a halt makes of a step's result: `None` to go on
/// after a step that went well; success when the machine halted; any other
/// error as it is.
pub fn halt_outcome(res: Result<(), CPUError>) -> (r: Option<Result<(), CPUError>>)
    ensures
        r == match res {
            Ok(()) => None,
            Err(CPUError::Halt) => Some(Ok::<(), CPUError>(())),
            Err(e) => Some(Err(e)),
        },
{
    match res {
        Ok(()) => None,
        Err(CPUError::Halt) => Some(Ok(())),
        Err(e) => Some(Err(e)),
    }
}

/// Whether `after` is `before` after each region's memory got its pre-step
/// call: the same regions and layouts, and in each region the bytes that
/// its memory's pre-step call leaves.
pub open spec fn devices_pre_stepped<M: Memory>(before: MemoryMap<M>, after: MemoryMap<M>) -> bool {
    &&& regions_kept(before, after)
    &&& forall|i: int, a: u32|
        0 <= i < before.mems@.len() ==> #[trigger] after.mems@[i].inner.byte_at(a)
            == before.mems@[i].inner.byte_after_pre_step(a)
}

/// Whether `after` is `before` after each region's memory got its post-step
/// call: the same regions and layouts, and in each region the bytes that
/// its memory's post-step call leaves.
pub open spec fn devices_post_stepped<M: Memory>(before: MemoryMap<M>, after: MemoryMap<M>) -> bool {
    &&& regions_kept(before, after)
    &&& forall|i: int, a: u32|
        0 <= i < before.mems@.len() ==> #[trigger] after.mems@[i].inner.byte_at(a)
            == before.mems@[i].inner.byte_after_post_step(a)
}

/// What one step did: the devices' pre-step calls turned `m0` into `mid`;
/// the instruction then ran over `mid`, giving registers `r1`, result `res`,
/// and `post`, which is `mid` with its writes; if it ran to completion, the
/// devices' post-step calls turned `post` into `m1`, else `m1` is `post`.
pub open spec fn step_outcome<M: Memory>(
    r0: RegisterFile,
    m0: MemoryMap<M>,
    mid: MemoryMap<M>,
    post: MemoryMap<M>,
    r1: RegisterFile,
    m1: MemoryMap<M>,
    res: Result<(), CPUError>,
) -> bool {
    let e = spec_execute(r0, mem_of(mid));
    &&& devices_pre_stepped(m0, mid)
    &&& stored(mid, post, e.writes)
    &&& r1 == e.regs
    &&& res == e.result
    &&& if e.completed {
        devices_post_stepped(post, m1)
    } else {
        m1 == post
    }
}

/// Maps with the same regions and layouts are well formed together, and give
/// each address to the same region, which keeps writes there alike.
pub proof fn lemma_regions_kept<M: Memory>(a: MemoryMap<M>, b: MemoryMap<M>)
    requires
        regions_kept(a, b),
    ensures
        a.wf() == b.wf(),
        forall|x: u32| #[trigger] b.responsible(x) == a.responsible(x),
        forall|x: u32| #[trigger] b.backed(x) == a.backed(x),
        same_layout(&a, &b),
{
    let sa = a.mems@;
    let sb = b.mems@;
    assert forall|x: u32| #[trigger] b.responsible(x) == a.responsible(x) by {
        crate::memory::lemma_first_covering_bounds(sa, sb, x, 0);
    }
    assert forall|i: int| 0 <= i < sa.len() implies #[trigger] sa[i].wf() == sb[i].wf() by {
        assert(sa[i].start == sb[i].start);
        assert(same_layout(&sa[i].inner, &sb[i].inner));
        if sa[i].wf() {
            assert forall|off: u32| off < sb[i].inner.spec_size() implies sb[i].inner.readable(off)
                && sb[i].inner.writable(off) by {
                assert(sa[i].inner.readable(off));
                assert(sa[i].inner.writable(off));
            }
        }
        if sb[i].wf() {
            assert forall|off: u32| off < sa[i].inner.spec_size() implies sa[i].inner.readable(off)
                && sa[i].inner.writable(off) by {
                assert(sb[i].inner.readable(off));
                assert(sb[i].inner.writable(off));
            }
        }
    }
    assert(a.wf() == b.wf()) by {
        if a.wf() {
            assert forall|i: int| 0 <= i < sb.len() implies #[trigger] sb[i].wf() by {
                assert(sa[i].wf() == sb[i].wf());
            }
        }
        if b.wf() {
            assert forall|i: int| 0 <= i < sa.len() implies #[trigger] sa[i].wf() by {
                assert(sa[i].wf() == sb[i].wf());
            }
        }
    }
    assert forall|x: u32| #[trigger] b.backed(x) == a.backed(x) by {
        crate::memory::lemma_first_covering_found(sa, x, 0);
        match a.responsible(x) {
            Some(i) => {
                assert(sa[i].start == sb[i].start);
                assert(same_layout(&sa[i].inner, &sb[i].inner));
            },
            None => {},
        }
    }
}

} // verus!
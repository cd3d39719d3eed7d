//! What the CPU's instructions do in combination.
use crate::decode::spec_decode;
use crate::isa::{flags_of_bits, CmpFlags, InstVariant, Instruction, InstructionData, Register, RegisterFile};
use crate::memory::{
    addr_after,
    lemma_word_bytes,
    lemma_word_offsets,
    same_layout,
    stored_byte,
    word_offset,
    Memory,
    MemoryMap,
};
use bytes::BytesMut;
use crate::roundtrip::lemma_state_flags_roundtrip;
use crate::vcore::{
    addr_before,
    backed_of,
    byte_after_writes,
    devices_post_stepped,
    devices_pre_stepped,
    exec_inst,
    flags_of_compare,
    lemma_regions_kept,
    mem_of,
    mem_word,
    pop_into,
    push_values,
    skipped,
    spec_execute,
    step_outcome,
    CPUError,
};
use vstd::prelude::*;

verus! {

/// The contents `mem` after the words `writes` are stored, where only
/// `backed` addresses keep what is written.
pub open spec fn after_writes(
    mem: spec_fn(u32) -> u8,
    backed: spec_fn(u32) -> bool,
    writes: Seq<(u32, u32)>,
) -> spec_fn(u32) -> u8 {
    |a: u32| byte_after_writes(mem, backed, writes, a)
}

/// Whether all four bytes of the word at `a` keep what is written.
pub open spec fn word_backed(backed: spec_fn(u32) -> bool, a: u32) -> bool {
    &&& backed(a)
    &&& backed(addr_after(a, 1))
    &&& backed(addr_after(a, 2))
    &&& backed(addr_after(a, 3))
}

proof fn lemma_single_write_read(
    mem: spec_fn(u32) -> u8,
    backed: spec_fn(u32) -> bool,
    a: u32,
    v: u32,
)
    requires
        word_backed(backed, a),
    ensures
        mem_word(after_writes(mem, backed, seq![(a, v)]), a) == v,
{
    let ws = seq![(a, v)];
    assert(ws.drop_last() =~= Seq::<(u32, u32)>::empty());
    lemma_word_offsets(a);
    lemma_word_bytes(v, 0, 0, 0, 0);
}

/// An instruction that its condition flags make the CPU skip does nothing
/// but move the instruction address past it and past its literal word.
pub proof fn lemma_skipped_instruction(r: RegisterFile, mem: spec_fn(u32) -> u8)
    requires
        spec_decode(mem_word(mem, r.ia)) matches Ok(i) && skipped(r.st, i.cmp),
    ensures
        ({
            let i = spec_decode(mem_word(mem, r.ia)).unwrap();
            let e = spec_execute(r, mem);
            &&& e.writes.len() == 0
            &&& e.result == Ok::<(), CPUError>(())
            &&& !e.completed
            &&& e.regs == (RegisterFile {
                ia: addr_after(r.ia, if i.spec_has_upcoming_value() { 8 } else { 4 }),
                ..r
            })
        }),
{
}

/// Pushing register `a` and then popping into register `b` leaves the
/// registers as a move from `a` to `b` would, when the stack word is kept.
pub proof fn lemma_push_then_pop(
    r: RegisterFile,
    mem: spec_fn(u32) -> u8,
    backed: spec_fn(u32) -> bool,
    a: Register,
    b: Register,
    push_flags: CmpFlags,
    pop_flags: CmpFlags,
    ia0: u32,
    ia1: u32,
)
    requires
        word_backed(backed, addr_before(r.sa, 4)),
    ensures
        ({
            let push = Instruction {
                cmp: push_flags,
                sign: false,
                var: InstVariant::Push(InstructionData::OneRegister(a)),
            };
            let pop = Instruction {
                cmp: pop_flags,
                sign: false,
                var: InstVariant::Pop(InstructionData::OneRegister(b)),
            };
            let e1 = exec_inst(push, ia0, r, mem);
            let e2 = exec_inst(pop, ia1, e1.regs, after_writes(mem, backed, e1.writes));
            &&& e1.result == Ok::<(), CPUError>(())
            &&& e2.result == Ok::<(), CPUError>(())
            &&& e2.regs == r.with(b, r.value(a))
        }),
{
    let s = addr_before(r.sa, 4);
    let v = r.value(a);
    let push = Instruction {
        cmp: push_flags,
        sign: false,
        var: InstVariant::Push(InstructionData::OneRegister(a)),
    };
    let e1 = exec_inst(push, ia0, r, mem);
    assert(seq![v].drop_last() =~= Seq::<u32>::empty());
    assert(push_values(r, Seq::<u32>::empty()) == (r, Seq::<(u32, u32)>::empty()));
    assert(push_values(r, seq![v]) == (
        RegisterFile { sa: s, ..r },
        Seq::<(u32, u32)>::empty().push((s, v)),
    ));
    assert(Seq::<(u32, u32)>::empty().push((s, v)) =~= seq![(s, v)]);
    assert(e1.writes == seq![(s, v)]);
    assert(e1.regs == RegisterFile { sa: s, ..r });
    lemma_single_write_read(mem, backed, s, v);
    assert(seq![b].drop_last() =~= Seq::<Register>::empty());
    assert(addr_after(s, 4) == r.sa);
    let mem2 = after_writes(mem, backed, e1.writes);
    let r1 = RegisterFile { sa: s, ..r };
    assert(pop_into(r1, mem2, Seq::<Register>::empty()) == r1);
    assert(mem_word(mem2, s) == v);
    assert(pop_into(r1, mem2, seq![b]) == RegisterFile { sa: r.sa, ..r1 }.with(b, v));
    assert(RegisterFile { sa: r.sa, ..r1 } == r);
}

/// Returning right after a call gives back every register as it was after
/// the call instruction was fetched, when the call stack word is kept.
pub proof fn lemma_call_then_ret(
    r: RegisterFile,
    mem: spec_fn(u32) -> u8,
    backed: spec_fn(u32) -> bool,
    target: Register,
    call_flags: CmpFlags,
    ret_flags: CmpFlags,
    sign: bool,
    ia0: u32,
    ia1: u32,
)
    requires
        word_backed(backed, addr_before(r.cs, 4)),
    ensures
        ({
            let call = Instruction {
                cmp: call_flags,
                sign,
                var: InstVariant::Call(InstructionData::OneRegister(target)),
            };
            let ret = Instruction { cmp: ret_flags, sign, var: InstVariant::Ret };
            let e1 = exec_inst(call, ia0, r, mem);
            let e2 = exec_inst(ret, ia1, e1.regs, after_writes(mem, backed, e1.writes));
            &&& e1.result == Ok::<(), CPUError>(())
            &&& e1.regs.ia == r.value(target)
            &&& e2.result == Ok::<(), CPUError>(())
            &&& e2.regs == r
        }),
{
    let c = addr_before(r.cs, 4);
    lemma_single_write_read(mem, backed, c, r.ra);
    assert(addr_after(c, 4) == r.cs);
}

/// After `Cmp` of two registers, the state's comparison flags tell how the
/// first compares with the second, and its other bits are as they were.
pub proof fn lemma_compare_sets_flags(
    r: RegisterFile,
    mem: spec_fn(u32) -> u8,
    a: Register,
    b: Register,
    flags: CmpFlags,
    sign: bool,
    ia0: u32,
)
    ensures
        ({
            let e = exec_inst(
                Instruction { cmp: flags, sign, var: InstVariant::Cmp(InstructionData::TwoRegisters(a, b)) },
                ia0,
                r,
                mem,
            );
            &&& e.result == Ok::<(), CPUError>(())
            &&& flags_of_bits(e.regs.st.0) == flags_of_compare(r.value(a), r.value(b))
            &&& e.regs.st.0 & !7u32 == r.st.0 & !7u32
        }),
{
    lemma_state_flags_roundtrip(r.st.0, flags_of_compare(r.value(a), r.value(b)));
}

/// A step leaves the memory map's layout as it was: the same addresses can
/// be read, written, and keep what is written.
pub proof fn lemma_step_keeps_layout<M: Memory>(
    r0: RegisterFile,
    m0: MemoryMap<M>,
    mid: MemoryMap<M>,
    post: MemoryMap<M>,
    r1: RegisterFile,
    m1: MemoryMap<M>,
    res: Result<(), CPUError>,
)
    requires
        step_outcome(r0, m0, mid, post, r1, m1, res),
    ensures
        same_layout(&m0, &m1),
{
    lemma_regions_kept(m0, mid);
    let e = spec_execute(r0, crate::vcore::mem_of(mid));
    if e.completed {
        lemma_regions_kept(post, m1);
    }
}

/// Memory maps of byte buffers whose regions keep the bytes of `before`
/// hold the same contents and keep writes at the same addresses.
proof fn lemma_buffers_same_contents(before: MemoryMap<BytesMut>, after: MemoryMap<BytesMut>)
    requires
        devices_pre_stepped(before, after) || devices_post_stepped(before, after),
    ensures
        mem_of(after) == mem_of(before),
        backed_of(after) == backed_of(before),
{
    lemma_regions_kept(before, after);
    assert forall|a: u32| #[trigger] after.byte_at(a) == before.byte_at(a) by {
        crate::memory::lemma_first_covering_found(before.mems@, a, 0);
        match before.responsible(a) {
            Some(i) => {
                let off = before.mems@[i].offset(a);
                assert(after.mems@[i].inner.byte_at(off) == before.mems@[i].inner.byte_at(off));
            },
            None => {},
        }
    }
    assert(mem_of(after) =~= mem_of(before));
    assert(backed_of(after) =~= backed_of(before));
}

/// Over a map of byte buffers, whose step calls change nothing, a step runs
/// the one-instruction model over the map's own contents: the registers and
/// the result are the model's, and the map afterwards holds the model's
/// words written, with its layout kept.
pub proof fn lemma_step_over_buffers(
    r0: RegisterFile,
    m0: MemoryMap<BytesMut>,
    mid: MemoryMap<BytesMut>,
    post: MemoryMap<BytesMut>,
    r1: RegisterFile,
    m1: MemoryMap<BytesMut>,
    res: Result<(), CPUError>,
)
    requires
        step_outcome(r0, m0, mid, post, r1, m1, res),
    ensures
        ({
            let e = spec_execute(r0, mem_of(m0));
            &&& r1 == e.regs
            &&& res == e.result
            &&& same_layout(&m0, &m1)
            &&& mem_of(m1) == after_writes(mem_of(m0), backed_of(m0), e.writes)
        }),
{
    lemma_buffers_same_contents(m0, mid);
    let e = spec_execute(r0, mem_of(m0));
    if e.completed {
        lemma_buffers_same_contents(post, m1);
    }
    assert(mem_of(m1) =~= after_writes(mem_of(m0), backed_of(m0), e.writes));
    lemma_step_keeps_layout(r0, m0, mid, post, r1, m1, res);
}

/// Over maps of byte buffers, a step that pushes register `a` followed by a
/// step that pops into register `b` leaves every register as it was but for
/// the instruction address, 8 further on, and `b`, which holds what `a`
/// held once the push was fetched; this when the stack word is kept.
pub proof fn lemma_push_then_pop_steps(
    r0: RegisterFile,
    m0: MemoryMap<BytesMut>,
    mid0: MemoryMap<BytesMut>,
    post0: MemoryMap<BytesMut>,
    r1: RegisterFile,
    m1: MemoryMap<BytesMut>,
    res1: Result<(), CPUError>,
    mid1: MemoryMap<BytesMut>,
    post1: MemoryMap<BytesMut>,
    r2: RegisterFile,
    m2: MemoryMap<BytesMut>,
    res2: Result<(), CPUError>,
    a: Register,
    b: Register,
)
    requires
        step_outcome(r0, m0, mid0, post0, r1, m1, res1),
        step_outcome(r1, m1, mid1, post1, r2, m2, res2),
        spec_decode(mem_word(mem_of(m0), r0.ia)) matches Ok(i) && !skipped(r0.st, i.cmp)
            && i.var == InstVariant::Push(InstructionData::OneRegister(a)),
        spec_decode(mem_word(mem_of(m1), addr_after(r0.ia, 4))) matches Ok(i) && !skipped(
            r0.st,
            i.cmp,
        ) && i.var == InstVariant::Pop(InstructionData::OneRegister(b)),
        word_backed(backed_of(m0), addr_before(r0.sa, 4)),
    ensures
        res1 == Ok::<(), CPUError>(()),
        res2 == Ok::<(), CPUError>(()),
        r2 == (RegisterFile { ia: addr_after(addr_after(r0.ia, 4), 4), ..r0 }).with(
            b,
            (RegisterFile { ia: addr_after(r0.ia, 4), ..r0 }).value(a),
        ),
{
    lemma_step_over_buffers(r0, m0, mid0, post0, r1, m1, res1);
    lemma_step_over_buffers(r1, m1, mid1, post1, r2, m2, res2);
    let rf = RegisterFile { ia: addr_after(r0.ia, 4), ..r0 };
    let s = addr_before(r0.sa, 4);
    let v = rf.value(a);
    let mem0 = mem_of(m0);
    let e1 = spec_execute(r0, mem0);
    assert(seq![v].drop_last() =~= Seq::<u32>::empty());
    assert(push_values(rf, Seq::<u32>::empty()) == (rf, Seq::<(u32, u32)>::empty()));
    assert(Seq::<(u32, u32)>::empty().push((s, v)) =~= seq![(s, v)]);
    assert(e1.writes == seq![(s, v)]);
    assert(r1 == RegisterFile { sa: s, ..rf });
    lemma_single_write_read(mem0, backed_of(m0), s, v);
    assert(addr_after(s, 4) == r0.sa);
    let mem1 = mem_of(m1);
    assert(mem_word(mem1, s) == v);
    let r1f = RegisterFile { ia: addr_after(r1.ia, 4), ..r1 };
    assert(seq![b].drop_last() =~= Seq::<Register>::empty());
    assert(pop_into(r1f, mem1, Seq::<Register>::empty()) == r1f);
    assert(pop_into(r1f, mem1, seq![b]) == RegisterFile { sa: r0.sa, ..r1f }.with(b, v));
    assert(RegisterFile { sa: r0.sa, ..r1f } == RegisterFile { ia: addr_after(addr_after(r0.ia, 4), 4), ..r0 });
}

/// Over maps of byte buffers, a step that calls through register `target`
/// followed by a step that runs the `Ret` found at the called address gives
/// back every register as it was after the call was fetched; this when the
/// call stack word is kept.
#[verifier::rlimit(40)]
pub proof fn lemma_call_then_ret_steps(
    r0: RegisterFile,
    m0: MemoryMap<BytesMut>,
    mid0: MemoryMap<BytesMut>,
    post0: MemoryMap<BytesMut>,
    r1: RegisterFile,
    m1: MemoryMap<BytesMut>,
    res1: Result<(), CPUError>,
    mid1: MemoryMap<BytesMut>,
    post1: MemoryMap<BytesMut>,
    r2: RegisterFile,
    m2: MemoryMap<BytesMut>,
    res2: Result<(), CPUError>,
    target: Register,
)
    requires
        step_outcome(r0, m0, mid0, post0, r1, m1, res1),
        step_outcome(r1, m1, mid1, post1, r2, m2, res2),
        spec_decode(mem_word(mem_of(m0), r0.ia)) matches Ok(i) && !skipped(r0.st, i.cmp)
            && i.var == InstVariant::Call(InstructionData::OneRegister(target)),
        spec_decode(
            mem_word(mem_of(m1), (RegisterFile { ia: addr_after(r0.ia, 4), ..r0 }).value(target)),
        ) matches Ok(i) && !skipped(r0.st, i.cmp) && i.var == InstVariant::Ret,
        word_backed(backed_of(m0), addr_before(r0.cs, 4)),
    ensures
        res1 == Ok::<(), CPUError>(()),
        res2 == Ok::<(), CPUError>(()),
        r1.ia == (RegisterFile { ia: addr_after(r0.ia, 4), ..r0 }).value(target),
        r2 == (RegisterFile { ia: addr_after(r0.ia, 4), ..r0 }),
{
    lemma_step_over_buffers(r0, m0, mid0, post0, r1, m1, res1);
    lemma_step_over_buffers(r1, m1, mid1, post1, r2, m2, res2);
    let rf = RegisterFile { ia: addr_after(r0.ia, 4), ..r0 };
    let c = addr_before(r0.cs, 4);
    let tv = rf.value(target);
    let mem0 = mem_of(m0);
    let e1 = spec_execute(r0, mem0);
    assert(e1.writes == seq![(c, r0.ra)]);
    assert(r1 == RegisterFile { cs: c, ra: rf.ia, ia: tv, ..rf });
    lemma_single_write_read(mem0, backed_of(m0), c, r0.ra);
    let mem1 = mem_of(m1);
    assert(mem_word(mem1, c) == r0.ra);
    assert(addr_after(c, 4) == r0.cs);
    let e2 = spec_execute(r1, mem1);
    let r1f = RegisterFile { ia: addr_after(tv, 4), ..r1 };
    assert(e2.regs == RegisterFile { ia: r1f.ra, ra: mem_word(mem1, r1f.cs), cs: addr_after(r1f.cs, 4), ..r1f });
}

/// After the word `va` is stored at `hi` and then `vb` at the word below it,
/// both words being kept, they read back as `va` and `vb`.
proof fn lemma_two_writes_read(
    mem: spec_fn(u32) -> u8,
    backed: spec_fn(u32) -> bool,
    hi: u32,
    va: u32,
    vb: u32,
)
    requires
        word_backed(backed, hi),
        word_backed(backed, addr_before(hi, 4)),
    ensures
        mem_word(after_writes(mem, backed, seq![(hi, va), (addr_before(hi, 4), vb)]), hi) == va,
        mem_word(
            after_writes(mem, backed, seq![(hi, va), (addr_before(hi, 4), vb)]),
            addr_before(hi, 4),
        ) == vb,
{
    let lo = addr_before(hi, 4);
    let ws = seq![(hi, va), (lo, vb)];
    assert(ws.drop_last() =~= seq![(hi, va)]);
    assert(seq![(hi, va)].drop_last() =~= Seq::<(u32, u32)>::empty());
    lemma_word_offsets(hi);
    lemma_word_offsets(lo);
    assert(word_offset(lo, hi) == 4);
    assert(word_offset(lo, addr_after(hi, 1)) == 5);
    assert(word_offset(lo, addr_after(hi, 2)) == 6);
    assert(word_offset(lo, addr_after(hi, 3)) == 7);
    assert(word_offset(hi, lo) >= 4);
    assert(word_offset(hi, addr_after(lo, 1)) >= 4);
    assert(word_offset(hi, addr_after(lo, 2)) >= 4);
    assert(word_offset(hi, addr_after(lo, 3)) >= 4);
    lemma_word_bytes(va, 0, 0, 0, 0);
    lemma_word_bytes(vb, 0, 0, 0, 0);
    let m = after_writes(mem, backed, ws);
    reveal_with_fuel(byte_after_writes, 3);
    assert(m(hi) == stored_byte(va, 0));
    assert(m(addr_after(hi, 1)) == stored_byte(va, 1));
    assert(m(addr_after(hi, 2)) == stored_byte(va, 2));
    assert(m(addr_after(hi, 3)) == stored_byte(va, 3));
    assert(m(lo) == stored_byte(vb, 0));
    assert(m(addr_after(lo, 1)) == stored_byte(vb, 1));
    assert(m(addr_after(lo, 2)) == stored_byte(vb, 2));
    assert(m(addr_after(lo, 3)) == stored_byte(vb, 3));
}

/// Over maps of byte buffers, a step that pushes registers `a` and `b`
/// followed by a step that pops into `b` and then `a` leaves every register
/// as it was but for the instruction address, 8 further on, and `a` and
/// `b`, which hold what they held once the push was fetched; this when both
/// stack words are kept and `b` is not the stack address, which the pop
/// would otherwise move.
pub proof fn lemma_push_two_then_pop_reversed_steps(
    r0: RegisterFile,
    m0: MemoryMap<BytesMut>,
    mid0: MemoryMap<BytesMut>,
    post0: MemoryMap<BytesMut>,
    r1: RegisterFile,
    m1: MemoryMap<BytesMut>,
    res1: Result<(), CPUError>,
    mid1: MemoryMap<BytesMut>,
    post1: MemoryMap<BytesMut>,
    r2: RegisterFile,
    m2: MemoryMap<BytesMut>,
    res2: Result<(), CPUError>,
    a: Register,
    b: Register,
)
    requires
        step_outcome(r0, m0, mid0, post0, r1, m1, res1),
        step_outcome(r1, m1, mid1, post1, r2, m2, res2),
        spec_decode(mem_word(mem_of(m0), r0.ia)) matches Ok(i) && !skipped(r0.st, i.cmp)
            && i.var == InstVariant::Push(InstructionData::TwoRegisters(a, b)),
        spec_decode(mem_word(mem_of(m1), addr_after(r0.ia, 4))) matches Ok(i) && !skipped(
            r0.st,
            i.cmp,
        ) && i.var == InstVariant::Pop(InstructionData::TwoRegisters(b, a)),
        word_backed(backed_of(m0), addr_before(r0.sa, 4)),
        word_backed(backed_of(m0), addr_before(addr_before(r0.sa, 4), 4)),
        b != Register::SA,
    ensures
        res1 == Ok::<(), CPUError>(()),
        res2 == Ok::<(), CPUError>(()),
        r2 == (RegisterFile { ia: addr_after(addr_after(r0.ia, 4), 4), ..r0 }).with(
            b,
            (RegisterFile { ia: addr_after(r0.ia, 4), ..r0 }).value(b),
        ).with(a, (RegisterFile { ia: addr_after(r0.ia, 4), ..r0 }).value(a)),
{
    let mem0 = mem_of(m0);
    let e1 = spec_execute(r0, mem0);
    let mem1 = mem_of(m1);
    let e2 = spec_execute(r1, mem1);
    assert(r1 == e1.regs && res1 == e1.result && mem1 == after_writes(mem0, backed_of(m0), e1.writes))
        by {
        lemma_step_over_buffers(r0, m0, mid0, post0, r1, m1, res1);
    }
    assert(r2 == e2.regs && res2 == e2.result) by {
        lemma_step_over_buffers(r1, m1, mid1, post1, r2, m2, res2);
    }
    lemma_push_two_pop_model(
        r0,
        mem0,
        backed_of(m0),
        r1,
        mem1,
        a,
        b,
        mem_word(mem0, r0.ia),
        mem_word(mem1, addr_after(r0.ia, 4)),
    );
}

/// The two-register push and reversed pop, over the one-instruction model.
proof fn lemma_push_two_pop_model(
    r0: RegisterFile,
    mem0: spec_fn(u32) -> u8,
    backed0: spec_fn(u32) -> bool,
    r1: RegisterFile,
    mem1: spec_fn(u32) -> u8,
    a: Register,
    b: Register,
    w1: u32,
    w2: u32,
)
    requires
        r1 == spec_execute(r0, mem0).regs,
        mem1 == after_writes(mem0, backed0, spec_execute(r0, mem0).writes),
        mem_word(mem0, r0.ia) == w1,
        spec_decode(w1) matches Ok(i) && !skipped(r0.st, i.cmp) && i.var == InstVariant::Push(
            InstructionData::TwoRegisters(a, b),
        ),
        mem_word(mem1, addr_after(r0.ia, 4)) == w2,
        spec_decode(w2) matches Ok(i) && !skipped(r0.st, i.cmp) && i.var == InstVariant::Pop(
            InstructionData::TwoRegisters(b, a),
        ),
        word_backed(backed0, addr_before(r0.sa, 4)),
        word_backed(backed0, addr_before(addr_before(r0.sa, 4), 4)),
        b != Register::SA,
    ensures
        spec_execute(r0, mem0).result == Ok::<(), CPUError>(()),
        spec_execute(r1, mem1).result == Ok::<(), CPUError>(()),
        spec_execute(r1, mem1).regs == (RegisterFile { ia: addr_after(addr_after(r0.ia, 4), 4), ..r0 }).with(
            b,
            (RegisterFile { ia: addr_after(r0.ia, 4), ..r0 }).value(b),
        ).with(a, (RegisterFile { ia: addr_after(r0.ia, 4), ..r0 }).value(a)),
{
    let e1 = spec_execute(r0, mem0);
    let e2 = spec_execute(r1, mem1);
    let rf = RegisterFile { ia: addr_after(r0.ia, 4), ..r0 };
    let s4 = addr_before(r0.sa, 4);
    let s8 = addr_before(s4, 4);
    let va = rf.value(a);
    let vb = rf.value(b);
    assert(r1 == RegisterFile { sa: s8, ..rf } && e1.writes == seq![(s4, va), (s8, vb)] && e1.result
        == Ok::<(), CPUError>(())) by {
        lemma_push_two_effect(r0, mem0, a, b);
    }
    assert(mem_word(mem1, s4) == va && mem_word(mem1, s8) == vb) by {
        lemma_two_writes_read(mem0, backed0, s4, va, vb);
    }
    assert(addr_after(s8, 4) == s4);
    assert(addr_after(s4, 4) == r0.sa);
    let y = RegisterFile {
        ia: addr_after(r1.ia, 4),
        sa: addr_after(addr_after(r1.sa, 4), 4),
        ..r1
    };
    let z = RegisterFile { ia: addr_after(addr_after(r0.ia, 4), 4), ..r0 };
    assert(y == z);
    assert(e2.regs == y.with(b, vb).with(a, va)) by {
        lemma_pop_two_effect(r1, mem1, a, b, va, vb);
    }
    assert(e2.result == Ok::<(), CPUError>(())) by {
        lemma_pop_two_effect(r1, mem1, a, b, va, vb);
    }
}

/// What pushing two registers does.
proof fn lemma_push_two_effect(r0: RegisterFile, mem: spec_fn(u32) -> u8, a: Register, b: Register)
    requires
        spec_decode(mem_word(mem, r0.ia)) matches Ok(i) && !skipped(r0.st, i.cmp) && i.var
            == InstVariant::Push(InstructionData::TwoRegisters(a, b)),
    ensures
        ({
            let rf = RegisterFile { ia: addr_after(r0.ia, 4), ..r0 };
            let s4 = addr_before(r0.sa, 4);
            let s8 = addr_before(s4, 4);
            let e = spec_execute(r0, mem);
            &&& e.result == Ok::<(), CPUError>(())
            &&& e.completed
            &&& e.regs == RegisterFile { sa: s8, ..rf }
            &&& e.writes == seq![(s4, rf.value(a)), (s8, rf.value(b))]
        }),
{
    let rf = RegisterFile { ia: addr_after(r0.ia, 4), ..r0 };
    let s4 = addr_before(r0.sa, 4);
    let s8 = addr_before(s4, 4);
    let va = rf.value(a);
    let vb = rf.value(b);
    let vals = seq![va, vb];
    assert(vals.drop_last() =~= seq![va]);
    assert(seq![va].drop_last() =~= Seq::<u32>::empty());
    assert(push_values(rf, Seq::<u32>::empty()) == (rf, Seq::<(u32, u32)>::empty()));
    assert(push_values(rf, seq![va]) == (
        RegisterFile { sa: s4, ..rf },
        Seq::<(u32, u32)>::empty().push((s4, va)),
    ));
    assert(Seq::<(u32, u32)>::empty().push((s4, va)).push((s8, vb)) =~= seq![(s4, va), (s8, vb)]);
}

/// What popping into `b` and then `a` does, over the words `vb` at the stack
/// address and `va` above it.
proof fn lemma_pop_two_effect(
    r1: RegisterFile,
    mem: spec_fn(u32) -> u8,
    a: Register,
    b: Register,
    va: u32,
    vb: u32,
)
    requires
        spec_decode(mem_word(mem, r1.ia)) matches Ok(i) && !skipped(r1.st, i.cmp) && i.var
            == InstVariant::Pop(InstructionData::TwoRegisters(b, a)),
        mem_word(mem, r1.sa) == vb,
        mem_word(mem, addr_after(r1.sa, 4)) == va,
        b != Register::SA,
    ensures
        spec_execute(r1, mem).result == Ok::<(), CPUError>(()),
        spec_execute(r1, mem).regs == (RegisterFile {
            ia: addr_after(r1.ia, 4),
            sa: addr_after(addr_after(r1.sa, 4), 4),
            ..r1
        }).with(b, vb).with(a, va),
{
    let r1f = RegisterFile { ia: addr_after(r1.ia, 4), ..r1 };
    let ts = seq![b, a];
    assert(ts.drop_last() =~= seq![b]);
    assert(seq![b].drop_last() =~= Seq::<Register>::empty());
    assert(pop_into(r1f, mem, Seq::<Register>::empty()) == r1f);
    let p1 = RegisterFile { sa: addr_after(r1.sa, 4), ..r1f }.with(b, vb);
    assert(pop_into(r1f, mem, seq![b]) == p1);
    assert(p1.sa == addr_after(r1.sa, 4));
    assert(pop_into(r1f, mem, ts) == RegisterFile { sa: addr_after(addr_after(r1.sa, 4), 4), ..p1 }.with(a, va));
}

} // verus!

//! What each operation does, operand form by operand form, stated over the
//! registers and memory it reads: which register is written with what,
//! which words are stored where, and which forms are invalid.
//!
//! Throughout, `r` is the register file once the instruction word has been
//! fetched (its instruction address already past the word), `mem` is the
//! memory, and a literal word is the word at `r.ia`, after which the
//! instruction address moves on by 4 more.
use crate::isa::{CmpFlags, InstVariant, Instruction, InstructionData, Register, RegisterFile, State};
use crate::memory::addr_after;
use crate::vcore::{addr_before, exec_inst, mem_word, skipped, CPUError, Effect};
use vstd::prelude::*;

verus! {

/// Registers `r` once a literal word has been read: the instruction address 4 further on.
pub open spec fn past_literal(r: RegisterFile) -> RegisterFile {
    RegisterFile { ia: addr_after(r.ia, 4), ..r }
}

/// A completed instruction that changed the registers to `regs` and wrote nothing.
pub open spec fn completed_with(regs: RegisterFile) -> Effect {
    Effect { regs, writes: Seq::empty(), result: Ok(()), completed: true }
}

/// An operand form that the operation does not take.
pub open spec fn invalid_form(r: RegisterFile) -> Effect {
    Effect { regs: r, writes: Seq::empty(), result: Err(CPUError::InvalidInstruction), completed: false }
}

/// `Sto` stores the value of its first register at the address held in its
/// second register, or at the literal word's address.
pub proof fn lemma_store(i: Instruction, ia0: u32, r: RegisterFile, mem: spec_fn(u32) -> u8)
    requires
        i.var is Sto,
    ensures
        exec_inst(i, ia0, r, mem) == match i.var->Sto_0 {
            InstructionData::TwoRegisters(v, a) => Effect {
                regs: r,
                writes: seq![(r.value(a), r.value(v))],
                result: Ok(()),
                completed: true,
            },
            InstructionData::RegisterAndU32(v, _) => Effect {
                regs: past_literal(r),
                writes: seq![(mem_word(mem, r.ia), r.value(v))],
                result: Ok(()),
                completed: true,
            },
            _ => invalid_form(r),
        },
{
}

/// `Ld` loads into its first register the word at the address held in its
/// second register, or at the literal word's address.
pub proof fn lemma_load(i: Instruction, ia0: u32, r: RegisterFile, mem: spec_fn(u32) -> u8)
    requires
        i.var is Ld,
    ensures
        exec_inst(i, ia0, r, mem) == match i.var->Ld_0 {
            InstructionData::TwoRegisters(x, a) => completed_with(
                r.with(x, mem_word(mem, r.value(a))),
            ),
            InstructionData::RegisterAndU32(x, _) => completed_with(
                past_literal(r).with(x, mem_word(mem, mem_word(mem, r.ia))),
            ),
            _ => invalid_form(r),
        },
{
}

/// `Not` writes into its target register the bitwise complement of its
/// operand: the target itself, the second register, the byte, or the
/// literal word.
pub proof fn lemma_not(i: Instruction, ia0: u32, r: RegisterFile, mem: spec_fn(u32) -> u8)
    requires
        i.var is Not,
    ensures
        exec_inst(i, ia0, r, mem) == match i.var->Not_0 {
            InstructionData::OneRegister(x) => completed_with(r.with(x, !r.value(x))),
            InstructionData::TwoRegisters(t, v) => completed_with(r.with(t, !r.value(v))),
            InstructionData::RegisterAndU8(t, v) => completed_with(r.with(t, !(v as u32))),
            InstructionData::RegisterAndU32(t, _) => completed_with(
                past_literal(r).with(t, !mem_word(mem, r.ia)),
            ),
            _ => invalid_form(r),
        },
{
}

/// `Mov` writes into its first register the value of its second register,
/// the byte, or the literal word.
pub proof fn lemma_move(i: Instruction, ia0: u32, r: RegisterFile, mem: spec_fn(u32) -> u8)
    requires
        i.var is Mov,
    ensures
        exec_inst(i, ia0, r, mem) == match i.var->Mov_0 {
            InstructionData::TwoRegisters(a, b) => completed_with(r.with(a, r.value(b))),
            InstructionData::RegisterAndU8(a, v) => completed_with(r.with(a, v as u32)),
            InstructionData::RegisterAndU32(a, _) => completed_with(
                past_literal(r).with(a, mem_word(mem, r.ia)),
            ),
            _ => invalid_form(r),
        },
{
}

/// Registers `r` after comparing `x` with `y`, unsigned: the state's three
/// comparison bits say whether `x` is greater (1), equal (2) or less (4),
/// and its other bits stay.
pub open spec fn compared(r: RegisterFile, x: u32, y: u32) -> RegisterFile {
    RegisterFile {
        st: State(
            (r.st.0 & !7u32) | ((if x > y { 1u32 } else { 0u32 }) | (if x == y { 2u32 } else {
                0u32
            }) | (if x < y { 4u32 } else { 0u32 })),
        ),
        ..r
    }
}

/// `Cmp` compares its register with zero, with its second register, with
/// the byte, or with the literal word.
pub proof fn lemma_compare(i: Instruction, ia0: u32, r: RegisterFile, mem: spec_fn(u32) -> u8)
    requires
        i.var is Cmp,
    ensures
        exec_inst(i, ia0, r, mem) == match i.var->Cmp_0 {
            InstructionData::OneRegister(a) => completed_with(compared(r, r.value(a), 0)),
            InstructionData::TwoRegisters(a, b) => completed_with(compared(r, r.value(a), r.value(b))),
            InstructionData::RegisterAndU8(a, v) => completed_with(compared(r, r.value(a), v as u32)),
            InstructionData::RegisterAndU32(a, _) => completed_with(
                compared(past_literal(r), past_literal(r).value(a), mem_word(mem, r.ia)),
            ),
            _ => invalid_form(r),
        },
{
}

/// `Set` turns conditional execution on when its sign is set and off
/// otherwise; `Rst` sets all three comparison bits; `Nop` does nothing;
/// `Halt` stops the machine.
pub proof fn lemma_control(i: Instruction, ia0: u32, r: RegisterFile, mem: spec_fn(u32) -> u8)
    ensures
        i.var is SetEn ==> exec_inst(i, ia0, r, mem) == completed_with(
            (RegisterFile { st: State(if i.sign { r.st.0 | 8u32 } else { r.st.0 & !8u32 }), ..r }),
        ),
        i.var is Rst ==> exec_inst(i, ia0, r, mem) == completed_with(
            (RegisterFile { st: State((r.st.0 & !7u32) | 7u32), ..r }),
        ),
        i.var is Nop ==> exec_inst(i, ia0, r, mem) == completed_with(r),
        i.var is Halt ==> exec_inst(i, ia0, r, mem) == (Effect {
            regs: r,
            writes: Seq::empty(),
            result: Err(CPUError::Halt),
            completed: false,
        }),
{
    assert((r.st.0 & !7u32) | ((1u32 | 2u32) | 4u32) == (r.st.0 & !7u32) | 7u32) by (bit_vector);
}

/// The value of an arithmetic, logic or shift operation on `x` and `y`:
/// sums, differences and products wrap around 2^32; shifts and rotations
/// go by `y` modulo 32, and `Asr` copies the sign bit.
pub open spec fn operation_value(var: InstVariant, sign: bool, x: u32, y: u32) -> u32 {
    let n = y % 32;
    match var {
        InstVariant::Add(_) => if sign {
            ((x - y + 0x1_0000_0000) % 0x1_0000_0000) as u32
        } else {
            ((x + y) % 0x1_0000_0000) as u32
        },
        InstVariant::Mul(_) => ((x * y) % 0x1_0000_0000) as u32,
        InstVariant::And(_) => x & y,
        InstVariant::Or(_) => x | y,
        InstVariant::Xor(_) => x ^ y,
        InstVariant::Lsl(_) => x << n,
        InstVariant::Lsr(_) => x >> n,
        InstVariant::Asr(_) => ((x as i32) >> n) as u32,
        InstVariant::Ror(_) => if n == 0 {
            x
        } else {
            (x >> n) | (x << ((32 - n) as u32))
        },
        _ => 0,
    }
}

/// The operands of an arithmetic, logic or shift operation.
pub open spec fn operation_operands(var: InstVariant) -> InstructionData {
    match var {
        InstVariant::Add(d) => d,
        InstVariant::Mul(d) => d,
        InstVariant::And(d) => d,
        InstVariant::Or(d) => d,
        InstVariant::Xor(d) => d,
        InstVariant::Lsl(d) => d,
        InstVariant::Lsr(d) => d,
        InstVariant::Asr(d) => d,
        InstVariant::Ror(d) => d,
        _ => InstructionData::ImmediateOnly(()),
    }
}

/// Whether `var` is an arithmetic, logic or shift operation.
pub open spec fn is_operation(var: InstVariant) -> bool {
    var is Add || var is Mul || var is And || var is Or || var is Xor || var is Lsl || var is Lsr
        || var is Asr || var is Ror
}

/// An arithmetic, logic or shift operation writes into its target the value
/// of the operation on its first operand and its second: with two
/// registers, the first is the target and first operand; with three, the
/// first is the target; with a byte or a literal word, that is the second
/// operand. Shifts and rotations take no literal word.
pub proof fn lemma_operation(i: Instruction, ia0: u32, r: RegisterFile, mem: spec_fn(u32) -> u8)
    requires
        is_operation(i.var),
    ensures
        exec_inst(i, ia0, r, mem) == match operation_operands(i.var) {
            InstructionData::TwoRegisters(a, b) => completed_with(
                r.with(a, operation_value(i.var, i.sign, r.value(a), r.value(b))),
            ),
            InstructionData::ThreeRegisters(t, a, b) => completed_with(
                r.with(t, operation_value(i.var, i.sign, r.value(a), r.value(b))),
            ),
            InstructionData::RegisterAndU8(x, v) => completed_with(
                r.with(x, operation_value(i.var, i.sign, r.value(x), v as u32)),
            ),
            InstructionData::TwoRegistersAndU8(t, a, v) => completed_with(
                r.with(t, operation_value(i.var, i.sign, r.value(a), v as u32)),
            ),
            InstructionData::RegisterAndU32(x, _) => if i.var is Lsl || i.var is Lsr || i.var is Asr
                || i.var is Ror {
                invalid_form(r)
            } else {
                completed_with(
                    past_literal(r).with(
                        x,
                        operation_value(i.var, i.sign, past_literal(r).value(x), mem_word(mem, r.ia)),
                    ),
                )
            },
            InstructionData::TwoRegistersAndU32(t, a, _) => if i.var is Lsl || i.var is Lsr
                || i.var is Asr || i.var is Ror {
                invalid_form(r)
            } else {
                completed_with(
                    past_literal(r).with(
                        t,
                        operation_value(i.var, i.sign, past_literal(r).value(a), mem_word(mem, r.ia)),
                    ),
                )
            },
            _ => invalid_form(r),
        },
{
    lemma_operation_values(i.var, i.sign);
}

/// The machine's arithmetic, logic and shift values are those of
/// `operation_value`.
proof fn lemma_operation_values(var: InstVariant, sign: bool)
    requires
        is_operation(var),
    ensures
        forall|x: u32, y: u32|
            #[trigger] crate::vcore::alu_value(var, sign, x, y) == operation_value(var, sign, x, y),
{
    assert forall|x: u32, y: u32|
        #[trigger] crate::vcore::alu_value(var, sign, x, y) == operation_value(var, sign, x, y) by {
        let n = y % 32;
        if var is Ror {
            if n == 0 {
                assert((x >> 0u32) | (x << 0u32) == x) by (bit_vector);
            }
        }
    }
}

/// The values that `Push` pushes, in order: its registers' values, then the
/// byte or the literal word.
pub open spec fn pushed_values(d: InstructionData, r: RegisterFile, mem: spec_fn(u32) -> u8) -> Seq<u32> {
    match d {
        InstructionData::OneRegister(a) => seq![r.value(a)],
        InstructionData::TwoRegisters(a, b) => seq![r.value(a), r.value(b)],
        InstructionData::ThreeRegisters(a, b, c) => seq![r.value(a), r.value(b), r.value(c)],
        InstructionData::RegisterAndU8(a, v) => seq![r.value(a), v as u32],
        InstructionData::RegisterAndU32(a, _) => seq![r.value(a), mem_word(mem, r.ia)],
        InstructionData::TwoRegistersAndU8(a, b, v) => seq![r.value(a), r.value(b), v as u32],
        InstructionData::TwoRegistersAndU32(a, b, _) => seq![r.value(a), r.value(b), mem_word(mem, r.ia)],
        InstructionData::ImmediateOnly(_) => seq![mem_word(mem, r.ia)],
    }
}

/// Whether the operands of `Push` end in a literal word.
pub open spec fn reads_literal(d: InstructionData) -> bool {
    d is RegisterAndU32 || d is TwoRegistersAndU32 || d is ImmediateOnly
}

/// `Push` takes every operand form. The `k`-th value pushed is stored
/// `4 (k + 1)` bytes below the stack address, and the stack address ends
/// `4` bytes below per value.
pub proof fn lemma_push(i: Instruction, ia0: u32, r: RegisterFile, mem: spec_fn(u32) -> u8)
    requires
        i.var is Push,
    ensures
        ({
            let d = i.var->Push_0;
            let vals = pushed_values(d, r, mem);
            let e = exec_inst(i, ia0, r, mem);
            let r2 = if reads_literal(d) {
                past_literal(r)
            } else {
                r
            };
            &&& e.result == Ok::<(), CPUError>(())
            &&& e.completed
            &&& e.writes.len() == vals.len()
            &&& forall|k: int|
                0 <= k < vals.len() ==> #[trigger] e.writes[k] == (
                    addr_before(r.sa, (4 * (k + 1)) as u32),
                    vals[k],
                )
            &&& e.regs == RegisterFile { sa: addr_before(r.sa, (4 * vals.len()) as u32), ..r2 }
        }),
{
    let d = i.var->Push_0;
    let vals = pushed_values(d, r, mem);
    let r2 = if reads_literal(d) {
        past_literal(r)
    } else {
        r
    };
    let s1 = addr_before(r.sa, 4);
    let s2 = addr_before(s1, 4);
    let s3 = addr_before(s2, 4);
    reveal_with_fuel(crate::vcore::push_values, 4);
    assert(s2 == addr_before(r.sa, 8));
    assert(s3 == addr_before(r.sa, 12));
    let v = vals;
    if v.len() >= 1 {
        assert(v.take(1).drop_last() =~= Seq::<u32>::empty());
        assert(crate::vcore::push_values(r2, Seq::<u32>::empty()) == (r2, Seq::<(u32, u32)>::empty()));
    }
    if v.len() == 1 {
        assert(v.drop_last() =~= Seq::<u32>::empty());
        assert(Seq::<(u32, u32)>::empty().push((s1, v[0])) =~= seq![(s1, v[0])]);
    } else if v.len() == 2 {
        assert(v.drop_last() =~= seq![v[0]]);
        assert(seq![v[0]].drop_last() =~= Seq::<u32>::empty());
        assert(Seq::<(u32, u32)>::empty().push((s1, v[0])).push((s2, v[1])) =~= seq![(s1, v[0]), (s2, v[1])]);
    } else {
        assert(v.drop_last() =~= seq![v[0], v[1]]);
        assert(seq![v[0], v[1]].drop_last() =~= seq![v[0]]);
        assert(seq![v[0]].drop_last() =~= Seq::<u32>::empty());
        assert(Seq::<(u32, u32)>::empty().push((s1, v[0])).push((s2, v[1])).push((s3, v[2]))
            =~= seq![(s1, v[0]), (s2, v[1]), (s3, v[2])]);
    }
}

/// `Pop` fills its registers in order: each gets the word at the stack
/// address, which then moves up by 4.
pub proof fn lemma_pop(i: Instruction, ia0: u32, r: RegisterFile, mem: spec_fn(u32) -> u8)
    requires
        i.var is Pop,
    ensures
        ({
            let e = exec_inst(i, ia0, r, mem);
            let p1 = |q: RegisterFile, x: Register|
                RegisterFile { sa: addr_after(q.sa, 4), ..q }.with(x, mem_word(mem, q.sa));
            match i.var->Pop_0 {
                InstructionData::OneRegister(a) => e == completed_with(p1(r, a)),
                InstructionData::TwoRegisters(a, b) => e == completed_with(p1(p1(r, a), b)),
                InstructionData::ThreeRegisters(a, b, c) => e == completed_with(p1(p1(p1(r, a), b), c)),
                _ => e == invalid_form(r),
            }
        }),
{
    let ts = match i.var->Pop_0 {
        InstructionData::OneRegister(a) => seq![a],
        InstructionData::TwoRegisters(a, b) => seq![a, b],
        InstructionData::ThreeRegisters(a, b, c) => seq![a, b, c],
        _ => Seq::<Register>::empty(),
    };
    reveal_with_fuel(crate::vcore::pop_into, 4);
    if ts.len() >= 1 {
        assert(seq![ts[0]].drop_last() =~= Seq::<Register>::empty());
    }
    if ts.len() >= 2 {
        assert(seq![ts[0], ts[1]].drop_last() =~= seq![ts[0]]);
    }
    if ts.len() == 3 {
        assert(ts.drop_last() =~= seq![ts[0], ts[1]]);
    }
}

/// `Call` saves the return address 4 bytes below the call stack address,
/// moves it there, makes the address after the instruction (and after its
/// literal word) the return address, and goes to the address in its
/// register or in its literal word.
pub proof fn lemma_call(i: Instruction, ia0: u32, r: RegisterFile, mem: spec_fn(u32) -> u8)
    requires
        i.var is Call,
    ensures
        exec_inst(i, ia0, r, mem) == match i.var->Call_0 {
            InstructionData::OneRegister(x) => (Effect {
                regs: RegisterFile { cs: addr_before(r.cs, 4), ra: r.ia, ia: r.value(x), ..r },
                writes: seq![(addr_before(r.cs, 4), r.ra)],
                result: Ok(()),
                completed: true,
            }),
            InstructionData::ImmediateOnly(_) => (Effect {
                regs: RegisterFile {
                    cs: addr_before(r.cs, 4),
                    ra: addr_after(r.ia, 4),
                    ia: mem_word(mem, r.ia),
                    ..r
                },
                writes: seq![(addr_before(r.cs, 4), r.ra)],
                result: Ok(()),
                completed: true,
            }),
            _ => invalid_form(r),
        },
{
}

/// `Ret` goes to the return address and takes the previous return address
/// back from the call stack, whose address moves up by 4.
pub proof fn lemma_ret(i: Instruction, ia0: u32, r: RegisterFile, mem: spec_fn(u32) -> u8)
    requires
        i.var is Ret,
    ensures
        exec_inst(i, ia0, r, mem) == completed_with(
            (RegisterFile { ia: r.ra, ra: mem_word(mem, r.cs), cs: addr_after(r.cs, 4), ..r }),
        ),
{
}

/// `Jmp` moves from the instruction's own address `ia0` forwards, or
/// backwards when its sign is set, by the value of its register, by its
/// literal word, or by four times its byte; `JmpAbs` goes to the address in
/// its register or literal word.
pub proof fn lemma_jumps(i: Instruction, ia0: u32, r: RegisterFile, mem: spec_fn(u32) -> u8)
    ensures
        i.var is Jmp ==> exec_inst(i, ia0, r, mem) == ({
            let to = |off: u32|
                if i.sign {
                    addr_before(ia0, off)
                } else {
                    addr_after(ia0, off)
                };
            match i.var->Jmp_0 {
                InstructionData::OneRegister(x) => completed_with(
                    (RegisterFile { ia: to(r.value(x)), ..r }),
                ),
                InstructionData::ImmediateOnly(_) => completed_with(
                    (RegisterFile { ia: to(mem_word(mem, r.ia)), ..r }),
                ),
                InstructionData::RegisterAndU8(_, v) => completed_with(
                    (RegisterFile { ia: to((4 * v) as u32), ..r }),
                ),
                InstructionData::TwoRegistersAndU8(_, _, v) => completed_with(
                    (RegisterFile { ia: to((4 * v) as u32), ..r }),
                ),
                _ => invalid_form(r),
            }
        }),
        i.var is JmpAbs ==> exec_inst(i, ia0, r, mem) == match i.var->JmpAbs_0 {
            InstructionData::OneRegister(x) => completed_with((RegisterFile { ia: r.value(x), ..r })),
            InstructionData::ImmediateOnly(_) => completed_with(
                (RegisterFile { ia: mem_word(mem, r.ia), ..r }),
            ),
            _ => invalid_form(r),
        },
{
}

/// Writing `v` into register `x` makes `x` read `v` and leaves every other
/// register's value as it was.
pub proof fn lemma_register_write(rf: RegisterFile, x: Register, v: u32, y: Register)
    ensures
        rf.with(x, v).value(y) == if x == y {
            v
        } else {
            rf.value(y)
        },
{
}

/// An instruction is skipped exactly when conditional execution is on (bit
/// 8 of the state) and none of the instruction's condition flags is set in
/// the state (greater bit 1, equal bit 2, less bit 4).
pub proof fn lemma_skip_rule(st: State, f: CmpFlags)
    ensures
        skipped(st, f) <==> (st.0 & 8 != 0 && !(f.gt && st.0 & 1 != 0) && !(f.eq && st.0 & 2 != 0)
            && !(f.lt && st.0 & 4 != 0)),
{
    let s = st.0;
    let g = f.gt;
    let e = f.eq;
    let l = f.lt;
    assert((s & 8 == 8 && s & ((if g { 1u32 } else { 0u32 }) | (if e { 2u32 } else { 0u32 }) | (if l {
        4u32
    } else {
        0u32
    })) == 0) <==> (s & 8 != 0 && !(g && s & 1 != 0) && !(e && s & 2 != 0) && !(l && s & 4 != 0)))
        by (bit_vector);
}

} // verus!

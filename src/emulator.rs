//! The functional emulator: program table, instruction semantics, clock
//! estimates and the per-step record.
use vstd::prelude::*;
use crate::ast::{
    EffectiveAddress, Encoding, Inst, InstType, OperandEncoding, OperandSize, Register,
    RegisterAddress,
};
use crate::decoder::{inst_of, Asm};
use crate::machine::{
    add16, add_af, add_carries_nibble, flags_for, mem_value, reg_value, result_flags, sub16,
    sub_af, sub_borrows_nibble, unsigned16, with_mem, with_reg, wrap16, Flags, Machine,
    MachineView,
};

verus! {

/// Number of instruction slots: one per 16-bit IP.
pub const CODE_SLOTS: usize = 0x1_0000;

/// Adds a listing row to the program table: an instruction always takes its
/// IP; a label only an IP that nothing holds yet; error rows are left out.
pub open spec fn fill(t: Seq<Option<Inst>>, r: Result<Asm, String>) -> Seq<Option<Inst>> {
    match r {
        Ok(a) => {
            let v = a@;
            if 0 <= v.ip < CODE_SLOTS && (v.bytes.len() > 0 || t[v.ip] is None) {
                t.update(v.ip, Some(inst_of(v)))
            } else {
                t
            }
        },
        Err(_) => t,
    }
}

/// The program table of a listing, indexed by IP.
pub open spec fn code_table(rows: Seq<Result<Asm, String>>) -> Seq<Option<Inst>>
    decreases rows.len(),
{
    if rows.len() == 0 {
        Seq::new(CODE_SLOTS as nat, |i: int| None)
    } else {
        fill(code_table(rows.drop_last()), rows.last())
    }
}

/// The decoded program, indexed by IP.
pub struct Code {
    slots: Vec<Option<Inst>>,
}

impl View for Code {
    type V = Seq<Option<Inst>>;

    closed spec fn view(&self) -> Seq<Option<Inst>> {
        self.slots@
    }
}

impl Code {
    #[verifier::type_invariant]
    spec fn inv(self) -> bool {
        self.slots@.len() == CODE_SLOTS
    }

    /// Builds the program table from a decoder listing.
    pub fn from_listing(rows: &Vec<Result<Asm, String>>) -> (r: Code)
        ensures
            r@ == code_table(rows@),
    {
        let mut slots: Vec<Option<Inst>> = Vec::new();
        let mut j: usize = 0;
        while j < CODE_SLOTS
            invariant
                j <= CODE_SLOTS,
                slots@ == Seq::new(j as nat, |k: int| None::<Inst>),
            decreases CODE_SLOTS - j,
        {
            slots.push(None);
            j = j + 1;
            assert(slots@ =~= Seq::new(j as nat, |k: int| None::<Inst>));
        }
        let mut i: usize = 0;
        assert(rows@.take(0) =~= seq![]);
        while i < rows.len()
            invariant
                i <= rows@.len(),
                slots@ == code_table(rows@.take(i as int)),
            decreases rows@.len() - i,
        {
            assert(rows@.take(i + 1).drop_last() =~= rows@.take(i as int));
            proof {
                lemma_table_len(rows@.take(i as int));
            }
            match &rows[i] {
                Ok(a) => {
                    let ip = a.ip();
                    if 0 <= ip && ip < CODE_SLOTS as i64 {
                        let ipu = ip as usize;
                        if !a.is_label() || slots[ipu].is_none() {
                            slots.set(ipu, Some(a.decode()));
                        }
                    }
                },
                Err(_) => {},
            }
            i = i + 1;
        }
        assert(rows@.take(rows@.len() as int) =~= rows@);
        proof {
            lemma_table_len(rows@);
        }
        Code { slots }
    }

    /// The instruction that starts at `ip`, if any.
    pub fn get_inst(&self, ip: u16) -> (r: Option<Inst>)
        ensures
            r == self@[ip as int],
    {
        proof {
            use_type_invariant(self);
        }
        self.slots[ip as usize]
    }
}

proof fn lemma_table_len(rows: Seq<Result<Asm, String>>)
    ensures
        code_table(rows).len() == CODE_SLOTS,
    decreases rows.len(),
{
    if rows.len() > 0 {
        lemma_table_len(rows.drop_last());
    }
}

/// A register operand: a named register, or AL/AX for the accumulator.
pub open spec fn reg_operand(e: Encoding) -> Option<Register> {
    match e {
        Encoding::Operand(OperandEncoding::Register(r)) => Some(r),
        Encoding::Operand(OperandEncoding::Accumulator(OperandSize::Byte)) => Some(Register::AL),
        Encoding::Operand(OperandEncoding::Accumulator(OperandSize::Word)) => Some(Register::AX),
        _ => None,
    }
}

fn register_operand(e: Encoding) -> (r: Option<Register>)
    ensures
        r == reg_operand(e),
{
    match e {
        Encoding::Operand(OperandEncoding::Register(r)) => Some(r),
        Encoding::Operand(OperandEncoding::Accumulator(OperandSize::Byte)) => Some(Register::AL),
        Encoding::Operand(OperandEncoding::Accumulator(OperandSize::Word)) => Some(Register::AX),
        _ => None,
    }
}

pub open spec fn is_imm(e: Encoding) -> bool {
    e matches Encoding::Operand(OperandEncoding::Immediate(_))
}

pub open spec fn is_mem(e: Encoding) -> bool {
    e matches Encoding::Memory(_, _, _)
}

/// Sum of the base registers of an r/m form, as signed words.
pub open spec fn base_sum(words: Seq<u16>, a: RegisterAddress) -> int {
    match a {
        RegisterAddress::Empty => 0,
        RegisterAddress::BXSI => reg_value(words, Register::BX) + reg_value(words, Register::SI),
        RegisterAddress::BXDI => reg_value(words, Register::BX) + reg_value(words, Register::DI),
        RegisterAddress::BPSI => reg_value(words, Register::BP) + reg_value(words, Register::SI),
        RegisterAddress::BPDI => reg_value(words, Register::BP) + reg_value(words, Register::DI),
        RegisterAddress::SI => reg_value(words, Register::SI) as int,
        RegisterAddress::DI => reg_value(words, Register::DI) as int,
        RegisterAddress::BX => reg_value(words, Register::BX) as int,
        RegisterAddress::DirectBP => reg_value(words, Register::BP) as int,
    }
}

/// The 16-bit address an effective address denotes.
pub open spec fn address_of(words: Seq<u16>, ea: EffectiveAddress) -> int {
    (ea.disp + base_sum(words, ea.register)) % 65536
}

/// The value an operand reads: a register, an immediate or memory.
pub open spec fn source_value(m: MachineView, e: Encoding) -> i16 {
    match reg_operand(e) {
        Some(r) => reg_value(m.words, r),
        None => match e {
            Encoding::Operand(OperandEncoding::Immediate(v)) => v,
            Encoding::Memory(ea, size, _) => mem_value(m.memory, address_of(m.words, ea), size),
            _ => 0,
        },
    }
}

pub open spec fn is_jump(t: InstType) -> bool {
    !(t matches InstType::MOV) && !(t matches InstType::ADD) && !(t matches InstType::SUB)
        && !(t matches InstType::CMP) && !(t matches InstType::Label(_))
}

/// The instruction forms the emulator executes.
pub open spec fn supported(inst: Inst) -> bool {
    match inst.t {
        InstType::MOV | InstType::ADD => {
            ||| reg_operand(inst.lhs) is Some && (reg_operand(inst.rhs) is Some || is_imm(inst.rhs) || is_mem(inst.rhs))
            ||| is_mem(inst.lhs) && (reg_operand(inst.rhs) is Some || is_imm(inst.rhs))
        },
        InstType::SUB | InstType::CMP => reg_operand(inst.lhs) is Some && (reg_operand(inst.rhs) is Some
            || is_imm(inst.rhs)),
        InstType::Label(_) => false,
        _ => inst.lhs matches Encoding::Operand(OperandEncoding::Jmp { .. }) && inst.rhs == Encoding::Empty,
    }
}

/// LOOP, LOOPZ and LOOPNZ count CX down before they test.
pub open spec fn counts_down(t: InstType) -> bool {
    t == InstType::LOOP || t == InstType::LOOPZ || t == InstType::LOOPNZ
}

/// Whether a jump is taken, given the flags and CX (after the count-down of a
/// loop). OF is never set by the supported instructions, so it reads as 0.
pub open spec fn jump_taken(t: InstType, f: Flags, cx: i16) -> bool {
    match t {
        InstType::JNZ => !f.zf,
        InstType::JE => f.zf,
        InstType::JL => f.sf,
        InstType::JLE => f.sf || f.zf,
        InstType::JB => f.cf,
        InstType::JBE => f.cf || f.zf,
        InstType::JP => f.pf,
        InstType::JO => false,
        InstType::JS => f.sf,
        InstType::JNL => !f.sf,
        InstType::JG => !f.zf && !f.sf,
        InstType::JNB => !f.cf,
        InstType::JA => !f.cf && !f.zf,
        InstType::JNP => !f.pf,
        InstType::JNO => true,
        InstType::JNS => !f.sf,
        InstType::LOOP => cx != 0,
        InstType::LOOPZ => cx != 0 && f.zf,
        InstType::LOOPNZ => cx != 0 && !f.zf,
        InstType::JCXZ => cx == 0,
        _ => false,
    }
}

pub open spec fn jump_offset(e: Encoding) -> int {
    match e {
        Encoding::Operand(OperandEncoding::Jmp { offset, .. }) => offset as int,
        _ => 0,
    }
}

pub open spec fn mem_operand(e: Encoding) -> (EffectiveAddress, OperandSize) {
    match e {
        Encoding::Memory(ea, size, _) => (ea, size),
        _ => (EffectiveAddress { register: RegisterAddress::Empty, disp: 0 }, OperandSize::Byte),
    }
}

/// The state after executing a supported instruction: IP advances by the
/// instruction's length, then the instruction acts.
pub open spec fn execute(m: MachineView, inst: Inst) -> MachineView {
    let next_ip = ((m.ip + inst.length) % 65536) as u16;
    let next = MachineView { ip: next_ip, ..m };
    let src = source_value(m, inst.rhs);
    match inst.t {
        InstType::MOV => match reg_operand(inst.lhs) {
            Some(r) => MachineView { words: with_reg(m.words, r, src), ..next },
            None => {
                let (ea, size) = mem_operand(inst.lhs);
                MachineView { memory: with_mem(m.memory, address_of(m.words, ea), src, size), ..next }
            },
        },
        InstType::ADD | InstType::SUB => {
            let add = inst.t == InstType::ADD;
            match reg_operand(inst.lhs) {
                Some(r) => {
                    let from = reg_value(m.words, r);
                    let words = with_reg(m.words, r, if add { wrap16(from + src) } else { wrap16(from - src) });
                    let to = reg_value(words, r);
                    let af = if add { add_af(from, src) } else { sub_af(from, src) };
                    MachineView { words, flags: result_flags(from, to, af), ..next }
                },
                None => {
                    let (ea, size) = mem_operand(inst.lhs);
                    let a = address_of(m.words, ea);
                    let from = mem_value(m.memory, a, size);
                    let memory = with_mem(m.memory, a, wrap16(from + src), size);
                    let to = mem_value(memory, a, size);
                    MachineView { memory, flags: result_flags(from, to, add_af(from, src)), ..next }
                },
            }
        },
        InstType::CMP => {
            let from = reg_value(m.words, reg_operand(inst.lhs)->Some_0);
            MachineView { flags: result_flags(from, wrap16(from - src), sub_af(from, src)), ..next }
        },
        _ => {
            let cx = reg_value(m.words, Register::CX);
            let words = if counts_down(inst.t) { with_reg(m.words, Register::CX, wrap16(cx - 1)) } else { m.words };
            let test_cx = reg_value(words, Register::CX);
            let ip = if jump_taken(inst.t, m.flags, test_cx) {
                ((next_ip + jump_offset(inst.lhs)) % 65536) as u16
            } else {
                next_ip
            };
            MachineView { words, ip, ..m }
        },
    }
}

/// The register an instruction writes, if any.
pub open spec fn written_register(inst: Inst) -> Option<Register> {
    match inst.t {
        InstType::MOV | InstType::ADD | InstType::SUB => reg_operand(inst.lhs),
        InstType::LOOP | InstType::LOOPZ | InstType::LOOPNZ => Some(Register::CX),
        _ => None,
    }
}

/// Clock estimate of one instruction: base count, effective-address time and
/// the penalty for word transfers at odd addresses.
#[derive(Debug, Clone, Copy, PartialEq, Eq, Structural)]
pub struct Clock {
    pub value: u8,
    pub ea: u8,
    pub transfer: u8,
}

/// Effective-address time by base form and displacement.
pub open spec fn ea_clocks(ea: EffectiveAddress) -> u8 {
    let zero = ea.disp == 0;
    match ea.register {
        RegisterAddress::Empty => if zero { 0 } else { 6 },
        RegisterAddress::BX | RegisterAddress::DirectBP | RegisterAddress::SI | RegisterAddress::DI => if zero {
            5
        } else {
            9
        },
        RegisterAddress::BPDI | RegisterAddress::BXSI => if zero { 7 } else { 11 },
        RegisterAddress::BPSI | RegisterAddress::BXDI => if zero { 8 } else { 12 },
    }
}

pub fn estimate_ea(ea: EffectiveAddress) -> (r: u8)
    ensures
        r == ea_clocks(ea),
{
    let zero = ea.disp == 0;
    match ea.register {
        RegisterAddress::Empty => if zero { 0 } else { 6 },
        RegisterAddress::BX | RegisterAddress::DirectBP | RegisterAddress::SI | RegisterAddress::DI => if zero {
            5
        } else {
            9
        },
        RegisterAddress::BPDI | RegisterAddress::BXSI => if zero { 7 } else { 11 },
        RegisterAddress::BPSI | RegisterAddress::BXDI => if zero { 8 } else { 12 },
    }
}

/// Whether a transfer of `size` at `a` is a word at an odd address.
pub open spec fn unaligned(a: int, size: OperandSize) -> bool {
    size == OperandSize::Word && a % 2 == 1
}

/// The clock estimate of a supported instruction in state `m`.
pub open spec fn clock_of(m: MachineView, inst: Inst) -> Clock {
    let none = Clock { value: 0, ea: 0, transfer: 0 };
    match inst.t {
        InstType::MOV => if reg_operand(inst.lhs) is Some {
            if is_imm(inst.rhs) {
                Clock { value: 4, ..none }
            } else if is_mem(inst.rhs) {
                Clock { value: 8, ea: ea_clocks(mem_operand(inst.rhs).0), ..none }
            } else {
                Clock { value: 2, ..none }
            }
        } else if reg_operand(inst.rhs) is Some {
            Clock { value: 9, ea: ea_clocks(mem_operand(inst.lhs).0), ..none }
        } else {
            none
        },
        InstType::ADD => if reg_operand(inst.lhs) is Some {
            if is_imm(inst.rhs) {
                Clock { value: 4, ..none }
            } else if is_mem(inst.rhs) {
                let (ea, size) = mem_operand(inst.rhs);
                Clock {
                    value: 9,
                    ea: ea_clocks(ea),
                    transfer: if unaligned(address_of(m.words, ea), size) { 4 } else { 0 },
                }
            } else {
                Clock { value: 3, ..none }
            }
        } else {
            let (ea, size) = mem_operand(inst.lhs);
            if reg_operand(inst.rhs) is Some {
                Clock {
                    value: 16,
                    ea: ea_clocks(ea),
                    transfer: if unaligned(address_of(m.words, ea), size) { 8 } else { 0 },
                }
            } else {
                Clock { value: 17, ea: ea_clocks(ea), ..none }
            }
        },
        _ => none,
    }
}

/// What one step of the emulator reports.
#[derive(Debug, Clone, Copy)]
pub struct Step {
    pub inst: Inst,
    /// IP before and after the step.
    pub ip: (u16, u16),
    /// The register written, with its value before and after.
    pub register: Option<(Register, i16, i16)>,
    /// The flags before and after, when they changed.
    pub flags: Option<(Flags, Flags)>,
    pub clock: Clock,
}

/// The record of executing a supported `inst` in state `m`.
pub open spec fn record_of(m: MachineView, inst: Inst) -> Step {
    let n = execute(m, inst);
    Step {
        inst,
        ip: (m.ip, n.ip),
        register: match written_register(inst) {
            Some(reg) => Some((reg, reg_value(m.words, reg), reg_value(n.words, reg))),
            None => None,
        },
        flags: if n.flags != m.flags { Some((m.flags, n.flags)) } else { None },
        clock: clock_of(m, inst),
    }
}

/// The 16-bit address an effective address denotes in the current state.
fn linear_address(m: &Machine, ea: EffectiveAddress) -> (r: u16)
    requires
        m.wf(),
    ensures
        r == address_of(m@.words, ea),
{
    let base: i32 = match ea.register {
        RegisterAddress::Empty => 0,
        RegisterAddress::BXSI => m.load_register(Register::BX) as i32 + m.load_register(Register::SI) as i32,
        RegisterAddress::BXDI => m.load_register(Register::BX) as i32 + m.load_register(Register::DI) as i32,
        RegisterAddress::BPSI => m.load_register(Register::BP) as i32 + m.load_register(Register::SI) as i32,
        RegisterAddress::BPDI => m.load_register(Register::BP) as i32 + m.load_register(Register::DI) as i32,
        RegisterAddress::SI => m.load_register(Register::SI) as i32,
        RegisterAddress::DI => m.load_register(Register::DI) as i32,
        RegisterAddress::BX => m.load_register(Register::BX) as i32,
        RegisterAddress::DirectBP => m.load_register(Register::BP) as i32,
    };
    let s: i32 = ea.disp as i32 + base + 131072;
    assert(s % 65536 == (ea.disp + base_sum(m@.words, ea.register)) % 65536);
    (s % 65536) as u16
}

fn source_of(m: &Machine, e: Encoding) -> (r: i16)
    requires
        m.wf(),
    ensures
        r == source_value(m@, e),
{
    match register_operand(e) {
        Some(r) => m.load_register(r),
        None => match e {
            Encoding::Operand(OperandEncoding::Immediate(v)) => v,
            Encoding::Memory(ea, size, _) => m.load_memory(linear_address(m, ea), size),
            _ => 0,
        },
    }
}

fn mem_operand_of(e: Encoding) -> (r: (EffectiveAddress, OperandSize))
    ensures
        r == mem_operand(e),
{
    match e {
        Encoding::Memory(ea, size, _) => (ea, size),
        _ => (EffectiveAddress::new(RegisterAddress::Empty, 0), OperandSize::Byte),
    }
}

fn taken(t: InstType, f: Flags, cx: i16) -> (r: bool)
    ensures
        r == jump_taken(t, f, cx),
{
    match t {
        InstType::JNZ => !f.zf,
        InstType::JE => f.zf,
        InstType::JL => f.sf,
        InstType::JLE => f.sf || f.zf,
        InstType::JB => f.cf,
        InstType::JBE => f.cf || f.zf,
        InstType::JP => f.pf,
        InstType::JO => false,
        InstType::JS => f.sf,
        InstType::JNL => !f.sf,
        InstType::JG => !f.zf && !f.sf,
        InstType::JNB => !f.cf,
        InstType::JA => !f.cf && !f.zf,
        InstType::JNP => !f.pf,
        InstType::JNO => true,
        InstType::JNS => !f.sf,
        InstType::LOOP => cx != 0,
        InstType::LOOPZ => cx != 0 && f.zf,
        InstType::LOOPNZ => cx != 0 && !f.zf,
        InstType::JCXZ => cx == 0,
        _ => false,
    }
}

/// Whether the emulator executes `inst`.
pub fn is_supported(inst: &Inst) -> (r: bool)
    ensures
        r == supported(*inst),
{
    let lhs_reg = register_operand(inst.lhs).is_some();
    let rhs_reg = register_operand(inst.rhs).is_some();
    let rhs_imm = matches!(inst.rhs, Encoding::Operand(OperandEncoding::Immediate(_)));
    let rhs_mem = matches!(inst.rhs, Encoding::Memory(_, _, _));
    let lhs_mem = matches!(inst.lhs, Encoding::Memory(_, _, _));
    match inst.t {
        InstType::MOV | InstType::ADD => (lhs_reg && (rhs_reg || rhs_imm || rhs_mem)) || (lhs_mem && (rhs_reg
            || rhs_imm)),
        InstType::SUB | InstType::CMP => lhs_reg && (rhs_reg || rhs_imm),
        InstType::Label(_) => false,
        _ => matches!(inst.lhs, Encoding::Operand(OperandEncoding::Jmp { .. })) && matches!(inst.rhs, Encoding::Empty),
    }
}

fn clock_for(m: &Machine, inst: &Inst) -> (r: Clock)
    requires
        m.wf(),
        supported(*inst),
    ensures
        r == clock_of(m@, *inst),
{
    let none = Clock { value: 0, ea: 0, transfer: 0 };
    let lhs_reg = register_operand(inst.lhs).is_some();
    let rhs_reg = register_operand(inst.rhs).is_some();
    let rhs_imm = matches!(inst.rhs, Encoding::Operand(OperandEncoding::Immediate(_)));
    let rhs_mem = matches!(inst.rhs, Encoding::Memory(_, _, _));
    match inst.t {
        InstType::MOV => if lhs_reg {
            if rhs_imm {
                Clock { value: 4, ..none }
            } else if rhs_mem {
                Clock { value: 8, ea: estimate_ea(mem_operand_of(inst.rhs).0), ..none }
            } else {
                Clock { value: 2, ..none }
            }
        } else if rhs_reg {
            Clock { value: 9, ea: estimate_ea(mem_operand_of(inst.lhs).0), ..none }
        } else {
            none
        },
        InstType::ADD => if lhs_reg {
            if rhs_imm {
                Clock { value: 4, ..none }
            } else if rhs_mem {
                let (ea, size) = mem_operand_of(inst.rhs);
                let odd = size == OperandSize::Word && linear_address(m, ea) % 2 == 1;
                Clock { value: 9, ea: estimate_ea(ea), transfer: if odd { 4 } else { 0 } }
            } else {
                Clock { value: 3, ..none }
            }
        } else {
            let (ea, size) = mem_operand_of(inst.lhs);
            if rhs_reg {
                let odd = size == OperandSize::Word && linear_address(m, ea) % 2 == 1;
                Clock { value: 16, ea: estimate_ea(ea), transfer: if odd { 8 } else { 0 } }
            } else {
                Clock { value: 17, ea: estimate_ea(ea), ..none }
            }
        },
        _ => none,
    }
}

/// Executes a supported instruction; returns the register it wrote, with the
/// old and new values.
fn execute_inst(m: &mut Machine, inst: &Inst) -> (r: Option<(Register, i16, i16)>)
    requires
        old(m).wf(),
        supported(*inst),
    ensures
        final(m).wf(),
        final(m)@ == execute(old(m)@, *inst),
        r == match written_register(*inst) {
            Some(reg) => Some((reg, reg_value(old(m)@.words, reg), reg_value(final(m)@.words, reg))),
            None => None,
        },
{
    let ghost m0 = m@;
    let ip0 = m.ip();
    let next_ip: u16 = ((ip0 as usize + inst.length % 65536) % 65536) as u16;
    assert(next_ip == (m0.ip + inst.length) % 65536);
    let src = source_of(m, inst.rhs);
    match inst.t {
        InstType::MOV => match register_operand(inst.lhs) {
            Some(r) => {
                let before = m.load_register(r);
                m.store_register(r, src);
                m.set_ip(next_ip);
                let after = m.load_register(r);
                assert(m@ == execute(m0, *inst));
                Some((r, before, after))
            },
            None => {
                let (ea, size) = mem_operand_of(inst.lhs);
                let a = linear_address(m, ea);
                m.store_memory(a, src, size);
                m.set_ip(next_ip);
                assert(m@ == execute(m0, *inst));
                None
            },
        },
        InstType::ADD | InstType::SUB => {
            let add = inst.t == InstType::ADD;
            match register_operand(inst.lhs) {
                Some(r) => {
                    let from = m.load_register(r);
                    let sum = if add { add16(from, src) } else { sub16(from, src) };
                    m.store_register(r, sum);
                    let to = m.load_register(r);
                    let af = if add { add_carries_nibble(from, src) } else { sub_borrows_nibble(from, src) };
                    m.set_flags(flags_for(from, to, af));
                    m.set_ip(next_ip);
                    assert(m@ == execute(m0, *inst));
                    Some((r, from, to))
                },
                None => {
                    let (ea, size) = mem_operand_of(inst.lhs);
                    let a = linear_address(m, ea);
                    let from = m.load_memory(a, size);
                    m.store_memory(a, add16(from, src), size);
                    let to = m.load_memory(a, size);
                    m.set_flags(flags_for(from, to, add_carries_nibble(from, src)));
                    m.set_ip(next_ip);
                    assert(m@ == execute(m0, *inst));
                    None
                },
            }
        },
        InstType::CMP => {
            let r = match register_operand(inst.lhs) {
                Some(r) => r,
                None => Register::AX,
            };
            let from = m.load_register(r);
            let to = sub16(from, src);
            m.set_flags(flags_for(from, to, sub_borrows_nibble(from, src)));
            m.set_ip(next_ip);
            assert(m@ == execute(m0, *inst));
            None
        },
        _ => {
            let cx = m.load_register(Register::CX);
            let counts = inst.t == InstType::LOOP || inst.t == InstType::LOOPZ || inst.t == InstType::LOOPNZ;
            if counts {
                m.store_register(Register::CX, sub16(cx, 1));
            }
            let test_cx = m.load_register(Register::CX);
            let offset: i16 = match inst.lhs {
                Encoding::Operand(OperandEncoding::Jmp { offset, .. }) => offset as i16,
                _ => 0,
            };
            let ip = if taken(inst.t, m.flags(), test_cx) {
                ((next_ip as i32 + offset as i32 + 65536) % 65536) as u16
            } else {
                next_ip
            };
            m.set_ip(ip);
            assert(m@ == execute(m0, *inst));
            if counts {
                Some((Register::CX, cx, test_cx))
            } else {
                None
            }
        },
    }
}

/// The emulator: processor state and the program it runs.
pub struct Emulator {
    machine: Machine,
    code: Code,
}

impl Emulator {
    pub closed spec fn wf(&self) -> bool {
        self.machine.wf()
    }

    /// Processor state.
    pub closed spec fn state(&self) -> MachineView {
        self.machine@
    }

    /// The program, indexed by IP.
    pub closed spec fn program(&self) -> Seq<Option<Inst>> {
        self.code@
    }

    /// A zeroed processor that will run `code` from IP 0.
    pub fn new(code: Code) -> (r: Emulator)
        ensures
            r.wf(),
            r.program() == code@,
            r.state().ip == 0,
            r.state().flags.spec_bits() == 0,
            r.state().words == Seq::new(8, |i: int| 0u16),
            r.state().memory == Seq::new(crate::machine::MEMORY_SIZE as nat, |i: int| 0u8),
    {
        Emulator { machine: Machine::new(), code }
    }

    pub fn machine(&self) -> (r: &Machine)
        requires
            self.wf(),
        ensures
            r.wf(),
            r@ == self.state(),
    {
        &self.machine
    }

    /// Fetches the instruction at IP and executes it. `Ok(None)` when no
    /// instruction starts at IP (the program has halted); `Err` with the
    /// instruction when its form is not executable; the state is then unchanged.
    pub fn step(&mut self) -> (r: Result<Option<Step>, Inst>)
        requires
            old(self).wf(),
        ensures
            final(self).wf(),
            final(self).program() == old(self).program(),
            match old(self).program()[old(self).state().ip as int] {
                None => r == Ok::<Option<Step>, Inst>(None) && final(self).state() == old(self).state(),
                Some(inst) => if supported(inst) {
                    &&& r == Ok::<Option<Step>, Inst>(Some(record_of(old(self).state(), inst)))
                    &&& final(self).state() == execute(old(self).state(), inst)
                } else {
                    r == Err::<Option<Step>, Inst>(inst) && final(self).state() == old(self).state()
                },
            },
    {
        let ip = self.machine.ip();
        let inst = match self.code.get_inst(ip) {
            None => return Ok(None),
            Some(i) => i,
        };
        if !is_supported(&inst) {
            return Err(inst);
        }
        let ghost m0 = self.machine@;
        let from_flags = self.machine.flags();
        let clock = clock_for(&self.machine, &inst);
        let register = execute_inst(&mut self.machine, &inst);
        let to_flags = self.machine.flags();
        let flags = if to_flags != from_flags { Some((from_flags, to_flags)) } else { None };
        Ok(Some(Step { inst, ip: (ip, self.machine.ip()), register, flags, clock }))
    }
}

/// Instructions that leave the flags alone: MOV and the jumps and loops.
pub open spec fn preserves_flags(t: InstType) -> bool {
    t == InstType::MOV || is_jump(t)
}

/// After `CMP x, y`, a flag-preserving instruction leaves the flags as the
/// comparison set them, and comparing again sets them the same way.
pub proof fn lemma_cmp_flags_stay(m: MachineView, cmp: Inst, next: Inst)
    requires
        cmp.t == InstType::CMP,
        supported(cmp),
        supported(next),
        preserves_flags(next.t),
    ensures
        execute(execute(m, cmp), next).flags == execute(m, cmp).flags,
        execute(execute(m, cmp), cmp).flags == execute(m, cmp).flags,
{
}

} // verus!

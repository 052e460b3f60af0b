//! Architectural state: register file with byte/word aliasing, flags,
//! instruction pointer and linear memory.
use vstd::prelude::*;
use crate::ast::{OperandSize, Register};

verus! {

/// Size of the linear memory in bytes (1 MiB).
pub const MEMORY_SIZE: usize = 0x10_0000;

/// A 16-bit pattern read as a signed value.
pub open spec fn signed16(w: int) -> i16 {
    if w >= 32768 {
        (w - 65536) as i16
    } else {
        w as i16
    }
}

/// The 16-bit pattern of a signed value.
pub open spec fn unsigned16(v: i16) -> u16 {
    if v < 0 {
        (v + 65536) as u16
    } else {
        v as u16
    }
}

/// `x` wrapped into the signed 16-bit range.
pub open spec fn wrap16(x: int) -> i16 {
    signed16(x % 65536)
}

pub fn to_signed(w: u16) -> (r: i16)
    ensures
        r == signed16(w as int),
{
    if w >= 32768 {
        (w as i32 - 65536) as i16
    } else {
        w as i16
    }
}

pub fn to_unsigned(v: i16) -> (r: u16)
    ensures
        r == unsigned16(v),
{
    if v < 0 {
        (v as i32 + 65536) as u16
    } else {
        v as u16
    }
}

/// Wrapping 16-bit sum.
pub fn add16(a: i16, b: i16) -> (r: i16)
    ensures
        r == wrap16(a + b),
{
    let s: i32 = a as i32 + b as i32;
    let m: i32 = if s < 0 { s + 65536 } else if s >= 65536 { s - 65536 } else { s };
    assert(m == (a + b) % 65536);
    to_signed(m as u16)
}

/// Wrapping 16-bit difference.
pub fn sub16(a: i16, b: i16) -> (r: i16)
    ensures
        r == wrap16(a - b),
{
    let s: i32 = a as i32 - b as i32;
    let m: i32 = if s < 0 { s + 65536 } else if s >= 65536 { s - 65536 } else { s };
    assert(m == (a - b) % 65536);
    to_signed(m as u16)
}

/// The value a register reads: a word register as a signed word, a byte
/// register as its half of the word slot, zero-extended.
pub open spec fn reg_value(words: Seq<u16>, r: Register) -> i16 {
    let w = words[r.spec_word_index() as int];
    if !r.is_byte() {
        signed16(w as int)
    } else if r.spec_is_high() {
        (w / 256) as i16
    } else {
        (w % 256) as i16
    }
}

/// The word slots after writing `val` to `r`; a byte register takes the low
/// byte of `val` and keeps the other half of its slot.
pub open spec fn with_reg(words: Seq<u16>, r: Register, val: i16) -> Seq<u16> {
    let i = r.spec_word_index() as int;
    let w = words[i];
    let u = unsigned16(val);
    if !r.is_byte() {
        words.update(i, u)
    } else if r.spec_is_high() {
        words.update(i, ((u % 256) * 256 + w % 256) as u16)
    } else {
        words.update(i, ((w / 256) * 256 + u % 256) as u16)
    }
}

/// The value at `a`: one byte zero-extended, or a little-endian signed word.
pub open spec fn mem_value(mem: Seq<u8>, a: int, size: OperandSize) -> i16 {
    match size {
        OperandSize::Byte => mem[a] as i16,
        OperandSize::Word => signed16(mem[a + 1] * 256 + mem[a]),
    }
}

/// Memory after writing `val` at `a`, little-endian; a byte write stores the low byte.
pub open spec fn with_mem(mem: Seq<u8>, a: int, val: i16, size: OperandSize) -> Seq<u8> {
    let u = unsigned16(val);
    match size {
        OperandSize::Byte => mem.update(a, (u % 256) as u8),
        OperandSize::Word => mem.update(a, (u % 256) as u8).update(a + 1, (u / 256) as u8),
    }
}

/// The five arithmetic flags that the supported instructions maintain.
#[derive(Debug, Clone, Copy, PartialEq, Eq, Structural)]
pub struct Flags {
    pub cf: bool,
    pub pf: bool,
    pub af: bool,
    pub zf: bool,
    pub sf: bool,
}

impl Flags {
    pub fn empty() -> (r: Flags)
        ensures
            r.spec_bits() == 0,
            !r.cf && !r.pf && !r.af && !r.zf && !r.sf,
    {
        Flags { cf: false, pf: false, af: false, zf: false, sf: false }
    }

    /// The FLAGS register word: CF bit 0, PF bit 2, AF bit 4, ZF bit 6, SF bit 7.
    pub open spec fn spec_bits(self) -> u16 {
        ((if self.cf { 1int } else { 0 }) + (if self.pf { 4int } else { 0 }) + (if self.af { 16int } else { 0 })
            + (if self.zf { 64int } else { 0 }) + (if self.sf { 128int } else { 0 })) as u16
    }

    pub fn bits(self) -> (r: u16)
        ensures
            r == self.spec_bits(),
    {
        let mut b: u16 = 0;
        if self.cf {
            b = b + 1;
        }
        if self.pf {
            b = b + 4;
        }
        if self.af {
            b = b + 16;
        }
        if self.zf {
            b = b + 64;
        }
        if self.sf {
            b = b + 128;
        }
        b
    }
}

/// Number of one bits of `n`.
pub open spec fn ones(n: nat) -> nat
    decreases n,
{
    if n == 0 {
        0
    } else {
        n % 2 + ones(n / 2)
    }
}

/// Whether the low byte of `v` has an even number of one bits.
pub open spec fn even_parity(v: i16) -> bool {
    ones((unsigned16(v) % 256) as nat) % 2 == 0
}

/// Flags after an arithmetic result: SF from the sign, ZF from zero, PF from
/// the low byte, CF set when the sign flipped between a nonzero old value and
/// a nonzero result, and the given AF.
pub open spec fn result_flags(from: i16, to: i16, af: bool) -> Flags {
    Flags {
        cf: (to > 0 && from < 0) || (to < 0 && from > 0),
        pf: even_parity(to),
        af,
        zf: to == 0,
        sf: to < 0,
    }
}

/// Carry out of the low nibble of an addition.
pub open spec fn add_af(from: i16, val: i16) -> bool {
    unsigned16(from) % 16 + unsigned16(val) % 16 > 15
}

/// Borrow into the low nibble of a subtraction.
pub open spec fn sub_af(from: i16, val: i16) -> bool {
    unsigned16(from) % 16 < unsigned16(val) % 16
}

fn parity_even(v: i16) -> (r: bool)
    ensures
        r == even_parity(v),
{
    let mut x: u16 = to_unsigned(v) % 256;
    let ghost start = x as nat;
    let mut count: u16 = 0;
    proof {
        lemma_ones_bound(start);
    }
    while x > 0
        invariant
            count + ones(x as nat) == ones(start),
            count <= 8,
            x < 256,
            ones(x as nat) <= 8 - count,
        decreases x,
    {
        proof {
            lemma_ones_bound(x as nat);
        }
        count = count + x % 2;
        x = x / 2;
    }
    count % 2 == 0
}

proof fn lemma_ones_bound(n: nat)
    requires
        n < 256,
    ensures
        ones(n) <= 8,
    decreases n,
{
    assert(pow2(8) == 256) by {
        reveal_with_fuel(pow2, 9);
    }
    lemma_ones_bound_k(n, 8);
}

proof fn lemma_ones_bound_k(n: nat, k: nat)
    requires
        n < pow2(k),
    ensures
        ones(n) <= k,
    decreases k,
{
    if n > 0 && k > 0 {
        lemma_ones_bound_k(n / 2, (k - 1) as nat);
    }
}

pub open spec fn pow2(k: nat) -> nat
    decreases k,
{
    if k == 0 {
        1
    } else {
        2 * pow2((k - 1) as nat)
    }
}

pub fn flags_for(from: i16, to: i16, af: bool) -> (r: Flags)
    ensures
        r == result_flags(from, to, af),
{
    Flags {
        cf: (to > 0 && from < 0) || (to < 0 && from > 0),
        pf: parity_even(to),
        af,
        zf: to == 0,
        sf: to < 0,
    }
}

pub fn add_carries_nibble(from: i16, val: i16) -> (r: bool)
    ensures
        r == add_af(from, val),
{
    to_unsigned(from) % 16 + to_unsigned(val) % 16 > 15
}

pub fn sub_borrows_nibble(from: i16, val: i16) -> (r: bool)
    ensures
        r == sub_af(from, val),
{
    to_unsigned(from) % 16 < to_unsigned(val) % 16
}

/// What a [`Machine`] holds.
pub struct MachineView {
    pub ip: u16,
    pub flags: Flags,
    pub words: Seq<u16>,
    pub memory: Seq<u8>,
}

/// Processor state: instruction pointer, flags, eight word slots and memory.
pub struct Machine {
    ip: u16,
    flags: Flags,
    words: Vec<u16>,
    memory: Vec<u8>,
}

impl View for Machine {
    type V = MachineView;

    closed spec fn view(&self) -> MachineView {
        MachineView { ip: self.ip, flags: self.flags, words: self.words@, memory: self.memory@ }
    }
}

impl Machine {
    pub closed spec fn wf(&self) -> bool {
        self.words@.len() == 8 && self.memory@.len() == MEMORY_SIZE
    }

    pub proof fn lemma_wf(&self)
        requires
            self.wf(),
        ensures
            self@.words.len() == 8,
            self@.memory.len() == MEMORY_SIZE,
    {
    }

    pub fn ip(&self) -> (r: u16)
        ensures
            r == self@.ip,
    {
        self.ip
    }

    pub fn flags(&self) -> (r: Flags)
        ensures
            r == self@.flags,
    {
        self.flags
    }

    pub fn set_ip(&mut self, ip: u16)
        ensures
            final(self).wf() == old(self).wf(),
            final(self)@ == (MachineView { ip, ..old(self)@ }),
    {
        self.ip = ip;
    }

    pub fn set_flags(&mut self, flags: Flags)
        ensures
            final(self).wf() == old(self).wf(),
            final(self)@ == (MachineView { flags, ..old(self)@ }),
    {
        self.flags = flags;
    }

    /// A zeroed machine.
    pub fn new() -> (r: Machine)
        ensures
            r.wf(),
            r@.ip == 0,
            r@.flags.spec_bits() == 0,
            r@.words == Seq::new(8, |i: int| 0u16),
            r@.memory == Seq::new(MEMORY_SIZE as nat, |i: int| 0u8),
    {
        let mut words: Vec<u16> = Vec::new();
        let mut i: usize = 0;
        while i < 8
            invariant
                i <= 8,
                words@ == Seq::new(i as nat, |k: int| 0u16),
            decreases 8 - i,
        {
            words.push(0);
            i = i + 1;
            assert(words@ =~= Seq::new(i as nat, |k: int| 0u16));
        }
        let mut memory: Vec<u8> = Vec::new();
        let mut j: usize = 0;
        while j < MEMORY_SIZE
            invariant
                j <= MEMORY_SIZE,
                memory@ == Seq::new(j as nat, |k: int| 0u8),
            decreases MEMORY_SIZE - j,
        {
            memory.push(0);
            j = j + 1;
            assert(memory@ =~= Seq::new(j as nat, |k: int| 0u8));
        }
        Machine { ip: 0, flags: Flags::empty(), words, memory }
    }

    /// The value of a register.
    pub fn load_register(&self, r: Register) -> (v: i16)
        requires
            self.wf(),
        ensures
            v == reg_value(self@.words, r),
    {
        let w = self.words[r.word_index()];
        if r.size() == OperandSize::Word {
            to_signed(w)
        } else if r.is_high() {
            (w / 256) as i16
        } else {
            (w % 256) as i16
        }
    }

    /// Writes a register; a byte register changes only its half of the slot.
    pub fn store_register(&mut self, r: Register, val: i16)
        requires
            old(self).wf(),
        ensures
            final(self).wf(),
            final(self)@ == (MachineView { words: with_reg(old(self)@.words, r, val), ..old(self)@ }),
    {
        let i = r.word_index();
        let w = self.words[i];
        let u = to_unsigned(val);
        let nw: u16 = if r.size() == OperandSize::Word {
            u
        } else if r.is_high() {
            (u % 256) * 256 + w % 256
        } else {
            (w / 256) * 256 + u % 256
        };
        self.words.set(i, nw);
    }

    /// The value in memory at `a`.
    pub fn load_memory(&self, a: u16, size: OperandSize) -> (v: i16)
        requires
            self.wf(),
        ensures
            v == mem_value(self@.memory, a as int, size),
    {
        let lo = self.memory[a as usize];
        match size {
            OperandSize::Byte => lo as i16,
            OperandSize::Word => {
                let hi = self.memory[a as usize + 1];
                to_signed(hi as u16 * 256 + lo as u16)
            },
        }
    }

    /// Writes `val` at `a`, little-endian.
    pub fn store_memory(&mut self, a: u16, val: i16, size: OperandSize)
        requires
            old(self).wf(),
        ensures
            final(self).wf(),
            final(self)@ == (MachineView { memory: with_mem(old(self)@.memory, a as int, val, size), ..old(self)@ }),
    {
        let u = to_unsigned(val);
        self.memory.set(a as usize, (u % 256) as u8);
        if size == OperandSize::Word {
            self.memory.set(a as usize + 1, (u / 256) as u8);
        }
    }

    /// The whole memory.
    pub fn memory(&self) -> (r: &Vec<u8>)
        ensures
            r@ == self@.memory,
    {
        &self.memory
    }
}

/// The word register of slot `k` (AX, BX, CX, DX for 0 to 3).
pub open spec fn word_register(k: nat) -> Register {
    if k == 0 {
        Register::AX
    } else if k == 1 {
        Register::BX
    } else if k == 2 {
        Register::CX
    } else {
        Register::DX
    }
}

/// The low byte register of slot `k` (AL, BL, CL, DL).
pub open spec fn low_register(k: nat) -> Register {
    if k == 0 {
        Register::AL
    } else if k == 1 {
        Register::BL
    } else if k == 2 {
        Register::CL
    } else {
        Register::DL
    }
}

/// The high byte register of slot `k` (AH, BH, CH, DH).
pub open spec fn high_register(k: nat) -> Register {
    if k == 0 {
        Register::AH
    } else if k == 1 {
        Register::BH
    } else if k == 2 {
        Register::CH
    } else {
        Register::DH
    }
}

/// Byte/word aliasing, for AX/AL/AH and likewise for B, C and D: writing the
/// high byte then reading the word gives the prior low byte with the written
/// byte above it (`low | value << 8`), and symmetrically for the low byte;
/// writing the word then reading a byte gives that byte of the written value;
/// a byte write leaves the other byte as it was.
pub proof fn lemma_byte_word_aliasing(words: Seq<u16>, k: nat, v: i16)
    requires
        words.len() == 8,
        k < 4,
    ensures
        unsigned16(reg_value(with_reg(words, high_register(k), v), word_register(k)))
            == reg_value(words, low_register(k)) + 256 * (unsigned16(v) % 256),
        unsigned16(reg_value(with_reg(words, low_register(k), v), word_register(k)))
            == 256 * reg_value(words, high_register(k)) + unsigned16(v) % 256,
        reg_value(with_reg(words, word_register(k), v), low_register(k)) == unsigned16(v) % 256,
        reg_value(with_reg(words, word_register(k), v), high_register(k)) == unsigned16(v) / 256,
        reg_value(with_reg(words, high_register(k), v), low_register(k)) == reg_value(words, low_register(k)),
        reg_value(with_reg(words, low_register(k), v), high_register(k)) == reg_value(words, high_register(k)),
{
}

} // verus!

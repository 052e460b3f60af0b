//! Typed representation of decoded instructions and their operands.
use vstd::prelude::*;

verus! {

/// The `mod` field of a ModR/M byte.
#[derive(Debug, Clone, Copy, PartialEq, Eq, Structural)]
pub enum Mode {
    Mem0Disp,
    Mem1Disp,
    Mem2Disp,
    Reg,
}

impl Mode {
    pub open spec fn spec_from(mode: u8) -> Mode {
        let m = mode % 4;
        if m == 0 {
            Mode::Mem0Disp
        } else if m == 1 {
            Mode::Mem1Disp
        } else if m == 2 {
            Mode::Mem2Disp
        } else {
            Mode::Reg
        }
    }

    /// The mode selected by the two low bits of `mode`.
    pub fn from(mode: u8) -> (r: Mode)
        ensures
            r == Mode::spec_from(mode),
    {
        match mode % 4 {
            0 => Mode::Mem0Disp,
            1 => Mode::Mem1Disp,
            2 => Mode::Mem2Disp,
            _ => Mode::Reg,
        }
    }
}

/// Whether the printer must spell out the size of a memory operand.
#[derive(Debug, Clone, Copy, PartialEq, Eq, Structural)]
pub enum OperandType {
    Explicit,
    Implicit,
}

#[derive(Debug, Clone, Copy, PartialEq, Eq, Structural)]
pub enum OperandSize {
    Byte,
    Word,
}

impl OperandSize {
    pub open spec fn spec_bits(self) -> u8 {
        match self {
            OperandSize::Byte => 8,
            OperandSize::Word => 16,
        }
    }

    /// Width of the operand in bits.
    pub fn size(self) -> (r: u8)
        ensures
            r == self.spec_bits(),
    {
        match self {
            OperandSize::Byte => 8,
            OperandSize::Word => 16,
        }
    }

    pub open spec fn of_w(w: u8) -> OperandSize {
        if w % 2 == 1 {
            OperandSize::Word
        } else {
            OperandSize::Byte
        }
    }
}

/// The sixteen addressable general registers, in listing order.
#[allow(non_camel_case_types)]
#[derive(Debug, Clone, Copy, PartialEq, Eq, Structural)]
pub enum Register {
    AX,
    BX,
    CX,
    DX,
    SP,
    BP,
    SI,
    DI,
    AL,
    BL,
    CL,
    DL,
    AH,
    BH,
    CH,
    DH,
}

impl Register {
    /// The register named by a 3-bit `reg` field and the `w` bit.
    pub open spec fn spec_from(reg: u8, w: u8) -> Register {
        let r = reg % 8;
        if w % 2 == 1 {
            if r == 0 {
                Register::AX
            } else if r == 1 {
                Register::CX
            } else if r == 2 {
                Register::DX
            } else if r == 3 {
                Register::BX
            } else if r == 4 {
                Register::SP
            } else if r == 5 {
                Register::BP
            } else if r == 6 {
                Register::SI
            } else {
                Register::DI
            }
        } else {
            if r == 0 {
                Register::AL
            } else if r == 1 {
                Register::CL
            } else if r == 2 {
                Register::DL
            } else if r == 3 {
                Register::BL
            } else if r == 4 {
                Register::AH
            } else if r == 5 {
                Register::CH
            } else if r == 6 {
                Register::DH
            } else {
                Register::BH
            }
        }
    }

    pub fn from(reg: u8, w: u8) -> (r: Register)
        ensures
            r == Register::spec_from(reg, w),
    {
        if w % 2 == 1 {
            match reg % 8 {
                0 => Register::AX,
                1 => Register::CX,
                2 => Register::DX,
                3 => Register::BX,
                4 => Register::SP,
                5 => Register::BP,
                6 => Register::SI,
                _ => Register::DI,
            }
        } else {
            match reg % 8 {
                0 => Register::AL,
                1 => Register::CL,
                2 => Register::DL,
                3 => Register::BL,
                4 => Register::AH,
                5 => Register::CH,
                6 => Register::DH,
                _ => Register::BH,
            }
        }
    }

    /// Position of the register in the enumeration (0 for AX up to 15 for DH).
    pub open spec fn spec_ordinal(self) -> nat {
        match self {
            Register::AX => 0,
            Register::BX => 1,
            Register::CX => 2,
            Register::DX => 3,
            Register::SP => 4,
            Register::BP => 5,
            Register::SI => 6,
            Register::DI => 7,
            Register::AL => 8,
            Register::BL => 9,
            Register::CL => 10,
            Register::DL => 11,
            Register::AH => 12,
            Register::BH => 13,
            Register::CH => 14,
            Register::DH => 15,
        }
    }

    pub fn ordinal(self) -> (r: usize)
        ensures
            r == self.spec_ordinal(),
    {
        match self {
            Register::AX => 0,
            Register::BX => 1,
            Register::CX => 2,
            Register::DX => 3,
            Register::SP => 4,
            Register::BP => 5,
            Register::SI => 6,
            Register::DI => 7,
            Register::AL => 8,
            Register::BL => 9,
            Register::CL => 10,
            Register::DL => 11,
            Register::AH => 12,
            Register::BH => 13,
            Register::CH => 14,
            Register::DH => 15,
        }
    }

    /// The register at a given position of the enumeration.
    pub fn at_ordinal(i: usize) -> (r: Register)
        requires
            i < 16,
        ensures
            r.spec_ordinal() == i,
    {
        match i {
            0 => Register::AX,
            1 => Register::BX,
            2 => Register::CX,
            3 => Register::DX,
            4 => Register::SP,
            5 => Register::BP,
            6 => Register::SI,
            7 => Register::DI,
            8 => Register::AL,
            9 => Register::BL,
            10 => Register::CL,
            11 => Register::DL,
            12 => Register::AH,
            13 => Register::BH,
            14 => Register::CH,
            _ => Register::DH,
        }
    }

    pub open spec fn is_byte(self) -> bool {
        self.spec_ordinal() >= 8
    }

    pub open spec fn spec_size(self) -> OperandSize {
        if self.is_byte() {
            OperandSize::Byte
        } else {
            OperandSize::Word
        }
    }

    pub fn size(self) -> (r: OperandSize)
        ensures
            r == self.spec_size(),
    {
        if self.ordinal() >= 8 {
            OperandSize::Byte
        } else {
            OperandSize::Word
        }
    }

    /// Slot of the word register that holds this register (AL, AH and AX share slot 0).
    pub open spec fn spec_word_index(self) -> nat {
        (self.spec_ordinal() % 4) + if self.spec_ordinal() < 8 { (self.spec_ordinal() / 4) * 4 } else { 0 }
    }

    pub fn word_index(self) -> (r: usize)
        ensures
            r == self.spec_word_index(),
            r < 8,
    {
        let o = self.ordinal();
        if o < 8 {
            o
        } else {
            o % 4
        }
    }

    /// Whether a byte register names the high half of its word.
    pub open spec fn spec_is_high(self) -> bool {
        self.spec_ordinal() >= 12
    }

    pub fn is_high(self) -> (r: bool)
        ensures
            r == self.spec_is_high(),
    {
        self.ordinal() >= 12
    }
}

/// The base registers of an r/m memory operand; `Empty` is a direct address.
#[derive(Debug, Clone, Copy, PartialEq, Eq, Structural)]
pub enum RegisterAddress {
    Empty,
    BXSI,
    BXDI,
    BPSI,
    BPDI,
    SI,
    DI,
    BX,
    DirectBP,
}

impl RegisterAddress {
    pub open spec fn spec_from(address: u8) -> RegisterAddress {
        let a = address % 8;
        if a == 0 {
            RegisterAddress::BXSI
        } else if a == 1 {
            RegisterAddress::BXDI
        } else if a == 2 {
            RegisterAddress::BPSI
        } else if a == 3 {
            RegisterAddress::BPDI
        } else if a == 4 {
            RegisterAddress::SI
        } else if a == 5 {
            RegisterAddress::DI
        } else if a == 6 {
            RegisterAddress::DirectBP
        } else {
            RegisterAddress::BX
        }
    }

    /// The base form selected by the three low bits of an r/m field.
    pub fn from(address: u8) -> (r: RegisterAddress)
        ensures
            r == RegisterAddress::spec_from(address),
    {
        match address % 8 {
            0 => RegisterAddress::BXSI,
            1 => RegisterAddress::BXDI,
            2 => RegisterAddress::BPSI,
            3 => RegisterAddress::BPDI,
            4 => RegisterAddress::SI,
            5 => RegisterAddress::DI,
            6 => RegisterAddress::DirectBP,
            _ => RegisterAddress::BX,
        }
    }
}

/// Base registers plus a signed displacement; with the `Empty` base the
/// displacement is an absolute address.
#[derive(Debug, Clone, Copy, PartialEq, Eq, Structural)]
pub struct EffectiveAddress {
    pub register: RegisterAddress,
    pub disp: i16,
}

impl EffectiveAddress {
    pub fn new(register: RegisterAddress, disp: i16) -> (r: EffectiveAddress)
        ensures
            r.register == register,
            r.disp == disp,
    {
        EffectiveAddress { register, disp }
    }
}

#[derive(Debug, Clone, Copy, PartialEq, Eq, Structural)]
pub enum OperandEncoding {
    Accumulator(OperandSize),
    /// A short jump: the signed offset and the number of its label.
    Jmp { offset: i8, label: usize },
    Immediate(i16),
    Register(Register),
}

impl OperandEncoding {
    /// A register operand named by a `reg` field and the `w` bit.
    pub fn register(reg: u8, w: u8) -> (r: OperandEncoding)
        ensures
            r == OperandEncoding::Register(Register::spec_from(reg, w)),
    {
        OperandEncoding::Register(Register::from(reg, w))
    }
}

#[derive(Debug, Clone, Copy, PartialEq, Eq, Structural)]
pub enum Encoding {
    Empty,
    Operand(OperandEncoding),
    Memory(EffectiveAddress, OperandSize, OperandType),
}

#[allow(non_camel_case_types)]
#[derive(Debug, Clone, Copy, PartialEq, Eq, Structural)]
pub enum InstType {
    MOV,
    ADD,
    SUB,
    CMP,
    JNZ,
    JE,
    JL,
    JLE,
    JB,
    JBE,
    JP,
    JO,
    JS,
    JNL,
    JG,
    JNB,
    JA,
    JNP,
    JNO,
    JNS,
    LOOP,
    LOOPZ,
    LOOPNZ,
    JCXZ,
    /// A synthetic jump label, by number.
    Label(usize),
}

/// One decoded instruction: kind, operands and encoded length in bytes.
#[derive(Debug, Clone, Copy, PartialEq, Eq, Structural)]
pub struct Inst {
    pub t: InstType,
    pub lhs: Encoding,
    pub rhs: Encoding,
    pub length: usize,
}

impl Inst {
    pub fn new(name: InstType, lhs: Encoding, rhs: Encoding, length: usize) -> (r: Inst)
        ensures
            r == (Inst { t: name, lhs, rhs, length }),
    {
        Inst { t: name, lhs, rhs, length }
    }
}

} // verus!

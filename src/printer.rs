//! Rendering of decoded instructions as NASM source text.
use vstd::prelude::*;
use crate::ast::{
    EffectiveAddress, Encoding, Inst, InstType, OperandEncoding, OperandSize, OperandType,
    Register, RegisterAddress,
};
use crate::machine::unsigned16;
use crate::text::{decimal, push_decimal};

verus! {

/// Appends `t` to `s`.
pub fn push_str(s: &mut String, t: &str)
    ensures
        final(s)@ == old(s)@ + t@,
{
    s.append(t);
}

/// Lowercase register name.
pub open spec fn reg_name(r: Register) -> Seq<char> {
    match r {
        Register::AX => seq!['a', 'x'],
        Register::BX => seq!['b', 'x'],
        Register::CX => seq!['c', 'x'],
        Register::DX => seq!['d', 'x'],
        Register::SP => seq!['s', 'p'],
        Register::BP => seq!['b', 'p'],
        Register::SI => seq!['s', 'i'],
        Register::DI => seq!['d', 'i'],
        Register::AL => seq!['a', 'l'],
        Register::BL => seq!['b', 'l'],
        Register::CL => seq!['c', 'l'],
        Register::DL => seq!['d', 'l'],
        Register::AH => seq!['a', 'h'],
        Register::BH => seq!['b', 'h'],
        Register::CH => seq!['c', 'h'],
        Register::DH => seq!['d', 'h'],
    }
}

pub fn register_name(r: Register) -> (t: &'static str)
    ensures
        t@ == reg_name(r),
{
    match r {
        Register::AX => {
            proof {
                reveal_strlit("ax");
            }
            "ax"
        },
        Register::BX => {
            proof {
                reveal_strlit("bx");
            }
            "bx"
        },
        Register::CX => {
            proof {
                reveal_strlit("cx");
            }
            "cx"
        },
        Register::DX => {
            proof {
                reveal_strlit("dx");
            }
            "dx"
        },
        Register::SP => {
            proof {
                reveal_strlit("sp");
            }
            "sp"
        },
        Register::BP => {
            proof {
                reveal_strlit("bp");
            }
            "bp"
        },
        Register::SI => {
            proof {
                reveal_strlit("si");
            }
            "si"
        },
        Register::DI => {
            proof {
                reveal_strlit("di");
            }
            "di"
        },
        Register::AL => {
            proof {
                reveal_strlit("al");
            }
            "al"
        },
        Register::BL => {
            proof {
                reveal_strlit("bl");
            }
            "bl"
        },
        Register::CL => {
            proof {
                reveal_strlit("cl");
            }
            "cl"
        },
        Register::DL => {
            proof {
                reveal_strlit("dl");
            }
            "dl"
        },
        Register::AH => {
            proof {
                reveal_strlit("ah");
            }
            "ah"
        },
        Register::BH => {
            proof {
                reveal_strlit("bh");
            }
            "bh"
        },
        Register::CH => {
            proof {
                reveal_strlit("ch");
            }
            "ch"
        },
        Register::DH => {
            proof {
                reveal_strlit("dh");
            }
            "dh"
        },
    }
}

/// Base registers of an r/m form as NASM writes them.
pub open spec fn base_name(a: RegisterAddress) -> Seq<char> {
    match a {
        RegisterAddress::BXSI => seq!['b', 'x', ' ', '+', ' ', 's', 'i'],
        RegisterAddress::BXDI => seq!['b', 'x', ' ', '+', ' ', 'd', 'i'],
        RegisterAddress::BPSI => seq!['b', 'p', ' ', '+', ' ', 's', 'i'],
        RegisterAddress::BPDI => seq!['b', 'p', ' ', '+', ' ', 'd', 'i'],
        RegisterAddress::SI => seq!['s', 'i'],
        RegisterAddress::DI => seq!['d', 'i'],
        RegisterAddress::BX => seq!['b', 'x'],
        RegisterAddress::DirectBP => seq!['b', 'p'],
        RegisterAddress::Empty => Seq::<char>::empty(),
    }
}

fn base_text(a: RegisterAddress) -> (t: &'static str)
    ensures
        t@ == base_name(a),
{
    match a {
        RegisterAddress::BXSI => {
            proof {
                reveal_strlit("bx + si");
            }
            "bx + si"
        },
        RegisterAddress::BXDI => {
            proof {
                reveal_strlit("bx + di");
            }
            "bx + di"
        },
        RegisterAddress::BPSI => {
            proof {
                reveal_strlit("bp + si");
            }
            "bp + si"
        },
        RegisterAddress::BPDI => {
            proof {
                reveal_strlit("bp + di");
            }
            "bp + di"
        },
        RegisterAddress::SI => {
            proof {
                reveal_strlit("si");
            }
            "si"
        },
        RegisterAddress::DI => {
            proof {
                reveal_strlit("di");
            }
            "di"
        },
        RegisterAddress::BX => {
            proof {
                reveal_strlit("bx");
            }
            "bx"
        },
        RegisterAddress::DirectBP => {
            proof {
                reveal_strlit("bp");
            }
            "bp"
        },
        RegisterAddress::Empty => {
            proof {
                reveal_strlit("");
            }
            ""
        },
    }
}

/// Mnemonic of an instruction kind; a label prints as `label_N:`.
pub open spec fn mnemonic(t: InstType) -> Seq<char> {
    match t {
        InstType::MOV => seq!['m', 'o', 'v'],
        InstType::ADD => seq!['a', 'd', 'd'],
        InstType::SUB => seq!['s', 'u', 'b'],
        InstType::CMP => seq!['c', 'm', 'p'],
        InstType::JNZ => seq!['j', 'n', 'z'],
        InstType::JE => seq!['j', 'e'],
        InstType::JL => seq!['j', 'l'],
        InstType::JLE => seq!['j', 'l', 'e'],
        InstType::JB => seq!['j', 'b'],
        InstType::JBE => seq!['j', 'b', 'e'],
        InstType::JP => seq!['j', 'p'],
        InstType::JO => seq!['j', 'o'],
        InstType::JS => seq!['j', 's'],
        InstType::JNL => seq!['j', 'n', 'l'],
        InstType::JG => seq!['j', 'g'],
        InstType::JNB => seq!['j', 'n', 'b'],
        InstType::JA => seq!['j', 'a'],
        InstType::JNP => seq!['j', 'n', 'p'],
        InstType::JNO => seq!['j', 'n', 'o'],
        InstType::JNS => seq!['j', 'n', 's'],
        InstType::LOOP => seq!['l', 'o', 'o', 'p'],
        InstType::LOOPZ => seq!['l', 'o', 'o', 'p', 'z'],
        InstType::LOOPNZ => seq!['l', 'o', 'o', 'p', 'n', 'z'],
        InstType::JCXZ => seq!['j', 'c', 'x', 'z'],
        InstType::Label(n) => seq!['l', 'a', 'b', 'e', 'l', '_'] + decimal(n as int) + seq![':'],
    }
}

fn push_mnemonic(s: &mut String, t: InstType)
    ensures
        final(s)@ == old(s)@ + mnemonic(t),
{
    match t {
        InstType::MOV => {
            proof {
                reveal_strlit("mov");
            }
            push_str(s, "mov");
        },
        InstType::ADD => {
            proof {
                reveal_strlit("add");
            }
            push_str(s, "add");
        },
        InstType::SUB => {
            proof {
                reveal_strlit("sub");
            }
            push_str(s, "sub");
        },
        InstType::CMP => {
            proof {
                reveal_strlit("cmp");
            }
            push_str(s, "cmp");
        },
        InstType::JNZ => {
            proof {
                reveal_strlit("jnz");
            }
            push_str(s, "jnz");
        },
        InstType::JE => {
            proof {
                reveal_strlit("je");
            }
            push_str(s, "je");
        },
        InstType::JL => {
            proof {
                reveal_strlit("jl");
            }
            push_str(s, "jl");
        },
        InstType::JLE => {
            proof {
                reveal_strlit("jle");
            }
            push_str(s, "jle");
        },
        InstType::JB => {
            proof {
                reveal_strlit("jb");
            }
            push_str(s, "jb");
        },
        InstType::JBE => {
            proof {
                reveal_strlit("jbe");
            }
            push_str(s, "jbe");
        },
        InstType::JP => {
            proof {
                reveal_strlit("jp");
            }
            push_str(s, "jp");
        },
        InstType::JO => {
            proof {
                reveal_strlit("jo");
            }
            push_str(s, "jo");
        },
        InstType::JS => {
            proof {
                reveal_strlit("js");
            }
            push_str(s, "js");
        },
        InstType::JNL => {
            proof {
                reveal_strlit("jnl");
            }
            push_str(s, "jnl");
        },
        InstType::JG => {
            proof {
                reveal_strlit("jg");
            }
            push_str(s, "jg");
        },
        InstType::JNB => {
            proof {
                reveal_strlit("jnb");
            }
            push_str(s, "jnb");
        },
        InstType::JA => {
            proof {
                reveal_strlit("ja");
            }
            push_str(s, "ja");
        },
        InstType::JNP => {
            proof {
                reveal_strlit("jnp");
            }
            push_str(s, "jnp");
        },
        InstType::JNO => {
            proof {
                reveal_strlit("jno");
            }
            push_str(s, "jno");
        },
        InstType::JNS => {
            proof {
                reveal_strlit("jns");
            }
            push_str(s, "jns");
        },
        InstType::LOOP => {
            proof {
                reveal_strlit("loop");
            }
            push_str(s, "loop");
        },
        InstType::LOOPZ => {
            proof {
                reveal_strlit("loopz");
            }
            push_str(s, "loopz");
        },
        InstType::LOOPNZ => {
            proof {
                reveal_strlit("loopnz");
            }
            push_str(s, "loopnz");
        },
        InstType::JCXZ => {
            proof {
                reveal_strlit("jcxz");
            }
            push_str(s, "jcxz");
        },
        InstType::Label(n) => {
            proof {
                reveal_strlit("label_");
                reveal_strlit(":");
            }
            push_str(s, "label_");
            crate::text::push_digits(s, n as u64, 10);
            push_str(s, ":");
            assert(s@ =~= old(s)@ + mnemonic(t));
        },
    }
}

/// An effective address: `[number]` for a direct address (unsigned),
/// `[base]` without displacement, else `[base + n]` or `[base - n]`.
pub open spec fn ea_text(ea: EffectiveAddress) -> Seq<char> {
    if ea.register == RegisterAddress::Empty {
        seq!['['] + decimal(unsigned16(ea.disp) as int) + seq![']']
    } else if ea.disp == 0 {
        seq!['['] + base_name(ea.register) + seq![']']
    } else if ea.disp > 0 {
        seq!['['] + base_name(ea.register) + seq![' ', '+', ' '] + decimal(ea.disp as int) + seq![']']
    } else {
        seq!['['] + base_name(ea.register) + seq![' ', '-', ' '] + decimal(-ea.disp) + seq![']']
    }
}

fn push_ea(s: &mut String, ea: EffectiveAddress)
    ensures
        final(s)@ == old(s)@ + ea_text(ea),
{
    proof {
        reveal_strlit("[");
        reveal_strlit("]");
        reveal_strlit(" + ");
        reveal_strlit(" - ");
    }
    push_str(s, "[");
    if ea.register == RegisterAddress::Empty {
        push_decimal(s, crate::machine::to_unsigned(ea.disp) as i64);
    } else {
        push_str(s, base_text(ea.register));
        if ea.disp > 0 {
            push_str(s, " + ");
            push_decimal(s, ea.disp as i64);
        } else if ea.disp < 0 {
            push_str(s, " - ");
            push_decimal(s, -(ea.disp as i64));
        }
    }
    push_str(s, "]");
    assert(s@ =~= old(s)@ + ea_text(ea));
}

pub open spec fn operand_text(o: OperandEncoding) -> Seq<char> {
    match o {
        OperandEncoding::Jmp { label, .. } => seq!['l', 'a', 'b', 'e', 'l', '_'] + decimal(label as int),
        OperandEncoding::Accumulator(OperandSize::Byte) => seq!['a', 'l'],
        OperandEncoding::Accumulator(OperandSize::Word) => seq!['a', 'x'],
        OperandEncoding::Immediate(v) => decimal(v as int),
        OperandEncoding::Register(r) => reg_name(r),
    }
}

fn push_operand(s: &mut String, o: OperandEncoding)
    ensures
        final(s)@ == old(s)@ + operand_text(o),
{
    match o {
        OperandEncoding::Jmp { label, .. } => {
            proof {
                reveal_strlit("label_");
            }
            push_str(s, "label_");
            crate::text::push_digits(s, label as u64, 10);
            assert(s@ =~= old(s)@ + operand_text(o));
        },
        OperandEncoding::Accumulator(OperandSize::Byte) => {
            proof {
                reveal_strlit("al");
            }
            push_str(s, "al");
        },
        OperandEncoding::Accumulator(OperandSize::Word) => {
            proof {
                reveal_strlit("ax");
            }
            push_str(s, "ax");
        },
        OperandEncoding::Immediate(v) => push_decimal(s, v as i64),
        OperandEncoding::Register(r) => push_str(s, register_name(r)),
    }
}

/// An operand; a memory operand of explicit size is prefixed `byte ` or `word `.
pub open spec fn encoding_text(e: Encoding) -> Seq<char> {
    match e {
        Encoding::Empty => seq![],
        Encoding::Operand(o) => operand_text(o),
        Encoding::Memory(ea, size, OperandType::Implicit) => ea_text(ea),
        Encoding::Memory(ea, OperandSize::Byte, OperandType::Explicit) => seq!['b', 'y', 't', 'e', ' '] + ea_text(ea),
        Encoding::Memory(ea, OperandSize::Word, OperandType::Explicit) => seq!['w', 'o', 'r', 'd', ' '] + ea_text(ea),
    }
}

fn push_encoding(s: &mut String, e: Encoding)
    ensures
        final(s)@ == old(s)@ + encoding_text(e),
{
    proof {
        reveal_strlit("byte ");
        reveal_strlit("word ");
    }
    match e {
        Encoding::Empty => {
            assert(s@ =~= old(s)@ + encoding_text(e));
        },
        Encoding::Operand(o) => push_operand(s, o),
        Encoding::Memory(ea, size, ty) => {
            if ty == OperandType::Explicit {
                if size == OperandSize::Byte {
                    push_str(s, "byte ");
                } else {
                    push_str(s, "word ");
                }
            }
            push_ea(s, ea);
            assert(s@ =~= old(s)@ + encoding_text(e));
        },
    }
}

/// `mnemonic`, `mnemonic lhs` or `mnemonic lhs, rhs`, as the operands are present.
pub open spec fn inst_text(i: Inst) -> Seq<char> {
    if i.lhs == Encoding::Empty {
        mnemonic(i.t)
    } else if i.rhs == Encoding::Empty {
        mnemonic(i.t) + seq![' '] + encoding_text(i.lhs)
    } else {
        mnemonic(i.t) + seq![' '] + encoding_text(i.lhs) + seq![',', ' '] + encoding_text(i.rhs)
    }
}

pub fn push_inst(s: &mut String, i: &Inst)
    ensures
        final(s)@ == old(s)@ + inst_text(*i),
{
    proof {
        reveal_strlit(" ");
        reveal_strlit(", ");
    }
    push_mnemonic(s, i.t);
    if i.lhs != Encoding::Empty {
        push_str(s, " ");
        push_encoding(s, i.lhs);
        if i.rhs != Encoding::Empty {
            push_str(s, ", ");
            push_encoding(s, i.rhs);
        }
    }
    assert(s@ =~= old(s)@ + inst_text(*i));
}

impl Inst {
    /// The instruction as a line of NASM source.
    pub fn text(&self) -> (r: String)
        ensures
            r@ == inst_text(*self),
    {
        let mut s = String::new();
        push_inst(&mut s, self);
        assert(s@ =~= inst_text(*self));
        s
    }
}

impl Register {
    pub fn text(&self) -> (r: String)
        ensures
            r@ == reg_name(*self),
    {
        let mut s = String::new();
        push_str(&mut s, register_name(*self));
        assert(s@ =~= reg_name(*self));
        s
    }
}

} // verus!

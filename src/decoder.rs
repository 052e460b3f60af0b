//! Byte-stream decoder: opcode families, instruction framing, jump labels
//! and the ordered listing.
use vstd::prelude::*;
use crate::ast::{
    EffectiveAddress, Encoding, Inst, InstType, OperandEncoding, OperandSize, OperandType,
    Register, RegisterAddress,
};
use crate::text::{binary_text, digits};

verus! {

/// Opcode families, told apart by the high-order bits of the first byte.
#[derive(Debug, Clone, Copy, PartialEq, Eq, Structural)]
pub enum Family {
    /// register to or from register/memory
    RM,
    /// immediate to register/memory
    IM,
    /// immediate to register
    IR,
    /// accumulator with memory or immediate
    MA,
    /// short jumps and loops
    JP,
}

pub open spec fn rm_name(b0: u8) -> Option<InstType> {
    let p = b0 / 4;
    if p == 0 {
        Some(InstType::ADD)
    } else if p == 10 {
        Some(InstType::SUB)
    } else if p == 34 {
        Some(InstType::MOV)
    } else if p == 14 {
        Some(InstType::CMP)
    } else {
        None
    }
}

pub open spec fn is_ir(b0: u8) -> bool {
    b0 / 16 == 11
}

/// `1100011w` (MOV) or `100000sw` (ADD/SUB/CMP by the reg field).
pub open spec fn is_im(b0: u8) -> bool {
    b0 / 2 == 99 || b0 / 4 == 32
}

pub open spec fn ma_name(b0: u8) -> Option<InstType> {
    if b0 / 4 == 40 {
        Some(InstType::MOV)
    } else if b0 / 2 == 2 {
        Some(InstType::ADD)
    } else if b0 / 2 == 22 {
        Some(InstType::SUB)
    } else if b0 / 2 == 30 {
        Some(InstType::CMP)
    } else {
        None
    }
}

pub open spec fn jump_name(b0: u8) -> Option<InstType> {
    if b0 == 0x75 { Some(InstType::JNZ) }
    else if b0 == 0x74 { Some(InstType::JE) }
    else if b0 == 0x7c { Some(InstType::JL) }
    else if b0 == 0x7e { Some(InstType::JLE) }
    else if b0 == 0x72 { Some(InstType::JB) }
    else if b0 == 0x76 { Some(InstType::JBE) }
    else if b0 == 0x7a { Some(InstType::JP) }
    else if b0 == 0x70 { Some(InstType::JO) }
    else if b0 == 0x78 { Some(InstType::JS) }
    else if b0 == 0x7d { Some(InstType::JNL) }
    else if b0 == 0x7f { Some(InstType::JG) }
    else if b0 == 0x73 { Some(InstType::JNB) }
    else if b0 == 0x77 { Some(InstType::JA) }
    else if b0 == 0x7b { Some(InstType::JNP) }
    else if b0 == 0x71 { Some(InstType::JNO) }
    else if b0 == 0x79 { Some(InstType::JNS) }
    else if b0 == 0xe2 { Some(InstType::LOOP) }
    else if b0 == 0xe1 { Some(InstType::LOOPZ) }
    else if b0 == 0xe0 { Some(InstType::LOOPNZ) }
    else if b0 == 0xe3 { Some(InstType::JCXZ) }
    else { None }
}

/// The family of an opcode, tried in the order RM, IR, IM, MA, JP.
pub open spec fn family(b0: u8) -> Option<Family> {
    if rm_name(b0) is Some {
        Some(Family::RM)
    } else if is_ir(b0) {
        Some(Family::IR)
    } else if is_im(b0) {
        Some(Family::IM)
    } else if ma_name(b0) is Some {
        Some(Family::MA)
    } else if jump_name(b0) is Some {
        Some(Family::JP)
    } else {
        None
    }
}

pub open spec fn has_modrm(b0: u8) -> bool {
    family(b0) == Some(Family::RM) || family(b0) == Some(Family::IM)
}

/// Displacement bytes that follow a ModR/M byte.
pub open spec fn disp_len(b1: u8) -> nat {
    let m = b1 / 64;
    if m == 0 {
        if b1 % 8 == 6 { 2 } else { 0 }
    } else if m == 1 {
        1
    } else if m == 2 {
        2
    } else {
        0
    }
}

/// The operation of an immediate-to-r/m opcode; `None` for a reserved sub-op.
pub open spec fn im_name(b0: u8, b1: u8) -> Option<InstType> {
    let reg = (b1 / 8) % 8;
    if b0 / 2 == 99 {
        Some(InstType::MOV)
    } else if reg == 0 {
        Some(InstType::ADD)
    } else if reg == 5 {
        Some(InstType::SUB)
    } else if reg == 7 {
        Some(InstType::CMP)
    } else {
        None
    }
}

/// Immediate bytes of an immediate-to-r/m instruction: 2 for a word without
/// sign extension (MOV looks at `w` alone), else 1.
pub open spec fn im_data_len(b0: u8) -> nat {
    let w = b0 % 2;
    let s = (b0 / 2) % 2;
    if b0 / 2 == 99 {
        if w == 1 { 2 } else { 1 }
    } else if s == 0 && w == 1 {
        2
    } else {
        1
    }
}

/// Encoded length of the instruction that starts with `b0` (and ModR/M byte `b1`);
/// an unknown opcode takes one byte.
pub open spec fn inst_len(b0: u8, b1: u8) -> nat {
    match family(b0) {
        Some(Family::RM) => 2 + disp_len(b1),
        Some(Family::IM) => 2 + disp_len(b1) + im_data_len(b0),
        Some(Family::IR) => (2 + (b0 / 8) % 2) as nat,
        Some(Family::MA) => (2 + b0 % 2) as nat,
        Some(Family::JP) => 2,
        None => 1,
    }
}

pub open spec fn ill_formed(b0: u8, b1: u8) -> bool {
    family(b0) == Some(Family::IM) && im_name(b0, b1) is None
}

/// The byte after `ip`, or 0 past the end.
pub open spec fn second(bytes: Seq<u8>, ip: int) -> u8 {
    if 0 <= ip + 1 < bytes.len() {
        bytes[ip + 1]
    } else {
        0
    }
}

/// Every instruction from `ip` on is complete and well formed.
pub open spec fn decodable_from(bytes: Seq<u8>, ip: int) -> bool
    decreases bytes.len() - ip,
{
    if ip < 0 || ip >= bytes.len() {
        true
    } else {
        let b0 = bytes[ip];
        let n = inst_len(b0, second(bytes, ip));
        &&& ip + n <= bytes.len()
        &&& !ill_formed(b0, second(bytes, ip))
        &&& decodable_from(bytes, ip + n)
    }
}

/// The input holds no truncated instruction and no reserved sub-operation.
pub open spec fn decodable(bytes: Seq<u8>) -> bool {
    decodable_from(bytes, 0)
}

pub open spec fn sext8(b: u8) -> int {
    if b >= 128 {
        b - 256
    } else {
        b as int
    }
}

/// A little-endian word read as a signed 16-bit value.
pub open spec fn word16(lo: u8, hi: u8) -> int {
    let w = hi * 256 + lo;
    if w >= 32768 {
        w - 65536
    } else {
        w
    }
}

/// What a listing row holds: its IP, its encoded bytes (none for a label)
/// and its label number (0 for an instruction that is not a jump).
pub struct RowView {
    pub ip: int,
    pub bytes: Seq<u8>,
    pub label: nat,
}

pub open spec fn row_wf(v: RowView) -> bool {
    if v.bytes.len() == 0 {
        1 <= v.label <= usize::MAX
    } else {
        let b0 = v.bytes[0];
        &&& family(b0) is Some
        &&& v.bytes.len() == inst_len(b0, second(v.bytes, 0))
        &&& !ill_formed(b0, second(v.bytes, 0))
        &&& v.label <= usize::MAX
    }
}

/// The r/m operand of a two-byte opcode.
pub open spec fn rm_operand(enc: Seq<u8>, w: u8, size: OperandSize, ty: OperandType) -> Encoding {
    let b1 = enc[1];
    let m = b1 / 64;
    let rm = b1 % 8;
    if m == 3 {
        Encoding::Operand(OperandEncoding::Register(Register::spec_from(rm, w)))
    } else if m == 0 && rm == 6 {
        Encoding::Memory(
            EffectiveAddress { register: RegisterAddress::Empty, disp: word16(enc[2], enc[3]) as i16 },
            size,
            ty,
        )
    } else {
        let disp = if m == 0 {
            0
        } else if m == 1 {
            sext8(enc[2])
        } else {
            word16(enc[2], enc[3])
        };
        Encoding::Memory(
            EffectiveAddress { register: RegisterAddress::spec_from(rm), disp: disp as i16 },
            size,
            ty,
        )
    }
}

pub open spec fn rm_inst(enc: Seq<u8>) -> Inst {
    let b0 = enc[0];
    let w = b0 % 2;
    let reg = Register::spec_from((enc[1] / 8) % 8, w);
    let r = Encoding::Operand(OperandEncoding::Register(reg));
    let m = rm_operand(enc, w, reg.spec_size(), OperandType::Implicit);
    let d = (b0 / 2) % 2 == 1;
    Inst {
        t: rm_name(b0)->Some_0,
        lhs: if d { r } else { m },
        rhs: if d { m } else { r },
        length: enc.len() as usize,
    }
}

pub open spec fn im_inst(enc: Seq<u8>) -> Inst {
    let b0 = enc[0];
    let w = b0 % 2;
    let di = 2 + disp_len(enc[1]) as int;
    let imm = if im_data_len(b0) == 2 { word16(enc[di], enc[di + 1]) } else { sext8(enc[di]) };
    Inst {
        t: im_name(b0, enc[1])->Some_0,
        lhs: rm_operand(enc, w, OperandSize::of_w(w), OperandType::Explicit),
        rhs: Encoding::Operand(OperandEncoding::Immediate(imm as i16)),
        length: enc.len() as usize,
    }
}

pub open spec fn ir_inst(enc: Seq<u8>) -> Inst {
    let b0 = enc[0];
    let w = (b0 / 8) % 2;
    let imm = if w == 1 { word16(enc[1], enc[2]) } else { sext8(enc[1]) };
    Inst {
        t: InstType::MOV,
        lhs: Encoding::Operand(OperandEncoding::Register(Register::spec_from(b0 % 8, w))),
        rhs: Encoding::Operand(OperandEncoding::Immediate(imm as i16)),
        length: enc.len() as usize,
    }
}

pub open spec fn ma_inst(enc: Seq<u8>) -> Inst {
    let b0 = enc[0];
    let w = b0 % 2;
    let val = if w == 1 { word16(enc[1], enc[2]) } else { sext8(enc[1]) };
    let acc = Encoding::Operand(OperandEncoding::Accumulator(OperandSize::of_w(w)));
    let t = ma_name(b0)->Some_0;
    if t == InstType::MOV {
        let mem = Encoding::Memory(
            EffectiveAddress { register: RegisterAddress::Empty, disp: val as i16 },
            OperandSize::of_w(w),
            OperandType::Implicit,
        );
        let d = (b0 / 2) % 2 == 1;
        Inst { t, lhs: if d { mem } else { acc }, rhs: if d { acc } else { mem }, length: enc.len() as usize }
    } else {
        Inst {
            t,
            lhs: acc,
            rhs: Encoding::Operand(OperandEncoding::Immediate(val as i16)),
            length: enc.len() as usize,
        }
    }
}

pub open spec fn jp_inst(enc: Seq<u8>, label: nat) -> Inst {
    Inst {
        t: jump_name(enc[0])->Some_0,
        lhs: Encoding::Operand(OperandEncoding::Jmp { offset: sext8(enc[1]) as i8, label: label as usize }),
        rhs: Encoding::Empty,
        length: enc.len() as usize,
    }
}

/// The instruction that a listing row stands for.
pub open spec fn inst_of(v: RowView) -> Inst {
    if v.bytes.len() == 0 {
        Inst { t: InstType::Label(v.label as usize), lhs: Encoding::Empty, rhs: Encoding::Empty, length: 0 }
    } else {
        match family(v.bytes[0]) {
            Some(Family::RM) => rm_inst(v.bytes),
            Some(Family::IM) => im_inst(v.bytes),
            Some(Family::IR) => ir_inst(v.bytes),
            Some(Family::MA) => ma_inst(v.bytes),
            _ => jp_inst(v.bytes, v.label),
        }
    }
}

/// Number of the label of `t`: one more than its position in `labels`, or 0 if absent.
pub open spec fn lookup(labels: Seq<i64>, t: i64) -> nat
    decreases labels.len(),
{
    if labels.len() == 0 {
        0
    } else if labels.last() == t {
        labels.len()
    } else {
        lookup(labels.drop_last(), t)
    }
}

/// The label row for target `t`: it stands one byte before the target.
pub open spec fn label_row(t: int, k: nat) -> RowView {
    RowView { ip: t - 1, bytes: seq![], label: k }
}

/// Rows in the order the decoder meets them, from `ip` on, with the label
/// targets `labels` already numbered.
pub open spec fn scan(bytes: Seq<u8>, ip: int, labels: Seq<i64>) -> Seq<Result<RowView, u8>>
    decreases bytes.len() - ip,
{
    if ip < 0 || ip >= bytes.len() {
        seq![]
    } else {
        let b0 = bytes[ip];
        if family(b0) is None {
            seq![Err(b0)] + scan(bytes, ip + 1, labels)
        } else {
            let n = inst_len(b0, second(bytes, ip));
            if ip + n > bytes.len() {
                seq![]
            } else {
                let enc = bytes.subrange(ip, ip + n);
                if family(b0) == Some(Family::JP) {
                    let t = (ip + 2 + sext8(bytes[ip + 1])) as i64;
                    let k = lookup(labels, t);
                    if k != 0 {
                        seq![Ok(RowView { ip, bytes: enc, label: k })] + scan(bytes, ip + n, labels)
                    } else {
                        let fresh = labels.len() + 1;
                        seq![Ok(label_row(t as int, fresh)), Ok(RowView { ip, bytes: enc, label: fresh })]
                            + scan(bytes, ip + n, labels.push(t))
                    }
                } else {
                    seq![Ok(RowView { ip, bytes: enc, label: 0 })] + scan(bytes, ip + n, labels)
                }
            }
        }
    }
}

/// For each row: `None` for a decoded row, the offending byte for an error.
pub open spec fn kinds_of(raw: Seq<Result<RowView, u8>>) -> Seq<Option<u8>> {
    raw.map_values(|r: Result<RowView, u8>| match r {
        Ok(_) => None,
        Err(b) => Some(b),
    })
}

/// The decoded rows, in order.
pub open spec fn oks(raw: Seq<Result<RowView, u8>>) -> Seq<RowView>
    decreases raw.len(),
{
    if raw.len() == 0 {
        seq![]
    } else {
        let p = oks(raw.drop_last());
        match raw.last() {
            Ok(v) => p.push(v),
            Err(_) => p,
        }
    }
}

/// Inserts `x` after every row whose IP is at most its own.
pub open spec fn insert_by_ip(s: Seq<RowView>, x: RowView) -> Seq<RowView>
    decreases s.len(),
{
    if s.len() == 0 {
        seq![x]
    } else if s.last().ip <= x.ip {
        s.push(x)
    } else {
        insert_by_ip(s.drop_last(), x).push(s.last())
    }
}

/// Stable sort by IP.
pub open spec fn sort_by_ip(s: Seq<RowView>) -> Seq<RowView>
    decreases s.len(),
{
    if s.len() == 0 {
        seq![]
    } else {
        insert_by_ip(sort_by_ip(s.drop_last()), s.last())
    }
}

/// Error rows stay in their slots; the other slots take `sorted` in order.
pub open spec fn place(kinds: Seq<Option<u8>>, sorted: Seq<RowView>) -> Seq<Result<RowView, u8>>
    decreases kinds.len(),
{
    if kinds.len() == 0 {
        seq![]
    } else {
        match kinds[0] {
            Some(b) => seq![Err(b)] + place(kinds.skip(1), sorted),
            None => seq![Ok(sorted[0])] + place(kinds.skip(1), sorted.skip(1)),
        }
    }
}

/// The decoder's listing: rows in meeting order, decoded rows stably sorted
/// by IP around the error rows.
pub open spec fn listing(bytes: Seq<u8>) -> Seq<Result<RowView, u8>> {
    let raw = scan(bytes, 0, seq![]);
    place(kinds_of(raw), sort_by_ip(oks(raw)))
}

/// A decoded row, as handed out by [`decode`].
pub struct Asm {
    ip: i64,
    bytes: Vec<u8>,
    label: usize,
}

impl View for Asm {
    type V = RowView;

    closed spec fn view(&self) -> RowView {
        RowView { ip: self.ip as int, bytes: self.bytes@, label: self.label as nat }
    }
}

pub open spec fn views(v: Seq<Asm>) -> Seq<RowView> {
    v.map_values(|a: Asm| a@)
}

/// An output row against its model: the same row, or an error that spells the
/// offending byte in binary.
pub open spec fn row_matches(r: Result<Asm, String>, m: Result<RowView, u8>) -> bool {
    match (r, m) {
        (Ok(a), Ok(v)) => a@ == v,
        (Err(s), Err(b)) => s@ == digits(b as nat, 2),
        _ => false,
    }
}

pub open spec fn rows_match(r: Seq<Result<Asm, String>>, m: Seq<Result<RowView, u8>>) -> bool {
    &&& r.len() == m.len()
    &&& forall|i: int| 0 <= i < r.len() ==> row_matches(#[trigger] r[i], m[i])
}

impl Asm {
    #[verifier::type_invariant]
    spec fn inv(self) -> bool {
        row_wf(self@)
    }

    /// IP of the row: the byte offset of an instruction, or one less than a
    /// label's target.
    pub fn ip(&self) -> (r: i64)
        ensures
            r == self@.ip,
    {
        self.ip
    }

    pub fn is_label(&self) -> (r: bool)
        ensures
            r == (self@.bytes.len() == 0),
    {
        self.bytes.len() == 0
    }

    /// The encoded bytes of the instruction (none for a label).
    pub fn encoded(&self) -> (r: &Vec<u8>)
        ensures
            r@ == self@.bytes,
    {
        &self.bytes
    }

    /// The instruction this row stands for.
    pub fn decode(&self) -> (r: Inst)
        ensures
            r == inst_of(self@),
    {
        proof {
            use_type_invariant(self);
        }
        if self.bytes.len() == 0 {
            Inst::new(InstType::Label(self.label), Encoding::Empty, Encoding::Empty, 0)
        } else {
            match family_of(self.bytes[0]) {
                Some(Family::RM) => decode_rm(&self.bytes),
                Some(Family::IM) => decode_im(&self.bytes),
                Some(Family::IR) => decode_ir(&self.bytes),
                Some(Family::MA) => decode_ma(&self.bytes),
                _ => decode_jp(&self.bytes, self.label),
            }
        }
    }
}

fn rm_name_of(b0: u8) -> (r: Option<InstType>)
    ensures
        r == rm_name(b0),
{
    match b0 / 4 {
        0 => Some(InstType::ADD),
        10 => Some(InstType::SUB),
        34 => Some(InstType::MOV),
        14 => Some(InstType::CMP),
        _ => None,
    }
}

fn ma_name_of(b0: u8) -> (r: Option<InstType>)
    ensures
        r == ma_name(b0),
{
    if b0 / 4 == 40 {
        Some(InstType::MOV)
    } else if b0 / 2 == 2 {
        Some(InstType::ADD)
    } else if b0 / 2 == 22 {
        Some(InstType::SUB)
    } else if b0 / 2 == 30 {
        Some(InstType::CMP)
    } else {
        None
    }
}

fn jump_name_of(b0: u8) -> (r: Option<InstType>)
    ensures
        r == jump_name(b0),
{
    match b0 {
        0x75 => Some(InstType::JNZ),
        0x74 => Some(InstType::JE),
        0x7c => Some(InstType::JL),
        0x7e => Some(InstType::JLE),
        0x72 => Some(InstType::JB),
        0x76 => Some(InstType::JBE),
        0x7a => Some(InstType::JP),
        0x70 => Some(InstType::JO),
        0x78 => Some(InstType::JS),
        0x7d => Some(InstType::JNL),
        0x7f => Some(InstType::JG),
        0x73 => Some(InstType::JNB),
        0x77 => Some(InstType::JA),
        0x7b => Some(InstType::JNP),
        0x71 => Some(InstType::JNO),
        0x79 => Some(InstType::JNS),
        0xe2 => Some(InstType::LOOP),
        0xe1 => Some(InstType::LOOPZ),
        0xe0 => Some(InstType::LOOPNZ),
        0xe3 => Some(InstType::JCXZ),
        _ => None,
    }
}

fn im_name_of(b0: u8, b1: u8) -> (r: Option<InstType>)
    ensures
        r == im_name(b0, b1),
{
    let reg = (b1 / 8) % 8;
    if b0 / 2 == 99 {
        Some(InstType::MOV)
    } else if reg == 0 {
        Some(InstType::ADD)
    } else if reg == 5 {
        Some(InstType::SUB)
    } else if reg == 7 {
        Some(InstType::CMP)
    } else {
        None
    }
}

/// The family of an opcode byte.
pub fn family_of(b0: u8) -> (r: Option<Family>)
    ensures
        r == family(b0),
{
    if rm_name_of(b0).is_some() {
        Some(Family::RM)
    } else if b0 / 16 == 11 {
        Some(Family::IR)
    } else if b0 / 2 == 99 || b0 / 4 == 32 {
        Some(Family::IM)
    } else if ma_name_of(b0).is_some() {
        Some(Family::MA)
    } else if jump_name_of(b0).is_some() {
        Some(Family::JP)
    } else {
        None
    }
}

fn disp_len_of(b1: u8) -> (r: usize)
    ensures
        r == disp_len(b1),
{
    let m = b1 / 64;
    if m == 0 {
        if b1 % 8 == 6 { 2 } else { 0 }
    } else if m == 1 {
        1
    } else if m == 2 {
        2
    } else {
        0
    }
}

fn im_data_len_of(b0: u8) -> (r: usize)
    ensures
        r == im_data_len(b0),
{
    let w = b0 % 2;
    let s = (b0 / 2) % 2;
    if b0 / 2 == 99 {
        if w == 1 { 2 } else { 1 }
    } else if s == 0 && w == 1 {
        2
    } else {
        1
    }
}

/// Encoded length of the instruction that starts with `b0` and `b1`.
pub fn inst_len_of(b0: u8, b1: u8) -> (r: usize)
    ensures
        r == inst_len(b0, b1),
        family(b0) is Some ==> r >= 2,
        r <= 6,
{
    match family_of(b0) {
        Some(Family::RM) => 2 + disp_len_of(b1),
        Some(Family::IM) => 2 + disp_len_of(b1) + im_data_len_of(b0),
        Some(Family::IR) => 2 + ((b0 / 8) % 2) as usize,
        Some(Family::MA) => 2 + (b0 % 2) as usize,
        Some(Family::JP) => 2,
        None => 1,
    }
}

fn sext8_of(b: u8) -> (r: i16)
    ensures
        r == sext8(b),
{
    if b >= 128 {
        b as i16 - 256
    } else {
        b as i16
    }
}

fn word16_of(lo: u8, hi: u8) -> (r: i16)
    ensures
        r == word16(lo, hi),
{
    let w: u32 = hi as u32 * 256 + lo as u32;
    if w >= 32768 {
        (w as i32 - 65536) as i16
    } else {
        w as i16
    }
}

fn rm_operand_of(enc: &Vec<u8>, w: u8, size: OperandSize, ty: OperandType) -> (r: Encoding)
    requires
        enc@.len() >= 2 + disp_len(enc@[1]),
    ensures
        r == rm_operand(enc@, w, size, ty),
{
    let b1 = enc[1];
    let m = b1 / 64;
    let rm = b1 % 8;
    if m == 3 {
        Encoding::Operand(OperandEncoding::register(rm, w))
    } else if m == 0 && rm == 6 {
        Encoding::Memory(
            EffectiveAddress::new(RegisterAddress::Empty, word16_of(enc[2], enc[3])),
            size,
            ty,
        )
    } else {
        let disp: i16 = if m == 0 {
            0
        } else if m == 1 {
            sext8_of(enc[2])
        } else {
            word16_of(enc[2], enc[3])
        };
        Encoding::Memory(EffectiveAddress::new(RegisterAddress::from(rm), disp), size, ty)
    }
}

fn decode_rm(enc: &Vec<u8>) -> (r: Inst)
    requires
        enc@.len() >= 2,
        row_wf(RowView { ip: 0, bytes: enc@, label: 0 }),
        family(enc@[0]) == Some(Family::RM),
    ensures
        r == rm_inst(enc@),
{
    let b0 = enc[0];
    let w = b0 % 2;
    let reg = Register::from((enc[1] / 8) % 8, w);
    let r = Encoding::Operand(OperandEncoding::Register(reg));
    let m = rm_operand_of(enc, w, reg.size(), OperandType::Implicit);
    let t = match rm_name_of(b0) {
        Some(t) => t,
        None => InstType::MOV,
    };
    if (b0 / 2) % 2 == 1 {
        Inst::new(t, r, m, enc.len())
    } else {
        Inst::new(t, m, r, enc.len())
    }
}

fn decode_im(enc: &Vec<u8>) -> (r: Inst)
    requires
        enc@.len() >= 2,
        row_wf(RowView { ip: 0, bytes: enc@, label: 0 }),
        family(enc@[0]) == Some(Family::IM),
    ensures
        r == im_inst(enc@),
{
    let b0 = enc[0];
    let w = b0 % 2;
    let di = 2 + disp_len_of(enc[1]);
    let imm = if im_data_len_of(b0) == 2 {
        word16_of(enc[di], enc[di + 1])
    } else {
        sext8_of(enc[di])
    };
    let size = if w == 1 { OperandSize::Word } else { OperandSize::Byte };
    let t = match im_name_of(b0, enc[1]) {
        Some(t) => t,
        None => InstType::MOV,
    };
    Inst::new(
        t,
        rm_operand_of(enc, w, size, OperandType::Explicit),
        Encoding::Operand(OperandEncoding::Immediate(imm)),
        enc.len(),
    )
}

fn decode_ir(enc: &Vec<u8>) -> (r: Inst)
    requires
        row_wf(RowView { ip: 0, bytes: enc@, label: 0 }),
        enc@.len() >= 1,
        family(enc@[0]) == Some(Family::IR),
    ensures
        r == ir_inst(enc@),
{
    let b0 = enc[0];
    let w = (b0 / 8) % 2;
    let imm = if w == 1 { word16_of(enc[1], enc[2]) } else { sext8_of(enc[1]) };
    Inst::new(
        InstType::MOV,
        Encoding::Operand(OperandEncoding::register(b0 % 8, w)),
        Encoding::Operand(OperandEncoding::Immediate(imm)),
        enc.len(),
    )
}

fn decode_ma(enc: &Vec<u8>) -> (r: Inst)
    requires
        row_wf(RowView { ip: 0, bytes: enc@, label: 0 }),
        enc@.len() >= 1,
        family(enc@[0]) == Some(Family::MA),
    ensures
        r == ma_inst(enc@),
{
    let b0 = enc[0];
    let w = b0 % 2;
    let val = if w == 1 { word16_of(enc[1], enc[2]) } else { sext8_of(enc[1]) };
    let size = if w == 1 { OperandSize::Word } else { OperandSize::Byte };
    let acc = Encoding::Operand(OperandEncoding::Accumulator(size));
    let t = match ma_name_of(b0) {
        Some(t) => t,
        None => InstType::MOV,
    };
    if t == InstType::MOV {
        let mem = Encoding::Memory(
            EffectiveAddress::new(RegisterAddress::Empty, val),
            size,
            OperandType::Implicit,
        );
        if (b0 / 2) % 2 == 1 {
            Inst::new(t, mem, acc, enc.len())
        } else {
            Inst::new(t, acc, mem, enc.len())
        }
    } else {
        Inst::new(t, acc, Encoding::Operand(OperandEncoding::Immediate(val)), enc.len())
    }
}

fn decode_jp(enc: &Vec<u8>, label: usize) -> (r: Inst)
    requires
        row_wf(RowView { ip: 0, bytes: enc@, label: label as nat }),
        enc@.len() >= 1,
        family(enc@[0]) == Some(Family::JP),
    ensures
        r == jp_inst(enc@, label as nat),
{
    let t = match jump_name_of(enc[0]) {
        Some(t) => t,
        None => InstType::JNZ,
    };
    let offset = sext8_of(enc[1]) as i8;
    Inst::new(t, Encoding::Operand(OperandEncoding::Jmp { offset, label }), Encoding::Empty, enc.len())
}

/// The position of `x` in a row sequence sorted by IP: after every row whose IP
/// is at most its own.
proof fn lemma_insert_at(s: Seq<RowView>, x: RowView, j: int)
    requires
        0 <= j <= s.len(),
        forall|k: int| j <= k < s.len() ==> s[k].ip > x.ip,
        j == 0 || s[j - 1].ip <= x.ip,
    ensures
        insert_by_ip(s, x) == s.insert(j, x),
    decreases s.len(),
{
    if s.len() == 0 {
        assert(insert_by_ip(s, x) =~= s.insert(j, x));
    } else if j == s.len() {
        assert(insert_by_ip(s, x) =~= s.insert(j, x));
    } else {
        lemma_insert_at(s.drop_last(), x, j);
        assert(insert_by_ip(s, x) =~= s.insert(j, x));
    }
}

fn insert_row(sorted: &mut Vec<Asm>, x: Asm)
    ensures
        views(final(sorted)@) == insert_by_ip(views(old(sorted)@), x@),
{
    let ghost s = views(sorted@);
    let mut j: usize = sorted.len();
    while j > 0 && sorted[j - 1].ip > x.ip
        invariant
            j <= sorted@.len(),
            s == views(sorted@),
            forall|k: int| j <= k < s.len() ==> s[k].ip > x@.ip,
        decreases j,
    {
        j = j - 1;
    }
    proof {
        lemma_insert_at(s, x@, j as int);
    }
    sorted.insert(j, x);
    assert(views(sorted@) =~= s.insert(j as int, x@));
}

fn find_label(labels: &Vec<i64>, t: i64) -> (r: usize)
    ensures
        r == lookup(labels@, t),
{
    let mut j: usize = labels.len();
    assert(labels@.take(j as int) =~= labels@);
    while j > 0
        invariant
            j <= labels@.len(),
            lookup(labels@, t) == lookup(labels@.take(j as int), t),
        decreases j,
    {
        assert(labels@.take(j as int).drop_last() =~= labels@.take(j - 1));
        if labels[j - 1] == t {
            return j;
        }
        j = j - 1;
    }
    j
}

fn copy_range(bytes: &Vec<u8>, start: usize, end: usize) -> (r: Vec<u8>)
    requires
        start <= end <= bytes@.len(),
    ensures
        r@ == bytes@.subrange(start as int, end as int),
{
    let mut r: Vec<u8> = Vec::new();
    let mut i = start;
    while i < end
        invariant
            start <= i <= end <= bytes@.len(),
            r@ == bytes@.subrange(start as int, i as int),
        decreases end - i,
    {
        r.push(bytes[i]);
        i = i + 1;
        assert(r@ =~= bytes@.subrange(start as int, i as int));
    }
    r
}

/// Whether every instruction of `bytes` is complete and well formed, so that
/// [`decode`] accepts it.
pub fn is_decodable(bytes: &Vec<u8>) -> (r: bool)
    ensures
        r == decodable(bytes@),
{
    let mut ip: usize = 0;
    while ip < bytes.len()
        invariant
            ip <= bytes@.len(),
            decodable(bytes@) == decodable_from(bytes@, ip as int),
        decreases bytes@.len() - ip,
    {
        let b0 = bytes[ip];
        let b1 = if ip + 1 < bytes.len() { bytes[ip + 1] } else { 0 };
        let n = inst_len_of(b0, b1);
        if n > bytes.len() - ip {
            return false;
        }
        if family_of(b0) == Some(Family::IM) && im_name_of(b0, b1).is_none() {
            return false;
        }
        ip = ip + n;
    }
    true
}

proof fn lemma_sort_push(s: Seq<RowView>, v: RowView)
    ensures
        sort_by_ip(s.push(v)) == insert_by_ip(sort_by_ip(s), v),
{
    assert(s.push(v).drop_last() =~= s);
}

proof fn lemma_push_ok(raw: Seq<Result<RowView, u8>>, x: Result<RowView, u8>)
    ensures
        kinds_of(raw.push(x)) == kinds_of(raw).push(
            match x {
                Ok(_) => None,
                Err(b) => Some(b),
            },
        ),
        oks(raw.push(x)) == match x {
            Ok(v) => oks(raw).push(v),
            Err(_) => oks(raw),
        },
        sort_by_ip(oks(raw.push(x))) == match x {
            Ok(v) => insert_by_ip(sort_by_ip(oks(raw)), v),
            Err(_) => sort_by_ip(oks(raw)),
        },
{
    if let Ok(v) = x {
        lemma_sort_push(oks(raw), v);
    }
    assert(raw.push(x).drop_last() =~= raw);
    assert(kinds_of(raw.push(x)) =~= kinds_of(raw).push(
        match x {
            Ok(_) => None,
            Err(b) => Some(b),
        },
    ));
}

/// Decodes a byte image into its listing: one row per instruction, error or
/// synthesized label, with the decoded rows stably sorted by IP around the
/// error rows, which keep their slots.
pub fn decode(bytes: &Vec<u8>) -> (r: Vec<Result<Asm, String>>)
    requires
        decodable(bytes@),
        bytes@.len() < 0x4000_0000_0000_0000,
    ensures
        rows_match(r@, listing(bytes@)),
{
    let ghost total = scan(bytes@, 0, seq![]);
    let mut ip: usize = 0;
    let mut labels: Vec<i64> = Vec::new();
    let mut kinds: Vec<Option<u8>> = Vec::new();
    let mut sorted: Vec<Asm> = Vec::new();
    let ghost mut raw: Seq<Result<RowView, u8>> = seq![];
    assert(raw + scan(bytes@, 0, labels@) =~= total);
    while ip < bytes.len()
        invariant
            ip <= bytes@.len(),
            bytes@.len() < 0x4000_0000_0000_0000,
            decodable_from(bytes@, ip as int),
            total == scan(bytes@, 0, seq![]),
            raw + scan(bytes@, ip as int, labels@) == total,
            kinds@ == kinds_of(raw),
            views(sorted@) == sort_by_ip(oks(raw)),
            labels@.len() <= ip,
        decreases bytes@.len() - ip,
    {
        let b0 = bytes[ip];
        let ghost before = raw;
        let ghost old_labels = labels@;
        match family_of(b0) {
            None => {
                kinds.push(Some(b0));
                proof {
                    lemma_push_ok(raw, Err(b0));
                    raw = raw.push(Err(b0));
                }
                ip = ip + 1;
                assert(raw + scan(bytes@, ip as int, labels@) =~= before + scan(bytes@, ip - 1, labels@));
            },
            Some(f) => {
                let b1 = if ip + 1 < bytes.len() { bytes[ip + 1] } else { 0 };
                let n = inst_len_of(b0, b1);
                let enc = copy_range(bytes, ip, ip + n);
                let ghost start = ip as int;
                if f == Family::JP {
                    let t: i64 = ip as i64 + 2 + sext8_of(b1) as i64;
                    let mut k = find_label(&labels, t);
                    if k == 0 {
                        labels.push(t);
                        k = labels.len();
                        let row = Asm { ip: t - 1, bytes: Vec::new(), label: k };
                        kinds.push(None);
                        proof {
                            lemma_push_ok(raw, Ok(row@));
                            raw = raw.push(Ok(row@));
                        }
                        insert_row(&mut sorted, row);
                    }
                    let a = Asm { ip: ip as i64, bytes: enc, label: k };
                    kinds.push(None);
                    proof {
                        lemma_push_ok(raw, Ok(a@));
                        raw = raw.push(Ok(a@));
                    }
                    insert_row(&mut sorted, a);
                } else {
                    let a = Asm { ip: ip as i64, bytes: enc, label: 0 };
                    kinds.push(None);
                    proof {
                        lemma_push_ok(raw, Ok(a@));
                        raw = raw.push(Ok(a@));
                    }
                    insert_row(&mut sorted, a);
                }
                ip = ip + n;
                assert(raw + scan(bytes@, ip as int, labels@) =~= before + scan(bytes@, start, old_labels));
            },
        }
    }
    assert(raw =~= total);
    proof {
        lemma_raw_split(raw);
        lemma_sort_total(oks(raw));
    }
    let ghost all = sort_by_ip(oks(raw));
    let ghost kinds_all = kinds@;
    let mut rev: Vec<Asm> = Vec::new();
    while sorted.len() > 0
        invariant
            views(sorted@) + views(rev@).reverse() == all,
        decreases sorted@.len(),
    {
        let a = sorted.pop().unwrap();
        rev.push(a);
        assert(views(sorted@) + views(rev@).reverse() =~= all);
    }
    assert(views(rev@).reverse() =~= all);
    let mut out: Vec<Result<Asm, String>> = Vec::new();
    let ghost mut done: Seq<Result<RowView, u8>> = seq![];
    let mut i: usize = 0;
    let ghost mut used: int = 0;
    assert(all.skip(0) =~= all);
    assert(kinds_all.skip(0) =~= kinds_all);
    assert(done + place(kinds_all.skip(0), all.skip(0)) =~= place(kinds_all, all));
    while i < kinds.len()
        invariant
            i <= kinds@.len(),
            kinds@ == kinds_all,
            0 <= used <= all.len(),
            views(rev@).reverse() == all.skip(used),
            free_slots(kinds_all.skip(i as int)) == rev@.len(),
            rows_match(out@, done),
            place(kinds_all, all) == done + place(kinds_all.skip(i as int), all.skip(used)),
        decreases kinds@.len() - i,
    {
        let ghost rest = kinds_all.skip(i as int);
        let ghost tail = all.skip(used);
        assert(rest.skip(1) =~= kinds_all.skip(i + 1));
        proof {
            lemma_sum_front(rest, is_free_fn());
        }
        match kinds[i] {
            Some(b) => {
                out.push(Err(binary_text(b)));
                proof {
                    done = done.push(Err(b));
                }
            },
            None => {
                let a = rev.pop().unwrap();
                proof {
                    assert(a@ == tail[0]);
                    assert(tail.skip(1) =~= all.skip(used + 1));
                    done = done.push(Ok(a@));
                    used = used + 1;
                }
                out.push(Ok(a));
                assert(views(rev@).reverse() =~= all.skip(used));
            },
        }
        i = i + 1;
        assert(place(kinds_all, all) =~= done + place(kinds_all.skip(i as int), all.skip(used)));
    }
    assert(done =~= place(kinds_all, all));
    out
}

/// Sum of `f` over a sequence.
pub open spec fn sum_of<A>(s: Seq<A>, f: spec_fn(A) -> nat) -> nat
    decreases s.len(),
{
    if s.len() == 0 {
        0
    } else {
        sum_of(s.drop_last(), f) + f(s.last())
    }
}

proof fn lemma_sum_concat<A>(a: Seq<A>, b: Seq<A>, f: spec_fn(A) -> nat)
    ensures
        sum_of(a + b, f) == sum_of(a, f) + sum_of(b, f),
    decreases b.len(),
{
    if b.len() == 0 {
        assert(a + b =~= a);
    } else {
        lemma_sum_concat(a, b.drop_last(), f);
        assert((a + b).drop_last() =~= a + b.drop_last());
    }
}

proof fn lemma_sum_single<A>(x: A, f: spec_fn(A) -> nat)
    ensures
        sum_of(seq![x], f) == f(x),
{
    assert(seq![x].drop_last() =~= Seq::<A>::empty());
    assert(seq![x].last() == x);
    assert(sum_of(Seq::<A>::empty(), f) == 0);
}

/// Prepending one element adds its value.
proof fn lemma_sum_cons<A>(x: A, rest: Seq<A>, f: spec_fn(A) -> nat)
    ensures
        sum_of(seq![x] + rest, f) == f(x) + sum_of(rest, f),
{
    lemma_sum_single(x, f);
    lemma_sum_concat(seq![x], rest, f);
}

proof fn lemma_sum_front<A>(s: Seq<A>, f: spec_fn(A) -> nat)
    requires
        s.len() > 0,
    ensures
        sum_of(s, f) == f(s[0]) + sum_of(s.skip(1), f),
{
    lemma_sum_cons(s[0], s.skip(1), f);
    assert(seq![s[0]] + s.skip(1) =~= s);
}

/// Input bytes a row accounts for: its encoding, or the one byte of an error.
pub open spec fn row_size(r: Result<RowView, u8>) -> nat {
    match r {
        Ok(v) => v.bytes.len(),
        Err(_) => 1,
    }
}

pub open spec fn row_size_fn() -> spec_fn(Result<RowView, u8>) -> nat {
    |r: Result<RowView, u8>| row_size(r)
}

pub open spec fn enc_len_fn() -> spec_fn(RowView) -> nat {
    |v: RowView| v.bytes.len()
}

pub open spec fn is_error_fn() -> spec_fn(Option<u8>) -> nat {
    |o: Option<u8>| if o is Some { 1nat } else { 0nat }
}

pub open spec fn is_free_fn() -> spec_fn(Option<u8>) -> nat {
    |o: Option<u8>| if o is None { 1nat } else { 0nat }
}

pub open spec fn footprint(rows: Seq<Result<RowView, u8>>) -> nat {
    sum_of(rows, row_size_fn())
}

pub open spec fn bytes_total(s: Seq<RowView>) -> nat {
    sum_of(s, enc_len_fn())
}

pub open spec fn error_count(k: Seq<Option<u8>>) -> nat {
    sum_of(k, is_error_fn())
}

pub open spec fn free_slots(k: Seq<Option<u8>>) -> nat {
    sum_of(k, is_free_fn())
}

proof fn lemma_scan_footprint(bytes: Seq<u8>, ip: int, labels: Seq<i64>)
    requires
        0 <= ip <= bytes.len(),
        decodable_from(bytes, ip),
    ensures
        footprint(scan(bytes, ip, labels)) == bytes.len() - ip,
    decreases bytes.len() - ip,
{
    if ip < bytes.len() {
        let b0 = bytes[ip];
        let f = row_size_fn();
        if family(b0) is None {
            lemma_scan_footprint(bytes, ip + 1, labels);
            lemma_sum_cons(Err(b0), scan(bytes, ip + 1, labels), f);
        } else {
            let n = inst_len(b0, second(bytes, ip));
            let enc = bytes.subrange(ip, ip + n);
            if family(b0) == Some(Family::JP) {
                let t = (ip + 2 + sext8(bytes[ip + 1])) as i64;
                let k = lookup(labels, t);
                if k != 0 {
                    lemma_scan_footprint(bytes, ip + n, labels);
                    lemma_sum_cons(Ok(RowView { ip, bytes: enc, label: k }), scan(bytes, ip + n, labels), f);
                } else {
                    let fresh = labels.len() + 1;
                    let rest = scan(bytes, ip + n, labels.push(t));
                    let a = Ok(label_row(t as int, fresh));
                    let j = Ok(RowView { ip, bytes: enc, label: fresh });
                    lemma_scan_footprint(bytes, ip + n, labels.push(t));
                    lemma_sum_cons(j, rest, f);
                    lemma_sum_cons(a, seq![j] + rest, f);
                    assert(seq![a, j] + rest =~= seq![a] + (seq![j] + rest));
                }
            } else {
                lemma_scan_footprint(bytes, ip + n, labels);
                lemma_sum_cons(Ok(RowView { ip, bytes: enc, label: 0 }), scan(bytes, ip + n, labels), f);
            }
        }
    }
}

proof fn lemma_raw_split(raw: Seq<Result<RowView, u8>>)
    ensures
        footprint(raw) == error_count(kinds_of(raw)) + bytes_total(oks(raw)),
        free_slots(kinds_of(raw)) == oks(raw).len(),
    decreases raw.len(),
{
    if raw.len() > 0 {
        lemma_raw_split(raw.drop_last());
        assert(kinds_of(raw).drop_last() =~= kinds_of(raw.drop_last()));
        match raw.last() {
            Ok(v) => {
                assert(oks(raw).drop_last() =~= oks(raw.drop_last()));
            },
            Err(_) => {},
        }
    }
}

proof fn lemma_insert_total(s: Seq<RowView>, x: RowView)
    ensures
        bytes_total(insert_by_ip(s, x)) == bytes_total(s) + x.bytes.len(),
        insert_by_ip(s, x).len() == s.len() + 1,
    decreases s.len(),
{
    if s.len() == 0 {
        lemma_sum_single(x, enc_len_fn());
    } else if s.last().ip <= x.ip {
        assert(s.push(x).drop_last() =~= s);
    } else {
        lemma_insert_total(s.drop_last(), x);
        let i = insert_by_ip(s.drop_last(), x);
        assert(i.push(s.last()).drop_last() =~= i);
    }
}

proof fn lemma_sort_total(s: Seq<RowView>)
    ensures
        bytes_total(sort_by_ip(s)) == bytes_total(s),
        sort_by_ip(s).len() == s.len(),
    decreases s.len(),
{
    if s.len() > 0 {
        lemma_sort_total(s.drop_last());
        lemma_insert_total(sort_by_ip(s.drop_last()), s.last());
    }
}

proof fn lemma_place_total(kinds: Seq<Option<u8>>, sorted: Seq<RowView>)
    requires
        free_slots(kinds) == sorted.len(),
    ensures
        footprint(place(kinds, sorted)) == error_count(kinds) + bytes_total(sorted),
    decreases kinds.len(),
{
    if kinds.len() > 0 {
        lemma_sum_front(kinds, is_free_fn());
        lemma_sum_front(kinds, is_error_fn());
        let f = row_size_fn();
        match kinds[0] {
            Some(b) => {
                lemma_place_total(kinds.skip(1), sorted);
                lemma_sum_cons(Err(b), place(kinds.skip(1), sorted), f);
            },
            None => {
                lemma_sum_front(sorted, enc_len_fn());
                lemma_place_total(kinds.skip(1), sorted.skip(1));
                lemma_sum_cons(Ok(sorted[0]), place(kinds.skip(1), sorted.skip(1)), f);
            },
        }
    }
}

/// The rows of a listing account for every input byte: the encodings of the
/// decoded instructions, one byte per error row and none per label add up to
/// the length of the input.
pub proof fn lemma_listing_covers_input(bytes: Seq<u8>)
    requires
        decodable(bytes),
    ensures
        footprint(listing(bytes)) == bytes.len(),
{
    let raw = scan(bytes, 0, seq![]);
    lemma_scan_footprint(bytes, 0, seq![]);
    lemma_raw_split(raw);
    lemma_sort_total(oks(raw));
    lemma_place_total(kinds_of(raw), sort_by_ip(oks(raw)));
}

/// A row that encodes a short jump or loop.
pub open spec fn is_jump_row(v: RowView) -> bool {
    v.bytes.len() >= 2 && family(v.bytes[0]) == Some(Family::JP)
}

/// The IP a jump row lands on: the IP after it plus its signed offset.
pub open spec fn jump_target(v: RowView) -> int {
    v.ip + 2 + sext8(v.bytes[1])
}

/// The label targets known once the scan from `ip` is over.
spec fn labels_after(bytes: Seq<u8>, ip: int, labels: Seq<i64>) -> Seq<i64>
    decreases bytes.len() - ip,
{
    if ip < 0 || ip >= bytes.len() {
        labels
    } else {
        let b0 = bytes[ip];
        if family(b0) is None {
            labels_after(bytes, ip + 1, labels)
        } else {
            let n = inst_len(b0, second(bytes, ip));
            if ip + n > bytes.len() {
                labels
            } else if family(b0) == Some(Family::JP) {
                let t = (ip + 2 + sext8(bytes[ip + 1])) as i64;
                if lookup(labels, t) != 0 {
                    labels_after(bytes, ip + n, labels)
                } else {
                    labels_after(bytes, ip + n, labels.push(t))
                }
            } else {
                labels_after(bytes, ip + n, labels)
            }
        }
    }
}

proof fn lemma_lookup(labels: Seq<i64>, t: i64)
    ensures
        lookup(labels, t) <= labels.len(),
        lookup(labels, t) != 0 ==> labels[lookup(labels, t) - 1] == t,
    decreases labels.len(),
{
    if labels.len() > 0 && labels.last() != t {
        lemma_lookup(labels.drop_last(), t);
    }
}

/// Over the scan from `ip`: the known targets only grow; every jump row's
/// label number names its target; every target numbered during the scan has
/// its label row in it.
proof fn lemma_scan_labels(bytes: Seq<u8>, ip: int, labels: Seq<i64>)
    requires
        0 <= ip,
        bytes.len() < 0x4000_0000_0000_0000,
    ensures
        ({
            let la = labels_after(bytes, ip, labels);
            let sc = scan(bytes, ip, labels);
            &&& labels.len() <= la.len()
            &&& la.take(labels.len() as int) == labels
            &&& forall|v: RowView| #[trigger] sc.contains(Ok(v)) && is_jump_row(v) ==> 1 <= v.label <= la.len()
                && la[v.label - 1] as int == jump_target(v)
            &&& forall|k: int| labels.len() <= k < la.len() ==> sc.contains(
                Ok(label_row(#[trigger] la[k] as int, (k + 1) as nat)),
            )
        }),
    decreases bytes.len() - ip,
{
    broadcast use vstd::seq_lib::lemma_seq_concat_contains_all_elements;
    broadcast use vstd::seq_lib::lemma_seq_contains_after_push;

    let la = labels_after(bytes, ip, labels);
    let sc = scan(bytes, ip, labels);
    if ip >= bytes.len() {
        assert(labels.take(labels.len() as int) =~= labels);
        assert(sc =~= Seq::<Result<RowView, u8>>::empty());
    } else {
        let b0 = bytes[ip];
        if family(b0) is None {
            lemma_scan_labels(bytes, ip + 1, labels);
            let rest = scan(bytes, ip + 1, labels);
            assert forall|v: RowView| #[trigger] sc.contains(Ok(v)) implies rest.contains(Ok(v)) by {
                assert(sc == seq![Err::<RowView, u8>(b0)] + rest);
            }
            assert forall|k: int| labels.len() <= k < la.len() implies sc.contains(
                Ok(label_row(#[trigger] la[k] as int, (k + 1) as nat)),
            ) by {
                assert(sc == seq![Err::<RowView, u8>(b0)] + rest);
            }
        } else {
            let n = inst_len(b0, second(bytes, ip));
            if ip + n > bytes.len() {
                assert(labels.take(labels.len() as int) =~= labels);
                assert(sc =~= Seq::<Result<RowView, u8>>::empty());
            } else {
                let enc = bytes.subrange(ip, ip + n);
                if family(b0) == Some(Family::JP) {
                    let t = (ip + 2 + sext8(bytes[ip + 1])) as i64;
                    let k0 = lookup(labels, t);
                    lemma_lookup(labels, t);
                    if k0 != 0 {
                        let rest = scan(bytes, ip + n, labels);
                        let row = RowView { ip, bytes: enc, label: k0 };
                        lemma_scan_labels(bytes, ip + n, labels);
                        assert(sc == seq![Ok::<RowView, u8>(row)] + rest);
                        assert(la[k0 - 1] == labels[k0 - 1]) by {
                            assert(la.take(labels.len() as int)[k0 - 1] == la[k0 - 1]);
                        }
                        assert forall|v: RowView| #[trigger] sc.contains(Ok(v)) && is_jump_row(v) implies 1 <= v.label
                            <= la.len() && la[v.label - 1] as int == jump_target(v) by {
                            if !rest.contains(Ok(v)) {
                                assert(seq![Ok::<RowView, u8>(row)].contains(Ok(v)));
                                assert(v == row);
                            }
                        }
                    } else {
                        let fresh = labels.len() + 1;
                        let l2 = labels.push(t);
                        let rest = scan(bytes, ip + n, l2);
                        let lab = label_row(t as int, fresh);
                        let row = RowView { ip, bytes: enc, label: fresh };
                        lemma_scan_labels(bytes, ip + n, l2);
                        assert(sc == seq![Ok::<RowView, u8>(lab), Ok::<RowView, u8>(row)] + rest);
                        assert(la[labels.len() as int] == t) by {
                            assert(la.take(l2.len() as int)[labels.len() as int] == la[labels.len() as int]);
                        }
                        assert(la.take(labels.len() as int) =~= labels) by {
                            assert(la.take(l2.len() as int) == l2);
                            assert forall|i: int| 0 <= i < labels.len() implies la[i] == labels[i] by {
                                assert(la.take(l2.len() as int)[i] == la[i]);
                            }
                        }
                        assert forall|v: RowView| #[trigger] sc.contains(Ok(v)) && is_jump_row(v) implies 1 <= v.label
                            <= la.len() && la[v.label - 1] as int == jump_target(v) by {
                            if !rest.contains(Ok(v)) {
                                assert(seq![Ok::<RowView, u8>(lab), Ok::<RowView, u8>(row)].contains(Ok(v)));
                                let i = choose|i: int| 0 <= i < 2 && seq![Ok::<RowView, u8>(lab), Ok::<RowView, u8>(row)][i] == Ok::<RowView, u8>(v);
                                assert(v == row);
                            }
                        }
                        assert forall|k: int| labels.len() <= k < la.len() implies sc.contains(
                            Ok(label_row(#[trigger] la[k] as int, (k + 1) as nat)),
                        ) by {
                            if k == labels.len() {
                                assert(sc[0] == Ok::<RowView, u8>(lab));
                            }
                        }
                    }
                } else {
                    let rest = scan(bytes, ip + n, labels);
                    let row = RowView { ip, bytes: enc, label: 0 };
                    lemma_scan_labels(bytes, ip + n, labels);
                    assert(sc == seq![Ok::<RowView, u8>(row)] + rest);
                    assert forall|v: RowView| #[trigger] sc.contains(Ok(v)) && is_jump_row(v) implies 1 <= v.label
                        <= la.len() && la[v.label - 1] as int == jump_target(v) by {
                        if !rest.contains(Ok(v)) {
                            assert(seq![Ok::<RowView, u8>(row)].contains(Ok(v)));
                            assert(v == row);
                        }
                    }
                }
            }
        }
    }
}

proof fn lemma_oks_contains(raw: Seq<Result<RowView, u8>>, v: RowView)
    ensures
        oks(raw).contains(v) <==> raw.contains(Ok(v)),
    decreases raw.len(),
{
    broadcast use vstd::seq_lib::lemma_seq_contains_after_push;

    if raw.len() > 0 {
        lemma_oks_contains(raw.drop_last(), v);
        assert(raw =~= raw.drop_last().push(raw.last()));
    }
}

proof fn lemma_insert_contains(s: Seq<RowView>, x: RowView, y: RowView)
    ensures
        insert_by_ip(s, x).contains(y) <==> s.contains(y) || x == y,
    decreases s.len(),
{
    broadcast use vstd::seq_lib::lemma_seq_contains_after_push;

    if s.len() == 0 {
        assert(seq![x] =~= Seq::<RowView>::empty().push(x));
    } else {
        assert(s =~= s.drop_last().push(s.last()));
        if s.last().ip > x.ip {
            lemma_insert_contains(s.drop_last(), x, y);
        }
    }
}

proof fn lemma_sort_contains(s: Seq<RowView>, y: RowView)
    ensures
        sort_by_ip(s).contains(y) <==> s.contains(y),
    decreases s.len(),
{
    broadcast use vstd::seq_lib::lemma_seq_contains_after_push;

    if s.len() > 0 {
        lemma_sort_contains(s.drop_last(), y);
        lemma_insert_contains(sort_by_ip(s.drop_last()), s.last(), y);
        assert(s =~= s.drop_last().push(s.last()));
    }
}

proof fn lemma_place_contains(kinds: Seq<Option<u8>>, sorted: Seq<RowView>, y: RowView)
    requires
        free_slots(kinds) == sorted.len(),
    ensures
        place(kinds, sorted).contains(Ok(y)) <==> sorted.contains(y),
    decreases kinds.len(),
{
    broadcast use vstd::seq_lib::lemma_seq_concat_contains_all_elements;

    if kinds.len() > 0 {
        lemma_sum_front(kinds, is_free_fn());
        match kinds[0] {
            Some(b) => {
                lemma_place_contains(kinds.skip(1), sorted, y);
                assert(!seq![Err::<RowView, u8>(b)].contains(Ok(y))) by {
                    if seq![Err::<RowView, u8>(b)].contains(Ok(y)) {
                        assert(seq![Err::<RowView, u8>(b)][0] == Ok::<RowView, u8>(y));
                    }
                }
            },
            None => {
                lemma_place_contains(kinds.skip(1), sorted.skip(1), y);
                assert(sorted =~= seq![sorted[0]] + sorted.skip(1));
                assert(seq![Ok::<RowView, u8>(sorted[0])].contains(Ok(y)) <==> seq![sorted[0]].contains(y)) by {
                    if seq![sorted[0]].contains(y) {
                        assert(seq![sorted[0]][0] == y);
                        assert(seq![Ok::<RowView, u8>(sorted[0])][0] == Ok::<RowView, u8>(y));
                    }
                    if seq![Ok::<RowView, u8>(sorted[0])].contains(Ok(y)) {
                        assert(seq![Ok::<RowView, u8>(sorted[0])][0] == Ok::<RowView, u8>(y));
                        assert(seq![sorted[0]][0] == y);
                    }
                }
            },
        }
    } else {
        assert(sorted.len() == 0);
        assert(!sorted.contains(y));
        assert(!place(kinds, sorted).contains(Ok(y)));
    }
}

/// The listing holds exactly the decoded rows that the scan meets.
proof fn lemma_listing_contains(bytes: Seq<u8>, v: RowView)
    ensures
        listing(bytes).contains(Ok(v)) <==> scan(bytes, 0, seq![]).contains(Ok(v)),
{
    let raw = scan(bytes, 0, seq![]);
    lemma_raw_split(raw);
    lemma_sort_total(oks(raw));
    lemma_place_contains(kinds_of(raw), sort_by_ip(oks(raw)), v);
    lemma_sort_contains(oks(raw), v);
    lemma_oks_contains(raw, v);
}

/// Every jump in a listing has its label row: same label number, at one
/// byte before the jump's target (the IP after the jump plus its offset).
pub proof fn lemma_jump_has_label(bytes: Seq<u8>, v: RowView)
    requires
        bytes.len() < 0x4000_0000_0000_0000,
        listing(bytes).contains(Ok(v)),
        is_jump_row(v),
    ensures
        listing(bytes).contains(Ok(label_row(jump_target(v), v.label))),
        label_row(jump_target(v), v.label).ip + 1 == v.ip + 2 + sext8(v.bytes[1]),
{
    let e: Seq<i64> = seq![];
    lemma_scan_labels(bytes, 0, e);
    lemma_listing_contains(bytes, v);
    let la = labels_after(bytes, 0, e);
    let k = v.label - 1;
    assert(la[k] as int == jump_target(v));
    assert(scan(bytes, 0, e).contains(Ok(label_row(la[k] as int, (k + 1) as nat))));
    lemma_listing_contains(bytes, label_row(jump_target(v), v.label));
}

pub open spec fn sorted_by_ip(s: Seq<RowView>) -> bool {
    forall|i: int, j: int| 0 <= i < j < s.len() ==> s[i].ip <= s[j].ip
}

proof fn lemma_insert_sorted(s: Seq<RowView>, x: RowView)
    requires
        sorted_by_ip(s),
    ensures
        sorted_by_ip(insert_by_ip(s, x)),
    decreases s.len(),
{
    broadcast use vstd::seq_lib::lemma_seq_contains_after_push;

    if s.len() > 0 && s.last().ip > x.ip {
        let d = s.drop_last();
        lemma_insert_sorted(d, x);
        let ins = insert_by_ip(d, x);
        lemma_insert_total(d, x);
        assert forall|i: int| 0 <= i < ins.len() implies ins[i].ip <= s.last().ip by {
            lemma_insert_contains(d, x, ins[i]);
            assert(ins.contains(ins[i]));
            if d.contains(ins[i]) {
                let k = choose|k: int| 0 <= k < d.len() && d[k] == ins[i];
                assert(s[k] == d[k]);
            }
        }
    }
}

proof fn lemma_sort_sorted(s: Seq<RowView>)
    ensures
        sorted_by_ip(sort_by_ip(s)),
    decreases s.len(),
{
    if s.len() > 0 {
        lemma_sort_sorted(s.drop_last());
        lemma_insert_sorted(sort_by_ip(s.drop_last()), s.last());
    }
}

proof fn lemma_place_sorted(kinds: Seq<Option<u8>>, sorted: Seq<RowView>, i: int, j: int)
    requires
        free_slots(kinds) == sorted.len(),
        sorted_by_ip(sorted),
        0 <= i < j < place(kinds, sorted).len(),
        place(kinds, sorted)[i] is Ok,
        place(kinds, sorted)[j] is Ok,
    ensures
        place(kinds, sorted)[i]->Ok_0.ip <= place(kinds, sorted)[j]->Ok_0.ip,
    decreases kinds.len(),
{
    lemma_sum_front(kinds, is_free_fn());
    let p = place(kinds, sorted);
    match kinds[0] {
        Some(b) => {
            let rest = place(kinds.skip(1), sorted);
            assert(p == seq![Err::<RowView, u8>(b)] + rest);
            lemma_place_sorted(kinds.skip(1), sorted, i - 1, j - 1);
        },
        None => {
            let tail = sorted.skip(1);
            let rest = place(kinds.skip(1), tail);
            assert(p == seq![Ok::<RowView, u8>(sorted[0])] + rest);
            assert(sorted_by_ip(tail)) by {
                assert forall|a: int, c: int| 0 <= a < c < tail.len() implies tail[a].ip <= tail[c].ip by {
                    assert(tail[a] == sorted[a + 1] && tail[c] == sorted[c + 1]);
                }
            }
            if i == 0 {
                let v = rest[j - 1]->Ok_0;
                assert(rest.contains(Ok(v))) by {
                    assert(rest[j - 1] == Ok::<RowView, u8>(v));
                }
                lemma_place_contains(kinds.skip(1), tail, v);
                let k = choose|k: int| 0 <= k < tail.len() && tail[k] == v;
                assert(sorted[k + 1] == v);
            } else {
                lemma_place_sorted(kinds.skip(1), tail, i - 1, j - 1);
            }
        },
    }
}

/// The decoded rows of a listing stand in IP order (error rows aside).
pub proof fn lemma_listing_sorted(bytes: Seq<u8>, i: int, j: int)
    requires
        0 <= i < j < listing(bytes).len(),
        listing(bytes)[i] is Ok,
        listing(bytes)[j] is Ok,
    ensures
        listing(bytes)[i]->Ok_0.ip <= listing(bytes)[j]->Ok_0.ip,
{
    let raw = scan(bytes, 0, seq![]);
    lemma_raw_split(raw);
    lemma_sort_total(oks(raw));
    lemma_sort_sorted(oks(raw));
    lemma_place_sorted(kinds_of(raw), sort_by_ip(oks(raw)), i, j);
}

} // verus!

use sim8086::ast::{EffectiveAddress, Mode, Register, RegisterAddress};
use sim8086::emulator::estimate_ea;
use sim8086::decoder::{decode, is_decodable};
use sim8086::emulator::{Code, Emulator};

fn emulator_for(bytes: &[u8]) -> Emulator {
    let bytes = bytes.to_vec();
    assert!(is_decodable(&bytes));
    Emulator::new(Code::from_listing(&decode(&bytes)))
}

#[test]
fn listing_accounts_for_every_byte() {
    // unknown byte, jumps both ways, memory operands with displacements
    let bytes = vec![
        0x90, 0xB9, 0x03, 0x00, 0x8B, 0x41, 0xDB, 0x75, 0xF7, 0x74, 0x04, 0xC7, 0x85, 0x85, 0x03, 0x5B,
        0x01, 0x0F,
    ];
    assert!(is_decodable(&bytes));
    let rows = decode(&bytes);
    let total: usize = rows
        .iter()
        .map(|r| match r {
            Ok(a) => a.encoded().len(),
            Err(_) => 1,
        })
        .sum();
    assert_eq!(total, bytes.len());
}

#[test]
fn every_jump_has_its_label_one_byte_before_the_target() {
    let bytes = vec![0xB9, 0x03, 0x00, 0x83, 0xE9, 0x01, 0x75, 0xFB, 0x74, 0x02, 0xE2, 0xF7, 0xB0, 0x01];
    let rows = decode(&bytes);
    let mut jumps = 0;
    for r in rows.iter() {
        let a = r.as_ref().unwrap();
        if a.is_label() {
            continue;
        }
        let enc = a.encoded();
        let inst = a.decode();
        let text = inst.text();
        if enc[0] == 0x75 || enc[0] == 0x74 || enc[0] == 0xE2 {
            jumps += 1;
            let target = a.ip() + 2 + (enc[1] as i8) as i64;
            let label = text.split(' ').nth(1).unwrap().to_string() + ":";
            let found = rows.iter().any(|l| {
                let l = l.as_ref().unwrap();
                l.is_label() && l.ip() + 1 == target && l.decode().text() == label
            });
            assert!(found, "no label for {}", text);
        }
    }
    assert_eq!(jumps, 3);
}

#[test]
fn flags_survive_a_flag_preserving_instruction_after_cmp() {
    // mov ax, 3; mov bx, 5; cmp ax, bx; mov cx, 1; cmp ax, bx
    let mut e = emulator_for(&[0xB8, 0x03, 0x00, 0xBB, 0x05, 0x00, 0x39, 0xD8, 0xB9, 0x01, 0x00, 0x39, 0xD8]);
    e.step().unwrap().unwrap();
    e.step().unwrap().unwrap();
    let cmp = e.step().unwrap().unwrap();
    assert_eq!(cmp.inst.text(), "cmp ax, bx");
    let after_cmp = e.machine().flags();
    assert!(after_cmp.sf && after_cmp.af && !after_cmp.zf);
    let mov = e.step().unwrap().unwrap();
    assert!(mov.flags.is_none());
    assert_eq!(e.machine().flags(), after_cmp);
    let again = e.step().unwrap().unwrap();
    assert!(again.flags.is_none());
    assert_eq!(e.machine().flags(), after_cmp);
    assert_eq!(e.machine().load_register(Register::AX), 3);
}

#[test]
fn byte_and_word_registers_alias() {
    // mov ax, 0x1234; mov ah, 0x56; mov bl, 0x9a; mov cx, 0xabcd
    let e = {
        let mut e = emulator_for(&[0xB8, 0x34, 0x12, 0xB4, 0x56, 0xB3, 0x9A, 0xB9, 0xCD, 0xAB]);
        while e.step().unwrap().is_some() {}
        e
    };
    let m = e.machine();
    assert_eq!(m.load_register(Register::AX) as u16, 0x5634);
    assert_eq!(m.load_register(Register::AL), 0x34);
    assert_eq!(m.load_register(Register::AH), 0x56);
    assert_eq!(m.load_register(Register::BX) as u16, 0x009A);
    assert_eq!(m.load_register(Register::BH), 0);
    assert_eq!(m.load_register(Register::CL), 0xCD);
    assert_eq!(m.load_register(Register::CH), 0xAB);
    assert_eq!(m.load_register(Register::CX) as u16, 0xABCD);
}

#[test]
fn byte_add_keeps_high_half() {
    // mov ax, 0x01ff; add al, 1
    let mut e = emulator_for(&[0xB8, 0xFF, 0x01, 0x04, 0x01]);
    e.step().unwrap().unwrap();
    let s = e.step().unwrap().unwrap();
    assert_eq!(s.register, Some((Register::AL, 0xFF, 0)));
    let m = e.machine();
    assert_eq!(m.load_register(Register::AX) as u16, 0x0100);
    assert!(m.flags().zf && m.flags().af && m.flags().pf);
}

#[test]
fn effective_address_sums_bases_and_displacement() {
    // mov bx, 0x10; mov si, 0x20; mov word [bx + si + 4], 7; mov ax, [52]
    let mut e = emulator_for(&[
        0xBB, 0x10, 0x00, 0xBE, 0x20, 0x00, 0xC7, 0x40, 0x04, 0x07, 0x00, 0xA1, 0x34, 0x00,
    ]);
    while e.step().unwrap().is_some() {}
    assert_eq!(e.machine().load_register(Register::AX), 7);
}

#[test]
fn ip_past_the_program_halts() {
    let mut e = emulator_for(&[]);
    assert!(e.step().unwrap().is_none());
    assert_eq!(e.machine().ip(), 0);
}

#[test]
fn estimate_ea_table() {
    assert_eq!(estimate_ea(EffectiveAddress::new(RegisterAddress::Empty, 0)), 0);
    assert_eq!(estimate_ea(EffectiveAddress::new(RegisterAddress::Empty, 100)), 6);
    assert_eq!(estimate_ea(EffectiveAddress::new(RegisterAddress::BX, 0)), 5);
    assert_eq!(estimate_ea(EffectiveAddress::new(RegisterAddress::SI, -3)), 9);
    assert_eq!(estimate_ea(EffectiveAddress::new(RegisterAddress::BPDI, 0)), 7);
    assert_eq!(estimate_ea(EffectiveAddress::new(RegisterAddress::BXSI, 2)), 11);
    assert_eq!(estimate_ea(EffectiveAddress::new(RegisterAddress::BPSI, 0)), 8);
    assert_eq!(estimate_ea(EffectiveAddress::new(RegisterAddress::BXDI, 1)), 12);
}

#[test]
fn field_helpers() {
    assert_eq!(Mode::from(0b11), Mode::Reg);
    assert_eq!(Mode::from(0b101), Mode::Mem1Disp);
    assert_eq!(Register::from(0b100, 0), Register::AH);
    assert_eq!(Register::from(0b011, 1), Register::BX);
    assert_eq!(RegisterAddress::from(0b110), RegisterAddress::DirectBP);
    assert_eq!(Register::DH.word_index(), 3);
    assert!(Register::DH.is_high());
    assert_eq!(Register::SP.text(), "sp");
}

use sim8086::ast::Register;
use sim8086::decoder::{decode, is_decodable};
use sim8086::emulator::{Code, Emulator};
use sim8086::tracer::{Tracer, TracerOptions};

fn load(bytes: &[u8]) -> Emulator {
    let bytes = bytes.to_vec();
    assert!(is_decodable(&bytes));
    let rows = decode(&bytes);
    Emulator::new(Code::from_listing(&rows))
}

fn run_to_end(bytes: &[u8]) -> Emulator {
    let mut emulator = load(bytes);
    let mut steps = 0;
    while let Some(_) = emulator.step().expect("supported instruction") {
        steps += 1;
        assert!(steps < 10_000);
    }
    emulator
}

fn options(with_trace: bool, with_ip: bool, with_estimate: bool) -> TracerOptions {
    TracerOptions { with_ip, with_trace, with_estimate, dump_path: String::new() }
}

#[test]
fn single_mov_imm_to_reg() {
    let e = run_to_end(&[0xB8, 0x01, 0x00]);
    let m = e.machine();
    assert_eq!(m.load_register(Register::AX), 1);
    assert_eq!(m.flags().bits(), 0);
    assert_eq!(m.ip(), 3);
}

#[test]
fn register_move_chain() {
    let e = run_to_end(&[0xB8, 0x04, 0x00, 0x89, 0xC3]);
    let m = e.machine();
    assert_eq!(m.load_register(Register::AX), 4);
    assert_eq!(m.load_register(Register::BX), 4);
}

#[test]
fn add_with_carry_from_sign_flip() {
    let e = run_to_end(&[0xB8, 0xFF, 0x7F, 0x05, 0x01, 0x00]);
    let m = e.machine();
    assert_eq!(m.load_register(Register::AX) as u16, 0x8000);
    let f = m.flags();
    assert!(f.sf && f.cf && f.af && f.pf && !f.zf);
    assert_eq!(f.text(), "CPAS");
}

#[test]
fn sub_to_zero() {
    let e = run_to_end(&[0xB9, 0x03, 0x00, 0x29, 0xC9]);
    let m = e.machine();
    assert_eq!(m.load_register(Register::CX), 0);
    let f = m.flags();
    assert!(f.zf && f.pf && !f.cf && !f.sf && !f.af);
    assert_eq!(f.text(), "PZ");
}

#[test]
fn conditional_loop() {
    let mut e = load(&[0xB9, 0x03, 0x00, 0x83, 0xE9, 0x01, 0x75, 0xFB]);
    let mut subs = 0;
    while let Some(step) = e.step().expect("supported instruction") {
        if step.inst.text() == "sub cx, 1" {
            subs += 1;
        }
    }
    assert_eq!(subs, 3);
    let m = e.machine();
    assert_eq!(m.load_register(Register::CX), 0);
    assert_eq!(m.flags().text(), "PZ");
    assert_eq!(m.ip(), 8);
}

#[test]
fn memory_write_and_read() {
    let e = run_to_end(&[0xC7, 0x06, 0x00, 0x01, 0x39, 0x05, 0xA1, 0x00, 0x01]);
    let m = e.machine();
    assert_eq!(m.load_register(Register::AX), 0x0539);
    assert_eq!(m.memory()[0x100], 0x39);
    assert_eq!(m.memory()[0x101], 0x05);
    assert_eq!(m.load_memory(0x100, sim8086::ast::OperandSize::Word), 0x0539);
}

#[test]
fn trace_of_single_mov() {
    let mut e = load(&[0xB8, 0x01, 0x00]);
    let mut t = Tracer::with_options(options(true, false, false));
    let text = t.run(&mut e).expect("supported");
    assert_eq!(text, "mov ax, 1 ; ax:0x0->0x1\nFinal registers:\n      ax: 0x0001 (1)\n\n");
}

#[test]
fn trace_with_ip_and_flags() {
    let mut e = load(&[0xB9, 0x03, 0x00, 0x29, 0xC9]);
    let mut t = Tracer::with_options(options(true, true, false));
    let text = t.run(&mut e).expect("supported");
    assert_eq!(
        text,
        "mov cx, 3 ; cx:0x0->0x3 ip:0x0->0x3\n\
         sub cx, cx ; cx:0x3->0x0 ip:0x3->0x5 flags:->PZ\n\
         Final registers:\n      cx: 0x0000 (0)\n      ip: 0x0005 (5)\n   flags: PZ\n"
    );
}

#[test]
fn trace_with_estimates() {
    let mut e = load(&[0xC7, 0x06, 0x00, 0x01, 0x39, 0x05, 0xA1, 0x00, 0x01]);
    let mut t = Tracer::with_options(options(true, false, true));
    let text = t.run(&mut e).expect("supported");
    assert_eq!(
        text,
        "mov word [256], 1337 ; Clocks: +0 = 0 |\n\
         mov ax, [256] ; Clocks: +14 = 14 (8 + 6ea) | ax:0x0->0x539\n\
         Final registers:\n      ax: 0x0539 (1337)\n\n"
    );
}

#[test]
fn quiet_run_prints_nothing() {
    let mut e = load(&[0xB8, 0x01, 0x00]);
    let mut t = Tracer::with_options(options(false, false, false));
    let text = t.run(&mut e).expect("supported");
    assert_eq!(text, "");
    assert_eq!(e.machine().load_register(Register::AX), 1);
}

#[test]
fn unsupported_form_stops_the_run() {
    // sub ax, [bx]: a register-memory subtraction is not executed
    let mut e = load(&[0x2B, 0x07]);
    let mut t = Tracer::with_options(options(true, false, false));
    let err = t.run(&mut e).unwrap_err();
    assert_eq!(err.text(), "sub ax, [bx]");
    assert_eq!(e.machine().ip(), 0);
}

#[test]
fn loop_counts_cx_down() {
    // mov cx, 2; label: loop label
    let e = run_to_end(&[0xB9, 0x02, 0x00, 0xE2, 0xFE]);
    let m = e.machine();
    assert_eq!(m.load_register(Register::CX), 0);
    assert_eq!(m.ip(), 5);
}

#[test]
fn add_memory_with_unaligned_penalty() {
    // mov bx, 1; mov word [bx], 2; add [bx], bx
    let mut e = load(&[0xBB, 0x01, 0x00, 0xC7, 0x07, 0x02, 0x00, 0x01, 0x1F]);
    e.step().unwrap().unwrap();
    e.step().unwrap().unwrap();
    let s = e.step().unwrap().unwrap();
    assert_eq!(s.clock.value, 16);
    assert_eq!(s.clock.ea, 5);
    assert_eq!(s.clock.transfer, 8);
    assert_eq!(e.machine().load_memory(1, sim8086::ast::OperandSize::Word), 3);
}

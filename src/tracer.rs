//! The tracer: per-step trace lines, clock totals and the final-state report.
use vstd::prelude::*;
use crate::ast::{Inst, Register};
use crate::emulator::{execute, record_of, supported, Clock, Emulator, Step};
use crate::machine::{reg_value, unsigned16, Flags, MachineView};
use crate::printer::{inst_text, push_inst, push_str, reg_name, register_name};
use crate::text::{digits, hex4, push_digits, push_hex4};

verus! {

/// Most steps one run takes; a program still running then is stopped.
pub const MAX_STEPS: u64 = 0x4_0000_0000_0000;

/// The letters of the set flags, in the order C P A Z S.
pub open spec fn flags_text(f: Flags) -> Seq<char> {
    (if f.cf { seq!['C'] } else { seq![] }) + (if f.pf { seq!['P'] } else { seq![] }) + (if f.af {
        seq!['A']
    } else {
        seq![]
    }) + (if f.zf { seq!['Z'] } else { seq![] }) + (if f.sf { seq!['S'] } else { seq![] })
}

impl Flags {
    pub fn text(&self) -> (r: String)
        ensures
            r@ == flags_text(*self),
    {
        let mut s = String::new();
        push_flags(&mut s, *self);
        assert(s@ =~= flags_text(*self));
        s
    }
}

fn push_flags(s: &mut String, f: Flags)
    ensures
        final(s)@ == old(s)@ + flags_text(f),
{
    proof {
        reveal_strlit("C");
        reveal_strlit("P");
        reveal_strlit("A");
        reveal_strlit("Z");
        reveal_strlit("S");
    }
    if f.cf {
        push_str(s, "C");
    }
    if f.pf {
        push_str(s, "P");
    }
    if f.af {
        push_str(s, "A");
    }
    if f.zf {
        push_str(s, "Z");
    }
    if f.sf {
        push_str(s, "S");
    }
    assert(s@ =~= old(s)@ + flags_text(f));
}

/// `0x` and the hexadecimal digits of `n`, without padding.
pub open spec fn hex_text(n: nat) -> Seq<char> {
    seq!['0', 'x'] + digits(n, 16)
}

fn push_hex(s: &mut String, n: u16)
    ensures
        final(s)@ == old(s)@ + hex_text(n as nat),
{
    proof {
        reveal_strlit("0x");
    }
    push_str(s, "0x");
    push_digits(s, n as u64, 16);
    assert(s@ =~= old(s)@ + hex_text(n as nat));
}

pub open spec fn clock_inc(c: Clock) -> nat {
    (c.value + c.ea + c.transfer) as nat
}

pub open spec fn dec(n: nat) -> Seq<char> {
    digits(n, 10)
}

/// ` Clocks: +<inc> = <total>`, the breakdown when there is EA time, and ` |`.
pub open spec fn clock_text(c: Clock, total: nat) -> Seq<char> {
    seq![' ', 'C', 'l', 'o', 'c', 'k', 's', ':', ' ', '+'] + dec(clock_inc(c)) + seq![' ', '=', ' '] + dec(total)
        + clock_detail(c) + seq![' ', '|']
}

/// Touched registers after a step: the register it changed, if any, is marked.
pub open spec fn touch(touched: Seq<bool>, s: Step) -> Seq<bool> {
    match s.register {
        Some((reg, from, to)) => if from != to {
            touched.update(reg.spec_ordinal() as int, true)
        } else {
            touched
        },
        None => touched,
    }
}

/// What a run from state `m` comes to within `fuel` steps: the step lines,
/// the final state, the touched registers, the clock total, and the
/// instruction that stopped it, if one was not executable.
#[verifier::opaque]
pub open spec fn run_spec(
    m: MachineView,
    prog: Seq<Option<Inst>>,
    touched: Seq<bool>,
    total: nat,
    fuel: nat,
    with_ip: bool,
    with_estimate: bool,
) -> (Seq<char>, MachineView, Seq<bool>, nat, Option<Inst>)
    decreases fuel,
{
    if fuel == 0 {
        (seq![], m, touched, total, None)
    } else {
        match prog[m.ip as int] {
            None => (seq![], m, touched, total, None),
            Some(inst) => if !supported(inst) {
                (seq![], m, touched, total, Some(inst))
            } else {
                let s = record_of(m, inst);
                let t = total + clock_inc(s.clock);
                let rest = run_spec(execute(m, inst), prog, touch(touched, s), t, (fuel - 1) as nat, with_ip, with_estimate);
                (step_line(s, with_ip, with_estimate, t) + seq!['\n'] + rest.0, rest.1, rest.2, rest.3, rest.4)
            },
        }
    }
}

/// Options of a tracer.
pub struct TracerOptions {
    pub with_ip: bool,
    pub with_trace: bool,
    pub with_estimate: bool,
    pub dump_path: String,
}

/// ` reg:0xOLD->0xNEW` when the step changed a register.
pub open spec fn register_part(s: Step) -> Seq<char> {
    match s.register {
        Some((r, from, to)) => if from != to {
            seq![' '] + reg_name(r) + seq![':'] + hex_text(unsigned16(from) as nat) + seq!['-', '>'] + hex_text(
                unsigned16(to) as nat,
            )
        } else {
            seq![]
        },
        None => seq![],
    }
}

pub open spec fn ip_part(s: Step, with_ip: bool) -> Seq<char> {
    if with_ip {
        seq![' ', 'i', 'p', ':'] + hex_text(s.ip.0 as nat) + seq!['-', '>'] + hex_text(s.ip.1 as nat)
    } else {
        seq![]
    }
}

pub open spec fn flags_part(s: Step) -> Seq<char> {
    match s.flags {
        Some((a, b)) => seq![' ', 'f', 'l', 'a', 'g', 's', ':'] + flags_text(a) + seq!['-', '>'] + flags_text(b),
        None => seq![],
    }
}

/// The trace line of one step, with the running clock total `total`.
pub open spec fn step_line(s: Step, with_ip: bool, with_estimate: bool, total: nat) -> Seq<char> {
    inst_text(s.inst) + seq![' ', ';'] + (if with_estimate { clock_text(s.clock, total) } else { seq![] })
        + register_part(s) + ip_part(s, with_ip) + flags_part(s)
}

/// One line of the final-state block: the name right-aligned in eight
/// columns, the value as four hex digits and in decimal.
pub open spec fn value_line(name: Seq<char>, v: u16) -> Seq<char> {
    seq![' ', ' ', ' ', ' ', ' ', ' '] + name + seq![':', ' '] + hex4(v as nat) + seq![' ', '('] + dec(v as nat)
        + seq![')', '\n']
}

/// Lines for the touched registers among the first `k`, in enumeration order.
pub open spec fn registers_text(touched: Seq<bool>, words: Seq<u16>, k: nat) -> Seq<char>
    decreases k,
{
    if k == 0 {
        seq![]
    } else {
        let i = (k - 1) as nat;
        let r = register_at(i);
        registers_text(touched, words, i) + if touched[i as int] {
            value_line(reg_name(r), unsigned16(reg_value(words, r)))
        } else {
            seq![]
        }
    }
}

pub open spec fn register_at(i: nat) -> Register {
    choose|r: Register| r.spec_ordinal() == i
}

pub open spec fn final_ip_part(m: MachineView, with_ip: bool) -> Seq<char> {
    if with_ip {
        value_line(seq!['i', 'p'], m.ip)
    } else {
        seq![]
    }
}

pub open spec fn final_flags_part(m: MachineView) -> Seq<char> {
    if m.flags.spec_bits() != 0 {
        seq![' ', ' ', ' ', 'f', 'l', 'a', 'g', 's', ':', ' '] + flags_text(m.flags)
    } else {
        seq![]
    }
}

/// The final-state block.
pub open spec fn final_text(touched: Seq<bool>, m: MachineView, with_ip: bool) -> Seq<char> {
    seq!['F', 'i', 'n', 'a', 'l', ' ', 'r', 'e', 'g', 'i', 's', 't', 'e', 'r', 's', ':', '\n'] + registers_text(
        touched,
        m.words,
        16,
    ) + final_ip_part(m, with_ip) + final_flags_part(m) + seq!['\n']
}

/// Drives an emulator and renders what it does.
pub struct Tracer {
    opt: TracerOptions,
    touched: Vec<bool>,
    clocks: u64,
}

impl Tracer {
    pub closed spec fn wf(&self) -> bool {
        self.touched@.len() == 16
    }

    /// Registers whose value some step changed, by enumeration position.
    pub closed spec fn touched(&self) -> Seq<bool> {
        self.touched@
    }

    pub closed spec fn shows_ip(&self) -> bool {
        self.opt.with_ip
    }

    pub closed spec fn shows_estimate(&self) -> bool {
        self.opt.with_estimate
    }

    pub closed spec fn shows_trace(&self) -> bool {
        self.opt.with_trace
    }

    pub closed spec fn dump_path(&self) -> Seq<char> {
        self.opt.dump_path@
    }

    /// The options the tracer was made with.
    pub fn options(&self) -> (r: &TracerOptions)
        ensures
            r.with_ip == self.shows_ip(),
            r.with_estimate == self.shows_estimate(),
            r.with_trace == self.shows_trace(),
            r.dump_path@ == self.dump_path(),
    {
        &self.opt
    }

    /// Running clock total.
    pub closed spec fn total(&self) -> nat {
        self.clocks as nat
    }

    pub fn with_options(opt: TracerOptions) -> (r: Tracer)
        ensures
            r.wf(),
            r.shows_ip() == opt.with_ip,
            r.shows_estimate() == opt.with_estimate,
            r.shows_trace() == opt.with_trace,
            r.dump_path() == opt.dump_path@,
            r.total() == 0,
            r.touched() == Seq::new(16, |i: int| false),
    {
        let mut touched: Vec<bool> = Vec::new();
        let mut i: usize = 0;
        while i < 16
            invariant
                i <= 16,
                touched@ == Seq::new(i as nat, |k: int| false),
            decreases 16 - i,
        {
            touched.push(false);
            i = i + 1;
            assert(touched@ =~= Seq::new(i as nat, |k: int| false));
        }
        Tracer { opt, touched, clocks: 0 }
    }

    /// The trace line of `step`; adds its clocks to the total and marks the
    /// register it changed.
    pub fn trace(&mut self, step: &Step) -> (r: String)
        requires
            old(self).wf(),
            old(self).total() + 765 <= u64::MAX,
        ensures
            final(self).wf(),
            final(self).shows_ip() == old(self).shows_ip(),
            final(self).shows_estimate() == old(self).shows_estimate(),
            final(self).shows_trace() == old(self).shows_trace(),
            final(self).dump_path() == old(self).dump_path(),
            final(self).total() == old(self).total() + clock_inc(step.clock),
            r@ == step_line(*step, old(self).shows_ip(), old(self).shows_estimate(), final(self).total()),
            final(self).touched() == touch(old(self).touched(), *step),
    {
        let c = step.clock;
        let inc: u64 = c.value as u64 + c.ea as u64 + c.transfer as u64;
        self.clocks = self.clocks + inc;
        let mut s = String::new();
        proof {
            reveal_strlit(" ;");
            reveal_strlit(" ");
            reveal_strlit(":");
            reveal_strlit("->");
            reveal_strlit(" ip:");
            reveal_strlit(" flags:");
        }
        push_inst(&mut s, &step.inst);
        push_str(&mut s, " ;");
        if self.opt.with_estimate {
            push_clock(&mut s, c, self.clocks);
        }
        let ghost s1 = s@;
        match step.register {
            Some((reg, from, to)) => {
                if from != to {
                    self.touched.set(reg.ordinal(), true);
                }
            },
            None => {},
        }
        push_register_part(&mut s, step);
        push_ip_part(&mut s, step, self.opt.with_ip);
        push_flags_part(&mut s, step);
        assert(s@ =~= step_line(*step, self.opt.with_ip, self.opt.with_estimate, self.clocks as nat));
        s
    }

    /// Takes one step of `emulator` and renders it.
    fn step_traced(&mut self, emulator: &mut Emulator, fuel: Ghost<nat>) -> (r: Result<Option<String>, Inst>)
        requires
            old(self).wf(),
            old(emulator).wf(),
            old(self).total() + 765 <= u64::MAX,
            fuel@ > 0,
        ensures
            final(self).wf(),
            final(emulator).wf(),
            final(emulator).program() == old(emulator).program(),
            final(self).shows_ip() == old(self).shows_ip(),
            final(self).shows_trace() == old(self).shows_trace(),
            final(self).shows_estimate() == old(self).shows_estimate(),
            final(self).dump_path() == old(self).dump_path(),
            final(self).total() <= old(self).total() + 765,
            ({
                let prog = old(emulator).program();
                let before = run_spec(
                    old(emulator).state(),
                    prog,
                    old(self).touched(),
                    old(self).total(),
                    fuel@,
                    old(self).shows_ip(),
                    old(self).shows_estimate(),
                );
                let after = run_spec(
                    final(emulator).state(),
                    prog,
                    final(self).touched(),
                    final(self).total(),
                    (fuel@ - 1) as nat,
                    old(self).shows_ip(),
                    old(self).shows_estimate(),
                );
                match r {
                    Ok(None) => {
                        &&& prog[final(emulator).state().ip as int] is None
                        &&& final(self).total() == old(self).total()
                        &&& before == run_spec(
                            final(emulator).state(),
                            prog,
                            final(self).touched(),
                            final(self).total(),
                            fuel@,
                            old(self).shows_ip(),
                            old(self).shows_estimate(),
                        )
                    },
                    Ok(Some(line)) => before == (line@ + seq!['\n'] + after.0, after.1, after.2, after.3, after.4),
                    Err(inst) => before == (
                        Seq::<char>::empty(),
                        final(emulator).state(),
                        final(self).touched(),
                        final(self).total(),
                        Some(inst),
                    ),
                }
            }),
    {
        let ghost m0 = emulator.state();
        let ghost t0 = self.touched();
        let ghost c0 = self.total();
        proof {
            lemma_run_stop(m0, emulator.program(), t0, c0, 0, self.opt.with_ip, self.opt.with_estimate);
        }
        match emulator.step() {
            Ok(None) => Ok(None),
            Ok(Some(step)) => {
                let line = self.trace(&step);
                proof {
                    lemma_run_step(m0, emulator.program(), t0, c0, fuel@, self.opt.with_ip, self.opt.with_estimate, step.inst);
                }
                Ok(Some(line))
            },
            Err(inst) => {
                proof {
                    lemma_run_stop(m0, emulator.program(), t0, c0, fuel@, self.opt.with_ip, self.opt.with_estimate);
                }
                Err(inst)
            },
        }
    }

    /// Runs `emulator` until no instruction starts at IP, or for at most
    /// `MAX_STEPS` steps, as `run_spec` says. With tracing on, the text holds
    /// a line per step and then the final-state block; with tracing off it is
    /// empty. An instruction whose form the emulator does not execute stops
    /// the run with `Err`, the state as it was before that instruction.
    #[verifier::rlimit(80)]
    pub fn run(&mut self, emulator: &mut Emulator) -> (r: Result<String, Inst>)
        requires
            old(self).wf(),
            old(emulator).wf(),
            old(self).total() <= 0x1000_0000_0000_0000,
        ensures
            ({
                let res = run_spec(
                    old(emulator).state(),
                    old(emulator).program(),
                    old(self).touched(),
                    old(self).total(),
                    MAX_STEPS as nat,
                    old(self).shows_ip(),
                    old(self).shows_estimate(),
                );
                &&& final(self).wf()
                &&& final(emulator).wf()
                &&& final(emulator).program() == old(emulator).program()
                &&& final(self).shows_ip() == old(self).shows_ip()
                &&& final(self).shows_trace() == old(self).shows_trace()
                &&& final(self).shows_estimate() == old(self).shows_estimate()
                &&& final(self).dump_path() == old(self).dump_path()
                &&& final(emulator).state() == res.1
                &&& final(self).touched() == res.2
                &&& final(self).total() == res.3
                &&& match r {
                    Ok(text) => res.4 is None && text@ == if old(self).shows_trace() {
                        res.0 + final_text(res.2, res.1, old(self).shows_ip())
                    } else {
                        seq![]
                    },
                    Err(inst) => res.4 == Some(inst),
                }
            }),
    {
        let ghost with_ip = self.opt.with_ip;
        let ghost with_estimate = self.opt.with_estimate;
        let ghost prog = emulator.program();
        let ghost res = run_spec(
            emulator.state(),
            prog,
            self.touched(),
            self.total(),
            MAX_STEPS as nat,
            with_ip,
            with_estimate,
        );
        let mut lines = String::new();
        let ghost mut all_lines: Seq<char> = seq![];
        let mut halted = false;
        let mut steps: u64 = 0;
        let ghost start = self.clocks;
        proof {
            reveal_strlit("\n");
        }
        while !halted && steps < MAX_STEPS
            invariant
                self.wf(),
                emulator.wf(),
                prog == old(emulator).program(),
                with_ip == old(self).shows_ip(),
                with_estimate == old(self).shows_estimate(),
                res == run_spec(
                    old(emulator).state(),
                    prog,
                    old(self).touched(),
                    old(self).total(),
                    MAX_STEPS as nat,
                    with_ip,
                    with_estimate,
                ),
                emulator.program() == prog,
                self.shows_ip() == with_ip,
                self.shows_estimate() == with_estimate,
                self.shows_trace() == old(self).shows_trace(),
                self.dump_path() == old(self).dump_path(),
                steps <= MAX_STEPS,
                self.clocks <= start + steps * 765,
                start <= 0x1000_0000_0000_0000,
                halted ==> prog[emulator.state().ip as int] is None,
                self.opt.with_trace ==> lines@ == all_lines,
                !self.opt.with_trace ==> lines@.len() == 0,
                ({
                    let rest = run_spec(
                        emulator.state(),
                        prog,
                        self.touched(),
                        self.total(),
                        (MAX_STEPS - steps) as nat,
                        with_ip,
                        with_estimate,
                    );
                    &&& res.0 == all_lines + rest.0
                    &&& res.1 == rest.1
                    &&& res.2 == rest.2
                    &&& res.3 == rest.3
                    &&& res.4 == rest.4
                }),
            decreases MAX_STEPS - steps, if halted { 0int } else { 1int },
        {
            assert(self.clocks + 765 <= u64::MAX) by (nonlinear_arith)
                requires
                    self.clocks <= start + steps * 765,
                    start <= 0x1000_0000_0000_0000,
                    steps < MAX_STEPS,
            ;
            let ghost before = all_lines;
            let ghost clocks0 = self.clocks;
            match self.step_traced(emulator, Ghost((MAX_STEPS - steps) as nat)) {
                Ok(None) => {
                    halted = true;
                },
                Ok(Some(line)) => {
                    proof {
                        reveal_strlit("\n");
                        all_lines = all_lines + line@ + seq!['\n'];
                        let rest = run_spec(
                            emulator.state(),
                            prog,
                            self.touched(),
                            self.total(),
                            (MAX_STEPS - steps - 1) as nat,
                            with_ip,
                            with_estimate,
                        );
                        assert(res.0 =~= all_lines + rest.0);
                    }
                    if self.opt.with_trace {
                        lines.append(line.as_str());
                        push_str(&mut lines, "\n");
                    }
                    assert(self.clocks <= start + (steps + 1) * 765) by (nonlinear_arith)
                        requires
                            clocks0 <= start + steps * 765,
                            self.clocks <= clocks0 + 765,
                    ;
                    steps = steps + 1;
                },
                Err(inst) => {
                    assert(res.0 =~= all_lines);
                    return Err(inst);
                },
            }
        }
        proof {
            lemma_run_stop(emulator.state(), prog, self.touched(), self.total(), (MAX_STEPS - steps) as nat, with_ip, with_estimate);
            let rest = run_spec(
                emulator.state(),
                prog,
                self.touched(),
                self.total(),
                (MAX_STEPS - steps) as nat,
                with_ip,
                with_estimate,
            );
            assert(rest.0 =~= Seq::<char>::empty());
            assert(res.0 =~= all_lines);
        }
        if self.opt.with_trace {
            let fin = self.final_state(emulator);
            lines.append(fin.as_str());
        }
        Ok(lines)
    }

    /// The final-state block for `emulator`.
    #[verifier::rlimit(40)]
    pub fn final_state(&self, emulator: &Emulator) -> (r: String)
        requires
            self.wf(),
            emulator.wf(),
        ensures
            r@ == final_text(self.touched(), emulator.state(), self.shows_ip()),
    {
        let m = emulator.machine();
        proof {
            m.lemma_wf();
            reveal_strlit("Final registers:\n");
            reveal_strlit("ip");
            reveal_strlit("   flags: ");
            reveal_strlit("\n");
        }
        let mut s = String::new();
        push_str(&mut s, "Final registers:\n");
        let ghost head = s@;
        let mut k: usize = 0;
        while k < 16
            invariant
                k <= 16,
                self.wf(),
                m.wf(),
                s@ == head + registers_text(self.touched(), m@.words, k as nat),
            decreases 16 - k,
        {
            let r = Register::at_ordinal(k);
            proof {
                lemma_ordinal_unique(r, register_at(k as nat));
            }
            let ghost before = s@;
            if self.touched[k] {
                push_value_line(&mut s, register_name(r), crate::machine::to_unsigned(m.load_register(r)));
            }
            k = k + 1;
            assert(s@ =~= head + registers_text(self.touched(), m@.words, k as nat));
        }
        let ghost mid = s@;
        if self.opt.with_ip {
            push_value_line(&mut s, "ip", m.ip());
        }
        let ghost mid2 = s@;
        let f = m.flags();
        if f.bits() != 0 {
            push_str(&mut s, "   flags: ");
            push_flags(&mut s, f);
        }
        assert(s@ =~= mid2 + final_flags_part(m@));
        push_str(&mut s, "\n");
        assert(s@ =~= final_text(self.touched(), emulator.state(), self.shows_ip()));
        s
    }
}

fn push_register_part(s: &mut String, step: &Step)
    ensures
        final(s)@ == old(s)@ + register_part(*step),
{
    proof {
        reveal_strlit(" ");
        reveal_strlit(":");
        reveal_strlit("->");
    }
    match step.register {
        Some((reg, from, to)) => {
            if from != to {
                push_str(s, " ");
                push_str(s, register_name(reg));
                push_str(s, ":");
                push_hex(s, crate::machine::to_unsigned(from));
                push_str(s, "->");
                push_hex(s, crate::machine::to_unsigned(to));
            }
        },
        None => {},
    }
    assert(s@ =~= old(s)@ + register_part(*step));
}

fn push_ip_part(s: &mut String, step: &Step, with_ip: bool)
    ensures
        final(s)@ == old(s)@ + ip_part(*step, with_ip),
{
    proof {
        reveal_strlit(" ip:");
        reveal_strlit("->");
    }
    if with_ip {
        push_str(s, " ip:");
        push_hex(s, step.ip.0);
        push_str(s, "->");
        push_hex(s, step.ip.1);
    }
    assert(s@ =~= old(s)@ + ip_part(*step, with_ip));
}

#[verifier::rlimit(40)]
fn push_flags_part(s: &mut String, step: &Step)
    ensures
        final(s)@ == old(s)@ + flags_part(*step),
{
    proof {
        reveal_strlit(" flags:");
        reveal_strlit("->");
    }
    match step.flags {
        Some((a, b)) => {
            push_str(s, " flags:");
            push_flags(s, a);
            push_str(s, "->");
            push_flags(s, b);
            assert(s@ =~= old(s)@ + (seq![' ', 'f', 'l', 'a', 'g', 's', ':'] + flags_text(a) + seq!['-', '>']
                + flags_text(b)));
        },
        None => {
            assert(s@ =~= old(s)@ + flags_part(*step));
        },
    }
}

fn push_value_line(s: &mut String, name: &str, v: u16)
    ensures
        final(s)@ == old(s)@ + value_line(name@, v),
{
    proof {
        reveal_strlit("      ");
        reveal_strlit(": ");
        reveal_strlit(" (");
        reveal_strlit(")\n");
    }
    push_str(s, "      ");
    push_str(s, name);
    push_str(s, ": ");
    push_hex4(s, v);
    push_str(s, " (");
    push_digits(s, v as u64, 10);
    push_str(s, ")\n");
    assert(s@ =~= old(s)@ + value_line(name@, v));
}

proof fn lemma_ordinal_unique(a: Register, b: Register)
    requires
        a.spec_ordinal() == b.spec_ordinal(),
    ensures
        a == b,
{
}

pub open spec fn clock_detail(c: Clock) -> Seq<char> {
    if c.ea != 0 && c.transfer != 0 {
        seq![' ', '('] + dec(c.value as nat) + seq![' ', '+', ' '] + dec(c.ea as nat) + seq![
            'e',
            'a',
            ' ',
            '+',
            ' ',
        ] + dec(c.transfer as nat) + seq!['p', ')']
    } else if c.ea != 0 {
        seq![' ', '('] + dec(c.value as nat) + seq![' ', '+', ' '] + dec(c.ea as nat) + seq!['e', 'a', ')']
    } else {
        seq![]
    }
}

fn push_clock_detail(s: &mut String, c: Clock)
    ensures
        final(s)@ == old(s)@ + clock_detail(c),
{
    proof {
        reveal_strlit(" (");
        reveal_strlit(" + ");
        reveal_strlit("ea + ");
        reveal_strlit("p)");
        reveal_strlit("ea)");
    }
    if c.ea != 0 && c.transfer != 0 {
        push_str(s, " (");
        push_digits(s, c.value as u64, 10);
        push_str(s, " + ");
        push_digits(s, c.ea as u64, 10);
        push_str(s, "ea + ");
        push_digits(s, c.transfer as u64, 10);
        push_str(s, "p)");
    } else if c.ea != 0 {
        push_str(s, " (");
        push_digits(s, c.value as u64, 10);
        push_str(s, " + ");
        push_digits(s, c.ea as u64, 10);
        push_str(s, "ea)");
    }
    assert(s@ =~= old(s)@ + clock_detail(c));
}

fn push_clock(s: &mut String, c: Clock, total: u64)
    ensures
        final(s)@ == old(s)@ + clock_text(c, total as nat),
{
    proof {
        reveal_strlit(" Clocks: +");
        reveal_strlit(" = ");
        reveal_strlit(" |");
    }
    let inc: u64 = c.value as u64 + c.ea as u64 + c.transfer as u64;
    push_str(s, " Clocks: +");
    push_digits(s, inc, 10);
    push_str(s, " = ");
    push_digits(s, total, 10);
    push_clock_detail(s, c);
    push_str(s, " |");
    assert(s@ =~= old(s)@ + clock_text(c, total as nat));
}

/// One step of a run, unfolded.
proof fn lemma_run_step(
    m: MachineView,
    prog: Seq<Option<Inst>>,
    touched: Seq<bool>,
    total: nat,
    fuel: nat,
    with_ip: bool,
    with_estimate: bool,
    inst: Inst,
)
    requires
        fuel > 0,
        prog[m.ip as int] == Some(inst),
        supported(inst),
    ensures
        ({
            let s = record_of(m, inst);
            let t = total + clock_inc(s.clock);
            let rest = run_spec(execute(m, inst), prog, touch(touched, s), t, (fuel - 1) as nat, with_ip, with_estimate);
            run_spec(m, prog, touched, total, fuel, with_ip, with_estimate) == (
                step_line(s, with_ip, with_estimate, t) + seq!['\n'] + rest.0,
                rest.1,
                rest.2,
                rest.3,
                rest.4,
            )
        }),
{
    reveal(run_spec);
}

/// A run that cannot take a step: out of fuel, halted, or at an instruction
/// the emulator does not execute.
proof fn lemma_run_stop(
    m: MachineView,
    prog: Seq<Option<Inst>>,
    touched: Seq<bool>,
    total: nat,
    fuel: nat,
    with_ip: bool,
    with_estimate: bool,
)
    requires
        fuel == 0 || prog[m.ip as int] is None || !supported(prog[m.ip as int]->Some_0),
    ensures
        run_spec(m, prog, touched, total, fuel, with_ip, with_estimate) == (
            Seq::<char>::empty(),
            m,
            touched,
            total,
            if fuel == 0 || prog[m.ip as int] is None { None } else { prog[m.ip as int] },
        ),
{
    reveal(run_spec);
}

} // verus!

//! The abstract machine: its state, what each operation does to it, and what
//! one step does.
use crate::display::{collides, drawn, cells_wf};
use crate::error::Error;
use crate::instruction::{bcd_digits, decode, op_in_range, Address, Op, Register};
use vstd::prelude::*;

verus! {

/// Size of memory in bytes.
pub const MEM_SIZE: usize = 4096;

/// Where programs are loaded, and where execution starts.
pub const MEM_START: usize = 512;

/// Number of return addresses the call stack holds.
pub const STACK_SIZE: usize = 16;

/// The longest program that fits in memory.
pub const MAX_ROM_LEN: usize = 3584;

/// The highest value the program counter can reach, and the highest return
/// address on the stack.
pub const PC_LIMIT: usize = 0x2000;

/// What a step shows the driver, without the pixel list of `Draw`.
#[derive(Debug, Clone, Copy, PartialEq, Eq, Structural)]
pub enum Signal {
    Nop,
    Draw,
    WaitForKey,
    Exit,
}

/// The whole state of the machine.
pub struct MachineState {
    /// Registers V0..VF.
    pub vx: Seq<u8>,
    /// Delay timer.
    pub dt: u8,
    /// Sound timer.
    pub st: u8,
    /// Number of return addresses on the stack.
    pub sp: u8,
    /// Address register.
    pub i: u16,
    /// Program counter.
    pub pc: usize,
    pub memory: Seq<u8>,
    /// Return addresses; the first `sp` are in use.
    pub stack: Seq<usize>,
    /// Screen cells, row-major.
    pub screen: Seq<u8>,
    /// Pressed state of keys 0..F.
    pub keyboard: Seq<bool>,
    /// One past the last byte of the loaded program.
    pub rom_end: usize,
}

/// The glyphs of the sixteen hexadecimal digits, five rows each.
pub open spec fn font() -> Seq<u8> {
    seq![
        0xF0u8, 0x90, 0x90, 0x90, 0xF0, 0x20, 0x60, 0x20, 0x20, 0x70,
        0xF0, 0x10, 0xF0, 0x80, 0xF0, 0xF0, 0x10, 0xF0, 0x10, 0xF0,
        0x90, 0x90, 0xF0, 0x10, 0x10, 0xF0, 0x80, 0xF0, 0x10, 0xF0,
        0xF0, 0x80, 0xF0, 0x90, 0xF0, 0xF0, 0x10, 0x20, 0x40, 0x40,
        0xF0, 0x90, 0xF0, 0x90, 0xF0, 0xF0, 0x90, 0xF0, 0x10, 0xF0,
        0xF0, 0x90, 0xF0, 0x90, 0x90, 0xE0, 0x90, 0xE0, 0x90, 0xE0,
        0xF0, 0x80, 0x80, 0x80, 0xF0, 0xE0, 0x90, 0x90, 0x90, 0xE0,
        0xF0, 0x80, 0xF0, 0x80, 0xF0, 0xF0, 0x80, 0xF0, 0x80, 0x80,
    ]
}

/// Consistent machine state.
pub open spec fn state_wf(s: MachineState) -> bool {
    &&& s.vx.len() == 16
    &&& s.memory.len() == MEM_SIZE
    &&& s.stack.len() == STACK_SIZE
    &&& s.keyboard.len() == 16
    &&& cells_wf(s.screen)
    &&& s.sp <= STACK_SIZE
    &&& MEM_START <= s.rom_end <= MEM_SIZE
    &&& s.pc <= PC_LIMIT
    &&& forall|k: int| 0 <= k < STACK_SIZE ==> #[trigger] s.stack[k] <= PC_LIMIT
}

/// The state in which an instruction executes: consistent, with the program
/// counter already past the fetched word.
pub open spec fn executing(s: MachineState) -> bool {
    &&& state_wf(s)
    &&& MEM_START + 2 <= s.pc <= MEM_SIZE
}

/// The memory after loading a program: the font at the bottom, the program
/// from `MEM_START`, zeros elsewhere.
pub open spec fn loaded_memory(rom: Seq<u8>) -> Seq<u8> {
    Seq::new(
        MEM_SIZE as nat,
        |a: int|
            if a < 80 {
                font()[a]
            } else if MEM_START <= a < MEM_START + rom.len() {
                rom[a - MEM_START]
            } else {
                0
            },
    )
}

/// The state of a machine just constructed with a program.
pub open spec fn initial_state(rom: Seq<u8>) -> MachineState {
    MachineState {
        vx: Seq::new(16, |k: int| 0u8),
        dt: 0,
        st: 0,
        sp: 0,
        i: 0,
        pc: MEM_START,
        memory: loaded_memory(rom),
        stack: Seq::new(STACK_SIZE as nat, |k: int| 0usize),
        screen: Seq::new(2048, |k: int| 0u8),
        keyboard: Seq::new(16, |k: int| false),
        rom_end: (MEM_START + rom.len()) as usize,
    }
}

/// A counter decreased by one, stopping at zero.
pub open spec fn count_down(t: u8) -> u8 {
    if t > 0 {
        (t - 1) as u8
    } else {
        0
    }
}

/// Both timers counted down.
pub open spec fn tick(s: MachineState) -> MachineState {
    MachineState { dt: count_down(s.dt), st: count_down(s.st), ..s }
}

/// Whether the program counter points at a whole word of the loaded program.
pub open spec fn can_fetch(s: MachineState) -> bool {
    MEM_START <= s.pc && s.pc < s.rom_end && s.pc + 1 < MEM_SIZE
}

/// The word at the program counter, high byte first.
pub open spec fn word_at(s: MachineState) -> u16 {
    (s.memory[s.pc as int] * 256 + s.memory[s.pc + 1]) as u16
}

/// The memory address `k` bytes past `base`, wrapping at the end of memory.
pub open spec fn mem_addr(base: int, k: int) -> int {
    (base + k) % (MEM_SIZE as int)
}

/// An address is `k` bytes past `base` exactly when it is `mem_addr(base, k)`.
pub proof fn lemma_offset_of_addr(base: int, k: int)
    requires
        0 <= base,
        0 <= k < MEM_SIZE,
    ensures
        0 <= mem_addr(base, k) < MEM_SIZE,
        (mem_addr(base, k) - base) % (MEM_SIZE as int) == k,
        forall|a: int|
            0 <= a < MEM_SIZE && #[trigger] ((a - base) % (MEM_SIZE as int)) == k ==> a == mem_addr(
                base,
                k,
            ),
{
}

/// The `n` sprite rows read from memory at `base`.
pub open spec fn sprite_rows(memory: Seq<u8>, base: u16, n: u8) -> Seq<u8> {
    Seq::new(n as nat, |k: int| memory[mem_addr(base as int, k)])
}

/// The value of register `x`.
pub open spec fn reg(s: MachineState, x: u8) -> u8 {
    s.vx[x as int]
}

/// The state with register `x` set to `v`.
pub open spec fn set_reg(s: MachineState, x: u8, v: u8) -> MachineState {
    MachineState { vx: s.vx.update(x as int, v), ..s }
}

/// The state with the next instruction skipped when `c` holds.
pub open spec fn skip_if(s: MachineState, c: bool) -> MachineState {
    if c {
        MachineState { pc: (s.pc + 2) as usize, ..s }
    } else {
        s
    }
}

/// Whether key `k` is pressed; codes past F are never pressed.
pub open spec fn key_down(keyboard: Seq<bool>, k: u8) -> bool {
    k < 16 && keyboard[k as int]
}

/// The lowest pressed key at or above `k`.
pub open spec fn first_pressed(keyboard: Seq<bool>, k: int) -> Option<u8>
    decreases 16 - k,
{
    if k >= 16 || k < 0 {
        None
    } else if keyboard[k] {
        Some(k as u8)
    } else {
        first_pressed(keyboard, k + 1)
    }
}

/// 1 when `c` holds, else 0.
pub open spec fn flag(c: bool) -> u8 {
    if c {
        1
    } else {
        0
    }
}

/// Register VF.
pub const VF: u8 = 15;

/// The state after executing `op`, and the step's signal or error. `rnd` is
/// the random byte that RND masks; no other operation reads it.
pub open spec fn execute(s: MachineState, op: Op, rnd: u8) -> (MachineState, Result<Signal, Error>) {
    match op {
        Op::ADD(x, v) => (set_reg(s, x.0, ((reg(s, x.0) + v.0) % 256) as u8), Ok(Signal::Nop)),
        Op::ADDI(x) => (
            MachineState { i: ((s.i + reg(s, x.0)) % 0x10000) as u16, ..s },
            Ok(Signal::Nop),
        ),
        Op::ADDR(x, y) => {
            let sum = reg(s, x.0) + reg(s, y.0);
            (set_reg(set_reg(s, x.0, (sum % 256) as u8), VF, flag(sum > 255)), Ok(Signal::Nop))
        },
        Op::AND(x, y) => (set_reg(s, x.0, reg(s, x.0) & reg(s, y.0)), Ok(Signal::Nop)),
        Op::CALL(a) => if s.sp >= STACK_SIZE {
            (s, Err(Error::StackOverflow))
        } else {
            (
                MachineState {
                    stack: s.stack.update(s.sp as int, s.pc),
                    sp: (s.sp + 1) as u8,
                    pc: a.0 as usize,
                    ..s
                },
                Ok(Signal::Nop),
            )
        },
        Op::CLS => (MachineState { screen: Seq::new(2048, |k: int| 0u8), ..s }, Ok(Signal::Draw)),
        Op::CPDT(x) => (set_reg(s, x.0, s.dt), Ok(Signal::Nop)),
        Op::DRW(x, y, n) => {
            let px = reg(s, x.0);
            let py = reg(s, y.0);
            let rows = sprite_rows(s.memory, s.i, n.0);
            if px >= 64 || py >= 32 {
                (s, Ok(Signal::Draw))
            } else {
                (
                    set_reg(
                        MachineState { screen: drawn(s.screen, px, py, rows), ..s },
                        VF,
                        flag(collides(s.screen, px, py, rows)),
                    ),
                    Ok(Signal::Draw),
                )
            }
        },
        Op::JP(a) => (MachineState { pc: a.0 as usize, ..s }, Ok(Signal::Nop)),
        Op::JPREL(a) => (MachineState { pc: (a.0 + reg(s, 0)) as usize, ..s }, Ok(Signal::Nop)),
        Op::LD(x, v) => (set_reg(s, x.0, v.0), Ok(Signal::Nop)),
        Op::LDDT(x) => (MachineState { dt: reg(s, x.0), ..s }, Ok(Signal::Nop)),
        Op::LDI(a) => (MachineState { i: a.0, ..s }, Ok(Signal::Nop)),
        Op::LDIB(x) => {
            let d = bcd_digits(reg(s, x.0));
            let memory = s.memory.update(mem_addr(s.i as int, 0), d[0]).update(
                mem_addr(s.i as int, 1),
                d[1],
            ).update(mem_addr(s.i as int, 2), d[2]);
            (MachineState { memory, ..s }, Ok(Signal::Nop))
        },
        Op::LDIM(x) => (
            MachineState {
                vx: Seq::new(
                    16,
                    |r: int|
                        if r <= x.0 {
                            s.memory[mem_addr(s.i as int, r)]
                        } else {
                            s.vx[r]
                        },
                ),
                ..s
            },
            Ok(Signal::Nop),
        ),
        Op::LDIR(x) => (
            MachineState {
                memory: Seq::new(
                    MEM_SIZE as nat,
                    |a: int|
                        if (a - s.i) % (MEM_SIZE as int) <= x.0 {
                            s.vx[(a - s.i) % (MEM_SIZE as int)]
                        } else {
                            s.memory[a]
                        },
                ),
                ..s
            },
            Ok(Signal::Nop),
        ),
        Op::LDIS(x) => (MachineState { i: (4 * reg(s, x.0)) as u16, ..s }, Ok(Signal::Nop)),
        Op::LDKP(x) => match first_pressed(s.keyboard, 0) {
            Some(k) => (set_reg(s, x.0, k), Ok(Signal::Nop)),
            None => (MachineState { pc: (s.pc - 2) as usize, ..s }, Ok(Signal::WaitForKey)),
        },
        Op::LDR(x, y) => (set_reg(s, x.0, reg(s, y.0)), Ok(Signal::Nop)),
        Op::LDST(x) => (MachineState { st: reg(s, x.0), ..s }, Ok(Signal::Nop)),
        Op::OR(x, y) => (set_reg(s, x.0, reg(s, x.0) | reg(s, y.0)), Ok(Signal::Nop)),
        Op::RET => if s.sp == 0 {
            (s, Err(Error::StackUnderflow))
        } else {
            (
                MachineState { sp: (s.sp - 1) as u8, pc: s.stack[s.sp - 1], ..s },
                Ok(Signal::Nop),
            )
        },
        Op::RND(x, v) => (set_reg(s, x.0, rnd & v.0), Ok(Signal::Nop)),
        Op::SE(x, v) => (skip_if(s, reg(s, x.0) == v.0), Ok(Signal::Nop)),
        Op::SER(x, y) => (skip_if(s, reg(s, x.0) == reg(s, y.0)), Ok(Signal::Nop)),
        Op::SHL(x) => {
            let t = set_reg(s, VF, flag(reg(s, x.0) & 0x80 != 0));
            (set_reg(t, x.0, reg(t, x.0) << 1u8), Ok(Signal::Nop))
        },
        Op::SHR(x) => {
            let t = set_reg(s, VF, reg(s, x.0) & 1);
            (set_reg(t, x.0, reg(t, x.0) >> 1u8), Ok(Signal::Nop))
        },
        Op::SKNP(x) => (skip_if(s, !key_down(s.keyboard, reg(s, x.0))), Ok(Signal::Nop)),
        Op::SKP(x) => (skip_if(s, key_down(s.keyboard, reg(s, x.0))), Ok(Signal::Nop)),
        Op::SNE(x, v) => (skip_if(s, reg(s, x.0) != v.0), Ok(Signal::Nop)),
        Op::SNER(x, y) => (skip_if(s, reg(s, x.0) != reg(s, y.0)), Ok(Signal::Nop)),
        Op::SUB(x, y) => {
            let a = reg(s, x.0);
            let b = reg(s, y.0);
            (set_reg(set_reg(s, x.0, ((a - b + 256) % 256) as u8), VF, flag(a < b)), Ok(Signal::Nop))
        },
        Op::SUBN(x, y) => {
            let t = set_reg(s, VF, flag(reg(s, x.0) > reg(s, y.0)));
            let a = reg(t, x.0);
            let b = reg(t, y.0);
            (set_reg(t, x.0, if b > a { (b - a) as u8 } else { 0 }), Ok(Signal::Nop))
        },
        Op::SYS(_) => (s, Ok(Signal::Nop)),
        Op::XOR(x, y) => (set_reg(s, x.0, reg(s, x.0) ^ reg(s, y.0)), Ok(Signal::Nop)),
    }
}

/// One step: count the timers down, then fetch, decode and execute the word
/// at the program counter. A program counter outside the program gives
/// `Exit`; an unknown word is an error naming it.
pub open spec fn step_spec(s: MachineState, rnd: u8) -> (MachineState, Result<Signal, Error>) {
    let t = tick(s);
    if !can_fetch(t) {
        (t, Ok(Signal::Exit))
    } else {
        let w = word_at(t);
        let f = MachineState { pc: (t.pc + 2) as usize, ..t };
        match decode(w) {
            None => (f, Err(Error::UnknownInstruction(w))),
            Some(op) => execute(f, op, rnd),
        }
    }
}

/// The state after `n` steps, each with `rnd` as the random byte.
pub open spec fn steps(s: MachineState, n: nat, rnd: u8) -> MachineState
    decreases n,
{
    if n == 0 {
        s
    } else {
        steps(step_spec(s, rnd).0, (n - 1) as nat, rnd)
    }
}

/// A call succeeds exactly when fewer than sixteen return addresses are
/// pending, and then pushes the address of the next instruction and jumps; a
/// return fails exactly when none is pending. A return executed anywhere in
/// the called routine, with the stack as the call left it, comes back to the
/// instruction after the call with the stack as before the call.
pub proof fn lemma_call_return(s: MachineState, a: Address, later: MachineState, rnd: u8)
    requires
        executing(s),
        a.0 < 0x1000,
        executing(later),
        later.sp == execute(s, Op::CALL(a), rnd).0.sp,
        later.stack == execute(s, Op::CALL(a), rnd).0.stack,
    ensures
        execute(s, Op::CALL(a), rnd).1 == Err::<Signal, Error>(Error::StackOverflow) <==> s.sp
            == STACK_SIZE,
        s.sp < STACK_SIZE ==> {
            let c = execute(s, Op::CALL(a), rnd);
            &&& c.1 == Ok::<Signal, Error>(Signal::Nop)
            &&& c.0.sp == s.sp + 1
            &&& c.0.pc == a.0
            &&& c.0.stack[s.sp as int] == s.pc
        },
        execute(s, Op::RET, rnd).1 == Err::<Signal, Error>(Error::StackUnderflow) <==> s.sp == 0,
        s.sp < STACK_SIZE ==> {
            let back = execute(later, Op::RET, rnd);
            &&& back.1 == Ok::<Signal, Error>(Signal::Nop)
            &&& back.0.pc == s.pc
            &&& back.0.sp == s.sp
            &&& back.0.stack == s.stack.update(s.sp as int, s.pc)
        },
{
}

/// Sixteen nested calls and no more: when the next word calls its own
/// address, each step pushes one more return address while fewer than
/// sixteen are pending, and the step after that fails with StackOverflow.
pub proof fn lemma_nested_calls(s: MachineState, rnd: u8)
    requires
        state_wf(s),
        can_fetch(s),
        word_at(s) == 0x2000 + s.pc,
    ensures
        forall|k: nat|
            k < STACK_SIZE - s.sp ==> #[trigger] step_spec(steps(s, k, rnd), rnd).1 == Ok::<
                Signal,
                Error,
            >(Signal::Nop) && steps(s, k + 1, rnd).sp == s.sp + k + 1,
        step_spec(steps(s, (STACK_SIZE - s.sp) as nat, rnd), rnd).1 == Err::<Signal, Error>(
            Error::StackOverflow,
        ),
    decreases STACK_SIZE - s.sp,
{
    let w = word_at(s);
    assert(w / 0x1000 == 2 && w % 0x1000 == s.pc);
    if s.sp < STACK_SIZE {
        let next = step_spec(s, rnd).0;
        assert(next.pc == s.pc && next.sp == s.sp + 1 && next.memory == s.memory);
        assert(word_at(next) == word_at(s));
        lemma_nested_calls(next, rnd);
        assert forall|k: nat| k < STACK_SIZE - s.sp implies #[trigger] step_spec(
            steps(s, k, rnd),
            rnd,
        ).1 == Ok::<Signal, Error>(Signal::Nop) && steps(s, k + 1, rnd).sp == s.sp + k + 1 by {
            if k > 0 {
                assert(steps(s, k, rnd) == steps(next, (k - 1) as nat, rnd));
                assert(steps(s, k + 1, rnd) == steps(next, k, rnd));
            } else {
                assert(steps(s, 1, rnd) == steps(next, 0, rnd));
            }
        }
        assert(steps(s, (STACK_SIZE - s.sp) as nat, rnd) == steps(
            next,
            (STACK_SIZE - next.sp) as nat,
            rnd,
        ));
    }
}

/// Each step counts both timers down by one, stopping at zero, whatever it
/// executes, unless the instruction loads that timer.
pub proof fn lemma_timers_count_down(s: MachineState, rnd: u8)
    requires
        state_wf(s),
    ensures
        !(can_fetch(s) && decode(word_at(s)) matches Some(Op::LDDT(_))) ==> step_spec(s, rnd).0.dt
            == count_down(s.dt),
        !(can_fetch(s) && decode(word_at(s)) matches Some(Op::LDST(_))) ==> step_spec(s, rnd).0.st
            == count_down(s.st),
{
}

/// Executing an operation keeps the machine state consistent.
#[verifier::rlimit(50)]
pub proof fn lemma_execute_wf(s: MachineState, op: Op, rnd: u8)
    requires
        executing(s),
        op_in_range(op),
    ensures
        state_wf(execute(s, op, rnd).0),
{
    let r = execute(s, op, rnd).0;
    match op {
        Op::DRW(x, y, n) => {
            let px = reg(s, x.0);
            let py = reg(s, y.0);
            let rows = sprite_rows(s.memory, s.i, n.0);
            if px < 64 && py < 32 {
                assert(cells_wf(drawn(s.screen, px, py, rows)));
            }
            assert(state_wf(r));
        },
        Op::LDIB(x) => {
            assert(bcd_digits(reg(s, x.0)).len() == 3);
            assert(state_wf(r));
        },
        _ => {},
    }
}

/// One step keeps the machine state consistent.
pub proof fn lemma_step_wf(s: MachineState, rnd: u8)
    requires
        state_wf(s),
    ensures
        state_wf(step_spec(s, rnd).0),
{
    let t = tick(s);
    if can_fetch(t) {
        let w = word_at(t);
        crate::instruction::lemma_decode_in_range(w);
        let f = MachineState { pc: (t.pc + 2) as usize, ..t };
        if let Some(op) = decode(w) {
            lemma_execute_wf(f, op, rnd);
        }
    }
}

/// Whether the next step loads the delay or the sound timer.
pub open spec fn loads_timer(s: MachineState) -> bool {
    can_fetch(s) && (decode(word_at(s)) matches Some(Op::LDDT(_)) || decode(word_at(s)) matches Some(
        Op::LDST(_),
    ))
}

/// Over `n` steps none of which loads a timer, each timer falls by one per
/// step until it reaches zero, and stays there.
pub proof fn lemma_timers_run_down(s: MachineState, n: nat, rnd: u8)
    requires
        state_wf(s),
        forall|j: nat| j < n ==> !loads_timer(#[trigger] steps(s, j, rnd)),
    ensures
        steps(s, n, rnd).dt == if s.dt >= n { s.dt - n } else { 0 },
        steps(s, n, rnd).st == if s.st >= n { s.st - n } else { 0 },
    decreases n,
{
    if n > 0 {
        let next = step_spec(s, rnd).0;
        assert(steps(s, 0, rnd) == s);
        lemma_timers_count_down(s, rnd);
        lemma_step_wf(s, rnd);
        assert forall|j: nat| j < (n - 1) as nat implies !loads_timer(
            #[trigger] steps(next, j, rnd),
        ) by {
            assert(steps(s, j + 1, rnd) == steps(next, j, rnd));
        }
        lemma_timers_run_down(next, (n - 1) as nat, rnd);
    }
}

/// The lowest pressed key: `first_pressed` finds a pressed key with no
/// pressed key below it, or `None` when no key is pressed.
pub proof fn lemma_first_pressed(keyboard: Seq<bool>, k: int)
    requires
        keyboard.len() == 16,
        0 <= k <= 16,
    ensures
        match first_pressed(keyboard, k) {
            Some(key) => k <= key < 16 && keyboard[key as int] && forall|j: int|
                k <= j < key ==> !keyboard[j],
            None => forall|j: int| k <= j < 16 ==> !keyboard[j],
        },
    decreases 16 - k,
{
    if k < 16 {
        lemma_first_pressed(keyboard, k + 1);
    }
}

/// Waiting for a key: with no key pressed, a key-wait step leaves the program
/// counter where it was and signals WaitForKey, so the same instruction runs
/// again; with keys pressed, the lowest pressed key's code is loaded and
/// execution moves on to the next instruction.
pub proof fn lemma_key_wait(s: MachineState, x: Register, rnd: u8)
    requires
        state_wf(s),
        can_fetch(s),
        decode(word_at(s)) == Some(Op::LDKP(x)),
    ensures
        (forall|j: int| 0 <= j < 16 ==> !s.keyboard[j]) ==> {
            &&& step_spec(s, rnd).0 == tick(s)
            &&& step_spec(s, rnd).1 == Ok::<Signal, Error>(Signal::WaitForKey)
        },
        forall|key: int|
            0 <= key < 16 && s.keyboard[key] && (forall|j: int| 0 <= j < key ==> !s.keyboard[j])
                ==> {
                &&& #[trigger] step_spec(s, rnd).0.vx == s.vx.update(x.0 as int, key as u8)
                &&& step_spec(s, rnd).0.pc == s.pc + 2
                &&& step_spec(s, rnd).1 == Ok::<Signal, Error>(Signal::Nop)
            },
{
    lemma_first_pressed(s.keyboard, 0);
    crate::instruction::lemma_decode_in_range(word_at(s));
    let t = tick(s);
    assert(t.keyboard == s.keyboard);
    if forall|j: int| 0 <= j < 16 ==> !s.keyboard[j] {
        assert(step_spec(s, rnd).0 =~~= tick(s));
    }
}

/// With no key pressed, a key-wait instruction holds the machine: after any
/// number of steps the program counter is where it was, and the next step
/// again signals WaitForKey.
pub proof fn lemma_key_wait_holds(s: MachineState, x: Register, n: nat, rnd: u8)
    requires
        state_wf(s),
        can_fetch(s),
        decode(word_at(s)) == Some(Op::LDKP(x)),
        forall|j: int| 0 <= j < 16 ==> !s.keyboard[j],
    ensures
        steps(s, n, rnd).pc == s.pc,
        step_spec(steps(s, n, rnd), rnd).1 == Ok::<Signal, Error>(Signal::WaitForKey),
    decreases n,
{
    lemma_key_wait(s, x, rnd);
    if n > 0 {
        let next = step_spec(s, rnd).0;
        lemma_step_wf(s, rnd);
        assert(word_at(next) == word_at(s));
        lemma_key_wait_holds(next, x, (n - 1) as nat, rnd);
    }
}

} // verus!

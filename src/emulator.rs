//! The processor: machine state, program loading, and the step function.
use crate::display::{screen_pixels, Pixels, Screen, Sprite};
use crate::error::Error;
use crate::instruction::{lemma_decode_in_range, to_bcd, Address, Instruction, Op, Register, Value};
use crate::machine::{
    can_fetch, execute, executing, first_pressed, initial_state, key_down, lemma_offset_of_addr,
    loaded_memory, mem_addr,
    sprite_rows, state_wf, step_spec, word_at, MachineState, Signal, MAX_ROM_LEN, MEM_SIZE,
    MEM_START, PC_LIMIT, STACK_SIZE,
};
use rand::Rng;
use vstd::prelude::*;

verus! {

/// The outcome of a step: a signal for the driver, or a fatal error.
pub type StepResult = Result<Option<Step>, Error>;

/// What a step asks of the driver.
pub enum Step {
    /// Nothing to show.
    Nop,
    /// The screen changed; carries all lit pixels.
    Draw(Pixels),
    /// A key-wait instruction found no key pressed and will run again.
    WaitForKey,
    /// The program counter left the program; the run is over.
    Exit,
}

/// The sixteen keys of the hexadecimal keypad.
#[derive(Debug, Clone, Copy, PartialEq, Eq, Structural)]
pub enum Input {
    Key0,
    Key1,
    Key2,
    Key3,
    Key4,
    Key5,
    Key6,
    Key7,
    Key8,
    Key9,
    KeyA,
    KeyB,
    KeyC,
    KeyD,
    KeyE,
    KeyF,
}

/// The code of a key, 0 to 15.
pub open spec fn key_code(k: Input) -> int {
    match k {
        Input::Key0 => 0,
        Input::Key1 => 1,
        Input::Key2 => 2,
        Input::Key3 => 3,
        Input::Key4 => 4,
        Input::Key5 => 5,
        Input::Key6 => 6,
        Input::Key7 => 7,
        Input::Key8 => 8,
        Input::Key9 => 9,
        Input::KeyA => 10,
        Input::KeyB => 11,
        Input::KeyC => 12,
        Input::KeyD => 13,
        Input::KeyE => 14,
        Input::KeyF => 15,
    }
}

impl Input {
    /// The key's code, 0 to 15.
    pub fn code(self) -> (r: usize)
        ensures
            r == key_code(self),
    {
        match self {
            Input::Key0 => 0,
            Input::Key1 => 1,
            Input::Key2 => 2,
            Input::Key3 => 3,
            Input::Key4 => 4,
            Input::Key5 => 5,
            Input::Key6 => 6,
            Input::Key7 => 7,
            Input::Key8 => 8,
            Input::Key9 => 9,
            Input::KeyA => 10,
            Input::KeyB => 11,
            Input::KeyC => 12,
            Input::KeyD => 13,
            Input::KeyE => 14,
            Input::KeyF => 15,
        }
    }
}

/// Whether a step's result is the expected signal or error; a `Draw` must
/// carry the lit pixels of `screen`.
pub open spec fn step_outcome(r: StepResult, expected: Result<Signal, Error>, screen: Seq<u8>) -> bool {
    match expected {
        Ok(Signal::Nop) => r matches Ok(Some(Step::Nop)),
        Ok(Signal::WaitForKey) => r matches Ok(Some(Step::WaitForKey)),
        Ok(Signal::Exit) => r matches Ok(Some(Step::Exit)),
        Ok(Signal::Draw) => r matches Ok(Some(Step::Draw(p))) && p@ == screen_pixels(screen),
        Err(e) => r == Err::<Option<Step>, Error>(e),
    }
}

/// Whether `new` and `r` are what executing `op` in `old` gives, with `rnd`
/// as the random byte.
pub open spec fn performs(
    old: MachineState,
    new: MachineState,
    r: StepResult,
    op: Op,
    rnd: u8,
) -> bool {
    new == execute(old, op, rnd).0 && step_outcome(r, execute(old, op, rnd).1, new.screen)
}

/// Draws the byte that RND masks. Relies on rand's thread-local generator and
/// `Rng::gen_range(low, high)`, which returns a value in [low, high).
#[verifier::external_body]
fn random_byte() -> (r: u8)
    ensures
        r < 255,
{
    rand::thread_rng().gen_range(u8::MIN, u8::MAX)
}

/// A machine running one program.
pub struct Emulator {
    vx: [u8; 16],
    dt: u8,
    st: u8,
    sp: u8,
    i: u16,
    pc: usize,
    memory: [u8; MEM_SIZE],
    stack: [usize; STACK_SIZE],
    screen: Screen,
    keyboard: [bool; 16],
    rom_end: usize,
}

impl View for Emulator {
    type V = MachineState;

    closed spec fn view(&self) -> MachineState {
        MachineState {
            vx: self.vx@,
            dt: self.dt,
            st: self.st,
            sp: self.sp,
            i: self.i,
            pc: self.pc,
            memory: self.memory@,
            stack: self.stack@,
            screen: self.screen.cells(),
            keyboard: self.keyboard@,
            rom_end: self.rom_end,
        }
    }
}

impl Emulator {
    pub open spec fn wf(&self) -> bool {
        state_wf(self@)
    }

    /// A machine with the font and the given program loaded, or
    /// `InvalidROM` when the program does not fit in memory.
    pub fn new(rom_data: &[u8]) -> (r: Result<Emulator, Error>)
        ensures
            match r {
                Ok(emu) => rom_data@.len() <= MAX_ROM_LEN && emu.wf() && emu@ == initial_state(
                    rom_data@,
                ),
                Err(e) => rom_data@.len() > MAX_ROM_LEN && e == Error::InvalidROM,
            },
    {
        let font: [u8; 80] = [
            0xF0, 0x90, 0x90, 0x90, 0xF0, 0x20, 0x60, 0x20, 0x20, 0x70,
            0xF0, 0x10, 0xF0, 0x80, 0xF0, 0xF0, 0x10, 0xF0, 0x10, 0xF0,
            0x90, 0x90, 0xF0, 0x10, 0x10, 0xF0, 0x80, 0xF0, 0x10, 0xF0,
            0xF0, 0x80, 0xF0, 0x90, 0xF0, 0xF0, 0x10, 0x20, 0x40, 0x40,
            0xF0, 0x90, 0xF0, 0x90, 0xF0, 0xF0, 0x90, 0xF0, 0x10, 0xF0,
            0xF0, 0x90, 0xF0, 0x90, 0x90, 0xE0, 0x90, 0xE0, 0x90, 0xE0,
            0xF0, 0x80, 0x80, 0x80, 0xF0, 0xE0, 0x90, 0x90, 0x90, 0xE0,
            0xF0, 0x80, 0xF0, 0x80, 0xF0, 0xF0, 0x80, 0xF0, 0x80, 0x80,
        ];
        assert(font@ =~= crate::machine::font());
        let mut memory = [0u8; MEM_SIZE];
        let mut k: usize = 0;
        while k < 80
            invariant
                k <= 80,
                font@ == crate::machine::font(),
                forall|a: int| 0 <= a < k ==> memory@[a] == font@[a],
                forall|a: int| k <= a < MEM_SIZE ==> memory@[a] == 0,
            decreases 80 - k,
        {
            memory[k] = font[k];
            k = k + 1;
        }
        let mut emu = Emulator {
            vx: [0u8; 16],
            dt: 0u8,
            st: 0u8,
            sp: 0u8,
            i: 0u16,
            pc: MEM_START,
            memory,
            stack: [0usize; STACK_SIZE],
            screen: Screen::default(),
            keyboard: [false; 16],
            rom_end: MEM_START,
        };
        assert(emu.stack@ =~= Seq::new(STACK_SIZE as nat, |k: int| 0usize));
        assert(emu.vx@ =~= Seq::new(16, |k: int| 0u8));
        assert(emu.keyboard@ =~= Seq::new(16, |k: int| false));
        match emu.load_rom(rom_data) {
            Ok(()) => {},
            Err(e) => {
                return Err(e);
            },
        }
        proof {
            assert(emu.screen.cells() =~= Seq::new(2048, |k: int| 0u8));
            assert(emu.memory@ =~= loaded_memory(rom_data@));
        }
        Ok(emu)
    }

    /// Clears the program region and copies the program into it, or fails
    /// with `InvalidROM`, leaving the region clear, when it does not fit.
    fn load_rom(&mut self, rom_data: &[u8]) -> (r: Result<(), Error>)
        requires
            state_wf(old(self)@),
        ensures
            state_wf(final(self)@),
            forall|a: int|
                0 <= a < MEM_START ==> #[trigger] final(self)@.memory[a] == old(self)@.memory[a],
            match r {
                Ok(()) => {
                    &&& rom_data@.len() <= MAX_ROM_LEN
                    &&& final(self)@ == (MachineState {
                        memory: final(self)@.memory,
                        rom_end: (MEM_START + rom_data@.len()) as usize,
                        ..old(self)@
                    })
                    &&& forall|a: int|
                        MEM_START <= a < MEM_SIZE ==> #[trigger] final(self)@.memory[a] == if a
                            < MEM_START + rom_data@.len() {
                            rom_data@[a - MEM_START]
                        } else {
                            0
                        }
                },
                Err(e) => {
                    &&& rom_data@.len() > MAX_ROM_LEN
                    &&& e == Error::InvalidROM
                    &&& final(self)@ == (MachineState {
                        memory: final(self)@.memory,
                        rom_end: MEM_START,
                        ..old(self)@
                    })
                    &&& forall|a: int|
                        MEM_START <= a < MEM_SIZE ==> #[trigger] final(self)@.memory[a] == 0
                },
            },
    {
        self.unload_rom();
        if rom_data.len() > MAX_ROM_LEN {
            return Err(Error::InvalidROM);
        }
        let ghost cleared = self.memory@;
        let ghost before = self@;
        let mut k: usize = 0;
        while k < rom_data.len()
            invariant
                k <= rom_data@.len() <= MAX_ROM_LEN,
                self.memory@.len() == MEM_SIZE,
                forall|a: int| 0 <= a < MEM_START ==> self.memory@[a] == cleared[a],
                forall|a: int|
                    MEM_START <= a < MEM_SIZE ==> #[trigger] self.memory@[a] == if a < MEM_START
                        + k {
                        rom_data@[a - MEM_START]
                    } else {
                        0
                    },
                cleared.len() == MEM_SIZE,
                state_wf(before),
                self@ == (MachineState { memory: self@.memory, ..before }),
                forall|a: int| MEM_START <= a < MEM_SIZE ==> #[trigger] cleared[a] == 0,
            decreases rom_data@.len() - k,
        {
            self.memory[k + MEM_START] = rom_data[k];
            k = k + 1;
        }
        self.rom_end = k + MEM_START;
        assert forall|a: int| 0 <= a < MEM_START implies #[trigger] self.memory@[a] == old(
            self,
        )@.memory[a] by {
            assert(cleared[a] == old(self)@.memory[a]);
        }
        Ok(())
    }

    /// Zeroes the program region and marks the program empty.
    fn unload_rom(&mut self)
        requires
            state_wf(old(self)@),
        ensures
            state_wf(final(self)@),
            final(self)@ == (MachineState {
                memory: final(self)@.memory,
                rom_end: MEM_START,
                ..old(self)@
            }),
            forall|a: int|
                0 <= a < MEM_SIZE ==> #[trigger] final(self)@.memory[a] == if a < MEM_START {
                    old(self)@.memory[a]
                } else {
                    0
                },
    {
        let mut a: usize = MEM_START;
        while a < MEM_SIZE
            invariant
                MEM_START <= a <= MEM_SIZE,
                self@ == (MachineState { memory: self@.memory, ..old(self)@ }),
                self.memory@.len() == MEM_SIZE,
                forall|b: int|
                    0 <= b < MEM_SIZE ==> #[trigger] self.memory@[b] == if MEM_START <= b < a {
                        0
                    } else {
                        old(self)@.memory[b]
                    },
            decreases MEM_SIZE - a,
        {
            self.memory[a] = 0u8;
            a = a + 1;
        }
        self.rom_end = MEM_START;
    }

    /// Fetches the word at the program counter and moves past it, or
    /// returns `None`, changing nothing, when the counter is outside the
    /// program.
    fn next_instruction(&mut self) -> (r: Option<Instruction>)
        requires
            state_wf(old(self)@),
        ensures
            if can_fetch(old(self)@) {
                &&& (r is Some)
                &&& r->Some_0.0 == word_at(old(self)@)
                &&& final(self)@ == (MachineState { pc: (old(self)@.pc + 2) as usize, ..old(self)@ })
            } else {
                r.is_none() && final(self)@ == old(self)@
            },
    {
        if (self.pc < MEM_START) || (self.pc >= self.rom_end) || (self.pc + 1 >= MEM_SIZE) {
            return None;
        }
        let hi = self.memory[self.pc];
        let lo = self.memory[self.pc + 1];
        let ins: u16 = ((hi as u16) << 8) | (lo as u16);
        assert(((hi as u16) << 8) | (lo as u16) == (hi as u16) * 256 + (lo as u16)) by (bit_vector);
        self.pc = self.pc + 2;
        Some(Instruction(ins))
    }

    /// Marks a key pressed.
    pub fn key_press(&mut self, key: Input)
        requires
            old(self).wf(),
        ensures
            final(self).wf(),
            final(self)@ == (MachineState {
                keyboard: old(self)@.keyboard.update(key_code(key), true),
                ..old(self)@
            }),
    {
        self.keyboard[key.code()] = true;
    }

    /// Marks a key released.
    pub fn key_release(&mut self, key: Input)
        requires
            old(self).wf(),
        ensures
            final(self).wf(),
            final(self)@ == (MachineState {
                keyboard: old(self)@.keyboard.update(key_code(key), false),
                ..old(self)@
            }),
    {
        self.keyboard[key.code()] = false;
    }

    /// The lowest pressed key, if any.
    fn pressed_key(&self) -> (r: Option<u8>)
        ensures
            r == first_pressed(self@.keyboard, 0),
    {
        let mut k: usize = 0;
        while k < 16
            invariant
                k <= 16,
                first_pressed(self@.keyboard, 0) == first_pressed(self@.keyboard, k as int),
            decreases 16 - k,
        {
            if self.keyboard[k] {
                return Some(k as u8);
            }
            k = k + 1;
        }
        None
    }

    /// Whether key `key` is pressed; codes past F are never pressed.
    fn is_pressed(&self, key: u8) -> (r: bool)
        ensures
            r == key_down(self@.keyboard, key),
    {
        key < 16 && self.keyboard[key as usize]
    }

    /// Pushes a return address, or fails with `StackOverflow`, changing
    /// nothing, when the stack is full.
    fn push_to_stack(&mut self, val: usize) -> (r: Result<(), Error>)
        requires
            state_wf(old(self)@),
            val <= PC_LIMIT,
        ensures
            state_wf(final(self)@),
            if old(self)@.sp >= STACK_SIZE {
                r == Err::<(), Error>(Error::StackOverflow) && final(self)@ == old(self)@
            } else {
                (r is Ok) && final(self)@ == (MachineState {
                    stack: old(self)@.stack.update(old(self)@.sp as int, val),
                    sp: (old(self)@.sp + 1) as u8,
                    ..old(self)@
                })
            },
    {
        if self.sp as usize >= STACK_SIZE {
            return Err(Error::StackOverflow);
        }
        self.stack[self.sp as usize] = val;
        self.sp = self.sp + 1;
        Ok(())
    }

    /// Pops the latest return address, or fails with `StackUnderflow`,
    /// changing nothing, when the stack is empty.
    fn pop_from_stack(&mut self) -> (r: Result<usize, Error>)
        requires
            state_wf(old(self)@),
        ensures
            state_wf(final(self)@),
            if old(self)@.sp == 0 {
                r == Err::<usize, Error>(Error::StackUnderflow) && final(self)@ == old(self)@
            } else {
                r == Ok::<usize, Error>(old(self)@.stack[old(self)@.sp - 1]) && final(self)@
                    == (MachineState { sp: (old(self)@.sp - 1) as u8, ..old(self)@ })
            },
    {
        if self.sp == 0 {
            return Err(Error::StackUnderflow);
        }
        self.sp = self.sp - 1;
        Ok(self.stack[self.sp as usize])
    }

    /// One step with `random` as the byte that RND masks: count the timers
    /// down, then fetch, decode and execute the next instruction.
    pub fn step_with_random(&mut self, random: u8) -> (r: StepResult)
        requires
            old(self).wf(),
        ensures
            final(self).wf(),
            final(self)@ == step_spec(old(self)@, random).0,
            step_outcome(r, step_spec(old(self)@, random).1, final(self)@.screen),
    {
        if self.dt > 0 {
            self.dt = self.dt - 1;
        }
        if self.st > 0 {
            self.st = self.st - 1;
        }
        match self.next_instruction() {
            Some(ins) => {
                let op = match ins.interpret() {
                    Ok(op) => op,
                    Err(e) => {
                        return Err(e);
                    },
                };
                proof {
                    lemma_decode_in_range(ins.0);
                }
                match op {
                    Op::ADD(reg, val) => self.do_add(reg, val),
                    Op::ADDI(reg) => self.do_addi(reg),
                    Op::ADDR(reg1, reg2) => self.do_addr(reg1, reg2),
                    Op::AND(reg1, reg2) => self.do_and(reg1, reg2),
                    Op::CALL(addr) => self.do_call(addr),
                    Op::CLS => self.do_cls(),
                    Op::CPDT(reg) => self.do_cpdt(reg),
                    Op::DRW(reg1, reg2, val) => self.do_drw(reg1, reg2, val),
                    Op::JP(addr) => self.do_jp(addr),
                    Op::JPREL(addr) => self.do_jprel(addr),
                    Op::LD(reg, val) => self.do_ld(reg, val),
                    Op::LDDT(reg) => self.do_lddt(reg),
                    Op::LDI(addr) => self.do_ldi(addr),
                    Op::LDIB(reg) => self.do_ldib(reg),
                    Op::LDIM(reg) => self.do_ldim(reg),
                    Op::LDIR(reg) => self.do_ldir(reg),
                    Op::LDIS(reg) => self.do_ldis(reg),
                    Op::LDKP(reg) => self.do_ldkp(reg),
                    Op::LDR(reg1, reg2) => self.do_ldr(reg1, reg2),
                    Op::LDST(reg) => self.do_ldst(reg),
                    Op::OR(reg1, reg2) => self.do_or(reg1, reg2),
                    Op::RET => self.do_ret(),
                    Op::RND(reg, val) => self.do_rnd(reg, val, random),
                    Op::SE(reg, val) => self.do_se(reg, val),
                    Op::SER(reg1, reg2) => self.do_ser(reg1, reg2),
                    Op::SHL(reg) => self.do_shl(reg),
                    Op::SHR(reg) => self.do_shr(reg),
                    Op::SKNP(reg) => self.do_sknp(reg),
                    Op::SKP(reg) => self.do_skp(reg),
                    Op::SNE(reg, val) => self.do_sne(reg, val),
                    Op::SNER(reg1, reg2) => self.do_sner(reg1, reg2),
                    Op::SUB(reg1, reg2) => self.do_sub(reg1, reg2),
                    Op::SUBN(reg1, reg2) => self.do_subn(reg1, reg2),
                    Op::SYS(addr) => self.do_sys(addr),
                    Op::XOR(reg1, reg2) => self.do_xor(reg1, reg2),
                }
            },
            None => Ok(Some(Step::Exit)),
        }
    }

    /// One step, with a random byte drawn for RND: count the timers down,
    /// then fetch, decode and execute the next instruction. The result is
    /// that of `step_with_random` for some byte below 255.
    pub fn step(&mut self) -> (r: StepResult)
        requires
            old(self).wf(),
        ensures
            final(self).wf(),
            exists|random: u8|
                random < 255 && final(self)@ == step_spec(old(self)@, random).0 && step_outcome(
                    r,
                    #[trigger] step_spec(old(self)@, random).1,
                    final(self)@.screen,
                ),
    {
        let random = random_byte();
        self.step_with_random(random)
    }

    /// The program counter.
    pub fn program_counter(&self) -> (r: usize)
        ensures
            r == self@.pc,
    {
        self.pc
    }

    /// The value of register `x`.
    pub fn register(&self, x: u8) -> (r: u8)
        requires
            x < 16,
        ensures
            r == self@.vx[x as int],
    {
        self.vx[x as usize]
    }

    /// The address register.
    pub fn address_register(&self) -> (r: u16)
        ensures
            r == self@.i,
    {
        self.i
    }

    /// The delay timer.
    pub fn delay_timer(&self) -> (r: u8)
        ensures
            r == self@.dt,
    {
        self.dt
    }

    /// The sound timer.
    pub fn sound_timer(&self) -> (r: u8)
        ensures
            r == self@.st,
    {
        self.st
    }

    /// The number of return addresses on the call stack.
    pub fn stack_depth(&self) -> (r: u8)
        ensures
            r == self@.sp,
    {
        self.sp
    }

    /// The byte at address `addr`.
    pub fn memory_at(&self, addr: usize) -> (r: u8)
        requires
            addr < MEM_SIZE,
        ensures
            r == self@.memory[addr as int],
    {
        self.memory[addr]
    }

    fn do_add(&mut self, reg: Register, val: Value) -> (r: StepResult)
        requires
            executing(old(self)@),
            reg.0 < 16,
        ensures
            state_wf(final(self)@),
            forall|rnd: u8|
                #![trigger execute(old(self)@, Op::ADD(reg, val), rnd)]
                performs(old(self)@, final(self)@, r, Op::ADD(reg, val), rnd),
    {
        let x = reg.0 as usize;
        self.vx[x] = self.vx[x].wrapping_add(val.0);
        Ok(Some(Step::Nop))
    }

    fn do_addi(&mut self, reg: Register) -> (r: StepResult)
        requires
            executing(old(self)@),
            reg.0 < 16,
        ensures
            state_wf(final(self)@),
            forall|rnd: u8|
                #![trigger execute(old(self)@, Op::ADDI(reg), rnd)]
                performs(old(self)@, final(self)@, r, Op::ADDI(reg), rnd),
    {
        self.i = self.i.wrapping_add(self.vx[reg.0 as usize] as u16);
        Ok(Some(Step::Nop))
    }

    fn do_addr(&mut self, reg1: Register, reg2: Register) -> (r: StepResult)
        requires
            executing(old(self)@),
            reg1.0 < 16,
            reg2.0 < 16,
        ensures
            state_wf(final(self)@),
            forall|rnd: u8|
                #![trigger execute(old(self)@, Op::ADDR(reg1, reg2), rnd)]
                performs(old(self)@, final(self)@, r, Op::ADDR(reg1, reg2), rnd),
    {
        let a = self.vx[reg1.0 as usize];
        let b = self.vx[reg2.0 as usize];
        self.vx[reg1.0 as usize] = a.wrapping_add(b);
        if (a as u16) + (b as u16) > 255 {
            self.vx[0xF] = 1;
        } else {
            self.vx[0xF] = 0;
        }
        Ok(Some(Step::Nop))
    }

    fn do_and(&mut self, reg1: Register, reg2: Register) -> (r: StepResult)
        requires
            executing(old(self)@),
            reg1.0 < 16,
            reg2.0 < 16,
        ensures
            state_wf(final(self)@),
            forall|rnd: u8|
                #![trigger execute(old(self)@, Op::AND(reg1, reg2), rnd)]
                performs(old(self)@, final(self)@, r, Op::AND(reg1, reg2), rnd),
    {
        self.vx[reg1.0 as usize] = self.vx[reg1.0 as usize] & self.vx[reg2.0 as usize];
        Ok(Some(Step::Nop))
    }

    fn do_call(&mut self, addr: Address) -> (r: StepResult)
        requires
            executing(old(self)@),
            addr.0 < 0x1000,
        ensures
            state_wf(final(self)@),
            forall|rnd: u8|
                #![trigger execute(old(self)@, Op::CALL(addr), rnd)]
                performs(old(self)@, final(self)@, r, Op::CALL(addr), rnd),
    {
        match self.push_to_stack(self.pc) {
            Ok(()) => {},
            Err(e) => {
                return Err(e);
            },
        }
        self.pc = addr.0 as usize;
        Ok(Some(Step::Nop))
    }

    fn do_cls(&mut self) -> (r: StepResult)
        requires
            executing(old(self)@),
        ensures
            state_wf(final(self)@),
            forall|rnd: u8|
                #![trigger execute(old(self)@, Op::CLS, rnd)]
                performs(old(self)@, final(self)@, r, Op::CLS, rnd),
    {
        self.screen.clear();
        proof {
            assert(self@.screen =~= Seq::new(2048, |k: int| 0u8));
        }
        Ok(Some(Step::Draw(self.screen.pixels())))
    }

    fn do_cpdt(&mut self, reg: Register) -> (r: StepResult)
        requires
            executing(old(self)@),
            reg.0 < 16,
        ensures
            state_wf(final(self)@),
            forall|rnd: u8|
                #![trigger execute(old(self)@, Op::CPDT(reg), rnd)]
                performs(old(self)@, final(self)@, r, Op::CPDT(reg), rnd),
    {
        self.vx[reg.0 as usize] = self.dt;
        Ok(Some(Step::Nop))
    }

    fn do_drw(&mut self, reg1: Register, reg2: Register, n: Value) -> (r: StepResult)
        requires
            executing(old(self)@),
            reg1.0 < 16,
            reg2.0 < 16,
        ensures
            state_wf(final(self)@),
            forall|rnd: u8|
                #![trigger execute(old(self)@, Op::DRW(reg1, reg2, n), rnd)]
                performs(old(self)@, final(self)@, r, Op::DRW(reg1, reg2, n), rnd),
    {
        let x = self.vx[reg1.0 as usize];
        let y = self.vx[reg2.0 as usize];
        let mut sprite_data: Vec<u8> = Vec::new();
        let mut k: usize = 0;
        while k < n.0 as usize
            invariant
                k <= n.0,
                self.memory@.len() == MEM_SIZE,
                sprite_data@ =~= sprite_rows(self.memory@, self.i, n.0).subrange(0, k as int),
            decreases n.0 - k,
        {
            sprite_data.push(self.memory[(self.i as usize + k) % MEM_SIZE]);
            k = k + 1;
        }
        assert(sprite_data@ =~= sprite_rows(self.memory@, self.i, n.0));
        if let Some(v) = self.screen.draw(Sprite::new(x, y, sprite_data)) {
            self.vx[0xF] = v;
        }
        Ok(Some(Step::Draw(self.screen.pixels())))
    }

    fn do_jp(&mut self, addr: Address) -> (r: StepResult)
        requires
            executing(old(self)@),
            addr.0 < 0x1000,
        ensures
            state_wf(final(self)@),
            forall|rnd: u8|
                #![trigger execute(old(self)@, Op::JP(addr), rnd)]
                performs(old(self)@, final(self)@, r, Op::JP(addr), rnd),
    {
        self.pc = addr.0 as usize;
        Ok(Some(Step::Nop))
    }

    fn do_jprel(&mut self, addr: Address) -> (r: StepResult)
        requires
            executing(old(self)@),
            addr.0 < 0x1000,
        ensures
            state_wf(final(self)@),
            forall|rnd: u8|
                #![trigger execute(old(self)@, Op::JPREL(addr), rnd)]
                performs(old(self)@, final(self)@, r, Op::JPREL(addr), rnd),
    {
        self.pc = addr.0 as usize;
        self.pc = self.pc + self.vx[0x0] as usize;
        Ok(Some(Step::Nop))
    }

    fn do_ld(&mut self, reg: Register, val: Value) -> (r: StepResult)
        requires
            executing(old(self)@),
            reg.0 < 16,
        ensures
            state_wf(final(self)@),
            forall|rnd: u8|
                #![trigger execute(old(self)@, Op::LD(reg, val), rnd)]
                performs(old(self)@, final(self)@, r, Op::LD(reg, val), rnd),
    {
        self.vx[reg.0 as usize] = val.0;
        Ok(Some(Step::Nop))
    }

    fn do_lddt(&mut self, reg: Register) -> (r: StepResult)
        requires
            executing(old(self)@),
            reg.0 < 16,
        ensures
            state_wf(final(self)@),
            forall|rnd: u8|
                #![trigger execute(old(self)@, Op::LDDT(reg), rnd)]
                performs(old(self)@, final(self)@, r, Op::LDDT(reg), rnd),
    {
        self.dt = self.vx[reg.0 as usize];
        Ok(Some(Step::Nop))
    }

    fn do_ldi(&mut self, addr: Address) -> (r: StepResult)
        requires
            executing(old(self)@),
            addr.0 < 0x1000,
        ensures
            state_wf(final(self)@),
            forall|rnd: u8|
                #![trigger execute(old(self)@, Op::LDI(addr), rnd)]
                performs(old(self)@, final(self)@, r, Op::LDI(addr), rnd),
    {
        self.i = addr.0;
        Ok(Some(Step::Nop))
    }

    fn do_ldib(&mut self, reg: Register) -> (r: StepResult)
        requires
            executing(old(self)@),
            reg.0 < 16,
        ensures
            state_wf(final(self)@),
            forall|rnd: u8|
                #![trigger execute(old(self)@, Op::LDIB(reg), rnd)]
                performs(old(self)@, final(self)@, r, Op::LDIB(reg), rnd),
    {
        let bcd = to_bcd(self.vx[reg.0 as usize]);
        let base = self.i as usize;
        self.memory[base % MEM_SIZE] = bcd[0];
        self.memory[(base + 1) % MEM_SIZE] = bcd[1];
        self.memory[(base + 2) % MEM_SIZE] = bcd[2];
        Ok(Some(Step::Nop))
    }

    fn do_ldim(&mut self, reg: Register) -> (r: StepResult)
        requires
            executing(old(self)@),
            reg.0 < 16,
        ensures
            state_wf(final(self)@),
            forall|rnd: u8|
                #![trigger execute(old(self)@, Op::LDIM(reg), rnd)]
                performs(old(self)@, final(self)@, r, Op::LDIM(reg), rnd),
    {
        let x = reg.0 as usize;
        let ghost start = self@;
        let mut r: usize = 0;
        while r <= x
            invariant
                x < 16,
                r <= x + 1,
                self@ == (MachineState { vx: self@.vx, ..start }),
                self.vx@.len() == 16,
                forall|k: int|
                    0 <= k < 16 ==> #[trigger] self.vx@[k] == if k < r {
                        start.memory[mem_addr(start.i as int, k)]
                    } else {
                        start.vx[k]
                    },
            decreases x + 1 - r,
        {
            self.vx[r] = self.memory[(self.i as usize + r) % MEM_SIZE];
            r = r + 1;
        }
        assert(self.vx@ =~= execute(start, Op::LDIM(reg), 0).0.vx);
        Ok(Some(Step::Nop))
    }

    fn do_ldir(&mut self, reg: Register) -> (r: StepResult)
        requires
            executing(old(self)@),
            reg.0 < 16,
        ensures
            state_wf(final(self)@),
            forall|rnd: u8|
                #![trigger execute(old(self)@, Op::LDIR(reg), rnd)]
                performs(old(self)@, final(self)@, r, Op::LDIR(reg), rnd),
    {
        let x = reg.0 as usize;
        let ghost start = self@;
        let mut r: usize = 0;
        while r <= x
            invariant
                x < 16,
                r <= x + 1,
                self@ == (MachineState { memory: self@.memory, ..start }),
                self.memory@.len() == MEM_SIZE,
                forall|a: int|
                    0 <= a < MEM_SIZE ==> #[trigger] self.memory@[a] == if (a - start.i) % (
                    MEM_SIZE as int) < r {
                        start.vx[(a - start.i) % (MEM_SIZE as int)]
                    } else {
                        start.memory[a]
                    },
            decreases x + 1 - r,
        {
            let a = (self.i as usize + r) % MEM_SIZE;
            proof {
                lemma_offset_of_addr(start.i as int, r as int);
            }
            self.memory[a] = self.vx[r];
            r = r + 1;
        }
        assert(self.memory@ =~= execute(start, Op::LDIR(reg), 0).0.memory);
        Ok(Some(Step::Nop))
    }

    fn do_ldis(&mut self, reg: Register) -> (r: StepResult)
        requires
            executing(old(self)@),
            reg.0 < 16,
        ensures
            state_wf(final(self)@),
            forall|rnd: u8|
                #![trigger execute(old(self)@, Op::LDIS(reg), rnd)]
                performs(old(self)@, final(self)@, r, Op::LDIS(reg), rnd),
    {
        let digit = self.vx[reg.0 as usize];
        self.i = (digit as u16) * 4;
        Ok(Some(Step::Nop))
    }

    fn do_ldkp(&mut self, reg: Register) -> (r: StepResult)
        requires
            executing(old(self)@),
            reg.0 < 16,
        ensures
            state_wf(final(self)@),
            forall|rnd: u8|
                #![trigger execute(old(self)@, Op::LDKP(reg), rnd)]
                performs(old(self)@, final(self)@, r, Op::LDKP(reg), rnd),
    {
        if let Some(key) = self.pressed_key() {
            self.vx[reg.0 as usize] = key;
            Ok(Some(Step::Nop))
        } else {
            self.pc = self.pc - 2;
            Ok(Some(Step::WaitForKey))
        }
    }

    fn do_ldr(&mut self, reg1: Register, reg2: Register) -> (r: StepResult)
        requires
            executing(old(self)@),
            reg1.0 < 16,
            reg2.0 < 16,
        ensures
            state_wf(final(self)@),
            forall|rnd: u8|
                #![trigger execute(old(self)@, Op::LDR(reg1, reg2), rnd)]
                performs(old(self)@, final(self)@, r, Op::LDR(reg1, reg2), rnd),
    {
        self.vx[reg1.0 as usize] = self.vx[reg2.0 as usize];
        Ok(Some(Step::Nop))
    }

    fn do_ldst(&mut self, reg: Register) -> (r: StepResult)
        requires
            executing(old(self)@),
            reg.0 < 16,
        ensures
            state_wf(final(self)@),
            forall|rnd: u8|
                #![trigger execute(old(self)@, Op::LDST(reg), rnd)]
                performs(old(self)@, final(self)@, r, Op::LDST(reg), rnd),
    {
        self.st = self.vx[reg.0 as usize];
        Ok(Some(Step::Nop))
    }

    fn do_or(&mut self, reg1: Register, reg2: Register) -> (r: StepResult)
        requires
            executing(old(self)@),
            reg1.0 < 16,
            reg2.0 < 16,
        ensures
            state_wf(final(self)@),
            forall|rnd: u8|
                #![trigger execute(old(self)@, Op::OR(reg1, reg2), rnd)]
                performs(old(self)@, final(self)@, r, Op::OR(reg1, reg2), rnd),
    {
        self.vx[reg1.0 as usize] = self.vx[reg1.0 as usize] | self.vx[reg2.0 as usize];
        Ok(Some(Step::Nop))
    }

    fn do_ret(&mut self) -> (r: StepResult)
        requires
            executing(old(self)@),
        ensures
            state_wf(final(self)@),
            forall|rnd: u8|
                #![trigger execute(old(self)@, Op::RET, rnd)]
                performs(old(self)@, final(self)@, r, Op::RET, rnd),
    {
        let addr = match self.pop_from_stack() {
            Ok(a) => a,
            Err(e) => {
                return Err(e);
            },
        };
        self.pc = addr;
        Ok(Some(Step::Nop))
    }

    fn do_se(&mut self, reg: Register, val: Value) -> (r: StepResult)
        requires
            executing(old(self)@),
            reg.0 < 16,
        ensures
            state_wf(final(self)@),
            forall|rnd: u8|
                #![trigger execute(old(self)@, Op::SE(reg, val), rnd)]
                performs(old(self)@, final(self)@, r, Op::SE(reg, val), rnd),
    {
        if self.vx[reg.0 as usize] == val.0 {
            self.pc = self.pc + 2;
        }
        Ok(Some(Step::Nop))
    }

    fn do_ser(&mut self, reg1: Register, reg2: Register) -> (r: StepResult)
        requires
            executing(old(self)@),
            reg1.0 < 16,
            reg2.0 < 16,
        ensures
            state_wf(final(self)@),
            forall|rnd: u8|
                #![trigger execute(old(self)@, Op::SER(reg1, reg2), rnd)]
                performs(old(self)@, final(self)@, r, Op::SER(reg1, reg2), rnd),
    {
        if self.vx[reg1.0 as usize] == self.vx[reg2.0 as usize] {
            self.pc = self.pc + 2;
        }
        Ok(Some(Step::Nop))
    }

    fn do_shl(&mut self, reg: Register) -> (r: StepResult)
        requires
            executing(old(self)@),
            reg.0 < 16,
        ensures
            state_wf(final(self)@),
            forall|rnd: u8|
                #![trigger execute(old(self)@, Op::SHL(reg), rnd)]
                performs(old(self)@, final(self)@, r, Op::SHL(reg), rnd),
    {
        let x = reg.0 as usize;
        if self.vx[x] & 0x80 == 0 {
            self.vx[0xF] = 0;
        } else {
            self.vx[0xF] = 1;
        }
        self.vx[x] = self.vx[x] << 1;
        Ok(Some(Step::Nop))
    }

    fn do_shr(&mut self, reg: Register) -> (r: StepResult)
        requires
            executing(old(self)@),
            reg.0 < 16,
        ensures
            state_wf(final(self)@),
            forall|rnd: u8|
                #![trigger execute(old(self)@, Op::SHR(reg), rnd)]
                performs(old(self)@, final(self)@, r, Op::SHR(reg), rnd),
    {
        let x = reg.0 as usize;
        self.vx[0xF] = self.vx[x] & 0x01;
        self.vx[x] = self.vx[x] >> 1;
        Ok(Some(Step::Nop))
    }

    fn do_sknp(&mut self, reg: Register) -> (r: StepResult)
        requires
            executing(old(self)@),
            reg.0 < 16,
        ensures
            state_wf(final(self)@),
            forall|rnd: u8|
                #![trigger execute(old(self)@, Op::SKNP(reg), rnd)]
                performs(old(self)@, final(self)@, r, Op::SKNP(reg), rnd),
    {
        let key = self.vx[reg.0 as usize];
        if !self.is_pressed(key) {
            self.pc = self.pc + 2;
        }
        Ok(Some(Step::Nop))
    }

    fn do_skp(&mut self, reg: Register) -> (r: StepResult)
        requires
            executing(old(self)@),
            reg.0 < 16,
        ensures
            state_wf(final(self)@),
            forall|rnd: u8|
                #![trigger execute(old(self)@, Op::SKP(reg), rnd)]
                performs(old(self)@, final(self)@, r, Op::SKP(reg), rnd),
    {
        let key = self.vx[reg.0 as usize];
        if self.is_pressed(key) {
            self.pc = self.pc + 2;
        }
        Ok(Some(Step::Nop))
    }

    fn do_sne(&mut self, reg: Register, val: Value) -> (r: StepResult)
        requires
            executing(old(self)@),
            reg.0 < 16,
        ensures
            state_wf(final(self)@),
            forall|rnd: u8|
                #![trigger execute(old(self)@, Op::SNE(reg, val), rnd)]
                performs(old(self)@, final(self)@, r, Op::SNE(reg, val), rnd),
    {
        if self.vx[reg.0 as usize] != val.0 {
            self.pc = self.pc + 2;
        }
        Ok(Some(Step::Nop))
    }

    fn do_sner(&mut self, reg1: Register, reg2: Register) -> (r: StepResult)
        requires
            executing(old(self)@),
            reg1.0 < 16,
            reg2.0 < 16,
        ensures
            state_wf(final(self)@),
            forall|rnd: u8|
                #![trigger execute(old(self)@, Op::SNER(reg1, reg2), rnd)]
                performs(old(self)@, final(self)@, r, Op::SNER(reg1, reg2), rnd),
    {
        if self.vx[reg1.0 as usize] != self.vx[reg2.0 as usize] {
            self.pc = self.pc + 2;
        }
        Ok(Some(Step::Nop))
    }

    fn do_sub(&mut self, reg1: Register, reg2: Register) -> (r: StepResult)
        requires
            executing(old(self)@),
            reg1.0 < 16,
            reg2.0 < 16,
        ensures
            state_wf(final(self)@),
            forall|rnd: u8|
                #![trigger execute(old(self)@, Op::SUB(reg1, reg2), rnd)]
                performs(old(self)@, final(self)@, r, Op::SUB(reg1, reg2), rnd),
    {
        let a = self.vx[reg1.0 as usize];
        let b = self.vx[reg2.0 as usize];
        self.vx[reg1.0 as usize] = a.wrapping_sub(b);
        if a < b {
            self.vx[0xF] = 1;
        } else {
            self.vx[0xF] = 0;
        }
        Ok(Some(Step::Nop))
    }

    fn do_subn(&mut self, reg1: Register, reg2: Register) -> (r: StepResult)
        requires
            executing(old(self)@),
            reg1.0 < 16,
            reg2.0 < 16,
        ensures
            state_wf(final(self)@),
            forall|rnd: u8|
                #![trigger execute(old(self)@, Op::SUBN(reg1, reg2), rnd)]
                performs(old(self)@, final(self)@, r, Op::SUBN(reg1, reg2), rnd),
    {
        if self.vx[reg1.0 as usize] > self.vx[reg2.0 as usize] {
            self.vx[0xF] = 1;
        } else {
            self.vx[0xF] = 0;
        }
        self.vx[reg1.0 as usize] = self.vx[reg2.0 as usize].saturating_sub(self.vx[reg1.0 as usize]);
        Ok(Some(Step::Nop))
    }

    fn do_sys(&mut self, _addr: Address) -> (r: StepResult)
        requires
            executing(old(self)@),
        ensures
            state_wf(final(self)@),
            forall|rnd: u8|
                #![trigger execute(old(self)@, Op::SYS(_addr), rnd)]
                performs(old(self)@, final(self)@, r, Op::SYS(_addr), rnd),
    {
        Ok(Some(Step::Nop))
    }

    fn do_xor(&mut self, reg1: Register, reg2: Register) -> (r: StepResult)
        requires
            executing(old(self)@),
            reg1.0 < 16,
            reg2.0 < 16,
        ensures
            state_wf(final(self)@),
            forall|rnd: u8|
                #![trigger execute(old(self)@, Op::XOR(reg1, reg2), rnd)]
                performs(old(self)@, final(self)@, r, Op::XOR(reg1, reg2), rnd),
    {
        self.vx[reg1.0 as usize] = self.vx[reg1.0 as usize] ^ self.vx[reg2.0 as usize];
        Ok(Some(Step::Nop))
    }

    fn do_rnd(&mut self, reg: Register, val: Value, random: u8) -> (r: StepResult)
        requires
            executing(old(self)@),
            reg.0 < 16,
        ensures
            state_wf(final(self)@),
            performs(old(self)@, final(self)@, r, Op::RND(reg, val), random),
    {
        self.vx[reg.0 as usize] = random & val.0;
        Ok(Some(Step::Nop))
    }
}

} // verus!

//! Instruction words and their decoding into operations.
use crate::error::Error;
use vstd::prelude::*;

verus! {

/// A 12-bit memory address taken from an instruction word.
#[derive(Debug, Clone, Copy, PartialEq, Eq, Structural)]
pub struct Address(pub u16);

/// The index of one of the sixteen general registers V0..VF.
#[derive(Debug, Clone, Copy, PartialEq, Eq, Structural)]
pub struct Register(pub u8);

/// An immediate byte (or nibble) operand.
#[derive(Debug, Clone, Copy, PartialEq, Eq, Structural)]
pub struct Value(pub u8);

/// A decoded operation with its typed operands.
#[derive(Debug, Clone, Copy, PartialEq, Eq, Structural)]
pub enum Op {
    /// Vx += byte, without carry flag.
    ADD(Register, Value),
    /// I += Vx.
    ADDI(Register),
    /// Vx += Vy, VF = carry.
    ADDR(Register, Register),
    /// Vx &= Vy.
    AND(Register, Register),
    /// Push the program counter and jump.
    CALL(Address),
    /// Clear the screen.
    CLS,
    /// Vx = delay timer.
    CPDT(Register),
    /// Draw an n-row sprite from memory at I at (Vx, Vy); VF = collision.
    DRW(Register, Register, Value),
    /// Jump.
    JP(Address),
    /// Jump to the address plus V0.
    JPREL(Address),
    /// Vx = byte.
    LD(Register, Value),
    /// Delay timer = Vx.
    LDDT(Register),
    /// I = address.
    LDI(Address),
    /// Store the decimal digits of Vx at I, I+1, I+2.
    LDIB(Register),
    /// Load V0..=Vx from memory starting at I.
    LDIM(Register),
    /// Store V0..=Vx to memory starting at I.
    LDIR(Register),
    /// I = address of the font glyph of digit Vx.
    LDIS(Register),
    /// Wait for a key press and load its code into Vx.
    LDKP(Register),
    /// Vx = Vy.
    LDR(Register, Register),
    /// Sound timer = Vx.
    LDST(Register),
    /// Vx |= Vy.
    OR(Register, Register),
    /// Return from a call.
    RET,
    /// Vx = random byte & byte.
    RND(Register, Value),
    /// Skip the next instruction if Vx == byte.
    SE(Register, Value),
    /// Skip the next instruction if Vx == Vy.
    SER(Register, Register),
    /// VF = high bit of Vx, then Vx <<= 1.
    SHL(Register),
    /// VF = low bit of Vx, then Vx >>= 1.
    SHR(Register),
    /// Skip the next instruction if key Vx is not pressed.
    SKNP(Register),
    /// Skip the next instruction if key Vx is pressed.
    SKP(Register),
    /// Skip the next instruction if Vx != byte.
    SNE(Register, Value),
    /// Skip the next instruction if Vx != Vy.
    SNER(Register, Register),
    /// Vx -= Vy, VF = borrow.
    SUB(Register, Register),
    /// Vx = Vy - Vx (saturating), VF = borrow.
    SUBN(Register, Register),
    /// Machine-code routine call; has no effect.
    SYS(Address),
    /// Vx ^= Vy.
    XOR(Register, Register),
}

/// A raw 16-bit instruction word, most significant byte first in memory.
pub struct Instruction(pub u16);

/// The register named by the second nibble of a word.
pub open spec fn x_of(w: u16) -> Register {
    Register(((w / 0x100) % 0x10) as u8)
}

/// The register named by the third nibble of a word.
pub open spec fn y_of(w: u16) -> Register {
    Register(((w / 0x10) % 0x10) as u8)
}

/// The low byte of a word.
pub open spec fn byte_of(w: u16) -> Value {
    Value((w % 0x100) as u8)
}

/// The low nibble of a word.
pub open spec fn nibble_of(w: u16) -> u16 {
    w % 0x10
}

/// The low twelve bits of a word.
pub open spec fn addr_of(w: u16) -> Address {
    Address(w % 0x1000)
}

/// The opcode table: the operation a word stands for, or `None` when the
/// word's family or sub-selector is not in the instruction set.
pub open spec fn decode(w: u16) -> Option<Op> {
    let family = w / 0x1000;
    let x = x_of(w);
    let y = y_of(w);
    let n = nibble_of(w);
    let nn = w % 0x100;
    if family == 0x0 {
        if w == 0x00E0 {
            Some(Op::CLS)
        } else if w == 0x00EE {
            Some(Op::RET)
        } else {
            Some(Op::SYS(addr_of(w)))
        }
    } else if family == 0x1 {
        Some(Op::JP(addr_of(w)))
    } else if family == 0x2 {
        Some(Op::CALL(addr_of(w)))
    } else if family == 0x3 {
        Some(Op::SE(x, byte_of(w)))
    } else if family == 0x4 {
        Some(Op::SNE(x, byte_of(w)))
    } else if family == 0x5 {
        Some(Op::SER(x, y))
    } else if family == 0x6 {
        Some(Op::LD(x, byte_of(w)))
    } else if family == 0x7 {
        Some(Op::ADD(x, byte_of(w)))
    } else if family == 0x8 {
        if n == 0x0 {
            Some(Op::LDR(x, y))
        } else if n == 0x1 {
            Some(Op::OR(x, y))
        } else if n == 0x2 {
            Some(Op::AND(x, y))
        } else if n == 0x3 {
            Some(Op::XOR(x, y))
        } else if n == 0x4 {
            Some(Op::ADDR(x, y))
        } else if n == 0x5 {
            Some(Op::SUB(x, y))
        } else if n == 0x6 {
            Some(Op::SHR(x))
        } else if n == 0x7 {
            Some(Op::SUBN(x, y))
        } else if n == 0xE {
            Some(Op::SHL(x))
        } else {
            None
        }
    } else if family == 0x9 {
        if n == 0x0 {
            Some(Op::SNER(x, y))
        } else {
            None
        }
    } else if family == 0xA {
        Some(Op::LDI(addr_of(w)))
    } else if family == 0xB {
        Some(Op::JPREL(addr_of(w)))
    } else if family == 0xC {
        Some(Op::RND(x, byte_of(w)))
    } else if family == 0xD {
        Some(Op::DRW(x, y, Value(n as u8)))
    } else if family == 0xE {
        if nn == 0x9E {
            Some(Op::SKP(x))
        } else if nn == 0xA1 {
            Some(Op::SKNP(x))
        } else {
            None
        }
    } else {
        if nn == 0x07 {
            Some(Op::CPDT(x))
        } else if nn == 0x0A {
            Some(Op::LDKP(x))
        } else if nn == 0x15 {
            Some(Op::LDDT(x))
        } else if nn == 0x18 {
            Some(Op::LDST(x))
        } else if nn == 0x1E {
            Some(Op::ADDI(x))
        } else if nn == 0x29 {
            Some(Op::LDIS(x))
        } else if nn == 0x33 {
            Some(Op::LDIB(x))
        } else if nn == 0x55 {
            Some(Op::LDIR(x))
        } else if nn == 0x65 {
            Some(Op::LDIM(x))
        } else {
            None
        }
    }
}

/// Operands within their fields: registers below 16, addresses below 0x1000,
/// sprite heights below 16.
pub open spec fn op_in_range(op: Op) -> bool {
    match op {
        Op::ADD(x, _) | Op::ADDI(x) | Op::CPDT(x) | Op::LD(x, _) | Op::LDDT(x) | Op::LDIB(x)
        | Op::LDIM(x) | Op::LDIR(x) | Op::LDIS(x) | Op::LDKP(x) | Op::LDST(x) | Op::RND(x, _)
        | Op::SE(x, _) | Op::SHL(x) | Op::SHR(x) | Op::SKNP(x) | Op::SKP(x) | Op::SNE(x, _) => x.0
            < 16,
        Op::ADDR(x, y) | Op::AND(x, y) | Op::LDR(x, y) | Op::OR(x, y) | Op::SER(x, y) | Op::SNER(
            x,
            y,
        ) | Op::SUB(x, y) | Op::SUBN(x, y) | Op::XOR(x, y) => x.0 < 16 && y.0 < 16,
        Op::DRW(x, y, n) => x.0 < 16 && y.0 < 16 && n.0 < 16,
        Op::CALL(a) | Op::JP(a) | Op::JPREL(a) | Op::LDI(a) | Op::SYS(a) => a.0 < 0x1000,
        Op::CLS | Op::RET => true,
    }
}

/// Every decoded operation has its operands within their fields.
pub proof fn lemma_decode_in_range(w: u16)
    ensures
        decode(w) matches Some(op) ==> op_in_range(op),
{
}

/// The word that stands for an operation, with the fields that decoding
/// ignores set to zero.
pub open spec fn encode(op: Op) -> int {
    match op {
        Op::SYS(a) => a.0 as int,
        Op::CLS => 0x00E0,
        Op::RET => 0x00EE,
        Op::JP(a) => 0x1000 + a.0,
        Op::CALL(a) => 0x2000 + a.0,
        Op::SE(x, v) => 0x3000 + 0x100 * x.0 + v.0,
        Op::SNE(x, v) => 0x4000 + 0x100 * x.0 + v.0,
        Op::SER(x, y) => 0x5000 + 0x100 * x.0 + 0x10 * y.0,
        Op::LD(x, v) => 0x6000 + 0x100 * x.0 + v.0,
        Op::ADD(x, v) => 0x7000 + 0x100 * x.0 + v.0,
        Op::LDR(x, y) => 0x8000 + 0x100 * x.0 + 0x10 * y.0,
        Op::OR(x, y) => 0x8001 + 0x100 * x.0 + 0x10 * y.0,
        Op::AND(x, y) => 0x8002 + 0x100 * x.0 + 0x10 * y.0,
        Op::XOR(x, y) => 0x8003 + 0x100 * x.0 + 0x10 * y.0,
        Op::ADDR(x, y) => 0x8004 + 0x100 * x.0 + 0x10 * y.0,
        Op::SUB(x, y) => 0x8005 + 0x100 * x.0 + 0x10 * y.0,
        Op::SHR(x) => 0x8006 + 0x100 * x.0,
        Op::SUBN(x, y) => 0x8007 + 0x100 * x.0 + 0x10 * y.0,
        Op::SHL(x) => 0x800E + 0x100 * x.0,
        Op::SNER(x, y) => 0x9000 + 0x100 * x.0 + 0x10 * y.0,
        Op::LDI(a) => 0xA000 + a.0,
        Op::JPREL(a) => 0xB000 + a.0,
        Op::RND(x, v) => 0xC000 + 0x100 * x.0 + v.0,
        Op::DRW(x, y, n) => 0xD000 + 0x100 * x.0 + 0x10 * y.0 + n.0,
        Op::SKP(x) => 0xE09E + 0x100 * x.0,
        Op::SKNP(x) => 0xE0A1 + 0x100 * x.0,
        Op::CPDT(x) => 0xF007 + 0x100 * x.0,
        Op::LDKP(x) => 0xF00A + 0x100 * x.0,
        Op::LDDT(x) => 0xF015 + 0x100 * x.0,
        Op::LDST(x) => 0xF018 + 0x100 * x.0,
        Op::ADDI(x) => 0xF01E + 0x100 * x.0,
        Op::LDIS(x) => 0xF029 + 0x100 * x.0,
        Op::LDIB(x) => 0xF033 + 0x100 * x.0,
        Op::LDIR(x) => 0xF055 + 0x100 * x.0,
        Op::LDIM(x) => 0xF065 + 0x100 * x.0,
    }
}

/// The fields of a word assembled from four nibbles.
proof fn lemma_word_fields(f: int, x: int, y: int, n: int)
    requires
        0 <= f < 16,
        0 <= x < 16,
        0 <= y < 16,
        0 <= n < 16,
    ensures
        ({
            let w = 0x1000 * f + 0x100 * x + 0x10 * y + n;
            &&& 0 <= w < 0x10000
            &&& w / 0x1000 == f
            &&& (w / 0x100) % 0x10 == x
            &&& (w / 0x10) % 0x10 == y
            &&& w % 0x10 == n
            &&& w % 0x100 == 0x10 * y + n
            &&& w % 0x1000 == 0x100 * x + 0x10 * y + n
        }),
{
    let w = 0x1000 * f + 0x100 * x + 0x10 * y + n;
    assert(w / 0x1000 == f) by (nonlinear_arith)
        requires w == 0x1000 * f + 0x100 * x + 0x10 * y + n, 0 <= x < 16, 0 <= y < 16, 0 <= n < 16;
    assert(w / 0x100 == 0x10 * f + x) by (nonlinear_arith)
        requires w == 0x1000 * f + 0x100 * x + 0x10 * y + n, 0 <= y < 16, 0 <= n < 16;
    assert((0x10 * f + x) % 0x10 == x) by (nonlinear_arith)
        requires 0 <= x < 16, 0 <= f;
    assert(w / 0x10 == 0x100 * f + 0x10 * x + y) by (nonlinear_arith)
        requires w == 0x1000 * f + 0x100 * x + 0x10 * y + n, 0 <= n < 16;
    assert((0x100 * f + 0x10 * x + y) % 0x10 == y) by (nonlinear_arith)
        requires 0 <= y < 16, 0 <= f, 0 <= x;
    assert(w % 0x10 == n) by (nonlinear_arith)
        requires w == 0x1000 * f + 0x100 * x + 0x10 * y + n, 0 <= n < 16, 0 <= f, 0 <= x, 0 <= y;
    assert(w % 0x100 == 0x10 * y + n) by (nonlinear_arith)
        requires w == 0x1000 * f + 0x100 * x + 0x10 * y + n, 0 <= n < 16, 0 <= y < 16, 0 <= f, 0 <= x;
    assert(w % 0x1000 == 0x100 * x + 0x10 * y + n) by (nonlinear_arith)
        requires w == 0x1000 * f + 0x100 * x + 0x10 * y + n, 0 <= n < 16, 0 <= y < 16, 0 <= x < 16, 0 <= f;
}

/// Splits an operand below 0x1000 into the three nibbles that encode it.
proof fn lemma_split_operand(a: int)
    requires
        0 <= a < 0x1000,
    ensures
        0 <= a / 0x100 < 16,
        0 <= (a / 0x10) % 0x10 < 16,
        0 <= a % 0x10 < 16,
        a == 0x100 * (a / 0x100) + 0x10 * ((a / 0x10) % 0x10) + a % 0x10,
{
}

/// Every operation of the table decodes from its own word. The two machine
/// routine calls whose words are those of CLS and RET are the exception:
/// those words decode as CLS and RET.
pub proof fn lemma_decode_encode(op: Op)
    requires
        op_in_range(op),
        op != Op::SYS(Address(0x00E0)),
        op != Op::SYS(Address(0x00EE)),
    ensures
        0 <= encode(op) < 0x10000,
        decode(encode(op) as u16) == Some(op),
{
    match op {
        Op::SYS(a) => {
            lemma_split_operand(a.0 as int);
            lemma_word_fields(0, a.0 as int / 0x100, (a.0 as int / 0x10) % 0x10, a.0 as int % 0x10);
        },
        Op::CLS | Op::RET => {},
        Op::JP(a) => {
            lemma_split_operand(a.0 as int);
            lemma_word_fields(1, a.0 as int / 0x100, (a.0 as int / 0x10) % 0x10, a.0 as int % 0x10);
        },
        Op::CALL(a) => {
            lemma_split_operand(a.0 as int);
            lemma_word_fields(2, a.0 as int / 0x100, (a.0 as int / 0x10) % 0x10, a.0 as int % 0x10);
        },
        Op::LDI(a) => {
            lemma_split_operand(a.0 as int);
            lemma_word_fields(0xA, a.0 as int / 0x100, (a.0 as int / 0x10) % 0x10, a.0 as int % 0x10);
        },
        Op::JPREL(a) => {
            lemma_split_operand(a.0 as int);
            lemma_word_fields(0xB, a.0 as int / 0x100, (a.0 as int / 0x10) % 0x10, a.0 as int % 0x10);
        },
        Op::SE(x, v) => lemma_word_fields(3, x.0 as int, v.0 as int / 0x10, v.0 as int % 0x10),
        Op::SNE(x, v) => lemma_word_fields(4, x.0 as int, v.0 as int / 0x10, v.0 as int % 0x10),
        Op::LD(x, v) => lemma_word_fields(6, x.0 as int, v.0 as int / 0x10, v.0 as int % 0x10),
        Op::ADD(x, v) => lemma_word_fields(7, x.0 as int, v.0 as int / 0x10, v.0 as int % 0x10),
        Op::RND(x, v) => lemma_word_fields(0xC, x.0 as int, v.0 as int / 0x10, v.0 as int % 0x10),
        Op::SER(x, y) => lemma_word_fields(5, x.0 as int, y.0 as int, 0),
        Op::LDR(x, y) => lemma_word_fields(8, x.0 as int, y.0 as int, 0),
        Op::OR(x, y) => lemma_word_fields(8, x.0 as int, y.0 as int, 1),
        Op::AND(x, y) => lemma_word_fields(8, x.0 as int, y.0 as int, 2),
        Op::XOR(x, y) => lemma_word_fields(8, x.0 as int, y.0 as int, 3),
        Op::ADDR(x, y) => lemma_word_fields(8, x.0 as int, y.0 as int, 4),
        Op::SUB(x, y) => lemma_word_fields(8, x.0 as int, y.0 as int, 5),
        Op::SHR(x) => lemma_word_fields(8, x.0 as int, 0, 6),
        Op::SUBN(x, y) => lemma_word_fields(8, x.0 as int, y.0 as int, 7),
        Op::SHL(x) => lemma_word_fields(8, x.0 as int, 0, 0xE),
        Op::SNER(x, y) => lemma_word_fields(9, x.0 as int, y.0 as int, 0),
        Op::DRW(x, y, n) => lemma_word_fields(0xD, x.0 as int, y.0 as int, n.0 as int),
        Op::SKP(x) => lemma_word_fields(0xE, x.0 as int, 9, 0xE),
        Op::SKNP(x) => lemma_word_fields(0xE, x.0 as int, 0xA, 1),
        Op::CPDT(x) => lemma_word_fields(0xF, x.0 as int, 0, 7),
        Op::LDKP(x) => lemma_word_fields(0xF, x.0 as int, 0, 0xA),
        Op::LDDT(x) => lemma_word_fields(0xF, x.0 as int, 1, 5),
        Op::LDST(x) => lemma_word_fields(0xF, x.0 as int, 1, 8),
        Op::ADDI(x) => lemma_word_fields(0xF, x.0 as int, 1, 0xE),
        Op::LDIS(x) => lemma_word_fields(0xF, x.0 as int, 2, 9),
        Op::LDIB(x) => lemma_word_fields(0xF, x.0 as int, 3, 3),
        Op::LDIR(x) => lemma_word_fields(0xF, x.0 as int, 5, 5),
        Op::LDIM(x) => lemma_word_fields(0xF, x.0 as int, 6, 5),
    }
}

impl Instruction {
    /// Decodes the word; an unknown word is an error naming it.
    pub fn interpret(&self) -> (r: Result<Op, Error>)
        ensures
            match r {
                Ok(op) => decode(self.0) == Some(op),
                Err(e) => decode(self.0).is_none() && e == Error::UnknownInstruction(self.0),
            },
    {
        let w = self.0;
        let family = w & 0xF000;
        let n = w & 0x000F;
        let nn = w & 0x00FF;
        proof {
            assert(w & 0xF000 == (w / 0x1000) * 0x1000) by (bit_vector);
            assert(w & 0x000F == w % 0x10) by (bit_vector);
            assert(w & 0x00FF == w % 0x100) by (bit_vector);
        }
        match family {
            0x0000 => match w {
                0x00E0 => Ok(Op::CLS),
                0x00EE => Ok(Op::RET),
                _ => Ok(Op::SYS(self.addr())),
            },
            0x1000 => Ok(Op::JP(self.addr())),
            0x2000 => Ok(Op::CALL(self.addr())),
            0x3000 => Ok(Op::SE(self.second_nibble(), self.last_byte())),
            0x4000 => Ok(Op::SNE(self.second_nibble(), self.last_byte())),
            0x5000 => Ok(Op::SER(self.second_nibble(), self.third_nibble())),
            0x6000 => Ok(Op::LD(self.second_nibble(), self.last_byte())),
            0x7000 => Ok(Op::ADD(self.second_nibble(), self.last_byte())),
            0x8000 => match n {
                0x0 => Ok(Op::LDR(self.second_nibble(), self.third_nibble())),
                0x1 => Ok(Op::OR(self.second_nibble(), self.third_nibble())),
                0x2 => Ok(Op::AND(self.second_nibble(), self.third_nibble())),
                0x3 => Ok(Op::XOR(self.second_nibble(), self.third_nibble())),
                0x4 => Ok(Op::ADDR(self.second_nibble(), self.third_nibble())),
                0x5 => Ok(Op::SUB(self.second_nibble(), self.third_nibble())),
                0x6 => Ok(Op::SHR(self.second_nibble())),
                0x7 => Ok(Op::SUBN(self.second_nibble(), self.third_nibble())),
                0xE => Ok(Op::SHL(self.second_nibble())),
                _ => Err(Error::UnknownInstruction(w)),
            },
            0x9000 => match n {
                0x0 => Ok(Op::SNER(self.second_nibble(), self.third_nibble())),
                _ => Err(Error::UnknownInstruction(w)),
            },
            0xA000 => Ok(Op::LDI(self.addr())),
            0xB000 => Ok(Op::JPREL(self.addr())),
            0xC000 => Ok(Op::RND(self.second_nibble(), self.last_byte())),
            0xD000 => Ok(Op::DRW(self.second_nibble(), self.third_nibble(), Value(n as u8))),
            0xE000 => match nn {
                0x9E => Ok(Op::SKP(self.second_nibble())),
                0xA1 => Ok(Op::SKNP(self.second_nibble())),
                _ => Err(Error::UnknownInstruction(w)),
            },
            0xF000 => match nn {
                0x07 => Ok(Op::CPDT(self.second_nibble())),
                0x0A => Ok(Op::LDKP(self.second_nibble())),
                0x15 => Ok(Op::LDDT(self.second_nibble())),
                0x18 => Ok(Op::LDST(self.second_nibble())),
                0x1E => Ok(Op::ADDI(self.second_nibble())),
                0x29 => Ok(Op::LDIS(self.second_nibble())),
                0x33 => Ok(Op::LDIB(self.second_nibble())),
                0x55 => Ok(Op::LDIR(self.second_nibble())),
                0x65 => Ok(Op::LDIM(self.second_nibble())),
                _ => Err(Error::UnknownInstruction(w)),
            },
            _ => Err(Error::UnknownInstruction(w)),
        }
    }

    // For a word ABCD: second_nibble is B, third_nibble is C, last_byte is CD
    // and addr is BCD.
    fn second_nibble(&self) -> (r: Register)
        ensures
            r == x_of(self.0),
    {
        let w = self.0;
        assert((w & 0x0F00) >> 8 == (w / 0x100) % 0x10) by (bit_vector);
        Register(((w & 0x0F00) >> 8) as u8)
    }

    fn third_nibble(&self) -> (r: Register)
        ensures
            r == y_of(self.0),
    {
        let w = self.0;
        assert((w & 0x00F0) >> 4 == (w / 0x10) % 0x10) by (bit_vector);
        Register(((w & 0x00F0) >> 4) as u8)
    }

    fn last_byte(&self) -> (r: Value)
        ensures
            r == byte_of(self.0),
    {
        let w = self.0;
        assert(w & 0x00FF == w % 0x100) by (bit_vector);
        Value((w & 0x00FF) as u8)
    }

    fn addr(&self) -> (r: Address)
        ensures
            r == addr_of(self.0),
    {
        let w = self.0;
        assert(w & 0x0FFF == w % 0x1000) by (bit_vector);
        Address(w & 0x0FFF)
    }
}

/// The three decimal digits of a byte: hundreds, tens, ones.
pub open spec fn bcd_digits(v: u8) -> Seq<u8> {
    seq![v / 100, (v % 100) / 10, v % 10]
}

/// Splits a byte into its hundreds, tens and ones digits.
pub fn to_bcd(v: u8) -> (r: [u8; 3])
    ensures
        r@ == bcd_digits(v),
        r[0] <= 9 && r[1] <= 9 && r[2] <= 9,
        100 * r[0] + 10 * r[1] + r[2] == v,
{
    let r: [u8; 3] = [v / 100, (v % 100) / 10, (v % 100) % 10];
    assert(r@ =~= bcd_digits(v));
    r
}

} // verus!

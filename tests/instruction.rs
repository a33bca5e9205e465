use chip8::{to_bcd, Address, Error, Instruction, Op, Register, Value};

#[test]
fn test_cls() {
    let got_op = Instruction(0x00E0).interpret();
    assert!(got_op.is_ok());
    assert_eq!(Op::CLS, got_op.unwrap());
}

#[test]
fn test_ret() {
    let got_op = Instruction(0x00EE).interpret();
    assert!(got_op.is_ok());
    assert_eq!(Op::RET, got_op.unwrap());
}

#[test]
fn test_sys() {
    let got_op = Instruction(0x0123).interpret();
    assert!(got_op.is_ok());
    assert_eq!(Op::SYS(Address(0x123)), got_op.unwrap());
}

#[test]
fn test_jp() {
    let got_op = Instruction(0x1123).interpret();
    assert!(got_op.is_ok());
    assert_eq!(Op::JP(Address(0x123)), got_op.unwrap());
}

#[test]
fn test_call() {
    let got_op = Instruction(0x2123).interpret();
    assert!(got_op.is_ok());
    assert_eq!(Op::CALL(Address(0x123)), got_op.unwrap());
}

#[test]
fn test_sev() {
    let got_op = Instruction(0x3456).interpret();
    assert!(got_op.is_ok());
    assert_eq!(Op::SE(Register(0x4), Value(0x56)), got_op.unwrap());
}

#[test]
fn test_snev() {
    let got_op = Instruction(0x4456).interpret();
    assert!(got_op.is_ok());
    assert_eq!(Op::SNE(Register(0x4), Value(0x56)), got_op.unwrap());
}

#[test]
fn test_ser() {
    let got_op = Instruction(0x5860).interpret();
    assert!(got_op.is_ok());
    assert_eq!(Op::SER(Register(0x8), Register(0x6)), got_op.unwrap());
}

#[test]
fn test_ld() {
    let got_op = Instruction(0x6876).interpret();
    assert!(got_op.is_ok());
    assert_eq!(Op::LD(Register(0x8), Value(0x76)), got_op.unwrap());
}

#[test]
fn test_add() {
    let got_op = Instruction(0x7876).interpret();
    assert!(got_op.is_ok());
    assert_eq!(Op::ADD(Register(0x8), Value(0x76)), got_op.unwrap());
}

#[test]
fn test_ldr() {
    let got_op = Instruction(0x8870).interpret();
    assert!(got_op.is_ok());
    assert_eq!(Op::LDR(Register(0x8), Register(0x7)), got_op.unwrap());
}

#[test]
fn test_or() {
    let got_op = Instruction(0x8871).interpret();
    assert!(got_op.is_ok());
    assert_eq!(Op::OR(Register(0x8), Register(0x7)), got_op.unwrap());
}

#[test]
fn test_and() {
    let got_op = Instruction(0x8872).interpret();
    assert!(got_op.is_ok());
    assert_eq!(Op::AND(Register(0x8), Register(0x7)), got_op.unwrap());
}

#[test]
fn test_xor() {
    let got_op = Instruction(0x8873).interpret();
    assert!(got_op.is_ok());
    assert_eq!(Op::XOR(Register(0x8), Register(0x7)), got_op.unwrap());
}

#[test]
fn test_addr() {
    let got_op = Instruction(0x8874).interpret();
    assert!(got_op.is_ok());
    assert_eq!(Op::ADDR(Register(0x8), Register(0x7)), got_op.unwrap());
}

#[test]
fn test_sub() {
    let got_op = Instruction(0x8875).interpret();
    assert!(got_op.is_ok());
    assert_eq!(Op::SUB(Register(0x8), Register(0x7)), got_op.unwrap());
}

#[test]
fn test_shr() {
    let got_op = Instruction(0x8876).interpret();
    assert!(got_op.is_ok());
    assert_eq!(Op::SHR(Register(0x8)), got_op.unwrap());
}

#[test]
fn test_subn() {
    let got_op = Instruction(0x8877).interpret();
    assert!(got_op.is_ok());
    assert_eq!(Op::SUBN(Register(0x8), Register(0x7)), got_op.unwrap());
}

#[test]
fn test_shl() {
    let got_op = Instruction(0x887E).interpret();
    assert!(got_op.is_ok());
    assert_eq!(Op::SHL(Register(0x8)), got_op.unwrap());
}

#[test]
fn test_sner() {
    let got_op = Instruction(0x9870).interpret();
    assert!(got_op.is_ok());
    assert_eq!(Op::SNER(Register(0x8), Register(0x7)), got_op.unwrap());
}

#[test]
fn test_ldi() {
    let got_op = Instruction(0xA870).interpret();
    assert!(got_op.is_ok());
    assert_eq!(Op::LDI(Address(0x870)), got_op.unwrap());
}

#[test]
fn test_jprel() {
    let got_op = Instruction(0xB870).interpret();
    assert!(got_op.is_ok());
    assert_eq!(Op::JPREL(Address(0x870)), got_op.unwrap());
}

#[test]
fn test_rnd() {
    let got_op = Instruction(0xC870).interpret();
    assert!(got_op.is_ok());
    assert_eq!(Op::RND(Register(0x8), Value(0x70)), got_op.unwrap());
}

#[test]
fn test_drw() {
    let got_op = Instruction(0xD875).interpret();
    assert!(got_op.is_ok());
    assert_eq!(Op::DRW(Register(0x8), Register(0x7), Value(0x5)), got_op.unwrap());
}

#[test]
fn test_skp() {
    let got_op = Instruction(0xE89E).interpret();
    assert!(got_op.is_ok());
    assert_eq!(Op::SKP(Register(0x8)), got_op.unwrap());
}

#[test]
fn test_sknp() {
    let got_op = Instruction(0xE8A1).interpret();
    assert!(got_op.is_ok());
    assert_eq!(Op::SKNP(Register(0x8)), got_op.unwrap());
}

#[test]
fn test_cpdt() {
    let got_op = Instruction(0xF807).interpret();
    assert!(got_op.is_ok());
    assert_eq!(Op::CPDT(Register(0x8)), got_op.unwrap());
}

#[test]
fn test_ldkp() {
    let got_op = Instruction(0xF80A).interpret();
    assert!(got_op.is_ok());
    assert_eq!(Op::LDKP(Register(0x8)), got_op.unwrap());
}

#[test]
fn test_lddt() {
    let got_op = Instruction(0xF815).interpret();
    assert!(got_op.is_ok());
    assert_eq!(Op::LDDT(Register(0x8)), got_op.unwrap());
}

#[test]
fn test_ldst() {
    let got_op = Instruction(0xF818).interpret();
    assert!(got_op.is_ok());
    assert_eq!(Op::LDST(Register(0x8)), got_op.unwrap());
}

#[test]
fn test_addi() {
    let got_op = Instruction(0xF81E).interpret();
    assert!(got_op.is_ok());
    assert_eq!(Op::ADDI(Register(0x8)), got_op.unwrap());
}

#[test]
fn test_ldis() {
    let got_op = Instruction(0xF829).interpret();
    assert!(got_op.is_ok());
    assert_eq!(Op::LDIS(Register(0x8)), got_op.unwrap());
}

#[test]
fn test_ldib() {
    let got_op = Instruction(0xF833).interpret();
    assert!(got_op.is_ok());
    assert_eq!(Op::LDIB(Register(0x8)), got_op.unwrap());
}

#[test]
fn test_ldir() {
    let got_op = Instruction(0xF855).interpret();
    assert!(got_op.is_ok());
    assert_eq!(Op::LDIR(Register(0x8)), got_op.unwrap());
}

#[test]
fn test_ldim() {
    let got_op = Instruction(0xF865).interpret();
    assert!(got_op.is_ok());
    assert_eq!(Op::LDIM(Register(0x8)), got_op.unwrap());
}

#[test]
fn test_to_bcd() {
    assert_eq!([1, 2, 3], to_bcd(123));
    assert_eq!([0, 2, 3], to_bcd(23));
    assert_eq!([0, 0, 3], to_bcd(3));
    assert_eq!([0, 0, 0], to_bcd(0));
}

#[test]
fn bcd_digits_recompose_every_byte() {
    for v in 0..=255u8 {
        let d = to_bcd(v);
        assert!(d[0] <= 9 && d[1] <= 9 && d[2] <= 9);
        assert_eq!(100 * d[0] as u32 + 10 * d[1] as u32 + d[2] as u32, v as u32);
    }
    assert_eq!([2, 5, 5], to_bcd(255));
}

#[test]
fn unknown_words_name_themselves() {
    for w in [0x8008u16, 0x800F, 0x9001, 0xE000, 0xE8FF, 0xF000, 0xF8FF] {
        assert_eq!(Instruction(w).interpret(), Err(Error::UnknownInstruction(w)));
    }
}

#[test]
fn shift_right_ignores_third_nibble() {
    assert_eq!(Instruction(0x8A36).interpret(), Ok(Op::SHR(Register(0xA))));
    assert_eq!(Instruction(0x8A3E).interpret(), Ok(Op::SHL(Register(0xA))));
}

#[test]
fn high_registers_and_addresses_decode() {
    assert_eq!(Instruction(0x1FFF).interpret(), Ok(Op::JP(Address(0xFFF))));
    assert_eq!(
        Instruction(0xDEFF).interpret(),
        Ok(Op::DRW(Register(0xE), Register(0xF), Value(0xF)))
    );
    assert_eq!(Instruction(0x0000).interpret(), Ok(Op::SYS(Address(0))));
}

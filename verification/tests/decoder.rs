//! Tests of the decoder: the opcode table, operand extraction, register
//! snapshotting, totality and determinism.

use superchip::{Emulator, Instruction, Register, Value};

fn fresh() -> Emulator {
    Emulator::new()
}

fn reg(value: u8, loc: u8) -> Register {
    Register { value, loc }
}

#[test]
fn decode_clear_screen() {
    let e = fresh();
    assert_eq!(Instruction::from(&e, 0x00, 0xE0), Instruction::ClearScreen);
}

#[test]
fn decode_jump() {
    let e = fresh();
    assert_eq!(Instruction::from(&e, 0x12, 0x34), Instruction::Jump(0x234));
}

#[test]
fn decode_set_pointer() {
    let e = fresh();
    assert_eq!(Instruction::from(&e, 0xA2, 0x34), Instruction::SetPointer(0x234));
}

#[test]
fn decode_zero_group() {
    let e = fresh();
    assert_eq!(Instruction::from(&e, 0x00, 0xEE), Instruction::Return);
    assert_eq!(Instruction::from(&e, 0x00, 0xFB), Instruction::ScrollRight);
    assert_eq!(Instruction::from(&e, 0x00, 0xFC), Instruction::ScrollLeft);
    assert_eq!(Instruction::from(&e, 0x00, 0xFE), Instruction::HighResolution(false));
    assert_eq!(Instruction::from(&e, 0x00, 0xFF), Instruction::HighResolution(true));
    assert_eq!(Instruction::from(&e, 0x00, 0xC7), Instruction::ScrollDown(0x7));
    assert_eq!(Instruction::from(&e, 0x00, 0x12), Instruction::Invalid);
}

#[test]
fn decode_snapshots_registers() {
    let mut e = fresh();
    e.set_register(0x3, 0x42);
    e.set_register(0x5, 0x99);
    assert_eq!(
        Instruction::from(&e, 0x33, 0x10),
        Instruction::SkipIfEqual { reg: reg(0x42, 0x3), comp: Value::Byte(0x10) }
    );
    assert_eq!(
        Instruction::from(&e, 0x53, 0x50),
        Instruction::SkipIfEqual { reg: reg(0x42, 0x3), comp: Value::Register(reg(0x99, 0x5)) }
    );
    assert_eq!(
        Instruction::from(&e, 0x43, 0x10),
        Instruction::SkipIfUnequal { reg: reg(0x42, 0x3), comp: Value::Byte(0x10) }
    );
    assert_eq!(
        Instruction::from(&e, 0x93, 0x50),
        Instruction::SkipIfUnequal { reg: reg(0x42, 0x3), comp: Value::Register(reg(0x99, 0x5)) }
    );
}

#[test]
fn decode_load_and_add_immediate() {
    let e = fresh();
    assert_eq!(
        Instruction::from(&e, 0x61, 0xAB),
        Instruction::Load { reg: reg(0, 0x1), value: Value::Byte(0xAB) }
    );
    assert_eq!(
        Instruction::from(&e, 0x71, 0xAB),
        Instruction::AddInPlace { reg: reg(0, 0x1), byte: 0xAB }
    );
}

#[test]
fn decode_alu_group() {
    let mut e = fresh();
    e.set_register(0x1, 10);
    e.set_register(0x2, 3);
    let r1 = reg(10, 0x1);
    let r2 = reg(3, 0x2);
    assert_eq!(
        Instruction::from(&e, 0x81, 0x20),
        Instruction::Load { reg: r1, value: Value::Register(r2) }
    );
    assert_eq!(Instruction::from(&e, 0x81, 0x21), Instruction::Or { x: r1, y: r2 });
    assert_eq!(Instruction::from(&e, 0x81, 0x22), Instruction::And { x: r1, y: r2 });
    assert_eq!(Instruction::from(&e, 0x81, 0x23), Instruction::Xor { x: r1, y: r2 });
    assert_eq!(Instruction::from(&e, 0x81, 0x24), Instruction::Add { x: r1, y: r2 });
    assert_eq!(Instruction::from(&e, 0x81, 0x25), Instruction::Sub { x: r1, y: r2 });
    assert_eq!(Instruction::from(&e, 0x81, 0x26), Instruction::ShiftRight(r1));
    // the reversed subtraction takes register 2's value but stores into
    // register 1
    assert_eq!(
        Instruction::from(&e, 0x81, 0x27),
        Instruction::Sub { x: reg(3, 0x1), y: r1 }
    );
    assert_eq!(Instruction::from(&e, 0x81, 0x2E), Instruction::ShiftLeft(r1));
    assert_eq!(Instruction::from(&e, 0x81, 0x28), Instruction::Invalid);
}

#[test]
fn decode_pointer_random_jump_plus() {
    let mut e = fresh();
    e.set_register(0x4, 7);
    assert_eq!(
        Instruction::from(&e, 0xB4, 0x56),
        Instruction::JumpPlus { addr: 0x456, x: reg(7, 0x4) }
    );
    assert_eq!(
        Instruction::from(&e, 0xC4, 0x0F),
        Instruction::Random { x: reg(7, 0x4), byte: 0x0F }
    );
    assert_eq!(Instruction::from(&e, 0x24, 0x56), Instruction::Call(0x456));
}

#[test]
fn decode_draw_group() {
    let mut e = fresh();
    e.set_register(0x1, 20);
    e.set_register(0x2, 30);
    assert_eq!(
        Instruction::from(&e, 0xD1, 0x25),
        Instruction::Draw { x: reg(20, 0x1), y: reg(30, 0x2), byte_count: 5 }
    );
    assert_eq!(
        Instruction::from(&e, 0xD1, 0x20),
        Instruction::DrawLarge { x: reg(20, 0x1), y: reg(30, 0x2) }
    );
}

#[test]
fn decode_key_group() {
    let mut e = fresh();
    e.set_register(0x6, 2);
    assert_eq!(Instruction::from(&e, 0xE6, 0x9E), Instruction::SkipIfKey(reg(2, 0x6)));
    assert_eq!(Instruction::from(&e, 0xE6, 0xA1), Instruction::SkipIfNotKey(reg(2, 0x6)));
    assert_eq!(Instruction::from(&e, 0xE6, 0x00), Instruction::Invalid);
}

#[test]
fn decode_f_group() {
    let mut e = fresh();
    e.set_register(0x1, 9);
    let r1 = reg(9, 0x1);
    assert_eq!(Instruction::from(&e, 0xF1, 0x07), Instruction::GetTimer(r1));
    assert_eq!(Instruction::from(&e, 0xF1, 0x0A), Instruction::KeyBlock(r1));
    assert_eq!(Instruction::from(&e, 0xF1, 0x15), Instruction::SetTimer(r1));
    assert_eq!(Instruction::from(&e, 0xF1, 0x18), Instruction::SetSound(r1));
    assert_eq!(Instruction::from(&e, 0xF1, 0x1E), Instruction::AddPointer(r1));
    assert_eq!(Instruction::from(&e, 0xF1, 0x29), Instruction::GetDigit(r1));
    assert_eq!(Instruction::from(&e, 0xF1, 0x33), Instruction::StoreDecimal(r1));
    assert_eq!(Instruction::from(&e, 0xF1, 0x55), Instruction::StoreRegisters(r1));
    assert_eq!(Instruction::from(&e, 0xF1, 0x65), Instruction::LoadRegisters(r1));
    assert_eq!(Instruction::from(&e, 0xF1, 0x75), Instruction::StoreRegistersRPL(r1));
    assert_eq!(Instruction::from(&e, 0xF1, 0x85), Instruction::LoadRegistersRPL(r1));
    assert_eq!(Instruction::from(&e, 0xF1, 0x99), Instruction::Invalid);
}

#[test]
fn decode_total_and_deterministic() {
    let mut e = fresh();
    for i in 0..16u8 {
        e.set_register(i, i.wrapping_mul(31));
    }
    for msb in 0..=255u8 {
        for lsb in 0..=255u8 {
            let a = Instruction::from(&e, msb, lsb);
            let b = Instruction::from(&e, msb, lsb);
            assert_eq!(a, b);
        }
    }
}

//! The decoder: a pure, total function from a raw two-byte opcode (plus a
//! snapshot of the register file) to one member of a closed instruction set.
//! Unrecognized bit patterns decode to `Invalid`, never to a failure.

use vstd::prelude::*;
use crate::components::{Emulator, Register};

verus! {

/// An operand that is either a register snapshot or an immediate byte.
#[derive(Clone, Copy, Debug, PartialEq, Eq, Structural)]
pub enum Value {
    Register(Register),
    Byte(u8),
}

impl Value {
    pub fn from_reg(val: Register) -> (r: Value)
        ensures
            r == Value::Register(val),
    {
        Value::Register(val)
    }

    pub fn from_byte(val: u8) -> (r: Value)
        ensures
            r == Value::Byte(val),
    {
        Value::Byte(val)
    }

    /// The plain byte an operand stands for: the immediate itself, or the
    /// snapshotted register value.
    pub fn unwrap(&self) -> (b: u8)
        ensures
            b == self.spec_unwrap(),
    {
        match self {
            Value::Byte(byte) => *byte,
            Value::Register(reg) => reg.value,
        }
    }

    pub open spec fn spec_unwrap(self) -> u8 {
        match self {
            Value::Byte(byte) => byte,
            Value::Register(reg) => reg.value,
        }
    }
}

/// The closed set of operations an opcode can decode to. Register operands
/// are value snapshots taken at decode time, not live references.
#[derive(Clone, Copy, Debug, PartialEq, Eq, Structural)]
pub enum Instruction {
    ClearScreen,

    Jump(u16),
    JumpPlus { addr: u16, x: Register },

    Call(u16),
    Return,

    SkipIfEqual { reg: Register, comp: Value },
    SkipIfUnequal { reg: Register, comp: Value },

    SkipIfKey(Register),
    SkipIfNotKey(Register),
    KeyBlock(Register),

    Load { reg: Register, value: Value },

    AddInPlace { reg: Register, byte: u8 },

    Or { x: Register, y: Register },
    And { x: Register, y: Register },
    Xor { x: Register, y: Register },
    Add { x: Register, y: Register },
    Sub { x: Register, y: Register },
    ShiftRight(Register),
    ShiftLeft(Register),

    SetPointer(u16),
    AddPointer(Register),

    Random { x: Register, byte: u8 },

    HighResolution(bool),
    Draw { x: Register, y: Register, byte_count: u8 },
    DrawLarge { x: Register, y: Register },
    ScrollRight,
    ScrollLeft,
    ScrollDown(u8),

    GetTimer(Register),
    SetTimer(Register),
    SetSound(Register),

    GetDigit(Register),
    StoreDecimal(Register),

    StoreRegisters(Register),
    LoadRegisters(Register),
    StoreRegistersRPL(Register),
    LoadRegistersRPL(Register),

    Invalid,
}

/// What the two bytes `(msb, lsb)` decode to against the register snapshot
/// `regs`: the full opcode table. Total and deterministic by construction:
/// every byte pair maps to exactly one variant, unrecognized patterns to
/// `Invalid`.
pub open spec fn spec_decode(regs: Seq<u8>, msb: u8, lsb: u8) -> Instruction
    recommends
        regs.len() == 16,
{
    let opcode = (msb & 0xF0) >> 4u8;
    let x = msb & 0x0F;
    let y = (lsb & 0xF0) >> 4u8;
    let x_reg = Register { value: regs[x as int], loc: x };
    let y_reg = Register { value: regs[y as int], loc: y };
    let byte = lsb;
    let nibble = lsb & 0x0F;
    let addr = (((msb as u16) << 8u16) | (lsb as u16)) & 0x0FFF;
    if opcode == 0x0 {
        if byte == 0xE0 {
            Instruction::ClearScreen
        } else if byte == 0xEE {
            Instruction::Return
        } else if byte == 0xFB {
            Instruction::ScrollRight
        } else if byte == 0xFC {
            Instruction::ScrollLeft
        } else if byte == 0xFE {
            Instruction::HighResolution(false)
        } else if byte == 0xFF {
            Instruction::HighResolution(true)
        } else if y == 0xC {
            Instruction::ScrollDown(nibble)
        } else {
            Instruction::Invalid
        }
    } else if opcode == 0x1 {
        Instruction::Jump(addr)
    } else if opcode == 0x2 {
        Instruction::Call(addr)
    } else if opcode == 0x3 {
        Instruction::SkipIfEqual { reg: x_reg, comp: Value::Byte(byte) }
    } else if opcode == 0x4 {
        Instruction::SkipIfUnequal { reg: x_reg, comp: Value::Byte(byte) }
    } else if opcode == 0x5 {
        Instruction::SkipIfEqual { reg: x_reg, comp: Value::Register(y_reg) }
    } else if opcode == 0x6 {
        Instruction::Load { reg: x_reg, value: Value::Byte(byte) }
    } else if opcode == 0x7 {
        Instruction::AddInPlace { reg: x_reg, byte }
    } else if opcode == 0x8 {
        if nibble == 0x0 {
            Instruction::Load { reg: x_reg, value: Value::Register(y_reg) }
        } else if nibble == 0x1 {
            Instruction::Or { x: x_reg, y: y_reg }
        } else if nibble == 0x2 {
            Instruction::And { x: x_reg, y: y_reg }
        } else if nibble == 0x3 {
            Instruction::Xor { x: x_reg, y: y_reg }
        } else if nibble == 0x4 {
            Instruction::Add { x: x_reg, y: y_reg }
        } else if nibble == 0x5 {
            Instruction::Sub { x: x_reg, y: y_reg }
        } else if nibble == 0x6 {
            Instruction::ShiftRight(x_reg)
        } else if nibble == 0x7 {
            // the reversed subtraction: the minuend is register y's
            // snapshot, but the result register is x
            Instruction::Sub { x: Register { value: regs[y as int], loc: x }, y: x_reg }
        } else if nibble == 0xE {
            Instruction::ShiftLeft(x_reg)
        } else {
            Instruction::Invalid
        }
    } else if opcode == 0x9 {
        Instruction::SkipIfUnequal { reg: x_reg, comp: Value::Register(y_reg) }
    } else if opcode == 0xA {
        Instruction::SetPointer(addr)
    } else if opcode == 0xB {
        Instruction::JumpPlus { addr, x: x_reg }
    } else if opcode == 0xC {
        Instruction::Random { x: x_reg, byte }
    } else if opcode == 0xD {
        if nibble == 0x0 {
            Instruction::DrawLarge { x: x_reg, y: y_reg }
        } else {
            Instruction::Draw { x: x_reg, y: y_reg, byte_count: nibble }
        }
    } else if opcode == 0xE {
        if byte == 0x9E {
            Instruction::SkipIfKey(x_reg)
        } else if byte == 0xA1 {
            Instruction::SkipIfNotKey(x_reg)
        } else {
            Instruction::Invalid
        }
    } else {
        // opcode == 0xF: every other top nibble is covered above
        if byte == 0x07 {
            Instruction::GetTimer(x_reg)
        } else if byte == 0x0A {
            Instruction::KeyBlock(x_reg)
        } else if byte == 0x15 {
            Instruction::SetTimer(x_reg)
        } else if byte == 0x18 {
            Instruction::SetSound(x_reg)
        } else if byte == 0x1E {
            Instruction::AddPointer(x_reg)
        } else if byte == 0x29 {
            Instruction::GetDigit(x_reg)
        } else if byte == 0x33 {
            Instruction::StoreDecimal(x_reg)
        } else if byte == 0x55 {
            Instruction::StoreRegisters(x_reg)
        } else if byte == 0x65 {
            Instruction::LoadRegisters(x_reg)
        } else if byte == 0x75 {
            Instruction::StoreRegistersRPL(x_reg)
        } else if byte == 0x85 {
            Instruction::LoadRegistersRPL(x_reg)
        } else {
            Instruction::Invalid
        }
    }
}

/// Law: decoding is deterministic — any two decodes of the same byte pair
/// against the same register snapshot yield the same instruction. Totality
/// is the shape of [`spec_decode`] itself: it is defined, and yields one
/// variant, for every byte pair.
pub proof fn lemma_decode_deterministic(
    regs: Seq<u8>,
    msb: u8,
    lsb: u8,
    i1: Instruction,
    i2: Instruction,
)
    requires
        i1 == spec_decode(regs, msb, lsb),
        i2 == spec_decode(regs, msb, lsb),
    ensures
        i1 == i2,
{
}

impl Instruction {
    /// Decodes `(msb, lsb)` against the current register file: total over
    /// all byte pairs and deterministic given the same register snapshot,
    /// exactly the table of [`spec_decode`].
    pub fn from(emulator: &Emulator, msb: u8, lsb: u8) -> (inst: Instruction)
        requires
            emulator.wf(),
        ensures
            inst == spec_decode(emulator@.registers, msb, lsb),
    {
        let opcode = (msb & 0xF0) >> 4;
        let x = msb & 0x0F;
        let y = (lsb & 0xF0) >> 4;
        proof {
            assert(x < 16 && y < 16 && opcode < 16) by (bit_vector)
                requires
                    x == msb & 0x0F && y == (lsb & 0xF0) >> 4u8 && opcode == (msb & 0xF0) >> 4u8,
            ;
        }
        let x_reg = emulator.get_register_data(x);
        let y_reg = emulator.get_register_data(y);
        let byte = lsb;
        let nibble = lsb & 0x0F;
        let addr = (((msb as u16) << 8) | (lsb as u16)) & 0x0FFF;
        match opcode {
            0x0 => match byte {
                0xE0 => Instruction::ClearScreen,
                0xEE => Instruction::Return,
                0xFB => Instruction::ScrollRight,
                0xFC => Instruction::ScrollLeft,
                0xFE => Instruction::HighResolution(false),
                0xFF => Instruction::HighResolution(true),
                _ => {
                    if y == 0xC {
                        Instruction::ScrollDown(nibble)
                    } else {
                        Instruction::Invalid
                    }
                },
            },
            0x1 => Instruction::Jump(addr),
            0x2 => Instruction::Call(addr),
            0x3 => Instruction::SkipIfEqual { reg: x_reg, comp: Value::from_byte(byte) },
            0x4 => Instruction::SkipIfUnequal { reg: x_reg, comp: Value::from_byte(byte) },
            0x5 => Instruction::SkipIfEqual { reg: x_reg, comp: Value::from_reg(y_reg) },
            0x6 => Instruction::Load { reg: x_reg, value: Value::from_byte(byte) },
            0x7 => Instruction::AddInPlace { reg: x_reg, byte },
            0x8 => match nibble {
                0x0 => Instruction::Load { reg: x_reg, value: Value::from_reg(y_reg) },
                0x1 => Instruction::Or { x: x_reg, y: y_reg },
                0x2 => Instruction::And { x: x_reg, y: y_reg },
                0x3 => Instruction::Xor { x: x_reg, y: y_reg },
                0x4 => Instruction::Add { x: x_reg, y: y_reg },
                0x5 => Instruction::Sub { x: x_reg, y: y_reg },
                0x6 => Instruction::ShiftRight(x_reg),
                // the reversed subtraction stores into register x
                0x7 => Instruction::Sub {
                    x: Register { value: y_reg.value, loc: x },
                    y: x_reg,
                },
                0xE => Instruction::ShiftLeft(x_reg),
                _ => Instruction::Invalid,
            },
            0x9 => Instruction::SkipIfUnequal { reg: x_reg, comp: Value::from_reg(y_reg) },
            0xA => Instruction::SetPointer(addr),
            0xB => Instruction::JumpPlus { addr, x: x_reg },
            0xC => Instruction::Random { x: x_reg, byte },
            0xD => match nibble {
                0x0 => Instruction::DrawLarge { x: x_reg, y: y_reg },
                _ => Instruction::Draw { x: x_reg, y: y_reg, byte_count: nibble },
            },
            0xE => match byte {
                0x9E => Instruction::SkipIfKey(x_reg),
                0xA1 => Instruction::SkipIfNotKey(x_reg),
                _ => Instruction::Invalid,
            },
            0xF => match byte {
                0x07 => Instruction::GetTimer(x_reg),
                0x0A => Instruction::KeyBlock(x_reg),
                0x15 => Instruction::SetTimer(x_reg),
                0x18 => Instruction::SetSound(x_reg),
                0x1E => Instruction::AddPointer(x_reg),
                0x29 => Instruction::GetDigit(x_reg),
                0x33 => Instruction::StoreDecimal(x_reg),
                0x55 => Instruction::StoreRegisters(x_reg),
                0x65 => Instruction::LoadRegisters(x_reg),
                0x75 => Instruction::StoreRegistersRPL(x_reg),
                0x85 => Instruction::LoadRegistersRPL(x_reg),
                _ => Instruction::Invalid,
            },
            _ => Instruction::Invalid,
        }
    }
}

} // verus!

//! The execution engine: one fetch-decode-execute cycle per call, with the
//! exact effect of every instruction stated over the machine view, and the
//! sprite-bit helpers the draw instructions are built on.

use vstd::prelude::*;
use crate::components::{
    Emulator, MachineView, Register, Resolution, pix, scroll_right_spec, scroll_left_spec,
    scroll_down_spec, eq_but_display, RAM_SIZE,
};
use crate::instruction::{Instruction, spec_decode};

verus! {

/// The one unrecoverable condition a cycle can report: a `Return` executed
/// with an empty call stack, the mark of a program that does not balance
/// calls and returns.
#[derive(Clone, Copy, Debug, PartialEq, Eq, Structural)]
pub enum StepError {
    EmptyCallStack,
}

/// Bit `j` (most significant first) of a sprite row byte.
pub open spec fn byte_bit(b: u8, j: int) -> bool {
    ((b >> ((7 - j) as u8)) & 1) == 1
}

/// Bit `j` (most significant first) of a 16-bit sprite row transmitted as
/// two bytes.
pub open spec fn word_bit(a: u8, b: u8, j: int) -> bool {
    if j < 8 {
        byte_bit(a, j)
    } else {
        byte_bit(b, j - 8)
    }
}

/// The display after blitting, in high resolution, an 8-wide sprite of `n`
/// rows read from `ram` at `iptr`, at entry-masked coordinates `(x, y)`:
/// each lit sprite bit toggles its cell, cells off the grid are dropped.
pub open spec fn draw_hi_cells(d: Seq<bool>, ram: Seq<u8>, iptr: int, n: int, x: int, y: int)
    -> Seq<bool> {
    Seq::new(8192, |i: int| {
        let c = i / 64 - x;
        let r = i % 64 - y;
        if 0 <= c < 8 && 0 <= r < n && byte_bit(ram[iptr + r], c) {
            !d[i]
        } else {
            d[i]
        }
    })
}

/// Whether sprite bit `(c, r)` of a high-resolution blit at `(x, y)` lands
/// on the grid, is lit, and toggles a lit cell to unlit.
pub open spec fn hi_hit(d: Seq<bool>, ram: Seq<u8>, iptr: int, x: int, y: int, c: int, r: int)
    -> bool {
    x + c < 128 && y + r < 64 && byte_bit(ram[iptr + r], c) && d[pix(x + c, y + r)]
}

/// Whether that same high-resolution blit toggles any cell from lit to
/// unlit.
pub open spec fn draw_hi_coll(d: Seq<bool>, ram: Seq<u8>, iptr: int, n: int, x: int, y: int)
    -> bool {
    exists|c: int, r: int| 0 <= c < 8 && 0 <= r < n && #[trigger] hi_hit(d, ram, iptr, x, y, c, r)
}

/// The display after blitting, in low resolution, an 8-wide sprite of `n`
/// rows at low-space coordinates `(x, y)`: each lit sprite bit toggles the
/// 2x2 block of native cells its low-resolution cell maps to.
pub open spec fn draw_lo_cells(d: Seq<bool>, ram: Seq<u8>, iptr: int, n: int, x: int, y: int)
    -> Seq<bool> {
    Seq::new(8192, |i: int| {
        let c = (i / 64) / 2 - x;
        let r = ((i % 64) / 2) - y;
        if 0 <= c < 8 && 0 <= r < n && byte_bit(ram[iptr + r], c) {
            !d[i]
        } else {
            d[i]
        }
    })
}

/// Whether sprite bit `(c, r)` of a low-resolution blit at `(x, y)` lands
/// on the 64x32 grid, is lit, and toggles any lit cell of its 2x2 block to
/// unlit.
pub open spec fn lo_hit(d: Seq<bool>, ram: Seq<u8>, iptr: int, x: int, y: int, c: int, r: int)
    -> bool {
    x + c < 64 && y + r < 32 && byte_bit(ram[iptr + r], c) && (d[pix(2 * (x + c), 2 * (y + r))]
        || d[pix(2 * (x + c), 2 * (y + r) + 1)] || d[pix(2 * (x + c) + 1, 2 * (y + r))] || d[pix(
        2 * (x + c) + 1,
        2 * (y + r) + 1,
    )])
}

/// Whether that same low-resolution blit toggles any native cell from lit
/// to unlit.
pub open spec fn draw_lo_coll(d: Seq<bool>, ram: Seq<u8>, iptr: int, n: int, x: int, y: int)
    -> bool {
    exists|c: int, r: int| 0 <= c < 8 && 0 <= r < n && #[trigger] lo_hit(d, ram, iptr, x, y, c, r)
}

/// The display after blitting a 16x16 sprite (16 rows of two bytes each)
/// read from `ram` at `iptr`, at coordinates `(x, y)` of the native grid.
pub open spec fn draw_large_cells(d: Seq<bool>, ram: Seq<u8>, iptr: int, x: int, y: int)
    -> Seq<bool> {
    Seq::new(8192, |i: int| {
        let c = i / 64 - x;
        let r = i % 64 - y;
        if 0 <= c < 16 && 0 <= r < 16 && word_bit(ram[iptr + 2 * r], ram[iptr + 2 * r + 1], c) {
            !d[i]
        } else {
            d[i]
        }
    })
}

/// Whether sprite bit `(c, r)` of a 16x16 blit at `(x, y)` lands on the
/// grid, is lit, and toggles a lit cell to unlit.
pub open spec fn large_hit(d: Seq<bool>, ram: Seq<u8>, iptr: int, x: int, y: int, c: int, r: int)
    -> bool {
    x + c < 128 && y + r < 64 && word_bit(ram[iptr + 2 * r], ram[iptr + 2 * r + 1], c) && d[pix(
        x + c,
        y + r,
    )]
}

/// Whether that 16x16 blit toggles any cell from lit to unlit.
pub open spec fn draw_large_coll(d: Seq<bool>, ram: Seq<u8>, iptr: int, x: int, y: int) -> bool {
    exists|c: int, r: int|
        0 <= c < 16 && 0 <= r < 16 && #[trigger] large_hit(d, ram, iptr, x, y, c, r)
}

/// Whether `inst`, applied to the machine state `v` (program counter already
/// advanced past the opcode), is within the engine's contract: bulk
/// transfers and draws stay inside memory, RPL indices stay in the 8-slot
/// store, key tests name one of the sixteen keys, and the memory pointer
/// does not overflow. Violating these is a caller error the engine does not
/// re-validate.
pub open spec fn inst_safe(v: MachineView, inst: Instruction) -> bool {
    match inst {
        Instruction::AddPointer(x) => v.mem_pointer + x.value <= 0xFFFF,
        Instruction::Draw { x, y, byte_count } => v.mem_pointer + byte_count <= RAM_SIZE,
        Instruction::DrawLarge { x, y } => v.mem_pointer + 32 <= RAM_SIZE,
        Instruction::StoreDecimal(x) => v.mem_pointer + 2 < RAM_SIZE,
        Instruction::StoreRegisters(x) => v.mem_pointer + x.loc < RAM_SIZE,
        Instruction::LoadRegisters(x) => v.mem_pointer + x.loc < RAM_SIZE,
        Instruction::StoreRegistersRPL(x) => x.loc < 8,
        Instruction::LoadRegistersRPL(x) => x.loc < 8,
        Instruction::SkipIfKey(reg) => reg.value < 16,
        Instruction::SkipIfNotKey(reg) => reg.value < 16,
        _ => true,
    }
}

/// Whether one whole cycle from state `v` stays within the engine's
/// contract: the two opcode bytes lie in memory, and the decoded
/// instruction meets [`inst_safe`].
pub open spec fn step_safe(v: MachineView) -> bool {
    &&& v.pro_counter + 1 < RAM_SIZE
    &&& inst_safe(
        MachineView { pro_counter: (v.pro_counter + 2) as u16, ..v },
        spec_decode(v.registers, v.ram[v.pro_counter as int], v.ram[v.pro_counter as int + 1]),
    )
}

/// Whether `inst` is a `Return` about to pop an empty call stack — the
/// fatal malformed-program condition.
pub open spec fn spec_underflow(v: MachineView, inst: Instruction) -> bool {
    inst is Return && v.call_stack.len() == 0
}

/// Whether executing `inst` reports that the display must be redrawn.
pub open spec fn spec_redraw(inst: Instruction) -> bool {
    match inst {
        Instruction::ClearScreen => true,
        Instruction::Draw { x, y, byte_count } => true,
        Instruction::DrawLarge { x, y } => true,
        _ => false,
    }
}

/// The machine state after applying `inst` to `v` (program counter already
/// advanced past the opcode). `rnd` is the byte drawn for `Random`; every
/// other instruction ignores it. `Return` on an empty stack leaves `v`
/// unchanged here; the engine reports it as an error instead.
pub open spec fn spec_apply(v: MachineView, inst: Instruction, rnd: u8) -> MachineView
    recommends
        v.wf(),
        inst_safe(v, inst),
{
    match inst {
        Instruction::ClearScreen => MachineView {
            display: Seq::new(8192, |i: int| false),
            ..v
        },
        Instruction::Jump(addr) => MachineView { pro_counter: addr, ..v },
        Instruction::JumpPlus { addr, x } => MachineView {
            pro_counter: (addr + x.value) as u16,
            ..v
        },
        Instruction::Call(addr) => MachineView {
            call_stack: v.call_stack.push(v.pro_counter),
            pro_counter: addr,
            ..v
        },
        Instruction::Return => if v.call_stack.len() > 0 {
            MachineView {
                call_stack: v.call_stack.drop_last(),
                pro_counter: v.call_stack.last(),
                ..v
            }
        } else {
            v
        },
        Instruction::SkipIfEqual { reg, comp } => if reg.value == comp.spec_unwrap() {
            MachineView { pro_counter: (v.pro_counter + 2) as u16, ..v }
        } else {
            v
        },
        Instruction::SkipIfUnequal { reg, comp } => if reg.value != comp.spec_unwrap() {
            MachineView { pro_counter: (v.pro_counter + 2) as u16, ..v }
        } else {
            v
        },
        Instruction::SkipIfKey(reg) => if v.keys[reg.value as int] {
            MachineView { pro_counter: (v.pro_counter + 2) as u16, ..v }
        } else {
            v
        },
        Instruction::SkipIfNotKey(reg) => if !v.keys[reg.value as int] {
            MachineView { pro_counter: (v.pro_counter + 2) as u16, ..v }
        } else {
            v
        },
        Instruction::KeyBlock(reg) => MachineView { key_block: reg.loc, ..v },
        Instruction::Load { reg, value } => MachineView {
            registers: v.registers.update(reg.loc as int, value.spec_unwrap()),
            ..v
        },
        Instruction::AddInPlace { reg, byte } => MachineView {
            registers: v.registers.update(
                reg.loc as int,
                ((reg.value + byte) % 256) as u8,
            ),
            ..v
        },
        Instruction::Or { x, y } => MachineView {
            registers: v.registers.update(x.loc as int, x.value | y.value),
            ..v
        },
        Instruction::And { x, y } => MachineView {
            registers: v.registers.update(x.loc as int, x.value & y.value),
            ..v
        },
        Instruction::Xor { x, y } => MachineView {
            registers: v.registers.update(x.loc as int, x.value ^ y.value),
            ..v
        },
        Instruction::Add { x, y } => MachineView {
            registers: v.registers.update(
                0xF,
                if x.value + y.value > 255 { 1u8 } else { 0u8 },
            ).update(x.loc as int, ((x.value + y.value) % 256) as u8),
            ..v
        },
        Instruction::Sub { x, y } => MachineView {
            registers: v.registers.update(
                0xF,
                if x.value >= y.value { 1u8 } else { 0u8 },
            ).update(x.loc as int, ((x.value - y.value + 256) % 256) as u8),
            ..v
        },
        Instruction::ShiftRight(x) => MachineView {
            registers: v.registers.update(0xF, x.value & 1).update(x.loc as int, x.value >> 1u8),
            ..v
        },
        Instruction::ShiftLeft(x) => MachineView {
            registers: v.registers.update(0xF, (x.value & 0x80) >> 7u8).update(
                x.loc as int,
                (x.value << 1u8) as u8,
            ),
            ..v
        },
        Instruction::SetPointer(addr) => MachineView { mem_pointer: addr, ..v },
        Instruction::AddPointer(x) => MachineView {
            mem_pointer: (v.mem_pointer + x.value) as u16,
            ..v
        },
        Instruction::Random { x, byte } => MachineView {
            registers: v.registers.update(x.loc as int, rnd & byte),
            ..v
        },
        Instruction::HighResolution(case) => MachineView {
            resolution: if case { Resolution::High } else { Resolution::Low },
            ..v
        },
        Instruction::Draw { x, y, byte_count } => match v.resolution {
            Resolution::Low => MachineView {
                display: draw_lo_cells(
                    v.display,
                    v.ram,
                    v.mem_pointer as int,
                    byte_count as int,
                    x.value as int % 64,
                    y.value as int % 32,
                ),
                registers: v.registers.update(
                    0xF,
                    if draw_lo_coll(
                        v.display,
                        v.ram,
                        v.mem_pointer as int,
                        byte_count as int,
                        x.value as int % 64,
                        y.value as int % 32,
                    ) {
                        1u8
                    } else {
                        0u8
                    },
                ),
                ..v
            },
            Resolution::High => MachineView {
                display: draw_hi_cells(
                    v.display,
                    v.ram,
                    v.mem_pointer as int,
                    byte_count as int,
                    x.value as int % 128,
                    y.value as int % 64,
                ),
                registers: v.registers.update(
                    0xF,
                    if draw_hi_coll(
                        v.display,
                        v.ram,
                        v.mem_pointer as int,
                        byte_count as int,
                        x.value as int % 128,
                        y.value as int % 64,
                    ) {
                        1u8
                    } else {
                        0u8
                    },
                ),
                ..v
            },
        },
        Instruction::DrawLarge { x, y } => MachineView {
            display: draw_large_cells(
                v.display,
                v.ram,
                v.mem_pointer as int,
                x.value as int % 128,
                y.value as int % 64,
            ),
            registers: v.registers.update(
                0xF,
                if draw_large_coll(
                    v.display,
                    v.ram,
                    v.mem_pointer as int,
                    x.value as int % 128,
                    y.value as int % 64,
                ) {
                    1u8
                } else {
                    0u8
                },
            ),
            ..v
        },
        Instruction::ScrollRight => MachineView { display: scroll_right_spec(v.display), ..v },
        Instruction::ScrollLeft => MachineView { display: scroll_left_spec(v.display), ..v },
        Instruction::ScrollDown(pixels) => MachineView {
            display: scroll_down_spec(v.display, pixels as int),
            ..v
        },
        Instruction::GetTimer(x) => MachineView {
            registers: v.registers.update(x.loc as int, v.delay_timer),
            ..v
        },
        Instruction::SetTimer(x) => MachineView { delay_timer: x.value, ..v },
        Instruction::SetSound(x) => MachineView { sound_timer: x.value, ..v },
        Instruction::GetDigit(x) => MachineView { mem_pointer: (x.value * 5) as u16, ..v },
        Instruction::StoreDecimal(x) => MachineView {
            ram: v.ram.update(v.mem_pointer as int, x.value / 100).update(
                v.mem_pointer as int + 1,
                (x.value / 10) % 10,
            ).update(v.mem_pointer as int + 2, x.value % 10),
            ..v
        },
        Instruction::StoreRegisters(x) => MachineView {
            ram: Seq::new(4096, |j: int|
                if v.mem_pointer <= j <= v.mem_pointer + x.loc {
                    v.registers[j - v.mem_pointer]
                } else {
                    v.ram[j]
                }),
            ..v
        },
        Instruction::LoadRegisters(x) => MachineView {
            registers: Seq::new(16, |j: int|
                if 0 <= j <= x.loc {
                    v.ram[v.mem_pointer + j]
                } else {
                    v.registers[j]
                }),
            ..v
        },
        Instruction::StoreRegistersRPL(x) => MachineView {
            rpl: Seq::new(8, |j: int|
                if 0 <= j <= x.loc {
                    v.registers[j]
                } else {
                    v.rpl[j]
                }),
            ..v
        },
        Instruction::LoadRegistersRPL(x) => MachineView {
            registers: Seq::new(16, |j: int|
                if 0 <= j <= x.loc {
                    v.rpl[j]
                } else {
                    v.registers[j]
                }),
            ..v
        },
        Instruction::Invalid => v,
    }
}

/// The field bounds the decoder guarantees by construction: register
/// locations are 4-bit, addresses 12-bit, small immediates 4-bit.
pub open spec fn operands_ok(inst: Instruction) -> bool {
    match inst {
        Instruction::Jump(addr) => addr < 4096,
        Instruction::JumpPlus { addr, x } => addr < 4096 && x.loc < 16,
        Instruction::Call(addr) => addr < 4096,
        Instruction::SkipIfEqual { reg, comp } => reg.loc < 16,
        Instruction::SkipIfUnequal { reg, comp } => reg.loc < 16,
        Instruction::SkipIfKey(reg) => reg.loc < 16,
        Instruction::SkipIfNotKey(reg) => reg.loc < 16,
        Instruction::KeyBlock(reg) => reg.loc < 16,
        Instruction::Load { reg, value } => reg.loc < 16,
        Instruction::AddInPlace { reg, byte } => reg.loc < 16,
        Instruction::Or { x, y } => x.loc < 16 && y.loc < 16,
        Instruction::And { x, y } => x.loc < 16 && y.loc < 16,
        Instruction::Xor { x, y } => x.loc < 16 && y.loc < 16,
        Instruction::Add { x, y } => x.loc < 16 && y.loc < 16,
        Instruction::Sub { x, y } => x.loc < 16 && y.loc < 16,
        Instruction::ShiftRight(x) => x.loc < 16,
        Instruction::ShiftLeft(x) => x.loc < 16,
        Instruction::SetPointer(addr) => addr < 4096,
        Instruction::AddPointer(x) => x.loc < 16,
        Instruction::Random { x, byte } => x.loc < 16,
        Instruction::Draw { x, y, byte_count } => x.loc < 16 && y.loc < 16 && byte_count < 16,
        Instruction::DrawLarge { x, y } => x.loc < 16 && y.loc < 16,
        Instruction::ScrollDown(pixels) => pixels < 16,
        Instruction::GetTimer(x) => x.loc < 16,
        Instruction::SetTimer(x) => x.loc < 16,
        Instruction::SetSound(x) => x.loc < 16,
        Instruction::GetDigit(x) => x.loc < 16,
        Instruction::StoreDecimal(x) => x.loc < 16,
        Instruction::StoreRegisters(x) => x.loc < 16,
        Instruction::LoadRegisters(x) => x.loc < 16,
        Instruction::StoreRegistersRPL(x) => x.loc < 16,
        Instruction::LoadRegistersRPL(x) => x.loc < 16,
        _ => true,
    }
}

/// Whatever two bytes are decoded, the operand fields carry the bounds of
/// [`operands_ok`]: they are cut from the opcode with 4- and 12-bit masks.
pub proof fn lemma_decode_operands(regs: Seq<u8>, msb: u8, lsb: u8)
    ensures
        operands_ok(spec_decode(regs, msb, lsb)),
{
    assert((msb & 0x0F) < 16 && ((lsb & 0xF0) >> 4u8) < 16 && (lsb & 0x0F) < 16) by (bit_vector);
    assert(((((msb as u16) << 8u16) | (lsb as u16)) & 0x0FFF) < 4096) by (bit_vector);
}

/// Every instruction but `Random` ignores the drawn byte: applying it with
/// any two bytes yields the same state.
pub proof fn lemma_apply_rnd_irrelevant(v: MachineView, inst: Instruction, b1: u8, b2: u8)
    requires
        !(inst is Random),
    ensures
        spec_apply(v, inst, b1) == spec_apply(v, inst, b2),
{
}

/// Law: sprite drawing is an involution on the bitmap. Blitting the same
/// sprite at the same coordinates twice, with memory unchanged in between,
/// toggles every touched cell twice and so restores the display exactly.
pub proof fn lemma_draw_hi_involution(
    d: Seq<bool>,
    ram: Seq<u8>,
    iptr: int,
    n: int,
    x: int,
    y: int,
)
    requires
        d.len() == 8192,
    ensures
        draw_hi_cells(draw_hi_cells(d, ram, iptr, n, x, y), ram, iptr, n, x, y) == d,
{
    assert(draw_hi_cells(draw_hi_cells(d, ram, iptr, n, x, y), ram, iptr, n, x, y) =~= d);
}

/// Law: a register store followed by a register load through the same
/// memory pointer restores registers `0..=x` exactly, however the register
/// file was overwritten in between, provided memory and the pointer were
/// left alone.
pub proof fn lemma_store_load_registers_round_trip(
    s0: MachineView,
    x: Register,
    corrupt: Seq<u8>,
    rnd1: u8,
    rnd2: u8,
)
    requires
        s0.wf(),
        x.loc < 16,
        s0.mem_pointer + x.loc < 4096,
        corrupt.len() == 16,
    ensures
        ({
            let stored = spec_apply(s0, Instruction::StoreRegisters(x), rnd1);
            let corrupted = MachineView { registers: corrupt, ..stored };
            let loaded = spec_apply(corrupted, Instruction::LoadRegisters(x), rnd2);
            forall|j: int| 0 <= j <= x.loc ==> loaded.registers[j] == s0.registers[j]
        }),
{
    let stored = spec_apply(s0, Instruction::StoreRegisters(x), rnd1);
    let corrupted = MachineView { registers: corrupt, ..stored };
    let loaded = spec_apply(corrupted, Instruction::LoadRegisters(x), rnd2);
    assert forall|j: int| 0 <= j <= x.loc implies loaded.registers[j] == s0.registers[j] by {
        assert(loaded.registers[j] == corrupted.ram[corrupted.mem_pointer + j]);
        assert(stored.ram[s0.mem_pointer + j] == s0.registers[j]);
    };
}

/// Expands one byte into its eight pixels, most significant bit first.
pub fn byte_to_bools(byte: u8) -> (ret: [bool; 8])
    ensures
        forall|j: int| 0 <= j < 8 ==> ret@[j] == byte_bit(byte, j),
{
    let mut ret = [false, false, false, false, false, false, false, false];
    let mut j: usize = 0;
    while j < 8
        invariant
            j <= 8,
            forall|k: int| 0 <= k < j as int ==> ret@[k] == byte_bit(byte, k),
        decreases 8 - j,
    {
        let i: u8 = (7 - j) as u8;
        ret[j] = ((byte >> i) & 1) == 1;
        j = j + 1;
    }
    ret
}

/// Expands a two-byte row into its sixteen pixels, most significant bit of
/// the first byte first.
pub fn twobyte_twobools(bytea: u8, byteb: u8) -> (ret: [bool; 16])
    ensures
        forall|j: int| 0 <= j < 16 ==> ret@[j] == word_bit(bytea, byteb, j),
{
    let mut ret = [
        false,
        false,
        false,
        false,
        false,
        false,
        false,
        false,
        false,
        false,
        false,
        false,
        false,
        false,
        false,
        false,
    ];
    let mut j: usize = 0;
    while j < 16
        invariant
            j <= 16,
            forall|k: int| 0 <= k < j as int ==> ret@[k] == word_bit(bytea, byteb, k),
        decreases 16 - j,
    {
        if j < 8 {
            let i: u8 = (7 - j) as u8;
            ret[j] = ((bytea >> i) & 1) == 1;
        } else {
            let i: u8 = (15 - j) as u8;
            ret[j] = ((byteb >> i) & 1) == 1;
        }
        j = j + 1;
    }
    ret
}

/// Expands each sprite byte into one row of eight pixels.
pub fn load_sprite(bytes: &[u8]) -> (ret: Vec<[bool; 8]>)
    ensures
        ret@.len() == bytes@.len(),
        forall|row: int, col: int|
            0 <= row < bytes@.len() && 0 <= col < 8 ==> ret@[row]@[col] == byte_bit(
                bytes@[row],
                col,
            ),
{
    let mut ret: Vec<[bool; 8]> = Vec::new();
    let mut i: usize = 0;
    while i < bytes.len()
        invariant
            i <= bytes@.len(),
            ret@.len() == i as int,
            forall|row: int, col: int|
                0 <= row < i as int && 0 <= col < 8 ==> ret@[row]@[col] == byte_bit(
                    bytes@[row],
                    col,
                ),
        decreases bytes@.len() - i as int,
    {
        ret.push(byte_to_bools(bytes[i]));
        i = i + 1;
    }
    ret
}

/// Expands a 32-byte large sprite into its sixteen rows of sixteen pixels.
pub fn load_large_sprite(bytes: &[u8]) -> (ret: Vec<[bool; 16]>)
    requires
        bytes@.len() >= 32,
    ensures
        ret@.len() == 16,
        forall|row: int, col: int|
            0 <= row < 16 && 0 <= col < 16 ==> ret@[row]@[col] == word_bit(
                bytes@[2 * row],
                bytes@[2 * row + 1],
                col,
            ),
{
    let mut ret: Vec<[bool; 16]> = Vec::new();
    let mut j: usize = 0;
    while j < 16
        invariant
            bytes@.len() >= 32,
            j <= 16,
            ret@.len() == j as int,
            forall|row: int, col: int|
                0 <= row < j as int && 0 <= col < 16 ==> ret@[row]@[col] == word_bit(
                    bytes@[2 * row],
                    bytes@[2 * row + 1],
                    col,
                ),
        decreases 16 - j,
    {
        let i = j * 2;
        ret.push(twobyte_twobools(bytes[i], bytes[i + 1]));
        j = j + 1;
    }
    ret
}

/// Relies on rand::random: draws one byte from the thread-local generator.
/// Nothing is promised of the value.
#[verifier::external_body]
fn random_byte() -> u8 {
    rand::random()
}

/// Whether sprite bit `(c, r)` has been visited by the blit loops when the
/// column counter stands at `co` and, within column `co`, the row counter at
/// `ro` (columns are walked in the outer loop, rows in the inner).
pub open spec fn visited(c: int, r: int, co: int, ro: int) -> bool {
    c < co || (c == co && r < ro)
}

/// The toggle condition of [`draw_hi_cells`] for cell `i`, restricted to
/// the sprite bits already visited.
pub open spec fn hi_toggled(
    ram: Seq<u8>,
    iptr: int,
    n: int,
    x: int,
    y: int,
    co: int,
    ro: int,
    i: int,
) -> bool {
    let c = i / 64 - x;
    let r = i % 64 - y;
    0 <= c < 8 && 0 <= r < n && visited(c, r, co, ro) && byte_bit(ram[iptr + r], c)
}

/// The toggle condition of [`draw_lo_cells`] for cell `i`, restricted to
/// the sprite bits already visited.
pub open spec fn lo_toggled(
    ram: Seq<u8>,
    iptr: int,
    n: int,
    x: int,
    y: int,
    co: int,
    ro: int,
    i: int,
) -> bool {
    let c = (i / 64) / 2 - x;
    let r = ((i % 64) / 2) - y;
    0 <= c < 8 && 0 <= r < n && visited(c, r, co, ro) && byte_bit(ram[iptr + r], c)
}

/// The toggle condition of [`draw_large_cells`] for cell `i`, restricted to
/// the sprite bits already visited.
pub open spec fn large_toggled(
    ram: Seq<u8>,
    iptr: int,
    x: int,
    y: int,
    co: int,
    ro: int,
    i: int,
) -> bool {
    let c = i / 64 - x;
    let r = i % 64 - y;
    0 <= c < 16 && 0 <= r < 16 && visited(c, r, co, ro) && word_bit(
        ram[iptr + 2 * r],
        ram[iptr + 2 * r + 1],
        c,
    )
}

impl Emulator {
    /// Blits an 8-wide sprite of `byte_count` rows, read from memory at the
    /// memory pointer, at high-resolution coordinates `(x % 128, y % 64)`;
    /// reports whether any cell toggled from lit to unlit.
    #[verifier::loop_isolation(false)]
    #[verifier::rlimit(60)]
    pub(crate) fn draw_sprite_hi(&mut self, x: u8, y: u8, byte_count: u8) -> (collided: bool)
        requires
            old(self).wf(),
            byte_count <= 15,
            old(self)@.mem_pointer + byte_count <= RAM_SIZE,
        ensures
            final(self).wf(),
            final(self)@ == (MachineView {
                display: draw_hi_cells(
                    old(self)@.display,
                    old(self)@.ram,
                    old(self)@.mem_pointer as int,
                    byte_count as int,
                    x as int % 128,
                    y as int % 64,
                ),
                ..old(self)@
            }),
            collided == draw_hi_coll(
                old(self)@.display,
                old(self)@.ram,
                old(self)@.mem_pointer as int,
                byte_count as int,
                x as int % 128,
                y as int % 64,
            ),
    {
        let ghost pre = old(self)@;
        let ghost n = byte_count as int;
        let lx = (x as usize) % 128;
        let ly = (y as usize) % 64;
        let ghost gx = lx as int;
        let ghost gy = ly as int;
        let iptr = self.mem_pointer;
        let ghost gp = iptr as int;
        let bytes = self.get_ram_slice(iptr, iptr + byte_count as u16);
        let sprite = load_sprite(bytes);
        let ghost sp = sprite@;
        proof {
            assert forall|r: int, c: int|
                0 <= r < n && 0 <= c < 8 implies #[trigger] sp[r]@[c] == byte_bit(
                pre.ram[gp + r],
                c,
            ) by {
                assert(sp[r]@[c] == byte_bit(bytes@[r], c));
                assert(bytes@[r] == pre.ram[gp + r]);
            };
        }
        let mut collision = false;
        let mut x_o: usize = 0;
        while x_o < 8
            invariant
                self.wf(),
                eq_but_display(self@, pre),
                x_o <= 8,
                forall|i: int|
                    0 <= i < 8192 ==> self@.display[i] == (if hi_toggled(
                        pre.ram,
                        gp,
                        n,
                        gx,
                        gy,
                        x_o as int,
                        0,
                        i,
                    ) {
                        !pre.display[i]
                    } else {
                        pre.display[i]
                    }),
                collision ==> draw_hi_coll(pre.display, pre.ram, gp, n, gx, gy),
                !collision ==> forall|c: int, r: int|
                    0 <= c < 8 && 0 <= r < n && visited(c, r, x_o as int, 0) ==> !hi_hit(
                        pre.display,
                        pre.ram,
                        gp,
                        gx,
                        gy,
                        c,
                        r,
                    ),
            decreases 8 - x_o,
        {
            let mut y_o: usize = 0;
            while y_o < byte_count as usize
                invariant
                    self.wf(),
                    eq_but_display(self@, pre),
                    y_o <= n,
                    forall|i: int|
                        0 <= i < 8192 ==> self@.display[i] == (if hi_toggled(
                            pre.ram,
                            gp,
                            n,
                            gx,
                            gy,
                            x_o as int,
                            y_o as int,
                            i,
                        ) {
                            !pre.display[i]
                        } else {
                            pre.display[i]
                        }),
                    collision ==> draw_hi_coll(pre.display, pre.ram, gp, n, gx, gy),
                    !collision ==> forall|c: int, r: int|
                        0 <= c < 8 && 0 <= r < n && visited(c, r, x_o as int, y_o as int)
                            ==> !hi_hit(pre.display, pre.ram, gp, gx, gy, c, r),
                decreases n - y_o,
            {
                let ghost mid = self@.display;
                if sprite[y_o][x_o] {
                    let c1 = self.draw_hi(lx + x_o, ly + y_o);
                    collision = if collision {
                        collision
                    } else {
                        c1
                    };
                    proof {
                        let px = gx + x_o as int;
                        let py = gy + y_o as int;
                        if px < 128 && py < 64 {
                            assert(pix(px, py) / 64 == px && pix(px, py) % 64 == py);
                            assert(mid[pix(px, py)] == pre.display[pix(px, py)]);
                            if c1 {
                                assert(hi_hit(pre.display, pre.ram, gp, gx, gy, x_o as int,
                                    y_o as int));
                                assert(draw_hi_coll(pre.display, pre.ram, gp, n, gx, gy));
                            }
                        }
                        assert forall|i: int| 0 <= i < 8192 implies self@.display[i] == (
                        if hi_toggled(pre.ram, gp, n, gx, gy, x_o as int, y_o as int + 1, i) {
                            !pre.display[i]
                        } else {
                            pre.display[i]
                        }) by {
                            assert(i == 64 * (i / 64) + i % 64);
                            if i / 64 - gx == x_o as int && i % 64 - gy == y_o as int {
                                assert(i == pix(gx + x_o as int, gy + y_o as int));
                            }
                        };
                    }
                } else {
                    proof {
                        assert(!byte_bit(pre.ram[gp + y_o as int], x_o as int));
                        assert forall|i: int| 0 <= i < 8192 implies self@.display[i] == (
                        if hi_toggled(pre.ram, gp, n, gx, gy, x_o as int, y_o as int + 1, i) {
                            !pre.display[i]
                        } else {
                            pre.display[i]
                        }) by {};
                    }
                }
                y_o = y_o + 1;
            }
            x_o = x_o + 1;
        }
        proof {
            assert(self@.display =~= draw_hi_cells(pre.display, pre.ram, gp, n, gx, gy));
            assert(self@ =~= (MachineView {
                display: draw_hi_cells(pre.display, pre.ram, gp, n, gx, gy),
                ..pre
            }));
            if collision {
            } else {
                assert forall|c: int, r: int|
                    0 <= c < 8 && 0 <= r < n implies !hi_hit(pre.display, pre.ram, gp, gx, gy, c, r)
                by {
                    assert(visited(c, r, 8, 0));
                };
            }
        }
        collision
    }

    /// Blits an 8-wide sprite of `byte_count` rows at low-resolution
    /// coordinates `(x % 64, y % 32)`, each lit bit toggling a 2x2 block of
    /// native cells; reports whether any cell toggled from lit to unlit.
    #[verifier::loop_isolation(false)]
    #[verifier::rlimit(100)]
    pub(crate) fn draw_sprite_lo(&mut self, x: u8, y: u8, byte_count: u8) -> (collided: bool)
        requires
            old(self).wf(),
            byte_count <= 15,
            old(self)@.mem_pointer + byte_count <= RAM_SIZE,
        ensures
            final(self).wf(),
            final(self)@ == (MachineView {
                display: draw_lo_cells(
                    old(self)@.display,
                    old(self)@.ram,
                    old(self)@.mem_pointer as int,
                    byte_count as int,
                    x as int % 64,
                    y as int % 32,
                ),
                ..old(self)@
            }),
            collided == draw_lo_coll(
                old(self)@.display,
                old(self)@.ram,
                old(self)@.mem_pointer as int,
                byte_count as int,
                x as int % 64,
                y as int % 32,
            ),
    {
        let ghost pre = old(self)@;
        let ghost n = byte_count as int;
        let lx = (x as usize) % 64;
        let ly = (y as usize) % 32;
        let ghost gx = lx as int;
        let ghost gy = ly as int;
        let iptr = self.mem_pointer;
        let ghost gp = iptr as int;
        let bytes = self.get_ram_slice(iptr, iptr + byte_count as u16);
        let sprite = load_sprite(bytes);
        let ghost sp = sprite@;
        proof {
            assert forall|r: int, c: int|
                0 <= r < n && 0 <= c < 8 implies #[trigger] sp[r]@[c] == byte_bit(
                pre.ram[gp + r],
                c,
            ) by {
                assert(sp[r]@[c] == byte_bit(bytes@[r], c));
                assert(bytes@[r] == pre.ram[gp + r]);
            };
        }
        let mut collision = false;
        let mut x_o: usize = 0;
        while x_o < 8
            invariant
                self.wf(),
                eq_but_display(self@, pre),
                x_o <= 8,
                forall|i: int|
                    0 <= i < 8192 ==> self@.display[i] == (if lo_toggled(
                        pre.ram,
                        gp,
                        n,
                        gx,
                        gy,
                        x_o as int,
                        0,
                        i,
                    ) {
                        !pre.display[i]
                    } else {
                        pre.display[i]
                    }),
                collision ==> draw_lo_coll(pre.display, pre.ram, gp, n, gx, gy),
                !collision ==> forall|c: int, r: int|
                    0 <= c < 8 && 0 <= r < n && visited(c, r, x_o as int, 0) ==> !lo_hit(
                        pre.display,
                        pre.ram,
                        gp,
                        gx,
                        gy,
                        c,
                        r,
                    ),
            decreases 8 - x_o,
        {
            let mut y_o: usize = 0;
            while y_o < byte_count as usize
                invariant
                    self.wf(),
                    eq_but_display(self@, pre),
                    y_o <= n,
                    forall|i: int|
                        0 <= i < 8192 ==> self@.display[i] == (if lo_toggled(
                            pre.ram,
                            gp,
                            n,
                            gx,
                            gy,
                            x_o as int,
                            y_o as int,
                            i,
                        ) {
                            !pre.display[i]
                        } else {
                            pre.display[i]
                        }),
                    collision ==> draw_lo_coll(pre.display, pre.ram, gp, n, gx, gy),
                    !collision ==> forall|c: int, r: int|
                        0 <= c < 8 && 0 <= r < n && visited(c, r, x_o as int, y_o as int)
                            ==> !lo_hit(pre.display, pre.ram, gp, gx, gy, c, r),
                decreases n - y_o,
            {
                let ghost mid = self@.display;
                if sprite[y_o][x_o] {
                    let c1 = self.draw_lo(lx + x_o, ly + y_o);
                    collision = if collision {
                        collision
                    } else {
                        c1
                    };
                    proof {
                        let bx = gx + x_o as int;
                        let by = gy + y_o as int;
                        if bx < 64 && by < 32 {
                            assert(pix(2 * bx, 2 * by) / 64 == 2 * bx && pix(2 * bx, 2 * by) % 64
                                == 2 * by);
                            assert(pix(2 * bx, 2 * by + 1) / 64 == 2 * bx && pix(2 * bx, 2 * by + 1)
                                % 64 == 2 * by + 1);
                            assert(pix(2 * bx + 1, 2 * by) / 64 == 2 * bx + 1 && pix(
                                2 * bx + 1,
                                2 * by,
                            ) % 64 == 2 * by);
                            assert(pix(2 * bx + 1, 2 * by + 1) / 64 == 2 * bx + 1 && pix(
                                2 * bx + 1,
                                2 * by + 1,
                            ) % 64 == 2 * by + 1);
                            assert(mid[pix(2 * bx, 2 * by)] == pre.display[pix(2 * bx, 2 * by)]);
                            assert(mid[pix(2 * bx, 2 * by + 1)] == pre.display[pix(
                                2 * bx,
                                2 * by + 1,
                            )]);
                            assert(mid[pix(2 * bx + 1, 2 * by)] == pre.display[pix(
                                2 * bx + 1,
                                2 * by,
                            )]);
                            assert(mid[pix(2 * bx + 1, 2 * by + 1)] == pre.display[pix(
                                2 * bx + 1,
                                2 * by + 1,
                            )]);
                            if c1 {
                                assert(lo_hit(pre.display, pre.ram, gp, gx, gy, x_o as int,
                                    y_o as int));
                                assert(draw_lo_coll(pre.display, pre.ram, gp, n, gx, gy));
                            }
                        }
                        assert forall|i: int| 0 <= i < 8192 implies self@.display[i] == (
                        if lo_toggled(pre.ram, gp, n, gx, gy, x_o as int, y_o as int + 1, i) {
                            !pre.display[i]
                        } else {
                            pre.display[i]
                        }) by {
                            assert(i == 64 * (i / 64) + i % 64);
                            let px = i / 64;
                            let py = i % 64;
                            assert(px == 2 * (px / 2) || px == 2 * (px / 2) + 1);
                            assert(py == 2 * (py / 2) || py == 2 * (py / 2) + 1);
                            if px / 2 - gx == x_o as int && py / 2 - gy == y_o as int {
                                assert(i == pix(px, py));
                            }
                        };
                    }
                } else {
                    proof {
                        assert(!byte_bit(pre.ram[gp + y_o as int], x_o as int));
                        assert forall|i: int| 0 <= i < 8192 implies self@.display[i] == (
                        if lo_toggled(pre.ram, gp, n, gx, gy, x_o as int, y_o as int + 1, i) {
                            !pre.display[i]
                        } else {
                            pre.display[i]
                        }) by {};
                    }
                }
                y_o = y_o + 1;
            }
            x_o = x_o + 1;
        }
        proof {
            assert(self@.display =~= draw_lo_cells(pre.display, pre.ram, gp, n, gx, gy));
            assert(self@ =~= (MachineView {
                display: draw_lo_cells(pre.display, pre.ram, gp, n, gx, gy),
                ..pre
            }));
            if !collision {
                assert forall|c: int, r: int|
                    0 <= c < 8 && 0 <= r < n implies !lo_hit(pre.display, pre.ram, gp, gx, gy, c, r)
                by {
                    assert(visited(c, r, 8, 0));
                };
            }
        }
        collision
    }

    /// Blits a 16x16 sprite, read as 32 bytes from memory at the memory
    /// pointer, at coordinates `(x % 128, y % 64)` of the native grid;
    /// reports whether any cell toggled from lit to unlit.
    #[verifier::loop_isolation(false)]
    #[verifier::rlimit(60)]
    pub(crate) fn draw_sprite_large(&mut self, x: u8, y: u8) -> (collided: bool)
        requires
            old(self).wf(),
            old(self)@.mem_pointer + 32 <= RAM_SIZE,
        ensures
            final(self).wf(),
            final(self)@ == (MachineView {
                display: draw_large_cells(
                    old(self)@.display,
                    old(self)@.ram,
                    old(self)@.mem_pointer as int,
                    x as int % 128,
                    y as int % 64,
                ),
                ..old(self)@
            }),
            collided == draw_large_coll(
                old(self)@.display,
                old(self)@.ram,
                old(self)@.mem_pointer as int,
                x as int % 128,
                y as int % 64,
            ),
    {
        let ghost pre = old(self)@;
        let lx = (x as usize) % 128;
        let ly = (y as usize) % 64;
        let ghost gx = lx as int;
        let ghost gy = ly as int;
        let iptr = self.mem_pointer;
        let ghost gp = iptr as int;
        let bytes = self.get_ram_slice(iptr, iptr + 32);
        let sprite = load_large_sprite(bytes);
        let ghost sp = sprite@;
        proof {
            assert forall|r: int, c: int|
                0 <= r < 16 && 0 <= c < 16 implies #[trigger] sp[r]@[c] == word_bit(
                pre.ram[gp + 2 * r],
                pre.ram[gp + 2 * r + 1],
                c,
            ) by {
                assert(sp[r]@[c] == word_bit(bytes@[2 * r], bytes@[2 * r + 1], c));
                assert(bytes@[2 * r] == pre.ram[gp + 2 * r]);
                assert(bytes@[2 * r + 1] == pre.ram[gp + 2 * r + 1]);
            };
        }
        let mut collision = false;
        let mut x_o: usize = 0;
        while x_o < 16
            invariant
                self.wf(),
                eq_but_display(self@, pre),
                x_o <= 16,
                forall|i: int|
                    0 <= i < 8192 ==> self@.display[i] == (if large_toggled(
                        pre.ram,
                        gp,
                        gx,
                        gy,
                        x_o as int,
                        0,
                        i,
                    ) {
                        !pre.display[i]
                    } else {
                        pre.display[i]
                    }),
                collision ==> draw_large_coll(pre.display, pre.ram, gp, gx, gy),
                !collision ==> forall|c: int, r: int|
                    0 <= c < 16 && 0 <= r < 16 && visited(c, r, x_o as int, 0) ==> !large_hit(
                        pre.display,
                        pre.ram,
                        gp,
                        gx,
                        gy,
                        c,
                        r,
                    ),
            decreases 16 - x_o,
        {
            let mut y_o: usize = 0;
            while y_o < 16
                invariant
                    self.wf(),
                    eq_but_display(self@, pre),
                    y_o <= 16,
                    forall|i: int|
                        0 <= i < 8192 ==> self@.display[i] == (if large_toggled(
                            pre.ram,
                            gp,
                            gx,
                            gy,
                            x_o as int,
                            y_o as int,
                            i,
                        ) {
                            !pre.display[i]
                        } else {
                            pre.display[i]
                        }),
                    collision ==> draw_large_coll(pre.display, pre.ram, gp, gx, gy),
                    !collision ==> forall|c: int, r: int|
                        0 <= c < 16 && 0 <= r < 16 && visited(c, r, x_o as int, y_o as int)
                            ==> !large_hit(pre.display, pre.ram, gp, gx, gy, c, r),
                decreases 16 - y_o,
            {
                let ghost mid = self@.display;
                if sprite[y_o][x_o] {
                    let c1 = self.draw_hi(lx + x_o, ly + y_o);
                    collision = if collision {
                        collision
                    } else {
                        c1
                    };
                    proof {
                        let px = gx + x_o as int;
                        let py = gy + y_o as int;
                        if px < 128 && py < 64 {
                            assert(pix(px, py) / 64 == px && pix(px, py) % 64 == py);
                            assert(mid[pix(px, py)] == pre.display[pix(px, py)]);
                            if c1 {
                                assert(large_hit(pre.display, pre.ram, gp, gx, gy, x_o as int,
                                    y_o as int));
                                assert(draw_large_coll(pre.display, pre.ram, gp, gx, gy));
                            }
                        }
                        assert forall|i: int| 0 <= i < 8192 implies self@.display[i] == (
                        if large_toggled(pre.ram, gp, gx, gy, x_o as int, y_o as int + 1, i) {
                            !pre.display[i]
                        } else {
                            pre.display[i]
                        }) by {
                            assert(i == 64 * (i / 64) + i % 64);
                            if i / 64 - gx == x_o as int && i % 64 - gy == y_o as int {
                                assert(i == pix(gx + x_o as int, gy + y_o as int));
                            }
                        };
                    }
                } else {
                    proof {
                        assert(!word_bit(
                            pre.ram[gp + 2 * y_o as int],
                            pre.ram[gp + 2 * y_o as int + 1],
                            x_o as int,
                        ));
                        assert forall|i: int| 0 <= i < 8192 implies self@.display[i] == (
                        if large_toggled(pre.ram, gp, gx, gy, x_o as int, y_o as int + 1, i) {
                            !pre.display[i]
                        } else {
                            pre.display[i]
                        }) by {};
                    }
                }
                y_o = y_o + 1;
            }
            x_o = x_o + 1;
        }
        proof {
            assert(self@.display =~= draw_large_cells(pre.display, pre.ram, gp, gx, gy));
            assert(self@ =~= (MachineView {
                display: draw_large_cells(pre.display, pre.ram, gp, gx, gy),
                ..pre
            }));
            if !collision {
                assert forall|c: int, r: int|
                    0 <= c < 16 && 0 <= r < 16 implies !large_hit(
                    pre.display,
                    pre.ram,
                    gp,
                    gx,
                    gy,
                    c,
                    r,
                ) by {
                    assert(visited(c, r, 16, 0));
                };
            }
        }
        collision
    }

    /// One fetch-decode-execute cycle. If a key-wait is pending the machine
    /// does not advance at all and reports no redraw. Otherwise the two
    /// opcode bytes at the program counter are fetched, the counter advances
    /// past them, and the decoded instruction's exact effect — as stated by
    /// [`spec_apply`] — is applied; the result says whether the display must
    /// be redrawn. A `Return` with an empty call stack leaves the machine
    /// right after the fetch and reports the fatal error instead.
    #[verifier::loop_isolation(false)]
    #[verifier::rlimit(100)]
    pub fn execute(&mut self) -> (r: Result<bool, StepError>)
        requires
            old(self).wf(),
            old(self)@.blocked() || step_safe(old(self)@),
        ensures
            final(self).wf(),
            old(self)@.blocked() ==> r == Ok::<bool, StepError>(false) && final(self)@ == old(
                self,
            )@,
            !old(self)@.blocked() ==> ({
                let fetched = MachineView {
                    pro_counter: (old(self)@.pro_counter + 2) as u16,
                    ..old(self)@
                };
                let inst = spec_decode(
                    old(self)@.registers,
                    old(self)@.ram[old(self)@.pro_counter as int],
                    old(self)@.ram[old(self)@.pro_counter as int + 1],
                );
                &&& (spec_underflow(fetched, inst) ==> r == Err::<bool, StepError>(
                    StepError::EmptyCallStack,
                ) && final(self)@ == fetched)
                &&& (!spec_underflow(fetched, inst) ==> r == Ok::<bool, StepError>(
                    spec_redraw(inst),
                ) && exists|b: u8| final(self)@ == spec_apply(fetched, inst, b))
            }),
    {
        if self.is_key_blocked() {
            return Ok(false);
        }
        let ghost pre = old(self)@;
        let mut redraw = false;

        let msb = self.get_ram(self.pro_counter);
        let lsb = self.get_ram(self.pro_counter + 1);
        self.pro_counter = self.pro_counter + 2;
        let ghost fetched = self@;
        proof {
            assert(fetched =~= (MachineView {
                pro_counter: (pre.pro_counter + 2) as u16,
                ..pre
            }));
        }

        let inst = Instruction::from(&*self, msb, lsb);
        let ghost mut rb: u8 = 0u8;
        proof {
            assert(self@.registers =~= pre.registers);
            lemma_decode_operands(pre.registers, msb, lsb);
            assert(inst_safe(fetched, inst));
        }
        match inst {
            Instruction::ClearScreen => {
                self.clear_screen();
                redraw = true;
                proof {
                    assert(self@ =~= spec_apply(fetched, inst, rb));
                }
            },
            Instruction::Jump(addr) => {
                self.pro_counter = addr;
                proof {
                    assert(self@ =~= spec_apply(fetched, inst, rb));
                }
            },
            Instruction::JumpPlus { addr, x } => {
                let result = addr + (x.value as u16);
                self.pro_counter = result;
                proof {
                    assert(self@ =~= spec_apply(fetched, inst, rb));
                }
            },
            Instruction::Call(addr) => {
                let pc = self.pro_counter;
                self.push_callstack(pc);
                self.pro_counter = addr;
                proof {
                    assert(self@ =~= spec_apply(fetched, inst, rb));
                }
            },
            Instruction::Return => {
                match self.pop_callstack() {
                    Some(addr) => {
                        self.pro_counter = addr;
                        proof {
                            assert(self@ =~= spec_apply(fetched, inst, rb));
                        }
                    },
                    None => {
                        return Err(StepError::EmptyCallStack);
                    },
                }
            },
            Instruction::SkipIfEqual { reg, comp } => {
                let x = reg.value;
                let y = comp.unwrap();
                if x == y {
                    self.pro_counter = self.pro_counter + 2;
                }
                proof {
                    assert(self@ =~= spec_apply(fetched, inst, rb));
                }
            },
            Instruction::SkipIfUnequal { reg, comp } => {
                let x = reg.value;
                let y = comp.unwrap();
                if x != y {
                    self.pro_counter = self.pro_counter + 2;
                }
                proof {
                    assert(self@ =~= spec_apply(fetched, inst, rb));
                }
            },
            Instruction::SkipIfKey(reg) => {
                let x = reg.value as usize;
                if self.key_handler.keys[x] {
                    self.pro_counter = self.pro_counter + 2;
                }
                proof {
                    assert(self@ =~= spec_apply(fetched, inst, rb));
                }
            },
            Instruction::SkipIfNotKey(reg) => {
                let x = reg.value as usize;
                if !self.key_handler.keys[x] {
                    self.pro_counter = self.pro_counter + 2;
                }
                proof {
                    assert(self@ =~= spec_apply(fetched, inst, rb));
                }
            },
            Instruction::KeyBlock(reg) => {
                let x = reg.loc;
                self.key_handler.key_hold = x;
                proof {
                    assert(self@ =~= spec_apply(fetched, inst, rb));
                }
            },
            Instruction::Load { reg, value } => {
                let x = reg.loc;
                let y = value.unwrap();
                self.set_register(x, y);
                proof {
                    assert(self@ =~= spec_apply(fetched, inst, rb));
                }
            },
            Instruction::AddInPlace { reg, byte } => {
                let x = reg.loc;
                let sum = (reg.value as u16) + (byte as u16);
                self.set_register(x, (sum % 256) as u8);
                proof {
                    assert(self@ =~= spec_apply(fetched, inst, rb));
                }
            },
            Instruction::Or { x, y } => {
                let (x_loc, x_val, y_val) = (x.loc, x.value, y.value);
                self.set_register(x_loc, x_val | y_val);
                proof {
                    assert(self@ =~= spec_apply(fetched, inst, rb));
                }
            },
            Instruction::And { x, y } => {
                let (x_loc, x_val, y_val) = (x.loc, x.value, y.value);
                self.set_register(x_loc, x_val & y_val);
                proof {
                    assert(self@ =~= spec_apply(fetched, inst, rb));
                }
            },
            Instruction::Xor { x, y } => {
                let (x_loc, x_val, y_val) = (x.loc, x.value, y.value);
                self.set_register(x_loc, x_val ^ y_val);
                proof {
                    assert(self@ =~= spec_apply(fetched, inst, rb));
                }
            },
            Instruction::Add { x, y } => {
                let (x_loc, x_val, y_val) = (x.loc, x.value, y.value);
                let sum = (x_val as u16) + (y_val as u16);
                let overflow: u8 = if sum > 255 {
                    1
                } else {
                    0
                };
                self.set_register(0xF, overflow);
                self.set_register(x_loc, (sum % 256) as u8);
                proof {
                    assert(self@ =~= spec_apply(fetched, inst, rb));
                }
            },
            Instruction::Sub { x, y } => {
                let (x_loc, x_val, y_val) = (x.loc, x.value, y.value);
                let no_borrow: u8 = if x_val >= y_val {
                    1
                } else {
                    0
                };
                let result = (((x_val as u16) + 256 - (y_val as u16)) % 256) as u8;
                self.set_register(0xF, no_borrow);
                self.set_register(x_loc, result);
                proof {
                    assert(self@ =~= spec_apply(fetched, inst, rb));
                }
            },
            Instruction::ShiftRight(x) => {
                let (x_loc, x_val) = (x.loc, x.value);
                let (result, shift_bit) = (x_val >> 1, x_val & 1);
                self.set_register(0xF, shift_bit);
                self.set_register(x_loc, result);
                proof {
                    assert(self@ =~= spec_apply(fetched, inst, rb));
                }
            },
            Instruction::ShiftLeft(x) => {
                let (x_loc, x_val) = (x.loc, x.value);
                let (result, shift_bit) = (x_val << 1, (x_val & 0x80) >> 7);
                self.set_register(0xF, shift_bit);
                self.set_register(x_loc, result);
                proof {
                    assert(self@ =~= spec_apply(fetched, inst, rb));
                }
            },
            Instruction::SetPointer(addr) => {
                self.mem_pointer = addr;
                proof {
                    assert(self@ =~= spec_apply(fetched, inst, rb));
                }
            },
            Instruction::AddPointer(x) => {
                self.mem_pointer = self.mem_pointer + (x.value as u16);
                proof {
                    assert(self@ =~= spec_apply(fetched, inst, rb));
                }
            },
            Instruction::Random { x, byte } => {
                let random: u8 = random_byte();
                self.set_register(x.loc, random & byte);
                proof {
                    rb = random;
                    assert(self@ =~= spec_apply(fetched, inst, rb));
                }
            },
            Instruction::HighResolution(case) => {
                self.resolution_mode = Resolution::from(case);
                proof {
                    assert(self@ =~= spec_apply(fetched, inst, rb));
                }
            },
            Instruction::Draw { x, y, byte_count } => {
                redraw = true;
                let collision: bool;
                match self.resolution_mode {
                    Resolution::Low => {
                        collision = self.draw_sprite_lo(x.value, y.value, byte_count);
                    },
                    Resolution::High => {
                        collision = self.draw_sprite_hi(x.value, y.value, byte_count);
                    },
                }
                self.set_register(0xF, if collision {
                    1
                } else {
                    0
                });
                proof {
                    assert(self@ =~= spec_apply(fetched, inst, rb));
                }
            },
            Instruction::DrawLarge { x, y } => {
                redraw = true;
                let collision = self.draw_sprite_large(x.value, y.value);
                self.set_register(0xF, if collision {
                    1
                } else {
                    0
                });
                proof {
                    assert(self@ =~= spec_apply(fetched, inst, rb));
                }
            },
            Instruction::ScrollRight => {
                self.scroll_right();
                proof {
                    assert(self@ =~= spec_apply(fetched, inst, rb));
                }
            },
            Instruction::ScrollLeft => {
                self.scroll_left();
                proof {
                    assert(self@ =~= spec_apply(fetched, inst, rb));
                }
            },
            Instruction::ScrollDown(pixels) => {
                self.scroll_down(pixels);
                proof {
                    assert(self@ =~= spec_apply(fetched, inst, rb));
                }
            },
            Instruction::GetTimer(x) => {
                let t = self.delay_timer;
                self.set_register(x.loc, t);
                proof {
                    assert(self@ =~= spec_apply(fetched, inst, rb));
                }
            },
            Instruction::SetTimer(x) => {
                self.delay_timer = x.value;
                proof {
                    assert(self@ =~= spec_apply(fetched, inst, rb));
                }
            },
            Instruction::SetSound(x) => {
                self.sound_timer = x.value;
                proof {
                    assert(self@ =~= spec_apply(fetched, inst, rb));
                }
            },
            Instruction::GetDigit(x) => {
                self.mem_pointer = (x.value as u16) * 5;
                proof {
                    assert(self@ =~= spec_apply(fetched, inst, rb));
                }
            },
            Instruction::StoreDecimal(x) => {
                let v = x.value;
                let p = self.mem_pointer;
                self.set_ram(p, v / 100);
                self.set_ram(p + 1, (v / 10) % 10);
                self.set_ram(p + 2, v % 10);
                proof {
                    assert(self@ =~= spec_apply(fetched, inst, rb));
                }
            },
            Instruction::StoreRegisters(x) => {
                let xl = x.loc;
                let ptr = self.mem_pointer;
                let mut i: u16 = 0;
                while i <= xl as u16
                    invariant
                        i <= xl as u16 + 1,
                        self.wf(),
                        self@ == (MachineView {
                            ram: Seq::new(4096, |j: int|
                                if ptr as int <= j < ptr as int + i as int {
                                    fetched.registers[j - ptr as int]
                                } else {
                                    fetched.ram[j]
                                }),
                            ..fetched
                        }),
                    decreases xl as int + 1 - i as int,
                {
                    let reg = self.get_register(i as u8);
                    self.set_ram(ptr + i, reg);
                    i = i + 1;
                    proof {
                        assert(self@.ram =~= Seq::new(4096, |j: int|
                            if ptr as int <= j < ptr as int + i as int {
                                fetched.registers[j - ptr as int]
                            } else {
                                fetched.ram[j]
                            }));
                        assert(self@ =~= (MachineView { ram: self@.ram, ..fetched }));
                    }
                }
                proof {
                    assert(self@.ram =~= Seq::new(4096, |j: int|
                        if fetched.mem_pointer <= j <= fetched.mem_pointer + x.loc {
                            fetched.registers[j - fetched.mem_pointer]
                        } else {
                            fetched.ram[j]
                        }));
                    assert(self@ =~= spec_apply(fetched, inst, rb));
                }
            },
            Instruction::LoadRegisters(x) => {
                let xl = x.loc;
                let ptr = self.mem_pointer;
                let mut i: u16 = 0;
                while i <= xl as u16
                    invariant
                        i <= xl as u16 + 1,
                        self.wf(),
                        self@ == (MachineView {
                            registers: Seq::new(16, |j: int|
                                if 0 <= j < i as int {
                                    fetched.ram[ptr as int + j]
                                } else {
                                    fetched.registers[j]
                                }),
                            ..fetched
                        }),
                    decreases xl as int + 1 - i as int,
                {
                    let val = self.get_ram(ptr + i);
                    self.set_register(i as u8, val);
                    i = i + 1;
                    proof {
                        assert(self@.registers =~= Seq::new(16, |j: int|
                            if 0 <= j < i as int {
                                fetched.ram[ptr as int + j]
                            } else {
                                fetched.registers[j]
                            }));
                        assert(self@ =~= (MachineView { registers: self@.registers, ..fetched }));
                    }
                }
                proof {
                    assert(self@.registers =~= Seq::new(16, |j: int|
                        if 0 <= j <= x.loc {
                            fetched.ram[fetched.mem_pointer + j]
                        } else {
                            fetched.registers[j]
                        }));
                    assert(self@ =~= spec_apply(fetched, inst, rb));
                }
            },
            Instruction::StoreRegistersRPL(x) => {
                let xl = x.loc;
                let mut i: u8 = 0;
                while i <= xl
                    invariant
                        i <= xl + 1,
                        self.wf(),
                        self@ == (MachineView {
                            rpl: Seq::new(8, |j: int|
                                if 0 <= j < i as int {
                                    fetched.registers[j]
                                } else {
                                    fetched.rpl[j]
                                }),
                            ..fetched
                        }),
                    decreases xl as int + 1 - i as int,
                {
                    let reg = self.get_register(i);
                    self.set_rpl(i, reg);
                    i = i + 1;
                    proof {
                        assert(self@.rpl =~= Seq::new(8, |j: int|
                            if 0 <= j < i as int {
                                fetched.registers[j]
                            } else {
                                fetched.rpl[j]
                            }));
                        assert(self@ =~= (MachineView { rpl: self@.rpl, ..fetched }));
                    }
                }
                proof {
                    assert(self@.rpl =~= Seq::new(8, |j: int|
                        if 0 <= j <= x.loc {
                            fetched.registers[j]
                        } else {
                            fetched.rpl[j]
                        }));
                    assert(self@ =~= spec_apply(fetched, inst, rb));
                }
            },
            Instruction::LoadRegistersRPL(x) => {
                let xl = x.loc;
                let mut i: u8 = 0;
                while i <= xl
                    invariant
                        i <= xl + 1,
                        self.wf(),
                        self@ == (MachineView {
                            registers: Seq::new(16, |j: int|
                                if 0 <= j < i as int {
                                    fetched.rpl[j]
                                } else {
                                    fetched.registers[j]
                                }),
                            ..fetched
                        }),
                    decreases xl as int + 1 - i as int,
                {
                    let val = self.get_rpl(i);
                    self.set_register(i, val);
                    i = i + 1;
                    proof {
                        assert(self@.registers =~= Seq::new(16, |j: int|
                            if 0 <= j < i as int {
                                fetched.rpl[j]
                            } else {
                                fetched.registers[j]
                            }));
                        assert(self@ =~= (MachineView { registers: self@.registers, ..fetched }));
                    }
                }
                proof {
                    assert(self@.registers =~= Seq::new(16, |j: int|
                        if 0 <= j <= x.loc {
                            fetched.rpl[j]
                        } else {
                            fetched.registers[j]
                        }));
                    assert(self@ =~= spec_apply(fetched, inst, rb));
                }
            },
            Instruction::Invalid => {
                proof {
                    assert(self@ =~= spec_apply(fetched, inst, rb));
                }
            },
        }
        proof {
            assert(exists|b: u8| self@ == spec_apply(fetched, inst, b)) by {
                assert(self@ == spec_apply(fetched, inst, rb));
            }
        }
        Ok(redraw)
    }
}

} // verus!

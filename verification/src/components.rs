//! The state store: registers, memory, RPL slots, call stack, display bitmap,
//! timers and mode flag, with the narrow accessors and display primitives the
//! execution engine is built on.

use vstd::prelude::*;
use crate::keyhandler::KeyHandler;

verus! {

/// Number of addressable bytes of emulated memory.
pub const RAM_SIZE: usize = 4096;

/// Width of the underlying display grid in cells.
pub const DISPLAY_WIDTH: usize = 128;

/// Height of the underlying display grid in cells.
pub const DISPLAY_HEIGHT: usize = 64;

/// Total number of display cells; the grid is stored column-major, cell
/// `(x, y)` at flat index `x * DISPLAY_HEIGHT + y`.
pub const DISPLAY_CELLS: usize = 8192;

/// Number of general-purpose registers.
pub const NUM_REGISTERS: usize = 16;

/// Number of persistent RPL slots.
pub const RPL_SIZE: usize = 8;

/// Sentinel for "no register is waiting on a key press".
pub const KEY_BLOCK_NONE: u8 = 0x10;

/// Address at which execution starts by convention.
pub const PC_START: u16 = 0x200;

/// One general-purpose register: its current value and its location (index)
/// in the register file.
#[derive(Clone, Copy, Debug, PartialEq, Eq, Structural)]
pub struct Register {
    pub value: u8,
    pub loc: u8,
}

impl Register {
    pub fn new(loc: u8) -> (r: Register)
        ensures
            r == (Register { value: 0x00, loc }),
    {
        Register { value: 0x00, loc }
    }
}

/// The display addressing mode: `High` addresses the native 128x64 grid,
/// `Low` addresses a 64x32 space mapped onto it by doubling each cell.
#[derive(Clone, Copy, Debug, PartialEq, Eq, Structural)]
pub enum Resolution {
    High,
    Low,
}

impl Resolution {
    pub fn from(b: bool) -> (r: Resolution)
        ensures
            r == (if b { Resolution::High } else { Resolution::Low }),
    {
        if b {
            Resolution::High
        } else {
            Resolution::Low
        }
    }
}

/// The mathematical state of the whole machine; the view of [`Emulator`].
/// `registers` holds the sixteen register values in location order, `display`
/// the 128x64 grid column-major, `key_block` the register index waiting on a
/// key press (or [`KEY_BLOCK_NONE`]).
#[verifier::ext_equal]
pub struct MachineView {
    pub registers: Seq<u8>,
    pub resolution: Resolution,
    pub display: Seq<bool>,
    pub ram: Seq<u8>,
    pub rpl: Seq<u8>,
    pub keys: Seq<bool>,
    pub key_block: u8,
    pub call_stack: Seq<u16>,
    pub pro_counter: u16,
    pub mem_pointer: u16,
    pub delay_timer: u8,
    pub sound_timer: u8,
}

impl MachineView {
    /// The dimensions every reachable machine state keeps.
    pub open spec fn wf(self) -> bool {
        &&& self.registers.len() == NUM_REGISTERS
        &&& self.display.len() == DISPLAY_CELLS
        &&& self.ram.len() == RAM_SIZE
        &&& self.rpl.len() == RPL_SIZE
        &&& self.keys.len() == NUM_REGISTERS
        &&& self.key_block <= KEY_BLOCK_NONE
    }

    /// Whether the machine is suspended waiting for a key press.
    pub open spec fn blocked(self) -> bool {
        self.key_block != KEY_BLOCK_NONE
    }
}

/// Flat index of display cell `(x, y)` in the column-major grid.
pub open spec fn pix(x: int, y: int) -> int {
    x * 64 + y
}

/// Two views agree on everything but the display bitmap.
pub open spec fn eq_but_display(a: MachineView, b: MachineView) -> bool {
    a == (MachineView { display: a.display, ..b })
}

/// The display after shifting every column 4 cells to the right; the 4
/// vacated leftmost columns are cleared, the 4 rightmost fall off. In the
/// column-major layout that is a shift of the flat sequence by 256.
pub open spec fn scroll_right_spec(d: Seq<bool>) -> Seq<bool> {
    Seq::new(8192, |i: int| if i < 256 { false } else { d[i - 256] })
}

/// The display after shifting every column 4 cells to the left; the 4
/// vacated rightmost columns are cleared.
pub open spec fn scroll_left_spec(d: Seq<bool>) -> Seq<bool> {
    Seq::new(8192, |i: int| if i >= 7936 { false } else { d[i + 256] })
}

/// The display after shifting every row `p` cells downward; the `p` vacated
/// top rows are cleared. Each column shifts independently, so cell `(x, y)`
/// takes its value from `(x, y - p)`.
pub open spec fn scroll_down_spec(d: Seq<bool>, p: int) -> Seq<bool> {
    Seq::new(8192, |i: int| if i % 64 < p { false } else { d[i - p] })
}

/// The owned aggregate of all mutable machine state.
pub struct Emulator {
    pub registers: Vec<Register>,
    pub resolution_mode: Resolution,
    pub display: Vec<bool>,
    pub ram: Vec<u8>,
    pub rpl: Vec<u8>,
    pub key_handler: KeyHandler,
    pub call_stack: Vec<u16>,
    pub pro_counter: u16,
    pub mem_pointer: u16,
    pub delay_timer: u8,
    pub sound_timer: u8,
}

impl View for Emulator {
    type V = MachineView;

    open spec fn view(&self) -> MachineView {
        MachineView {
            registers: Seq::new(self.registers@.len(), |i: int| self.registers@[i].value),
            resolution: self.resolution_mode,
            display: self.display@,
            ram: self.ram@,
            rpl: self.rpl@,
            keys: self.key_handler.keys@,
            key_block: self.key_handler.key_hold,
            call_stack: self.call_stack@,
            pro_counter: self.pro_counter,
            mem_pointer: self.mem_pointer,
            delay_timer: self.delay_timer,
            sound_timer: self.sound_timer,
        }
    }
}

impl Emulator {
    /// Well-formedness: the view has its fixed dimensions and each register
    /// records its own location.
    pub open spec fn wf(&self) -> bool {
        &&& self@.wf()
        &&& forall|i: int|
            0 <= i < NUM_REGISTERS ==> (#[trigger] self.registers@[i]).loc == i
    }

    /// A machine in its start state: everything zeroed and unlit, the program
    /// counter at the conventional start address, no key wait pending.
    pub fn new() -> (e: Emulator)
        ensures
            e.wf(),
            e@ == (MachineView {
                registers: Seq::new(16, |i: int| 0u8),
                resolution: Resolution::Low,
                display: Seq::new(8192, |i: int| false),
                ram: Seq::new(4096, |i: int| 0u8),
                rpl: Seq::new(8, |i: int| 0u8),
                keys: Seq::new(16, |i: int| false),
                key_block: KEY_BLOCK_NONE,
                call_stack: Seq::empty(),
                pro_counter: PC_START,
                mem_pointer: 0x000,
                delay_timer: 0x00,
                sound_timer: 0x00,
            }),
    {
        let mut registers: Vec<Register> = Vec::new();
        let mut i: u8 = 0;
        while i < 16
            invariant
                i <= 16,
                registers@.len() == i as int,
                forall|j: int| 0 <= j < i as int ==> #[trigger] registers@[j] == (Register {
                    value: 0u8,
                    loc: j as u8,
                }),
            decreases 16 - i as int,
        {
            registers.push(Register::new(i));
            i = i + 1;
        }
        let mut display: Vec<bool> = Vec::new();
        let mut d: usize = 0;
        while d < DISPLAY_CELLS
            invariant
                d <= DISPLAY_CELLS,
                display@.len() == d as int,
                forall|j: int| 0 <= j < d as int ==> !(#[trigger] display@[j]),
            decreases DISPLAY_CELLS - d,
        {
            display.push(false);
            d = d + 1;
        }
        let mut ram: Vec<u8> = Vec::new();
        let mut a: usize = 0;
        while a < RAM_SIZE
            invariant
                a <= RAM_SIZE,
                ram@.len() == a as int,
                forall|j: int| 0 <= j < a as int ==> #[trigger] ram@[j] == 0u8,
            decreases RAM_SIZE - a,
        {
            ram.push(0u8);
            a = a + 1;
        }
        let mut rpl: Vec<u8> = Vec::new();
        let mut p: usize = 0;
        while p < RPL_SIZE
            invariant
                p <= RPL_SIZE,
                rpl@.len() == p as int,
                forall|j: int| 0 <= j < p as int ==> #[trigger] rpl@[j] == 0u8,
            decreases RPL_SIZE - p,
        {
            rpl.push(0u8);
            p = p + 1;
        }
        let e = Emulator {
            registers,
            resolution_mode: Resolution::Low,
            display,
            ram,
            rpl,
            key_handler: KeyHandler::new(),
            call_stack: Vec::new(),
            pro_counter: PC_START,
            mem_pointer: 0x000,
            delay_timer: 0x00,
            sound_timer: 0x00,
        };
        proof {
            assert(e@ =~= (MachineView {
                registers: Seq::new(16, |i: int| 0u8),
                resolution: Resolution::Low,
                display: Seq::new(8192, |i: int| false),
                ram: Seq::new(4096, |i: int| 0u8),
                rpl: Seq::new(8, |i: int| 0u8),
                keys: Seq::new(16, |i: int| false),
                key_block: KEY_BLOCK_NONE,
                call_stack: Seq::empty(),
                pro_counter: PC_START,
                mem_pointer: 0x000,
                delay_timer: 0x00,
                sound_timer: 0x00,
            }));
        }
        e
    }

    // memory accessor functions
    pub fn get_ram(&self, addr: u16) -> (b: u8)
        requires
            self.wf(),
            addr < RAM_SIZE,
        ensures
            b == self@.ram[addr as int],
    {
        self.ram[addr as usize]
    }

    pub fn get_ram_slice(&self, addr_a: u16, addr_b: u16) -> (s: &[u8])
        requires
            self.wf(),
            addr_a <= addr_b,
            addr_b <= RAM_SIZE,
        ensures
            s@ == self@.ram.subrange(addr_a as int, addr_b as int),
    {
        let a = addr_a as usize;
        let b = addr_b as usize;
        vstd::slice::slice_subrange(self.ram.as_slice(), a, b)
    }

    pub fn set_ram(&mut self, addr: u16, val: u8)
        requires
            old(self).wf(),
            addr < RAM_SIZE,
        ensures
            final(self).wf(),
            final(self)@ == (MachineView { ram: old(self)@.ram.update(addr as int, val), ..old(self)@ }),
    {
        self.ram[addr as usize] = val;
        proof {
            assert(self@ =~= (MachineView {
                ram: old(self)@.ram.update(addr as int, val),
                ..old(self)@
            }));
        }
    }

    pub fn get_rpl(&self, addr: u8) -> (b: u8)
        requires
            self.wf(),
            addr < RPL_SIZE,
        ensures
            b == self@.rpl[addr as int],
    {
        self.rpl[addr as usize]
    }

    pub fn set_rpl(&mut self, addr: u8, val: u8)
        requires
            old(self).wf(),
            addr < RPL_SIZE,
        ensures
            final(self).wf(),
            final(self)@ == (MachineView { rpl: old(self)@.rpl.update(addr as int, val), ..old(self)@ }),
    {
        self.rpl[addr as usize] = val;
        proof {
            assert(self@ =~= (MachineView {
                rpl: old(self)@.rpl.update(addr as int, val),
                ..old(self)@
            }));
        }
    }

    pub fn push_callstack(&mut self, val: u16)
        requires
            old(self).wf(),
        ensures
            final(self).wf(),
            final(self)@ == (MachineView {
                call_stack: old(self)@.call_stack.push(val),
                ..old(self)@
            }),
    {
        self.call_stack.push(val);
        proof {
            assert(self@ =~= (MachineView {
                call_stack: old(self)@.call_stack.push(val),
                ..old(self)@
            }));
        }
    }

    /// Pops the youngest return address, or `None` if the call stack is
    /// empty: returning with an empty stack is a malformed program, and the
    /// caller decides how to surface it.
    pub fn pop_callstack(&mut self) -> (r: Option<u16>)
        requires
            old(self).wf(),
        ensures
            final(self).wf(),
            old(self)@.call_stack.len() == 0 ==> r == None::<u16> && final(self)@ == old(self)@,
            old(self)@.call_stack.len() > 0 ==> r == Some(old(self)@.call_stack.last())
                && final(self)@ == (MachineView {
                call_stack: old(self)@.call_stack.drop_last(),
                ..old(self)@
            }),
    {
        let r = self.call_stack.pop();
        proof {
            if old(self)@.call_stack.len() == 0 {
                assert(self@ =~= old(self)@);
            } else {
                assert(self@ =~= (MachineView {
                    call_stack: old(self)@.call_stack.drop_last(),
                    ..old(self)@
                }));
            }
        }
        r
    }

    /// Copies a byte sequence verbatim into memory starting at `loc`; how the
    /// bytes were obtained is the caller's business.
    pub fn load_rom(&mut self, loc: u16, bytes: &Vec<u8>)
        requires
            old(self).wf(),
            loc as int + bytes@.len() <= RAM_SIZE,
        ensures
            final(self).wf(),
            final(self)@ == (MachineView {
                ram: Seq::new(4096, |j: int|
                    if loc as int <= j < loc as int + bytes@.len() {
                        bytes@[j - loc as int]
                    } else {
                        old(self)@.ram[j]
                    }),
                ..old(self)@
            }),
    {
        let mut i: usize = 0;
        while i < bytes.len()
            invariant
                old(self).wf(),
                self.wf(),
                i <= bytes@.len(),
                loc as int + bytes@.len() <= RAM_SIZE,
                self@ == (MachineView {
                    ram: Seq::new(4096, |j: int|
                        if loc as int <= j < loc as int + i as int {
                            bytes@[j - loc as int]
                        } else {
                            old(self)@.ram[j]
                        }),
                    ..old(self)@
                }),
            decreases bytes@.len() - i as int,
        {
            let addr = loc + i as u16;
            self.set_ram(addr, bytes[i]);
            i = i + 1;
            proof {
                assert(self@.ram =~= Seq::new(4096, |j: int|
                    if loc as int <= j < loc as int + i as int {
                        bytes@[j - loc as int]
                    } else {
                        old(self)@.ram[j]
                    }));
                assert(self@ =~= (MachineView {
                    ram: Seq::new(4096, |j: int|
                        if loc as int <= j < loc as int + i as int {
                            bytes@[j - loc as int]
                        } else {
                            old(self)@.ram[j]
                        }),
                    ..old(self)@
                }));
            }
        }
        proof {
            assert(self@ =~= (MachineView {
                ram: Seq::new(4096, |j: int|
                    if loc as int <= j < loc as int + bytes@.len() {
                        bytes@[j - loc as int]
                    } else {
                        old(self)@.ram[j]
                    }),
                ..old(self)@
            }));
        }
    }

    // register accessor functions
    pub fn get_register_data(&self, x: u8) -> (r: Register)
        requires
            self.wf(),
            x < NUM_REGISTERS,
        ensures
            r == (Register { value: self@.registers[x as int], loc: x }),
    {
        self.registers[x as usize]
    }

    pub fn get_register(&self, x: u8) -> (v: u8)
        requires
            self.wf(),
            x < NUM_REGISTERS,
        ensures
            v == self@.registers[x as int],
    {
        self.registers[x as usize].value
    }

    pub fn set_register(&mut self, x: u8, val: u8)
        requires
            old(self).wf(),
            x < NUM_REGISTERS,
        ensures
            final(self).wf(),
            final(self)@ == (MachineView {
                registers: old(self)@.registers.update(x as int, val),
                ..old(self)@
            }),
    {
        self.registers[x as usize] = Register { value: val, loc: x };
        proof {
            assert(self@.registers =~= old(self)@.registers.update(x as int, val));
            assert(self@ =~= (MachineView {
                registers: old(self)@.registers.update(x as int, val),
                ..old(self)@
            }));
        }
    }

    // graphics accessor functions
    pub fn clear_screen(&mut self)
        requires
            old(self).wf(),
        ensures
            final(self).wf(),
            final(self)@ == (MachineView {
                display: Seq::new(8192, |i: int| false),
                ..old(self)@
            }),
    {
        let mut i: usize = 0;
        while i < DISPLAY_CELLS
            invariant
                old(self).wf(),
                self.wf(),
                i <= DISPLAY_CELLS,
                eq_but_display(self@, old(self)@),
                forall|j: int| 0 <= j < i as int ==> !(#[trigger] self@.display[j]),
            decreases DISPLAY_CELLS - i,
        {
            self.display[i] = false;
            i = i + 1;
        }
        proof {
            assert(self@.display =~= Seq::new(8192, |i: int| false));
            assert(self@ =~= (MachineView {
                display: Seq::new(8192, |i: int| false),
                ..old(self)@
            }));
        }
    }

    /// Toggles the single cell `(x, y)` of the native grid; reports whether
    /// the cell was lit before (a collision). Coordinates off the grid are
    /// silently dropped.
    pub fn draw_hi(&mut self, x: usize, y: usize) -> (collided: bool)
        requires
            old(self).wf(),
        ensures
            final(self).wf(),
            x < 128 && y < 64 ==> collided == old(self)@.display[pix(x as int, y as int)]
                && final(self)@ == (MachineView {
                display: old(self)@.display.update(
                    pix(x as int, y as int),
                    !old(self)@.display[pix(x as int, y as int)],
                ),
                ..old(self)@
            }),
            !(x < 128 && y < 64) ==> collided == false && final(self)@ == old(self)@,
    {
        if x >= 128 || y >= 64 {
            return false;
        }
        let i = x * 64 + y;
        let collided = self.display[i];
        self.display[i] = !collided;
        proof {
            assert(self@ =~= (MachineView {
                display: old(self)@.display.update(
                    pix(x as int, y as int),
                    !old(self)@.display[pix(x as int, y as int)],
                ),
                ..old(self)@
            }));
        }
        collided
    }

    /// Toggles the 2x2 block of native cells that the low-resolution cell
    /// `(x, y)` maps to; reports whether any of the four was lit before.
    /// Coordinates off the 64x32 grid are silently dropped.
    pub fn draw_lo(&mut self, x: usize, y: usize) -> (collided: bool)
        requires
            old(self).wf(),
        ensures
            final(self).wf(),
            x < 64 && y < 32 ==> collided == (old(self)@.display[pix(2 * x as int, 2 * y as int)]
                || old(self)@.display[pix(2 * x as int, 2 * y as int + 1)]
                || old(self)@.display[pix(2 * x as int + 1, 2 * y as int)]
                || old(self)@.display[pix(2 * x as int + 1, 2 * y as int + 1)])
                && final(self)@ == (MachineView {
                display: Seq::new(8192, |i: int|
                    if i == pix(2 * x as int, 2 * y as int)
                        || i == pix(2 * x as int, 2 * y as int + 1)
                        || i == pix(2 * x as int + 1, 2 * y as int)
                        || i == pix(2 * x as int + 1, 2 * y as int + 1) {
                        !old(self)@.display[i]
                    } else {
                        old(self)@.display[i]
                    }),
                ..old(self)@
            }),
            !(x < 64 && y < 32) ==> collided == false && final(self)@ == old(self)@,
    {
        if x >= 64 || y >= 32 {
            return false;
        }
        let bx = x * 2;
        let by = y * 2;
        let mut drew_over = false;

        let i00 = bx * 64 + by;
        if self.display[i00] {
            self.display[i00] = false;
            drew_over = true;
        } else {
            self.display[i00] = true;
        }
        let i01 = bx * 64 + by + 1;
        if self.display[i01] {
            self.display[i01] = false;
            drew_over = true;
        } else {
            self.display[i01] = true;
        }
        let i10 = (bx + 1) * 64 + by;
        if self.display[i10] {
            self.display[i10] = false;
            drew_over = true;
        } else {
            self.display[i10] = true;
        }
        let i11 = (bx + 1) * 64 + by + 1;
        if self.display[i11] {
            self.display[i11] = false;
            drew_over = true;
        } else {
            self.display[i11] = true;
        }
        proof {
            assert(self@.display =~= Seq::new(8192, |i: int|
                if i == pix(2 * x as int, 2 * y as int)
                    || i == pix(2 * x as int, 2 * y as int + 1)
                    || i == pix(2 * x as int + 1, 2 * y as int)
                    || i == pix(2 * x as int + 1, 2 * y as int + 1) {
                    !old(self)@.display[i]
                } else {
                    old(self)@.display[i]
                }));
            assert(self@ =~= (MachineView { display: self@.display, ..old(self)@ }));
        }
        drew_over
    }

    /// Shifts the whole bitmap 4 columns to the right, clearing the vacated
    /// columns; cells are moved from the far edge inward so no unread source
    /// cell is overwritten.
    pub fn scroll_right(&mut self)
        requires
            old(self).wf(),
        ensures
            final(self).wf(),
            final(self)@ == (MachineView {
                display: scroll_right_spec(old(self)@.display),
                ..old(self)@
            }),
    {
        let mut i: usize = DISPLAY_CELLS;
        while i > 0
            invariant
                old(self).wf(),
                self.wf(),
                i <= DISPLAY_CELLS,
                eq_but_display(self@, old(self)@),
                forall|j: int| i as int <= j < 8192
                    ==> #[trigger] self@.display[j] == scroll_right_spec(old(self)@.display)[j],
                forall|j: int| 0 <= j < i as int
                    ==> #[trigger] self@.display[j] == old(self)@.display[j],
            decreases i,
        {
            i = i - 1;
            if i >= 256 {
                let v = self.display[i - 256];
                self.display[i] = v;
            } else {
                self.display[i] = false;
            }
        }
        proof {
            assert(self@.display =~= scroll_right_spec(old(self)@.display));
            assert(self@ =~= (MachineView {
                display: scroll_right_spec(old(self)@.display),
                ..old(self)@
            }));
        }
    }

    /// Shifts the whole bitmap 4 columns to the left, clearing the vacated
    /// columns; cells are moved from the near edge outward so no unread
    /// source cell is overwritten.
    pub fn scroll_left(&mut self)
        requires
            old(self).wf(),
        ensures
            final(self).wf(),
            final(self)@ == (MachineView {
                display: scroll_left_spec(old(self)@.display),
                ..old(self)@
            }),
    {
        let mut i: usize = 0;
        while i < DISPLAY_CELLS
            invariant
                old(self).wf(),
                self.wf(),
                i <= DISPLAY_CELLS,
                eq_but_display(self@, old(self)@),
                forall|j: int| 0 <= j < i as int
                    ==> #[trigger] self@.display[j] == scroll_left_spec(old(self)@.display)[j],
                forall|j: int| i as int <= j < 8192
                    ==> #[trigger] self@.display[j] == old(self)@.display[j],
            decreases DISPLAY_CELLS - i,
        {
            if i < DISPLAY_CELLS - 256 {
                let v = self.display[i + 256];
                self.display[i] = v;
            } else {
                self.display[i] = false;
            }
            i = i + 1;
        }
        proof {
            assert(self@.display =~= scroll_left_spec(old(self)@.display));
            assert(self@ =~= (MachineView {
                display: scroll_left_spec(old(self)@.display),
                ..old(self)@
            }));
        }
    }

    /// Shifts every row `pixels` cells downward, clearing the vacated top
    /// rows; cells are moved from the bottom edge upward so no unread source
    /// cell is overwritten.
    pub fn scroll_down(&mut self, pixels: u8)
        requires
            old(self).wf(),
            pixels < 16,
        ensures
            final(self).wf(),
            final(self)@ == (MachineView {
                display: scroll_down_spec(old(self)@.display, pixels as int),
                ..old(self)@
            }),
    {
        if pixels == 0 {
            proof {
                assert(scroll_down_spec(old(self)@.display, 0) =~= old(self)@.display);
                assert(self@ =~= (MachineView {
                    display: scroll_down_spec(old(self)@.display, 0),
                    ..old(self)@
                }));
            }
            return;
        }
        let p = pixels as usize;
        let mut i: usize = DISPLAY_CELLS;
        while i > 0
            invariant
                old(self).wf(),
                self.wf(),
                i <= DISPLAY_CELLS,
                0 < p < 16,
                p == pixels as int,
                eq_but_display(self@, old(self)@),
                forall|j: int| i as int <= j < 8192
                    ==> #[trigger] self@.display[j]
                        == scroll_down_spec(old(self)@.display, p as int)[j],
                forall|j: int| 0 <= j < i as int
                    ==> #[trigger] self@.display[j] == old(self)@.display[j],
            decreases i,
        {
            i = i - 1;
            if i % 64 >= p {
                let v = self.display[i - p];
                self.display[i] = v;
            } else {
                self.display[i] = false;
            }
        }
        proof {
            assert(self@.display =~= scroll_down_spec(old(self)@.display, pixels as int));
            assert(self@ =~= (MachineView {
                display: scroll_down_spec(old(self)@.display, pixels as int),
                ..old(self)@
            }));
        }
    }

    /// Read-only access to one cell of the native 128x64 grid.
    pub fn get_pixel(&self, x: usize, y: usize) -> (lit: bool)
        requires
            self.wf(),
            x < 128,
            y < 64,
        ensures
            lit == self@.display[pix(x as int, y as int)],
    {
        self.display[x * 64 + y]
    }

    // timing and key collaborator hooks
    /// One 1/60 s tick: decrements both timers by one, floored at zero. The
    /// schedule on which this is called belongs to the caller.
    pub fn tick_timers(&mut self)
        requires
            old(self).wf(),
        ensures
            final(self).wf(),
            final(self)@ == (MachineView {
                delay_timer: (if old(self)@.delay_timer == 0 {
                    0u8
                } else {
                    (old(self)@.delay_timer - 1) as u8
                }),
                sound_timer: (if old(self)@.sound_timer == 0 {
                    0u8
                } else {
                    (old(self)@.sound_timer - 1) as u8
                }),
                ..old(self)@
            }),
    {
        self.delay_timer = if self.delay_timer == 0 { 0 } else { self.delay_timer - 1 };
        self.sound_timer = if self.sound_timer == 0 { 0 } else { self.sound_timer - 1 };
        proof {
            assert(self@ =~= (MachineView {
                delay_timer: self@.delay_timer,
                sound_timer: self@.sound_timer,
                ..old(self)@
            }));
        }
    }

    /// Replaces the held/released state of all sixteen keys with the
    /// caller's snapshot.
    pub fn set_keys(&mut self, held: &Vec<bool>)
        requires
            old(self).wf(),
            held@.len() == 16,
        ensures
            final(self).wf(),
            final(self)@ == (MachineView { keys: held@, ..old(self)@ }),
    {
        self.key_handler.update_keys(held);
        proof {
            assert(self@ =~= (MachineView { keys: held@, ..old(self)@ }));
        }
    }

    /// Whether a key-wait is pending, so that `execute` will not advance.
    pub fn is_key_blocked(&self) -> (b: bool)
        requires
            self.wf(),
        ensures
            b == self@.blocked(),
    {
        self.key_handler.key_hold != KEY_BLOCK_NONE
    }

    /// Resolves a pending key-wait: writes the pressed key's index into the
    /// register recorded by the key-wait and clears the suspension.
    pub fn resolve_key_block(&mut self, key: u8)
        requires
            old(self).wf(),
            old(self)@.blocked(),
            key < 16,
        ensures
            final(self).wf(),
            final(self)@ == (MachineView {
                registers: old(self)@.registers.update(old(self)@.key_block as int, key),
                key_block: KEY_BLOCK_NONE,
                ..old(self)@
            }),
    {
        let target = self.key_handler.key_hold;
        self.set_register(target, key);
        self.key_handler.key_hold = KEY_BLOCK_NONE;
        proof {
            assert(self@ =~= (MachineView {
                registers: old(self)@.registers.update(old(self)@.key_block as int, key),
                key_block: KEY_BLOCK_NONE,
                ..old(self)@
            }));
        }
    }

    // remaining scalar accessors
    pub fn get_pro_counter(&self) -> (pc: u16)
        ensures
            pc == self@.pro_counter,
    {
        self.pro_counter
    }

    pub fn get_mem_pointer(&self) -> (ptr: u16)
        ensures
            ptr == self@.mem_pointer,
    {
        self.mem_pointer
    }

    pub fn get_delay_timer(&self) -> (t: u8)
        ensures
            t == self@.delay_timer,
    {
        self.delay_timer
    }

    pub fn get_sound_timer(&self) -> (t: u8)
        ensures
            t == self@.sound_timer,
    {
        self.sound_timer
    }

    pub fn get_resolution(&self) -> (r: Resolution)
        ensures
            r == self@.resolution,
    {
        self.resolution_mode
    }
}

} // verus!

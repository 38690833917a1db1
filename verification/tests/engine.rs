//! Tests of the execution engine: arithmetic with flags, control flow, the
//! memory pointer, timers, decimal conversion and the bulk transfers.

use superchip::{Emulator, StepError};

/// Writes one opcode at the current program counter and executes it.
fn step(e: &mut Emulator, msb: u8, lsb: u8) -> bool {
    let pc = e.get_pro_counter();
    e.set_ram(pc, msb);
    e.set_ram(pc + 1, lsb);
    e.execute().unwrap()
}

#[test]
fn add_sets_carry() {
    let mut e = Emulator::new();
    e.set_register(0x1, 0xFE);
    e.set_register(0x2, 0x03);
    step(&mut e, 0x81, 0x24);
    assert_eq!(e.get_register(0x1), 0x01);
    assert_eq!(e.get_register(0xF), 1);
}

#[test]
fn add_without_carry() {
    let mut e = Emulator::new();
    e.set_register(0x1, 0x10);
    e.set_register(0x2, 0x03);
    step(&mut e, 0x81, 0x24);
    assert_eq!(e.get_register(0x1), 0x13);
    assert_eq!(e.get_register(0xF), 0);
}

#[test]
fn sub_without_borrow() {
    let mut e = Emulator::new();
    e.set_register(0x1, 0x05);
    e.set_register(0x2, 0x03);
    step(&mut e, 0x81, 0x25);
    assert_eq!(e.get_register(0x1), 0x02);
    assert_eq!(e.get_register(0xF), 1);
}

#[test]
fn sub_with_borrow() {
    let mut e = Emulator::new();
    e.set_register(0x1, 0x03);
    e.set_register(0x2, 0x05);
    step(&mut e, 0x81, 0x25);
    assert_eq!(e.get_register(0x1), 0xFE);
    assert_eq!(e.get_register(0xF), 0);
}

#[test]
fn sub_reversed_stores_into_x() {
    let mut e = Emulator::new();
    e.set_register(0x1, 0x03);
    e.set_register(0x2, 0x0A);
    step(&mut e, 0x81, 0x27);
    assert_eq!(e.get_register(0x1), 0x07);
    assert_eq!(e.get_register(0x2), 0x0A);
    assert_eq!(e.get_register(0xF), 1);
}

#[test]
fn shift_right_extracts_low_bit() {
    let mut e = Emulator::new();
    e.set_register(0x1, 0x03);
    step(&mut e, 0x81, 0x06);
    assert_eq!(e.get_register(0x1), 0x01);
    assert_eq!(e.get_register(0xF), 1);
}

#[test]
fn shift_left_extracts_high_bit() {
    let mut e = Emulator::new();
    e.set_register(0x1, 0x81);
    step(&mut e, 0x81, 0x0E);
    assert_eq!(e.get_register(0x1), 0x02);
    assert_eq!(e.get_register(0xF), 1);
}

#[test]
fn bitwise_ops() {
    let mut e = Emulator::new();
    e.set_register(0x1, 0b1100);
    e.set_register(0x2, 0b1010);
    step(&mut e, 0x81, 0x21);
    assert_eq!(e.get_register(0x1), 0b1110);
    e.set_register(0x1, 0b1100);
    step(&mut e, 0x81, 0x22);
    assert_eq!(e.get_register(0x1), 0b1000);
    e.set_register(0x1, 0b1100);
    step(&mut e, 0x81, 0x23);
    assert_eq!(e.get_register(0x1), 0b0110);
}

#[test]
fn load_immediate_and_copy() {
    let mut e = Emulator::new();
    step(&mut e, 0x61, 0xAB);
    assert_eq!(e.get_register(0x1), 0xAB);
    step(&mut e, 0x82, 0x10);
    assert_eq!(e.get_register(0x2), 0xAB);
}

#[test]
fn add_in_place_wraps_without_flag() {
    let mut e = Emulator::new();
    e.set_register(0x1, 0xFF);
    e.set_register(0xF, 0x77);
    step(&mut e, 0x71, 0x02);
    assert_eq!(e.get_register(0x1), 0x01);
    // no carry flag side effect
    assert_eq!(e.get_register(0xF), 0x77);
}

#[test]
fn jump_sets_counter() {
    let mut e = Emulator::new();
    step(&mut e, 0x13, 0x00);
    assert_eq!(e.get_pro_counter(), 0x300);
}

#[test]
fn jump_plus_adds_register() {
    let mut e = Emulator::new();
    e.set_register(0x2, 0x10);
    step(&mut e, 0xB2, 0x00);
    assert_eq!(e.get_pro_counter(), 0x210);
}

#[test]
fn call_and_return_balance() {
    let mut e = Emulator::new();
    step(&mut e, 0x23, 0x00);
    assert_eq!(e.get_pro_counter(), 0x300);
    step(&mut e, 0x00, 0xEE);
    // the return address is the counter after the fetch of the call
    assert_eq!(e.get_pro_counter(), 0x202);
}

#[test]
fn return_on_empty_stack_is_fatal() {
    let mut e = Emulator::new();
    let pc = e.get_pro_counter();
    e.set_ram(pc, 0x00);
    e.set_ram(pc + 1, 0xEE);
    assert_eq!(e.execute(), Err(StepError::EmptyCallStack));
    // the counter has already advanced past the bad opcode
    assert_eq!(e.get_pro_counter(), 0x202);
}

#[test]
fn skips_advance_by_two() {
    let mut e = Emulator::new();
    e.set_register(0x1, 0x42);
    step(&mut e, 0x31, 0x42);
    assert_eq!(e.get_pro_counter(), 0x204);
    step(&mut e, 0x31, 0x43);
    assert_eq!(e.get_pro_counter(), 0x206);
    step(&mut e, 0x41, 0x43);
    assert_eq!(e.get_pro_counter(), 0x20A);
    e.set_register(0x2, 0x42);
    step(&mut e, 0x51, 0x20);
    assert_eq!(e.get_pro_counter(), 0x20E);
    step(&mut e, 0x91, 0x20);
    assert_eq!(e.get_pro_counter(), 0x210);
}

#[test]
fn invalid_is_a_no_op() {
    let mut e = Emulator::new();
    e.set_register(0x1, 0x42);
    let redraw = step(&mut e, 0x81, 0x28);
    assert!(!redraw);
    assert_eq!(e.get_pro_counter(), 0x202);
    assert_eq!(e.get_register(0x1), 0x42);
}

#[test]
fn pointer_ops() {
    let mut e = Emulator::new();
    step(&mut e, 0xA1, 0x23);
    assert_eq!(e.get_mem_pointer(), 0x123);
    e.set_register(0x2, 0x10);
    step(&mut e, 0xF2, 0x1E);
    assert_eq!(e.get_mem_pointer(), 0x133);
}

#[test]
fn get_digit_points_at_glyph() {
    let mut e = Emulator::new();
    e.set_register(0x3, 0x0A);
    step(&mut e, 0xF3, 0x29);
    assert_eq!(e.get_mem_pointer(), 50);
}

#[test]
fn store_decimal_writes_three_digits() {
    let mut e = Emulator::new();
    e.set_register(0x1, 254);
    step(&mut e, 0xA3, 0x00);
    step(&mut e, 0xF1, 0x33);
    assert_eq!(e.get_ram(0x300), 2);
    assert_eq!(e.get_ram(0x301), 5);
    assert_eq!(e.get_ram(0x302), 4);
}

#[test]
fn timers_copy_and_tick() {
    let mut e = Emulator::new();
    e.set_register(0x1, 3);
    step(&mut e, 0xF1, 0x15);
    step(&mut e, 0xF1, 0x18);
    assert_eq!(e.get_delay_timer(), 3);
    assert_eq!(e.get_sound_timer(), 3);
    step(&mut e, 0xF2, 0x07);
    assert_eq!(e.get_register(0x2), 3);
    e.tick_timers();
    assert_eq!(e.get_delay_timer(), 2);
    assert_eq!(e.get_sound_timer(), 2);
    e.tick_timers();
    e.tick_timers();
    e.tick_timers();
    // floored at zero, never negative
    assert_eq!(e.get_delay_timer(), 0);
    assert_eq!(e.get_sound_timer(), 0);
}

#[test]
fn random_with_zero_mask_is_zero() {
    let mut e = Emulator::new();
    e.set_register(0x1, 0x55);
    step(&mut e, 0xC1, 0x00);
    assert_eq!(e.get_register(0x1), 0x00);
}

#[test]
fn store_load_registers_round_trip() {
    let mut e = Emulator::new();
    e.set_register(0x0, 0x11);
    e.set_register(0x1, 0x22);
    e.set_register(0x2, 0x33);
    e.set_register(0x3, 0x44);
    step(&mut e, 0xA3, 0x00);
    step(&mut e, 0xF2, 0x55);
    assert_eq!(e.get_ram(0x300), 0x11);
    assert_eq!(e.get_ram(0x301), 0x22);
    assert_eq!(e.get_ram(0x302), 0x33);
    // only registers 0..=2 were stored
    assert_eq!(e.get_ram(0x303), 0x00);
    // corrupt registers 0..=2, then load them back
    e.set_register(0x0, 0xDE);
    e.set_register(0x1, 0xAD);
    e.set_register(0x2, 0xBE);
    step(&mut e, 0xF2, 0x65);
    assert_eq!(e.get_register(0x0), 0x11);
    assert_eq!(e.get_register(0x1), 0x22);
    assert_eq!(e.get_register(0x2), 0x33);
    // register 3 was neither stored nor loaded
    assert_eq!(e.get_register(0x3), 0x44);
}

#[test]
fn rpl_store_load_round_trip() {
    let mut e = Emulator::new();
    e.set_register(0x0, 0xA1);
    e.set_register(0x1, 0xB2);
    step(&mut e, 0xF1, 0x75);
    e.set_register(0x0, 0x00);
    e.set_register(0x1, 0x00);
    step(&mut e, 0xF1, 0x85);
    assert_eq!(e.get_register(0x0), 0xA1);
    assert_eq!(e.get_register(0x1), 0xB2);
}

#[test]
fn load_rom_copies_verbatim() {
    let mut e = Emulator::new();
    let image = vec![0xDE, 0xAD, 0xBE, 0xEF];
    e.load_rom(0x200, &image);
    assert_eq!(e.get_ram(0x200), 0xDE);
    assert_eq!(e.get_ram(0x201), 0xAD);
    assert_eq!(e.get_ram(0x202), 0xBE);
    assert_eq!(e.get_ram(0x203), 0xEF);
    assert_eq!(e.get_ram(0x204), 0x00);
}

//! Tests of the display: toggle-XOR blitting with collision detection in
//! both resolutions, clipping at the edges, clearing and the scrolls.

use superchip::Emulator;

/// Writes one opcode at the current program counter and executes it.
fn step(e: &mut Emulator, msb: u8, lsb: u8) -> bool {
    let pc = e.get_pro_counter();
    e.set_ram(pc, msb);
    e.set_ram(pc + 1, lsb);
    e.execute().unwrap()
}

fn lit_cells(e: &Emulator) -> usize {
    let mut n: usize = 0;
    for x in 0..128 {
        for y in 0..64 {
            if e.get_pixel(x, y) {
                n += 1;
            }
        }
    }
    n
}

#[test]
fn draw_twice_restores_all_unlit() {
    let mut e = Emulator::new();
    // high resolution, sprite = one row of eight lit pixels
    step(&mut e, 0x00, 0xFF);
    e.set_ram(0x300, 0xFF);
    step(&mut e, 0xA3, 0x00);
    e.set_register(0x1, 10);
    e.set_register(0x2, 20);
    let redraw = step(&mut e, 0xD1, 0x21);
    assert!(redraw);
    assert_eq!(e.get_register(0xF), 0, "first draw collides with nothing");
    for c in 0..8 {
        assert!(e.get_pixel(10 + c, 20));
    }
    assert_eq!(lit_cells(&e), 8);
    step(&mut e, 0xD1, 0x21);
    assert_eq!(e.get_register(0xF), 1, "second draw reports a collision");
    assert_eq!(lit_cells(&e), 0, "the grid is back to all-unlit");
}

#[test]
fn low_resolution_draw_expands_to_2x2_blocks() {
    let mut e = Emulator::new();
    // one sprite pixel at low-resolution cell (3, 5)
    e.set_ram(0x300, 0x80);
    step(&mut e, 0xA3, 0x00);
    e.set_register(0x1, 3);
    e.set_register(0x2, 5);
    step(&mut e, 0xD1, 0x21);
    assert!(e.get_pixel(6, 10));
    assert!(e.get_pixel(7, 10));
    assert!(e.get_pixel(6, 11));
    assert!(e.get_pixel(7, 11));
    assert_eq!(lit_cells(&e), 4);
    assert_eq!(e.get_register(0xF), 0);
    // drawing it again toggles the block back off and collides
    step(&mut e, 0xD1, 0x21);
    assert_eq!(lit_cells(&e), 0);
    assert_eq!(e.get_register(0xF), 1);
}

#[test]
fn draw_clips_at_the_edge_without_wrapping() {
    let mut e = Emulator::new();
    step(&mut e, 0x00, 0xFF);
    e.set_ram(0x300, 0xFF);
    step(&mut e, 0xA3, 0x00);
    // entry coordinate 126 is on the grid; columns beyond 127 are dropped
    e.set_register(0x1, 126);
    e.set_register(0x2, 0);
    step(&mut e, 0xD1, 0x21);
    assert!(e.get_pixel(126, 0));
    assert!(e.get_pixel(127, 0));
    assert!(!e.get_pixel(0, 0), "no wraparound onto the left edge");
    assert_eq!(lit_cells(&e), 2);
}

#[test]
fn draw_masks_entry_coordinates() {
    let mut e = Emulator::new();
    step(&mut e, 0x00, 0xFF);
    e.set_ram(0x300, 0x80);
    step(&mut e, 0xA3, 0x00);
    // 130 % 128 == 2, 70 % 64 == 6
    e.set_register(0x1, 130);
    e.set_register(0x2, 70);
    step(&mut e, 0xD1, 0x21);
    assert!(e.get_pixel(2, 6));
    assert_eq!(lit_cells(&e), 1);
}

#[test]
fn clear_screen_unlights_everything() {
    let mut e = Emulator::new();
    step(&mut e, 0x00, 0xFF);
    e.set_ram(0x300, 0xFF);
    step(&mut e, 0xA3, 0x00);
    step(&mut e, 0xD1, 0x21);
    assert!(lit_cells(&e) > 0);
    let redraw = step(&mut e, 0x00, 0xE0);
    assert!(redraw);
    assert_eq!(lit_cells(&e), 0);
}

#[test]
fn large_draw_blits_16_by_16() {
    let mut e = Emulator::new();
    step(&mut e, 0x00, 0xFF);
    for i in 0..32 {
        e.set_ram(0x300 + i, 0xFF);
    }
    step(&mut e, 0xA3, 0x00);
    e.set_register(0x1, 4);
    e.set_register(0x2, 8);
    let redraw = step(&mut e, 0xD1, 0x20);
    assert!(redraw);
    for c in 0..16 {
        for r in 0..16 {
            assert!(e.get_pixel(4 + c, 8 + r));
        }
    }
    assert_eq!(lit_cells(&e), 256);
    assert_eq!(e.get_register(0xF), 0);
}

#[test]
fn scroll_down_moves_rows() {
    let mut e = Emulator::new();
    step(&mut e, 0x00, 0xFF);
    e.set_ram(0x300, 0x80);
    step(&mut e, 0xA3, 0x00);
    e.set_register(0x1, 40);
    e.set_register(0x2, 10);
    step(&mut e, 0xD1, 0x21);
    assert!(e.get_pixel(40, 10));
    step(&mut e, 0x00, 0xC3);
    assert!(!e.get_pixel(40, 10));
    assert!(e.get_pixel(40, 13));
    assert_eq!(lit_cells(&e), 1);
}

#[test]
fn scroll_right_then_left_is_lossy() {
    let mut e = Emulator::new();
    step(&mut e, 0x00, 0xFF);
    e.set_ram(0x300, 0x80);
    step(&mut e, 0xA3, 0x00);
    // one pixel well inside, one pixel near the right edge
    e.set_register(0x1, 60);
    e.set_register(0x2, 5);
    step(&mut e, 0xD1, 0x21);
    e.set_register(0x1, 125);
    e.set_register(0x2, 9);
    step(&mut e, 0xD1, 0x21);
    assert!(e.get_pixel(60, 5));
    assert!(e.get_pixel(125, 9));
    step(&mut e, 0x00, 0xFB);
    // the inner pixel moved right by four; the edge pixel fell off
    assert!(e.get_pixel(64, 5));
    assert_eq!(lit_cells(&e), 1);
    step(&mut e, 0x00, 0xFC);
    // scrolling back restores the inner pixel but not the lost one
    assert!(e.get_pixel(60, 5));
    assert!(!e.get_pixel(125, 9));
    assert_eq!(lit_cells(&e), 1);
}

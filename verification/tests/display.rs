use chip8_core::Emu;
use chip8_core::EmuError;
use chip8_core::SCREEN_WIDTH;

fn boot(program: &[u8]) -> Emu {
    let mut e = Emu::new();
    e.load(program).unwrap();
    e
}

fn run(program: &[u8], ticks: usize) -> Emu {
    let mut e = boot(program);
    for _ in 0..ticks {
        e.tick().unwrap();
    }
    e
}

fn pixel(e: &Emu, x: usize, y: usize) -> bool {
    e.get_display()[y * SCREEN_WIDTH + x]
}

#[test]
fn draw_sets_pixels_from_sprite_rows() {
    // draw the two-row sprite FF 81 at the origin
    let program = [
        0xA2, 0x0A, // I := 0x20A
        0xD0, 0x12, // draw 2 rows at (v0, v1) == (0, 0)
        0x00, 0x00, 0x00, 0x00, 0x00, 0x00, // padding
        0xFF, 0x81, // sprite rows
    ];
    let e = run(&program, 2);
    for x in 0..8 {
        assert!(pixel(&e, x, 0));
    }
    assert!(pixel(&e, 0, 1));
    assert!(!pixel(&e, 1, 1));
    assert!(!pixel(&e, 6, 1));
    assert!(pixel(&e, 7, 1));
    assert!(!pixel(&e, 8, 0));
    assert_eq!(e.get_register(15), 0);
}

#[test]
fn draw_twice_restores_the_framebuffer() {
    let program = [
        0xA2, 0x0A, // I := 0x20A
        0xD0, 0x12, // first draw
        0xD0, 0x12, // second draw of the identical sprite
        0x00, 0x00, 0x00, 0x00, // padding
        0xFF, 0x81, // sprite rows
    ];
    let mut e = boot(&program);
    e.tick().unwrap();
    e.tick().unwrap();
    assert_eq!(e.get_register(15), 0);
    assert!(pixel(&e, 0, 0));
    e.tick().unwrap();
    // the second draw erased what the first set, and reported the collision
    assert_eq!(e.get_register(15), 1);
    let display = e.get_display();
    for c in 0..2048 {
        assert!(!display[c]);
    }
}

#[test]
fn draw_wraps_at_the_far_corner() {
    // origin (63, 31): the sprite continues at column 0 and row 0
    let program = [
        0x60, 63, // v0 := 63
        0x61, 31, // v1 := 31
        0xA2, 0x0A, // I := 0x20A
        0xD0, 0x12, // draw 2 rows at (63, 31)
        0x00, 0x00, // padding
        0xC0, 0xC0, // sprite rows: two leading bits each
    ];
    let e = run(&program, 4);
    assert!(pixel(&e, 63, 31));
    assert!(pixel(&e, 0, 31));
    assert!(pixel(&e, 63, 0));
    assert!(pixel(&e, 0, 0));
    let display = e.get_display();
    let lit: usize = (0..2048).filter(|&c| display[c]).count();
    assert_eq!(lit, 4);
}

#[test]
fn partial_overlap_collides_and_merges() {
    // second draw one row lower overlaps one row of the first
    let program = [
        0xA2, 0x0C, // I := 0x20C
        0xD0, 0x11, // draw row FF at (0, 0)
        0x61, 0x01, // v1 := 1
        0xD0, 0x11, // draw row FF at (0, 1): no overlap, no collision
        0x61, 0x00, // v1 := 0
        0xD0, 0x11, // draw row FF at (0, 0) again: full overlap
        0xFF, // sprite row
    ];
    let mut e = boot(&program);
    e.tick().unwrap();
    e.tick().unwrap();
    assert_eq!(e.get_register(15), 0);
    e.tick().unwrap();
    e.tick().unwrap();
    assert_eq!(e.get_register(15), 0);
    assert!(pixel(&e, 0, 0) && pixel(&e, 0, 1));
    e.tick().unwrap();
    e.tick().unwrap();
    assert_eq!(e.get_register(15), 1);
    assert!(!pixel(&e, 0, 0) && pixel(&e, 0, 1));
}

#[test]
fn clear_screen_darkens_every_cell() {
    let program = [
        0xA2, 0x08, // I := 0x208
        0xD0, 0x11, // draw one row
        0x00, 0xE0, // clear
        0x00, 0x00, // padding
        0xFF, // sprite row
    ];
    let mut e = boot(&program);
    e.tick().unwrap();
    e.tick().unwrap();
    assert!(pixel(&e, 0, 0));
    e.tick().unwrap();
    let display = e.get_display();
    for c in 0..2048 {
        assert!(!display[c]);
    }
}

#[test]
fn draw_reading_past_memory_end_is_a_memory_fault() {
    let mut e = boot(&[0xAF, 0xFF, 0xD0, 0x12]);
    e.tick().unwrap();
    assert_eq!(e.tick(), Err(EmuError::MemoryFault));
}

#[test]
fn draw_of_last_memory_byte_succeeds() {
    let mut e = boot(&[0xAF, 0xFF, 0xD0, 0x11]);
    e.tick().unwrap();
    assert!(e.tick().is_ok());
}

#[test]
fn draw_of_zero_rows_touches_nothing() {
    let mut e = boot(&[0x6F, 0x01, 0xD0, 0x10]);
    e.tick().unwrap();
    e.tick().unwrap();
    let display = e.get_display();
    for c in 0..2048 {
        assert!(!display[c]);
    }
    // a zero-row draw still reports "no collision"
    assert_eq!(e.get_register(15), 0);
}

use chip8_core::Emu;
use chip8_core::EmuError;

fn boot(program: &[u8]) -> Emu {
    let mut e = Emu::new();
    e.load(program).unwrap();
    e
}

fn run(program: &[u8], ticks: usize) -> Emu {
    let mut e = boot(program);
    for _ in 0..ticks {
        e.tick().unwrap();
    }
    e
}

#[test]
fn register_set_and_immediate_add() {
    let e = run(&[0x60, 0x0A, 0x70, 0x05], 2);
    assert_eq!(e.get_register(0), 15);
    assert_eq!(e.program_counter(), 0x204);
}

#[test]
fn immediate_add_wraps_without_touching_flag() {
    let e = run(&[0x60, 0xFF, 0x70, 0x02], 2);
    assert_eq!(e.get_register(0), 1);
    assert_eq!(e.get_register(15), 0);
}

#[test]
fn add_sets_carry_on_overflow() {
    let e = run(&[0x60, 200, 0x61, 100, 0x80, 0x14], 3);
    assert_eq!(e.get_register(0), 44);
    assert_eq!(e.get_register(15), 1);
}

#[test]
fn add_clears_carry_without_overflow() {
    let e = run(&[0x60, 10, 0x61, 20, 0x6F, 1, 0x80, 0x14], 4);
    assert_eq!(e.get_register(0), 30);
    assert_eq!(e.get_register(15), 0);
}

#[test]
fn sub_clears_flag_on_borrow() {
    let e = run(&[0x60, 10, 0x61, 20, 0x80, 0x15], 3);
    assert_eq!(e.get_register(0), 246);
    assert_eq!(e.get_register(15), 0);
}

#[test]
fn sub_sets_flag_without_borrow() {
    let e = run(&[0x60, 20, 0x61, 10, 0x80, 0x15], 3);
    assert_eq!(e.get_register(0), 10);
    assert_eq!(e.get_register(15), 1);
}

#[test]
fn reverse_sub_flags_borrow() {
    let e = run(&[0x60, 10, 0x61, 30, 0x80, 0x17], 3);
    assert_eq!(e.get_register(0), 20);
    assert_eq!(e.get_register(15), 1);
    let f = run(&[0x60, 30, 0x61, 10, 0x80, 0x17], 3);
    assert_eq!(f.get_register(0), 236);
    assert_eq!(f.get_register(15), 0);
}

#[test]
fn shift_right_captures_lowest_bit() {
    let e = run(&[0x60, 0x05, 0x80, 0x06], 2);
    assert_eq!(e.get_register(0), 2);
    assert_eq!(e.get_register(15), 1);
    let f = run(&[0x60, 0x04, 0x80, 0x06], 2);
    assert_eq!(f.get_register(0), 2);
    assert_eq!(f.get_register(15), 0);
}

#[test]
fn shift_left_captures_highest_bit() {
    let e = run(&[0x60, 0x81, 0x80, 0x0E], 2);
    assert_eq!(e.get_register(0), 2);
    assert_eq!(e.get_register(15), 1);
    let f = run(&[0x60, 0x41, 0x80, 0x0E], 2);
    assert_eq!(f.get_register(0), 0x82);
    assert_eq!(f.get_register(15), 0);
}

#[test]
fn register_copy_and_logic_ops() {
    let e = run(&[0x60, 0x0C, 0x61, 0x0A, 0x80, 0x10], 3);
    assert_eq!(e.get_register(0), 0x0A);
    let or = run(&[0x60, 0x0C, 0x61, 0x0A, 0x80, 0x11], 3);
    assert_eq!(or.get_register(0), 0x0E);
    let and = run(&[0x60, 0x0C, 0x61, 0x0A, 0x80, 0x12], 3);
    assert_eq!(and.get_register(0), 0x08);
    let xor = run(&[0x60, 0x0C, 0x61, 0x0A, 0x80, 0x13], 3);
    assert_eq!(xor.get_register(0), 0x06);
}

#[test]
fn random_masked_by_zero_is_zero() {
    let e = run(&[0xC0, 0x00], 1);
    assert_eq!(e.get_register(0), 0);
}

#[test]
fn random_respects_mask() {
    let e = run(&[0xC0, 0x0F], 1);
    assert_eq!(e.get_register(0) & 0xF0, 0);
}

#[test]
fn decimal_decompose_stores_three_digits() {
    let e = run(&[0x60, 234, 0xA3, 0x00, 0xF0, 0x33], 3);
    assert_eq!(e.read_ram(0x300), 2);
    assert_eq!(e.read_ram(0x301), 3);
    assert_eq!(e.read_ram(0x302), 4);
}

#[test]
fn decimal_decompose_of_single_digit() {
    let e = run(&[0x60, 7, 0xA3, 0x00, 0xF0, 0x33], 3);
    assert_eq!(e.read_ram(0x300), 0);
    assert_eq!(e.read_ram(0x301), 0);
    assert_eq!(e.read_ram(0x302), 7);
}

#[test]
fn decimal_decompose_out_of_range_is_a_memory_fault() {
    let mut e = boot(&[0x60, 7, 0xAF, 0xFE, 0xF0, 0x33]);
    e.tick().unwrap();
    e.tick().unwrap();
    assert_eq!(e.tick(), Err(EmuError::MemoryFault));
}

#[test]
fn store_and_reload_registers_through_memory() {
    // store v0..v2 at 0x300, clear them, load them back
    let program = [
        0x60, 0x11, 0x61, 0x22, 0x62, 0x33, // v0..v2
        0xA3, 0x00, // I := 0x300
        0xF2, 0x55, // store v0..=v2
        0x60, 0x00, 0x61, 0x00, 0x62, 0x00, // clear
        0xF2, 0x65, // load v0..=v2
    ];
    let e = run(&program, 9);
    assert_eq!(e.read_ram(0x300), 0x11);
    assert_eq!(e.read_ram(0x301), 0x22);
    assert_eq!(e.read_ram(0x302), 0x33);
    assert_eq!(e.get_register(0), 0x11);
    assert_eq!(e.get_register(1), 0x22);
    assert_eq!(e.get_register(2), 0x33);
    // v3 untouched by the load of v0..=v2
    assert_eq!(e.get_register(3), 0);
}

#[test]
fn store_registers_out_of_range_is_a_memory_fault() {
    let mut e = boot(&[0xAF, 0xFF, 0xF1, 0x55]);
    e.tick().unwrap();
    assert_eq!(e.tick(), Err(EmuError::MemoryFault));
}

#[test]
fn font_address_of_glyph() {
    let e = run(&[0x60, 0x0A, 0xF0, 0x29], 2);
    assert_eq!(e.index_register(), 50);
    // the glyph for digit A starts with 0xF0
    assert_eq!(e.read_ram(50), 0xF0);
}

#[test]
fn index_add_register() {
    let e = run(&[0xAF, 0xFF, 0x60, 0x05, 0xF0, 0x1E], 3);
    assert_eq!(e.index_register(), 0x1004);
}

#[test]
fn index_set() {
    let e = run(&[0xA1, 0x23], 1);
    assert_eq!(e.index_register(), 0x123);
}

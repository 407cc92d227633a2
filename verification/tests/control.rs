use chip8_core::Emu;
use chip8_core::EmuError;

fn boot(program: &[u8]) -> Emu {
    let mut e = Emu::new();
    e.load(program).unwrap();
    e
}

fn run(program: &[u8], ticks: usize) -> Emu {
    let mut e = boot(program);
    for _ in 0..ticks {
        e.tick().unwrap();
    }
    e
}

#[test]
fn jump_sets_the_program_counter() {
    let e = run(&[0x12, 0x34], 1);
    assert_eq!(e.program_counter(), 0x234);
}

#[test]
fn jump_with_offset_adds_register_zero() {
    let e = run(&[0x60, 0x10, 0xB3, 0x00], 2);
    assert_eq!(e.program_counter(), 0x310);
}

#[test]
fn call_then_ret_returns_past_the_call() {
    let program = [
        0x22, 0x04, // 0x200: call 0x204
        0x00, 0x00, // 0x202: (the instruction after the call)
        0x00, 0xEE, // 0x204: return
    ];
    let mut e = boot(&program);
    assert_eq!(e.stack_pointer(), 0);
    e.tick().unwrap();
    assert_eq!(e.program_counter(), 0x204);
    assert_eq!(e.stack_pointer(), 1);
    e.tick().unwrap();
    assert_eq!(e.program_counter(), 0x202);
    assert_eq!(e.stack_pointer(), 0);
}

#[test]
fn skip_if_equal_immediate() {
    let e = run(&[0x60, 0x07, 0x30, 0x07], 2);
    assert_eq!(e.program_counter(), 0x206);
    let f = run(&[0x60, 0x07, 0x30, 0x08], 2);
    assert_eq!(f.program_counter(), 0x204);
}

#[test]
fn skip_if_unequal_immediate() {
    let e = run(&[0x60, 0x07, 0x40, 0x08], 2);
    assert_eq!(e.program_counter(), 0x206);
    let f = run(&[0x60, 0x07, 0x40, 0x07], 2);
    assert_eq!(f.program_counter(), 0x204);
}

#[test]
fn skip_on_register_comparison() {
    let eq = run(&[0x60, 0x05, 0x61, 0x05, 0x50, 0x10], 3);
    assert_eq!(eq.program_counter(), 0x208);
    let ne = run(&[0x60, 0x05, 0x61, 0x06, 0x90, 0x10], 3);
    assert_eq!(ne.program_counter(), 0x208);
    let no_skip = run(&[0x60, 0x05, 0x61, 0x06, 0x50, 0x10], 3);
    assert_eq!(no_skip.program_counter(), 0x206);
}

#[test]
fn unsupported_opcode_is_surfaced_with_its_word() {
    let mut e = boot(&[0xF0, 0xFF]);
    assert_eq!(e.tick(), Err(EmuError::UnsupportedOpcode(0xF0FF)));
}

#[test]
fn unsupported_system_opcode_is_surfaced() {
    let mut e = boot(&[0x01, 0x23]);
    assert_eq!(e.tick(), Err(EmuError::UnsupportedOpcode(0x0123)));
}

#[test]
fn call_beyond_stack_capacity_overflows() {
    // 0x200: call 0x200 — each cycle pushes another return address
    let mut e = boot(&[0x22, 0x00]);
    for _ in 0..16 {
        assert!(e.tick().is_ok());
    }
    assert_eq!(e.stack_pointer(), 16);
    assert_eq!(e.tick(), Err(EmuError::StackOverflow));
    assert_eq!(e.stack_pointer(), 16);
}

#[test]
fn ret_on_empty_stack_underflows() {
    let mut e = boot(&[0x00, 0xEE]);
    assert_eq!(e.tick(), Err(EmuError::StackUnderflow));
}

#[test]
fn fetch_at_memory_end_is_a_memory_fault() {
    let mut e = boot(&[0x1F, 0xFF]); // jump to 0xFFF
    e.tick().unwrap();
    assert_eq!(e.program_counter(), 0xFFF);
    assert_eq!(e.tick(), Err(EmuError::MemoryFault));
    assert_eq!(e.program_counter(), 0xFFF);
}

#[test]
fn key_skip_with_out_of_range_key_number_is_a_memory_fault() {
    let mut e = boot(&[0x60, 200, 0xE0, 0x9E]);
    e.tick().unwrap();
    assert_eq!(e.tick(), Err(EmuError::MemoryFault));
}

#[test]
fn skip_if_key_pressed() {
    let mut e = boot(&[0x60, 0x04, 0xE0, 0x9E]);
    e.keypress(4, true);
    e.tick().unwrap();
    e.tick().unwrap();
    assert_eq!(e.program_counter(), 0x206);
    let mut f = boot(&[0x60, 0x04, 0xE0, 0x9E]);
    f.tick().unwrap();
    f.tick().unwrap();
    assert_eq!(f.program_counter(), 0x204);
}

#[test]
fn skip_if_key_released() {
    let mut e = boot(&[0x60, 0x04, 0xE0, 0xA1]);
    e.tick().unwrap();
    e.tick().unwrap();
    assert_eq!(e.program_counter(), 0x206);
    let mut f = boot(&[0x60, 0x04, 0xE0, 0xA1]);
    f.keypress(4, true);
    f.tick().unwrap();
    f.tick().unwrap();
    assert_eq!(f.program_counter(), 0x204);
}

#[test]
fn wait_for_key_spins_until_a_key_arrives() {
    let mut e = boot(&[0xF0, 0x0A]);
    // no key pressed: the instruction re-executes
    e.tick().unwrap();
    assert_eq!(e.program_counter(), 0x200);
    e.tick().unwrap();
    assert_eq!(e.program_counter(), 0x200);
    // two keys pressed: the lowest-numbered one is committed
    e.keypress(7, true);
    e.keypress(3, true);
    e.tick().unwrap();
    assert_eq!(e.program_counter(), 0x202);
    assert_eq!(e.get_register(0), 3);
}

#[test]
fn delay_timer_set_and_read() {
    let mut e = boot(&[0x60, 5, 0xF0, 0x15, 0xF1, 0x07]);
    e.tick().unwrap();
    e.tick().unwrap();
    assert_eq!(e.delay_timer(), 5);
    e.tick().unwrap();
    assert_eq!(e.get_register(1), 5);
    e.tick_timers();
    assert_eq!(e.delay_timer(), 4);
}

#[test]
fn sound_timer_reaching_zero_fires_one_cue() {
    let mut e = boot(&[0x61, 0x01, 0xF1, 0x18]);
    e.tick().unwrap();
    e.tick().unwrap();
    assert_eq!(e.sound_timer(), 1);
    // the 1 -> 0 transition below is the single tone cue
    e.tick_timers();
    assert_eq!(e.sound_timer(), 0);
    // a further tick is a no-op and fires no cue
    e.tick_timers();
    assert_eq!(e.sound_timer(), 0);
}

#[test]
fn timers_count_down_independently() {
    let mut e = boot(&[0x60, 3, 0x61, 1, 0xF0, 0x15, 0xF1, 0x18]);
    for _ in 0..4 {
        e.tick().unwrap();
    }
    assert_eq!(e.delay_timer(), 3);
    assert_eq!(e.sound_timer(), 1);
    e.tick_timers();
    assert_eq!(e.delay_timer(), 2);
    assert_eq!(e.sound_timer(), 0);
    e.tick_timers();
    assert_eq!(e.delay_timer(), 1);
    assert_eq!(e.sound_timer(), 0);
}

#[test]
fn faulted_state_can_be_reset_and_reloaded() {
    let mut e = boot(&[0x00, 0xEE]);
    assert_eq!(e.tick(), Err(EmuError::StackUnderflow));
    e.reset();
    e.load(&vec![0x60, 0x01]).unwrap();
    e.tick().unwrap();
    assert_eq!(e.get_register(0), 1);
}

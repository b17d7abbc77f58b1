use chip8::chip8::{Chip8, Chip8Error, MAX_PROGRAM_SIZE, START_ADDRESS};

fn program(ops: &[u16]) -> Vec<u8> {
    let mut bytes = Vec::new();
    for op in ops {
        bytes.push((op >> 8) as u8);
        bytes.push((op & 0xFF) as u8);
    }
    bytes
}

fn machine(ops: &[u16]) -> Chip8 {
    Chip8::load(&program(ops)).unwrap()
}

fn run(m: &mut Chip8, cycles: usize) {
    for _ in 0..cycles {
        m.cycle().unwrap();
    }
}

#[test]
fn load_places_program_and_glyphs() {
    let m = machine(&[0x1234]);
    assert_eq!(m.pc(), START_ADDRESS);
    assert_eq!(m.memory_at(0x200), 0x12);
    assert_eq!(m.memory_at(0x201), 0x34);
    assert_eq!(m.memory_at(0x50), 0xF0);
    assert_eq!(m.memory_at(0x9F), 0x80);
    assert_eq!(m.memory_at(0x4F), 0);
    assert_eq!(m.memory_at(0xA0), 0);
    assert_eq!(m.stack_depth(), 0);
    assert!(m.is_dirty());
    assert!(m.get_video().iter().all(|&c| c == 0));
}

#[test]
fn load_rejects_oversized_program() {
    assert_eq!(MAX_PROGRAM_SIZE, 4096 - 0x200);
    assert!(matches!(
        Chip8::load(&vec![0u8; MAX_PROGRAM_SIZE + 1]),
        Err(Chip8Error::ProgramTooLarge)
    ));
    let m = Chip8::load(&vec![0xABu8; MAX_PROGRAM_SIZE]).unwrap();
    assert_eq!(m.memory_at(4095), 0xAB);
}

#[test]
fn empty_program_fetches_zero_instruction() {
    let mut m = Chip8::load(&[]).unwrap();
    assert_eq!(m.cycle(), Err(Chip8Error::UnknownInstruction(0x0000)));
    assert_eq!(m.pc(), START_ADDRESS);
}

#[test]
fn clear_instruction_blanks_screen_and_sets_dirty() {
    let mut m = machine(&[0xA050, 0xD005, 0x00E0]);
    run(&mut m, 2);
    assert!(m.get_video().iter().any(|&c| c == 1));
    m.set_clean();
    assert!(!m.is_dirty());
    run(&mut m, 1);
    assert!(m.get_video().iter().all(|&c| c == 0));
    assert!(m.is_dirty());
    assert_eq!(m.pc(), 0x206);
}

#[test]
fn draw_instruction_sets_collision_flag() {
    let mut m = machine(&[0xA050, 0x6000, 0x6100, 0xD015, 0xD015]);
    run(&mut m, 4);
    assert_eq!(m.register(0xF), 0);
    let lit: Vec<usize> = (0..2048).filter(|&i| m.get_video()[i] == 1).collect();
    assert_eq!(lit, vec![0, 1, 2, 3, 64, 67, 128, 131, 192, 195, 256, 257, 258, 259]);
    run(&mut m, 1);
    assert_eq!(m.register(0xF), 1);
    assert!(m.get_video().iter().all(|&c| c == 0));
}

#[test]
fn add_registers_sets_carry() {
    let mut m = machine(&[0x60FA, 0x610A, 0x8014]);
    run(&mut m, 3);
    assert_eq!(m.register(0), 4);
    assert_eq!(m.register(0xF), 1);

    let mut m = machine(&[0x600A, 0x6114, 0x8014]);
    run(&mut m, 3);
    assert_eq!(m.register(0), 30);
    assert_eq!(m.register(0xF), 0);
}

#[test]
fn subtract_registers_sets_no_borrow_flag() {
    let mut m = machine(&[0x6005, 0x610A, 0x8015]);
    run(&mut m, 3);
    assert_eq!(m.register(0), 251);
    assert_eq!(m.register(0xF), 0);

    let mut m = machine(&[0x600A, 0x6105, 0x8015]);
    run(&mut m, 3);
    assert_eq!(m.register(0), 5);
    assert_eq!(m.register(0xF), 1);
}

#[test]
fn reverse_subtract_sets_no_borrow_flag() {
    let mut m = machine(&[0x6005, 0x610A, 0x8017]);
    run(&mut m, 3);
    assert_eq!(m.register(0), 5);
    assert_eq!(m.register(0xF), 1);

    let mut m = machine(&[0x600A, 0x6105, 0x8017]);
    run(&mut m, 3);
    assert_eq!(m.register(0), 251);
    assert_eq!(m.register(0xF), 0);
}

#[test]
fn shifts_set_shifted_out_bit() {
    let mut m = machine(&[0x6005, 0x8006]);
    run(&mut m, 2);
    assert_eq!(m.register(0), 2);
    assert_eq!(m.register(0xF), 1);

    let mut m = machine(&[0x6081, 0x800E]);
    run(&mut m, 2);
    assert_eq!(m.register(0), 0x02);
    assert_eq!(m.register(0xF), 1);

    let mut m = machine(&[0x6040, 0x800E]);
    run(&mut m, 2);
    assert_eq!(m.register(0), 0x80);
    assert_eq!(m.register(0xF), 0);
}

#[test]
fn bitwise_operations_and_copy() {
    let mut m = machine(&[0x610A, 0x8010]);
    run(&mut m, 2);
    assert_eq!(m.register(0), 0x0A);
    let mut m = machine(&[0x600C, 0x610A, 0x8011]);
    run(&mut m, 3);
    assert_eq!(m.register(0), 0x0E);
    let mut m = machine(&[0x600C, 0x610A, 0x8012]);
    run(&mut m, 3);
    assert_eq!(m.register(0), 0x08);
    let mut m = machine(&[0x600C, 0x610A, 0x8013]);
    run(&mut m, 3);
    assert_eq!(m.register(0), 0x06);
}

#[test]
fn add_immediate_wraps_without_flag() {
    let mut m = machine(&[0x60FF, 0x7002]);
    run(&mut m, 2);
    assert_eq!(m.register(0), 1);
    assert_eq!(m.register(0xF), 0);
}

#[test]
fn call_then_return_resumes_after_call() {
    let mut m = machine(&[0x2206, 0x0000, 0x0000, 0x00EE]);
    run(&mut m, 1);
    assert_eq!(m.pc(), 0x206);
    assert_eq!(m.stack_depth(), 1);
    run(&mut m, 1);
    assert_eq!(m.pc(), 0x202);
    assert_eq!(m.stack_depth(), 0);
}

#[test]
fn stack_overflow_is_reported() {
    let mut m = machine(&[0x2200]);
    run(&mut m, 16);
    assert_eq!(m.stack_depth(), 16);
    assert_eq!(m.cycle(), Err(Chip8Error::StackOverflow));
    assert_eq!(m.stack_depth(), 16);
}

#[test]
fn stack_underflow_is_reported() {
    let mut m = machine(&[0x00EE]);
    assert_eq!(m.cycle(), Err(Chip8Error::StackUnderflow));
    assert_eq!(m.pc(), START_ADDRESS);
}

#[test]
fn memory_out_of_bounds_is_reported() {
    let mut m = machine(&[0xAFFF, 0xD002]);
    run(&mut m, 1);
    assert_eq!(m.cycle(), Err(Chip8Error::MemoryOutOfBounds));

    let mut m = machine(&[0xAFFE, 0xF233]);
    run(&mut m, 1);
    assert_eq!(m.cycle(), Err(Chip8Error::MemoryOutOfBounds));

    let mut m = machine(&[0xAFFF, 0xF155]);
    run(&mut m, 1);
    assert_eq!(m.cycle(), Err(Chip8Error::MemoryOutOfBounds));

    let mut m = machine(&[0xAFFF, 0xF165]);
    run(&mut m, 1);
    assert_eq!(m.cycle(), Err(Chip8Error::MemoryOutOfBounds));

    let mut m = machine(&[0x1FFF]);
    run(&mut m, 1);
    assert_eq!(m.cycle(), Err(Chip8Error::MemoryOutOfBounds));
}

#[test]
fn key_out_of_range_is_reported() {
    let mut m = machine(&[0x6020, 0xE09E]);
    run(&mut m, 1);
    assert_eq!(m.cycle(), Err(Chip8Error::KeyOutOfRange));
}

#[test]
fn unknown_instruction_leaves_state_untouched() {
    let mut m = machine(&[0x6007, 0x5001]);
    run(&mut m, 1);
    assert_eq!(m.cycle(), Err(Chip8Error::UnknownInstruction(0x5001)));
    assert_eq!(m.pc(), 0x202);
    assert_eq!(m.register(0), 7);
    let mut m = machine(&[0x800F]);
    assert_eq!(m.cycle(), Err(Chip8Error::UnknownInstruction(0x800F)));
    let mut m = machine(&[0xE0FF]);
    assert_eq!(m.cycle(), Err(Chip8Error::UnknownInstruction(0xE0FF)));
    let mut m = machine(&[0xF0FF]);
    assert_eq!(m.cycle(), Err(Chip8Error::UnknownInstruction(0xF0FF)));
    let mut m = machine(&[0x0123]);
    assert_eq!(m.cycle(), Err(Chip8Error::UnknownInstruction(0x0123)));
}

#[test]
fn wait_for_key_spins_until_pressed() {
    let mut m = machine(&[0xF30A]);
    for _ in 0..5 {
        run(&mut m, 1);
        assert_eq!(m.pc(), START_ADDRESS);
    }
    m.press_key(9);
    m.press_key(5);
    run(&mut m, 1);
    assert_eq!(m.register(3), 5);
    assert_eq!(m.pc(), 0x202);
}

#[test]
fn wait_for_key_still_ticks_timers() {
    let mut m = machine(&[0x6003, 0xF015, 0xF10A]);
    run(&mut m, 2);
    assert_eq!(m.delay_timer(), 2);
    run(&mut m, 1);
    assert_eq!(m.delay_timer(), 1);
    assert_eq!(m.pc(), 0x204);
}

#[test]
fn key_skips_follow_keypad() {
    let mut m = machine(&[0x6005, 0xE09E]);
    m.press_key(5);
    run(&mut m, 2);
    assert_eq!(m.pc(), 0x206);

    let mut m = machine(&[0x6005, 0xE0A1]);
    m.press_key(5);
    m.lift_key(5);
    run(&mut m, 2);
    assert_eq!(m.pc(), 0x206);

    let mut m = machine(&[0x6005, 0xE0A1]);
    m.press_key(5);
    run(&mut m, 2);
    assert_eq!(m.pc(), 0x204);
}

#[test]
fn conditional_skips() {
    let mut m = machine(&[0x6005, 0x3005]);
    run(&mut m, 2);
    assert_eq!(m.pc(), 0x206);
    let mut m = machine(&[0x6005, 0x4005]);
    run(&mut m, 2);
    assert_eq!(m.pc(), 0x204);
    let mut m = machine(&[0x6005, 0x6105, 0x5010]);
    run(&mut m, 3);
    assert_eq!(m.pc(), 0x208);
    let mut m = machine(&[0x6005, 0x6105, 0x9010]);
    run(&mut m, 3);
    assert_eq!(m.pc(), 0x206);
}

#[test]
fn jumps_set_program_counter() {
    let mut m = machine(&[0x1300]);
    run(&mut m, 1);
    assert_eq!(m.pc(), 0x300);
    let mut m = machine(&[0xB456]);
    run(&mut m, 1);
    assert_eq!(m.pc(), 0x456);
}

#[test]
fn index_register_instructions() {
    let mut m = machine(&[0xA123]);
    run(&mut m, 1);
    assert_eq!(m.index(), 0x123);
    let mut m = machine(&[0xA0FF, 0x6010, 0xF01E]);
    run(&mut m, 3);
    assert_eq!(m.index(), 0x10F);
    let mut m = machine(&[0x600A, 0xF029]);
    run(&mut m, 2);
    assert_eq!(m.index(), 0x50 + 50);
}

#[test]
fn decimal_digits_are_stored() {
    let mut m = machine(&[0x60FE, 0xA300, 0xF033]);
    run(&mut m, 3);
    assert_eq!(m.memory_at(0x300), 2);
    assert_eq!(m.memory_at(0x301), 5);
    assert_eq!(m.memory_at(0x302), 4);
}

#[test]
fn registers_store_and_load_round_trip() {
    let mut m = machine(&[
        0x6001, 0x6102, 0x6203, 0x6309, 0xA300, 0xF255, 0x6000, 0x6100, 0x6200, 0xF265,
    ]);
    run(&mut m, 6);
    assert_eq!(m.memory_at(0x300), 1);
    assert_eq!(m.memory_at(0x301), 2);
    assert_eq!(m.memory_at(0x302), 3);
    assert_eq!(m.memory_at(0x303), 0);
    run(&mut m, 4);
    assert_eq!(m.register(0), 1);
    assert_eq!(m.register(1), 2);
    assert_eq!(m.register(2), 3);
    assert_eq!(m.register(3), 9);
}

#[test]
fn random_instruction_masks_generated_byte() {
    let mut m = machine(&[0xC0FF, 0xC10F]);
    run(&mut m, 2);
    assert_eq!(m.register(0), 110);
    assert_eq!(m.register(1), 36 & 0x0F);
}

#[test]
fn timers_load_and_count_down() {
    let mut m = machine(&[0x6005, 0xF015, 0xF018, 0x1206]);
    run(&mut m, 2);
    assert_eq!(m.delay_timer(), 4);
    run(&mut m, 1);
    assert_eq!(m.delay_timer(), 3);
    assert_eq!(m.sound_timer(), 4);
    run(&mut m, 10);
    assert_eq!(m.delay_timer(), 0);
    assert_eq!(m.sound_timer(), 0);
    let mut m = machine(&[0x6009, 0xF015, 0xF207]);
    run(&mut m, 3);
    assert_eq!(m.register(2), 8);
}

#[test]
fn flag_register_as_destination_keeps_the_flag() {
    let mut m = machine(&[0x6FFA, 0x610A, 0x8F14]);
    run(&mut m, 3);
    assert_eq!(m.register(0xF), 1);

    let mut m = machine(&[0x6F05, 0x610A, 0x8F15]);
    run(&mut m, 3);
    assert_eq!(m.register(0xF), 0);

    let mut m = machine(&[0x6F0A, 0x6105, 0x8F15]);
    run(&mut m, 3);
    assert_eq!(m.register(0xF), 1);

    let mut m = machine(&[0x6F05, 0x8FF6]);
    run(&mut m, 2);
    assert_eq!(m.register(0xF), 1);

    let mut m = machine(&[0x6F04, 0x8FF6]);
    run(&mut m, 2);
    assert_eq!(m.register(0xF), 0);

    let mut m = machine(&[0x6F0A, 0x6105, 0x8F17]);
    run(&mut m, 3);
    assert_eq!(m.register(0xF), 0);

    let mut m = machine(&[0x6F81, 0x8FFE]);
    run(&mut m, 2);
    assert_eq!(m.register(0xF), 1);

    let mut m = machine(&[0x6F41, 0x8FFE]);
    run(&mut m, 2);
    assert_eq!(m.register(0xF), 0);
}

#[test]
fn flag_is_written_after_result_for_other_destinations() {
    let mut m = machine(&[0x6381, 0x833E]);
    run(&mut m, 2);
    assert_eq!(m.register(3), 0x02);
    assert_eq!(m.register(0xF), 1);
}

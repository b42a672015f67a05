use chip8::state::GLYPHS;
use chip8::{LoadError, Machine};

const NO_KEYS: [bool; 16] = [false; 16];

fn machine_with(program: &[u8]) -> Machine {
    let mut machine = Machine::new();
    assert_eq!(machine.load_program(program), Ok(()));
    machine
}

fn run(machine: &mut Machine, steps: usize) {
    for _ in 0..steps {
        machine.step(NO_KEYS);
    }
}

#[test]
fn new_machine_starts_at_program_start() {
    let machine = Machine::new();
    assert_eq!(machine.pc(), 0x200);
    assert_eq!(machine.index(), 0);
    assert_eq!(machine.sp(), 0);
    assert_eq!(machine.delay_timer(), 0);
    assert_eq!(machine.sound_timer(), 0);
    assert!(!machine.is_sound_active());
    for x in 0..16 {
        assert_eq!(machine.register(x), 0);
    }
}

#[test]
fn new_machine_holds_glyph_table_and_zeroes() {
    let machine = Machine::new();
    for addr in 0..80 {
        assert_eq!(machine.memory_at(addr), GLYPHS[addr]);
    }
    assert_eq!(machine.memory_at(0), 0xF0);
    assert_eq!(machine.memory_at(5), 0x20);
    assert_eq!(machine.memory_at(79), 0x80);
    for addr in 80..4096 {
        assert_eq!(machine.memory_at(addr), 0);
    }
}

#[test]
fn new_machine_has_blank_screen() {
    let machine = Machine::new();
    for y in 0..32 {
        for x in 0..64 {
            assert!(!machine.pixel_at(x, y));
        }
    }
}

#[test]
fn load_writes_one_byte_past_program_start() {
    let mut machine = Machine::new();
    machine.load(0, 0xAB);
    machine.load(3071, 0xCD);
    machine.load(0xDFF, 0xEF);
    assert_eq!(machine.memory_at(0x200), 0xAB);
    assert_eq!(machine.memory_at(0x200 + 3071), 0xCD);
    assert_eq!(machine.memory_at(0xFFF), 0xEF);
    assert_eq!(machine.memory_at(0x201), 0);
    assert_eq!(machine.memory_at(0x1FF), 0);
}

#[test]
fn load_program_places_bytes_in_order() {
    let machine = machine_with(&[0x12, 0x34, 0x56]);
    assert_eq!(machine.memory_at(0x200), 0x12);
    assert_eq!(machine.memory_at(0x201), 0x34);
    assert_eq!(machine.memory_at(0x202), 0x56);
    assert_eq!(machine.memory_at(0x203), 0);
    assert_eq!(machine.memory_at(0x1FF), 0);
    assert_eq!(machine.pc(), 0x200);
}

#[test]
fn load_program_accepts_empty_program() {
    let mut machine = Machine::new();
    assert_eq!(machine.load_program(&[]), Ok(()));
    assert_eq!(machine.memory_at(0x200), 0);
}

#[test]
fn load_program_accepts_largest_program() {
    let program = vec![0x77u8; 0xFFF - 0x200];
    let mut machine = Machine::new();
    assert_eq!(machine.load_program(&program), Ok(()));
    assert_eq!(machine.memory_at(0x200), 0x77);
    assert_eq!(machine.memory_at(0xFFE), 0x77);
    assert_eq!(machine.memory_at(0xFFF), 0);
}

#[test]
fn load_program_refuses_oversized_program() {
    let program = vec![0x77u8; 0xFFF - 0x200 + 1];
    let mut machine = Machine::new();
    assert_eq!(machine.load_program(&program), Err(LoadError::RomTooLarge));
    for addr in 0x200..4096 {
        assert_eq!(machine.memory_at(addr), 0);
    }
}

#[test]
fn push_then_pop_returns_address() {
    let mut machine = Machine::new();
    machine.push(0x123);
    machine.push(0x456);
    assert_eq!(machine.sp(), 2);
    assert_eq!(machine.pop(), 0x456);
    assert_eq!(machine.pop(), 0x123);
    assert_eq!(machine.sp(), 0);
}

#[test]
fn push_on_full_stack_is_dropped() {
    let mut machine = Machine::new();
    for k in 0..16u16 {
        machine.push(0x300 + k);
    }
    assert_eq!(machine.sp(), 16);
    machine.push(0x999);
    assert_eq!(machine.sp(), 16);
    assert_eq!(machine.pop(), 0x30F);
    assert_eq!(machine.sp(), 15);
}

#[test]
fn pop_on_empty_stack_repeats_bottom_slot() {
    let mut machine = Machine::new();
    assert_eq!(machine.pop(), 0);
    assert_eq!(machine.sp(), 0);
    machine.push(0x321);
    assert_eq!(machine.pop(), 0x321);
    assert_eq!(machine.pop(), 0x321);
    assert_eq!(machine.pop(), 0x321);
    assert_eq!(machine.sp(), 0);
}

#[test]
fn timers_count_down_and_stop_at_zero() {
    // V0 = 3, delay = V0, V1 = 1, sound = V1
    let mut machine = machine_with(&[0x60, 0x03, 0xF0, 0x15, 0x61, 0x01, 0xF1, 0x18]);
    run(&mut machine, 4);
    assert_eq!(machine.delay_timer(), 3);
    assert_eq!(machine.sound_timer(), 1);
    assert!(machine.is_sound_active());
    machine.decrease_timers();
    assert_eq!(machine.delay_timer(), 2);
    assert_eq!(machine.sound_timer(), 0);
    assert!(!machine.is_sound_active());
    machine.decrease_timers();
    assert_eq!(machine.delay_timer(), 1);
    assert_eq!(machine.sound_timer(), 0);
    for _ in 0..300 {
        machine.decrease_timers();
        assert_eq!(machine.sound_timer(), 0);
    }
    assert_eq!(machine.delay_timer(), 0);
}

#[test]
fn decrease_timers_leaves_everything_else() {
    let mut machine = machine_with(&[0x60, 0x09, 0xF0, 0x15]);
    run(&mut machine, 2);
    machine.decrease_timers();
    assert_eq!(machine.pc(), 0x204);
    assert_eq!(machine.register(0), 9);
    assert_eq!(machine.delay_timer(), 8);
}

#[test]
fn pc_stays_in_memory_when_running_off_the_end() {
    // jump to 0xFFE, where `6A 42` sits; the step wraps PC to 0
    let mut machine = Machine::new();
    machine.load(0, 0x1F);
    machine.load(1, 0xFE);
    machine.load(0xFFE - 0x200, 0x6A);
    machine.load(0xFFF - 0x200, 0x42);
    run(&mut machine, 1);
    assert_eq!(machine.pc(), 0xFFE);
    run(&mut machine, 1);
    assert_eq!(machine.register(10), 0x42);
    assert_eq!(machine.pc(), 0);
    for _ in 0..5000 {
        machine.step(NO_KEYS);
        assert!(machine.pc() <= 4095);
    }
}

#[test]
fn fetch_wraps_second_byte_to_address_zero() {
    // at 0xFFF the instruction is `6B` followed by memory[0] == 0xF0
    let mut machine = Machine::new();
    machine.load(0, 0x1F);
    machine.load(1, 0xFF);
    machine.load(0xFFF - 0x200, 0x6B);
    run(&mut machine, 2);
    assert_eq!(machine.register(11), 0xF0);
    assert_eq!(machine.pc(), 1);
}

#[test]
fn step_with_uses_the_given_random_byte() {
    let mut machine = machine_with(&[0xC3, 0x3C, 0xC4, 0xFF, 0xC5, 0x00]);
    machine.step_with(NO_KEYS, 0xA5);
    assert_eq!(machine.register(3), 0x3C & 0xA5);
    assert_eq!(machine.pc(), 0x202);
    machine.step_with(NO_KEYS, 0xA5);
    assert_eq!(machine.register(4), 0xA5);
    machine.step_with(NO_KEYS, 0xA5);
    assert_eq!(machine.register(5), 0);
}

#[test]
fn step_with_ignores_random_byte_elsewhere() {
    let mut a = machine_with(&[0x6A, 0x02, 0x7A, 0x05]);
    let mut b = machine_with(&[0x6A, 0x02, 0x7A, 0x05]);
    a.step_with(NO_KEYS, 0x00);
    b.step_with(NO_KEYS, 0xFF);
    a.step_with(NO_KEYS, 0x11);
    b.step_with(NO_KEYS, 0xEE);
    assert_eq!(a.register(10), 7);
    assert_eq!(b.register(10), 7);
    assert_eq!(a.pc(), b.pc());
}

#[test]
fn random_instruction_masks_the_drawn_byte() {
    // CXNN with NN = 0x0F, 200 times over
    let mut program = Vec::new();
    for _ in 0..200 {
        program.push(0xC7);
        program.push(0x0F);
    }
    let mut machine = machine_with(&program);
    for k in 0..200u16 {
        machine.step(NO_KEYS);
        assert!(machine.register(7) < 16);
        assert_eq!(machine.pc(), 0x202 + 2 * k);
    }
}

#[test]
fn random_instruction_with_zero_mask_gives_zero() {
    let mut machine = machine_with(&[0x67, 0xFF, 0xC7, 0x00]);
    run(&mut machine, 2);
    assert_eq!(machine.register(7), 0);
}

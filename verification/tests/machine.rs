//! Tests of the machine state: reset, program loading, stack, timers,
//! keyboard, and the validated accessors.

use subchip8::state::{Emulator, Error, Status};

#[test]
fn new_machine_baseline() {
    let emu = Emulator::new();
    assert_eq!(emu.get_program_counter(), 0x200);
    assert_eq!(emu.get_program_size(), 0);
    assert_eq!(emu.get_stack_pointer(), 0);
    assert_eq!(emu.get_iregister(), 0);
    assert_eq!(emu.get_delay_timer(), 0);
    assert_eq!(emu.get_sound_timer(), 0);
    assert_eq!(emu.get_keyboard_keys(), 0);
    assert!(emu.is_display_cleared());
    // The '0' glyph sits at the start of the font.
    assert_eq!(emu.get_ram_value_at(0), Ok(0xF0));
    assert_eq!(emu.get_ram_value_at(1), Ok(0x90));
    assert_eq!(emu.get_ram_value_at(4), Ok(0xF0));
    // The 'F' glyph ends the font; everything after is zero.
    assert_eq!(emu.get_ram_value_at(79), Ok(0x80));
    assert_eq!(emu.get_ram_value_at(80), Ok(0));
    assert_eq!(emu.get_ram_value_at(0x200), Ok(0));
}

#[test]
fn load_reads_back_exact_length_and_bytes() {
    let mut emu = Emulator::new();
    let prog = vec![0x12, 0x34, 0x56];
    assert_eq!(emu.load(&prog), Ok(()));
    assert_eq!(emu.get_program_size(), 3);
    assert_eq!(emu.get_ram_value_at(0x200), Ok(0x12));
    assert_eq!(emu.get_ram_value_at(0x201), Ok(0x34));
    assert_eq!(emu.get_ram_value_at(0x202), Ok(0x56));
    assert_eq!(emu.get_ram_value_at(0x203), Ok(0));
    // The font is untouched by a load.
    assert_eq!(emu.get_ram_value_at(0), Ok(0xF0));
    assert_eq!(emu.status, Status::Running);
}

#[test]
fn load_largest_program_succeeds_one_more_fails() {
    let mut emu = Emulator::new();
    let largest = vec![0xAB; 4096 - 0x200];
    assert_eq!(emu.load(&largest), Ok(()));
    assert_eq!(emu.get_program_size(), 4096 - 0x200);
    assert_eq!(emu.get_ram_value_at(4095), Ok(0xAB));

    let mut emu2 = Emulator::new();
    let too_large = vec![0xAB; 4096 - 0x200 + 1];
    assert_eq!(emu2.load(&too_large), Err(Error::ProgramTooLarge));
    assert_eq!(emu2.get_program_size(), 0);
}

#[test]
fn load_empty_program_stays_idle() {
    let mut emu = Emulator::new();
    assert_eq!(emu.load(&vec![]), Ok(()));
    assert_eq!(emu.get_program_size(), 0);
    assert_eq!(emu.status, Status::Idle);
    assert_eq!(emu.tick(0), Err(Error::ProgramSizeZero));
}

#[test]
fn stack_is_lifo_with_overflow_and_underflow() {
    let mut emu = Emulator::new();
    for v in 0..16u16 {
        assert_eq!(emu.push(0x300 + v), Ok(()));
    }
    assert_eq!(emu.get_stack_pointer(), 16);
    // The seventeenth push overflows and changes nothing.
    assert_eq!(emu.push(0xDEAD), Err(Error::StackOverflow));
    assert_eq!(emu.get_stack_pointer(), 16);
    for v in (0..16u16).rev() {
        assert_eq!(emu.pop(), Ok(0x300 + v));
    }
    assert_eq!(emu.get_stack_pointer(), 0);
    assert_eq!(emu.pop(), Err(Error::StackUnderflow));
}

#[test]
fn delay_timer_runs_down_to_zero_and_stays() {
    let mut emu = Emulator::new();
    emu.set_delay_timer(5);
    for expected in (0..5u8).rev() {
        emu.tick_timers();
        assert_eq!(emu.get_delay_timer(), expected);
    }
    for _ in 0..3 {
        emu.tick_timers();
        assert_eq!(emu.get_delay_timer(), 0);
    }
}

#[test]
fn delay_timer_runs_down_across_full_ticks() {
    let mut emu = Emulator::new();
    // A program of harmless loads, one instruction per tick.
    let prog = vec![0x60, 0x00, 0x60, 0x00, 0x60, 0x00];
    emu.load(&prog).unwrap();
    emu.set_delay_timer(3);
    for _ in 0..3 {
        assert_eq!(emu.tick(0), Ok(()));
    }
    assert_eq!(emu.get_delay_timer(), 0);
}

#[test]
fn sound_timer_beeps_on_the_one_to_zero_edge() {
    let mut emu = Emulator::new();
    emu.set_sound_timer(2);
    assert!(!emu.tick_timers());
    assert_eq!(emu.get_sound_timer(), 1);
    assert!(emu.tick_timers());
    assert_eq!(emu.get_sound_timer(), 0);
    assert!(!emu.tick_timers());
    assert_eq!(emu.get_sound_timer(), 0);
}

#[test]
fn keypress_sets_and_clears_bits() {
    let mut emu = Emulator::new();
    assert_eq!(emu.keypress(4, true), Ok(()));
    assert_eq!(emu.get_keyboard_keys(), 1 << 4);
    assert_eq!(emu.keypress(0, true), Ok(()));
    assert_eq!(emu.get_keyboard_keys(), (1 << 4) | 1);
    assert_eq!(emu.keypress(4, false), Ok(()));
    assert_eq!(emu.get_keyboard_keys(), 1);
    assert_eq!(emu.keypress(16, true), Err(Error::IndexOutOfRange));
    assert_eq!(emu.get_keyboard_keys(), 1);
}

#[test]
fn accessor_index_validation() {
    let mut emu = Emulator::new();
    assert_eq!(emu.get_ram_value_at(4096), Err(Error::IndexOutOfRange));
    assert_eq!(emu.get_vregister(16), Err(Error::IndexOutOfRange));
    assert_eq!(emu.get_stack_value(16), Err(Error::IndexOutOfRange));
    assert_eq!(emu.set_vregister(16, 1), Err(Error::IndexOutOfRange));
    assert_eq!(emu.set_ram_value_at(4096, 1), Err(Error::IndexOutOfRange));
    assert_eq!(emu.set_stack_value(16, 1), Err(Error::IndexOutOfRange));
    assert_eq!(emu.set_stack_pointer(17), Err(Error::IndexOutOfRange));
    assert_eq!(emu.set_screen_pixel(2048, true), Err(Error::IndexOutOfRange));
}

#[test]
fn accessors_read_back_what_was_written() {
    let mut emu = Emulator::new();
    assert_eq!(emu.set_vregister(3, 0x7E), Ok(()));
    assert_eq!(emu.get_vregister(3), Ok(0x7E));
    assert_eq!(emu.set_ram_value_at(0x321, 0x99), Ok(()));
    assert_eq!(emu.get_ram_value_at(0x321), Ok(0x99));
    assert_eq!(emu.set_stack_value(5, 0x246), Ok(()));
    assert_eq!(emu.get_stack_value(5), Ok(0x246));
    assert_eq!(emu.set_stack_pointer(6), Ok(()));
    assert_eq!(emu.get_stack_pointer(), 6);
    emu.set_iregister(0x345);
    assert_eq!(emu.get_iregister(), 0x345);
    emu.set_delay_timer(9);
    assert_eq!(emu.get_delay_timer(), 9);
    emu.set_sound_timer(8);
    assert_eq!(emu.get_sound_timer(), 8);
}

#[test]
fn set_screen_pixel_packs_msb_first() {
    let mut emu = Emulator::new();
    // Pixel 0 is the most significant bit of byte 0.
    assert_eq!(emu.set_screen_pixel(0, true), Ok(()));
    assert_eq!(emu.get_get_display()[0], 0x80);
    // Pixel 9 is the second bit of byte 1.
    assert_eq!(emu.set_screen_pixel(9, true), Ok(()));
    assert_eq!(emu.get_get_display()[1], 0x40);
    assert!(!emu.is_display_cleared());
    assert_eq!(emu.set_screen_pixel(0, false), Ok(()));
    assert_eq!(emu.get_get_display()[0], 0);
}

#[test]
fn reset_restores_the_baseline() {
    let mut emu = Emulator::new();
    emu.load(&vec![0x60, 0x2A]).unwrap();
    emu.set_delay_timer(7);
    emu.set_iregister(0x400);
    assert_eq!(emu.tick(0), Ok(()));
    emu.reset_emulator();
    assert_eq!(emu.get_program_counter(), 0x200);
    assert_eq!(emu.get_program_size(), 0);
    assert_eq!(emu.get_delay_timer(), 0);
    assert_eq!(emu.get_iregister(), 0);
    assert_eq!(emu.status, Status::Idle);
    assert_eq!(emu.get_ram_value_at(0x200), Ok(0));
    assert_eq!(emu.get_ram_value_at(0), Ok(0xF0));
}

#[test]
fn halted_machine_stays_halted_until_reset() {
    let mut emu = Emulator::new();
    // 0x0000 matches no opcode pattern.
    emu.load(&vec![0x00, 0x00]).unwrap();
    assert_eq!(emu.tick(0), Err(Error::UnknownOpcode));
    assert_eq!(emu.status, Status::Halted(Error::UnknownOpcode));
    let pc_after = emu.get_program_counter();
    assert_eq!(emu.tick(0), Err(Error::UnknownOpcode));
    assert_eq!(emu.get_program_counter(), pc_after);
    // A fresh load resumes running.
    emu.load(&vec![0x60, 0x05]).unwrap();
    assert_eq!(emu.status, Status::Running);
}

#[test]
fn fetch_at_the_edge_of_memory_is_out_of_bounds() {
    let mut emu = Emulator::new();
    emu.load(&vec![0x60, 0x05]).unwrap();
    emu.pc = 4095;
    assert_eq!(emu.tick(0), Err(Error::MemoryOutOfBounds));
    // The failed fetch leaves the program counter unchanged.
    assert_eq!(emu.get_program_counter(), 4095);
    assert_eq!(emu.status, Status::Halted(Error::MemoryOutOfBounds));

    let mut emu2 = Emulator::new();
    emu2.pc = 4095;
    assert_eq!(emu2.fetch(), Err(Error::MemoryOutOfBounds));
    assert_eq!(emu2.get_program_counter(), 4095);
}

#[test]
fn run_refuses_an_empty_program() {
    let mut emu = Emulator::new();
    assert_eq!(emu.run(&vec![]), Err(Error::ProgramSizeZero));
}

#[test]
fn run_executes_one_tick_per_program_byte() {
    let mut emu = Emulator::new();
    // A two-byte program that jumps to itself: both ticks succeed.
    emu.load(&vec![0x12, 0x00]).unwrap();
    assert_eq!(emu.run(&vec![]), Ok(()));
    assert_eq!(emu.get_program_counter(), 0x200);
}

#[test]
fn run_stops_at_the_first_error() {
    let mut emu = Emulator::new();
    // The first tick loads a register; the second fetches 0x0000.
    emu.load(&vec![0x60, 0x2A]).unwrap();
    assert_eq!(emu.run(&vec![]), Err(Error::UnknownOpcode));
    assert_eq!(emu.get_vregister(0), Ok(0x2A));
    assert_eq!(emu.status, Status::Halted(Error::UnknownOpcode));
}

#[test]
fn default_matches_new() {
    let a = Emulator::default();
    let b = Emulator::new();
    assert_eq!(a.get_program_counter(), b.get_program_counter());
    assert_eq!(a.get_get_display(), b.get_get_display());
    for k in 0..4096u16 {
        assert_eq!(a.get_ram_value_at(k), b.get_ram_value_at(k));
    }
}

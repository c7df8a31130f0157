//! Tests of the opcode interpreter, one group at a time, plus the
//! end-to-end scenarios.

use subchip8::state::{Emulator, Error};

fn running(prog: &[u8]) -> Emulator {
    let mut emu = Emulator::new();
    emu.load(&prog.to_vec()).unwrap();
    emu
}

#[test]
fn clear_screen_zeroes_the_framebuffer() {
    let mut emu = Emulator::new();
    emu.set_screen_pixel(100, true).unwrap();
    emu.set_screen_pixel(2047, true).unwrap();
    assert!(!emu.is_display_cleared());
    assert_eq!(emu.execute(0x00E0, 0), Ok(()));
    assert!(emu.is_display_cleared());
    assert!(emu.get_get_display().iter().all(|&b| b == 0));
}

#[test]
fn jump_and_jump_with_offset() {
    let mut emu = Emulator::new();
    assert_eq!(emu.execute(0x1ABC, 0), Ok(()));
    assert_eq!(emu.get_program_counter(), 0xABC);
    emu.set_vregister(0, 4).unwrap();
    assert_eq!(emu.execute(0xB300, 0), Ok(()));
    assert_eq!(emu.get_program_counter(), 0x304);
}

#[test]
fn call_and_return_restore_the_program_counter() {
    // 0x200: call 0x300; 0x300: return.
    let mut prog = vec![0x23, 0x00];
    prog.resize(0x100, 0);
    prog.push(0x00);
    prog.push(0xEE);
    let mut emu = running(&prog);
    assert_eq!(emu.tick(0), Ok(()));
    assert_eq!(emu.get_program_counter(), 0x300);
    assert_eq!(emu.get_stack_pointer(), 1);
    assert_eq!(emu.get_stack_value(0), Ok(0x202));
    assert_eq!(emu.tick(0), Ok(()));
    // Back at the instruction right after the call.
    assert_eq!(emu.get_program_counter(), 0x202);
    assert_eq!(emu.get_stack_pointer(), 0);
}

#[test]
fn return_on_empty_stack_underflows() {
    let mut emu = Emulator::new();
    assert_eq!(emu.execute(0x00EE, 0), Err(Error::StackUnderflow));
}

#[test]
fn call_on_full_stack_overflows() {
    let mut emu = Emulator::new();
    emu.set_stack_pointer(16).unwrap();
    assert_eq!(emu.execute(0x2300, 0), Err(Error::StackOverflow));
    assert_eq!(emu.get_stack_pointer(), 16);
}

#[test]
fn skip_if_equal_and_not_equal_immediate() {
    let mut emu = Emulator::new();
    emu.pc = 0x200;
    emu.set_vregister(2, 0x42).unwrap();
    assert_eq!(emu.execute(0x3242, 0), Ok(()));
    assert_eq!(emu.get_program_counter(), 0x202);
    assert_eq!(emu.execute(0x3243, 0), Ok(()));
    assert_eq!(emu.get_program_counter(), 0x202);
    assert_eq!(emu.execute(0x4243, 0), Ok(()));
    assert_eq!(emu.get_program_counter(), 0x204);
    assert_eq!(emu.execute(0x4242, 0), Ok(()));
    assert_eq!(emu.get_program_counter(), 0x204);
}

#[test]
fn skip_if_register_pairs_compare() {
    let mut emu = Emulator::new();
    emu.set_vregister(1, 7).unwrap();
    emu.set_vregister(2, 7).unwrap();
    emu.set_vregister(3, 8).unwrap();
    assert_eq!(emu.execute(0x5120, 0), Ok(()));
    assert_eq!(emu.get_program_counter(), 0x202);
    assert_eq!(emu.execute(0x5130, 0), Ok(()));
    assert_eq!(emu.get_program_counter(), 0x202);
    assert_eq!(emu.execute(0x9130, 0), Ok(()));
    assert_eq!(emu.get_program_counter(), 0x204);
    assert_eq!(emu.execute(0x9120, 0), Ok(()));
    assert_eq!(emu.get_program_counter(), 0x204);
    // A nonzero low nibble is not a skip opcode.
    assert_eq!(emu.execute(0x5121, 0), Err(Error::UnknownOpcode));
    assert_eq!(emu.execute(0x9121, 0), Err(Error::UnknownOpcode));
}

#[test]
fn load_immediate_reads_back_exactly() {
    let mut emu = Emulator::new();
    assert_eq!(emu.execute(0x6A42, 0), Ok(()));
    assert_eq!(emu.get_vregister(0xA), Ok(0x42));
}

#[test]
fn add_immediate_wraps_without_touching_the_flag() {
    let mut emu = Emulator::new();
    emu.set_vregister(1, 0xFF).unwrap();
    emu.set_vregister(0xF, 7).unwrap();
    assert_eq!(emu.execute(0x7101, 0), Ok(()));
    assert_eq!(emu.get_vregister(1), Ok(0x00));
    // 7XNN leaves VF alone.
    assert_eq!(emu.get_vregister(0xF), Ok(7));
}

#[test]
fn alu_assign_or_and_xor() {
    let mut emu = Emulator::new();
    emu.set_vregister(0, 0b1100).unwrap();
    emu.set_vregister(1, 0b1010).unwrap();
    assert_eq!(emu.execute(0x8011, 0), Ok(()));
    assert_eq!(emu.get_vregister(0), Ok(0b1110));
    emu.set_vregister(0, 0b1100).unwrap();
    assert_eq!(emu.execute(0x8012, 0), Ok(()));
    assert_eq!(emu.get_vregister(0), Ok(0b1000));
    emu.set_vregister(0, 0b1100).unwrap();
    assert_eq!(emu.execute(0x8013, 0), Ok(()));
    assert_eq!(emu.get_vregister(0), Ok(0b0110));
    assert_eq!(emu.execute(0x8010, 0), Ok(()));
    assert_eq!(emu.get_vregister(0), Ok(0b1010));
    assert_eq!(emu.execute(0x8018, 0), Err(Error::UnknownOpcode));
}

#[test]
fn alu_add_with_carry() {
    let mut emu = Emulator::new();
    emu.set_vregister(0, 200).unwrap();
    emu.set_vregister(1, 100).unwrap();
    assert_eq!(emu.execute(0x8014, 0), Ok(()));
    assert_eq!(emu.get_vregister(0), Ok(44));
    assert_eq!(emu.get_vregister(0xF), Ok(1));
    emu.set_vregister(0, 3).unwrap();
    assert_eq!(emu.execute(0x8014, 0), Ok(()));
    assert_eq!(emu.get_vregister(0), Ok(103));
    assert_eq!(emu.get_vregister(0xF), Ok(0));
}

#[test]
fn alu_sub_both_directions_with_borrow_flag() {
    let mut emu = Emulator::new();
    emu.set_vregister(0, 5).unwrap();
    emu.set_vregister(1, 10).unwrap();
    assert_eq!(emu.execute(0x8015, 0), Ok(()));
    assert_eq!(emu.get_vregister(0), Ok(251));
    assert_eq!(emu.get_vregister(0xF), Ok(0));
    emu.set_vregister(0, 20).unwrap();
    assert_eq!(emu.execute(0x8017, 0), Ok(()));
    // SUBN: V1 - V0 = 10 - 20, borrowed.
    assert_eq!(emu.get_vregister(0), Ok(246));
    assert_eq!(emu.get_vregister(0xF), Ok(0));
    emu.set_vregister(0, 3).unwrap();
    assert_eq!(emu.execute(0x8017, 0), Ok(()));
    assert_eq!(emu.get_vregister(0), Ok(7));
    assert_eq!(emu.get_vregister(0xF), Ok(1));
}

#[test]
fn alu_shifts_capture_the_lost_bit() {
    let mut emu = Emulator::new();
    emu.set_vregister(0, 5).unwrap();
    assert_eq!(emu.execute(0x8006, 0), Ok(()));
    assert_eq!(emu.get_vregister(0), Ok(2));
    assert_eq!(emu.get_vregister(0xF), Ok(1));
    emu.set_vregister(0, 130).unwrap();
    assert_eq!(emu.execute(0x800E, 0), Ok(()));
    assert_eq!(emu.get_vregister(0), Ok(4));
    assert_eq!(emu.get_vregister(0xF), Ok(1));
    emu.set_vregister(0, 64).unwrap();
    assert_eq!(emu.execute(0x800E, 0), Ok(()));
    assert_eq!(emu.get_vregister(0), Ok(128));
    assert_eq!(emu.get_vregister(0xF), Ok(0));
}

#[test]
fn index_register_loads_and_adds() {
    let mut emu = Emulator::new();
    assert_eq!(emu.execute(0xA123, 0), Ok(()));
    assert_eq!(emu.get_iregister(), 0x123);
    emu.set_vregister(4, 0x10).unwrap();
    assert_eq!(emu.execute(0xF41E, 0), Ok(()));
    assert_eq!(emu.get_iregister(), 0x133);
}

#[test]
fn random_is_masked_by_the_immediate() {
    let mut emu = Emulator::new();
    assert_eq!(emu.execute(0xC0FF, 0xAB), Ok(()));
    assert_eq!(emu.get_vregister(0), Ok(0xAB));
    assert_eq!(emu.execute(0xC10F, 0xAB), Ok(()));
    assert_eq!(emu.get_vregister(1), Ok(0x0B));
    assert_eq!(emu.execute(0xC200, 0xAB), Ok(()));
    assert_eq!(emu.get_vregister(2), Ok(0));
}

#[test]
fn key_skips_read_the_bitfield() {
    let mut emu = Emulator::new();
    emu.keypress(4, true).unwrap();
    emu.set_vregister(0, 4).unwrap();
    assert_eq!(emu.execute(0xE09E, 0), Ok(()));
    assert_eq!(emu.get_program_counter(), 0x202);
    assert_eq!(emu.execute(0xE0A1, 0), Ok(()));
    assert_eq!(emu.get_program_counter(), 0x202);
    emu.set_vregister(0, 5).unwrap();
    assert_eq!(emu.execute(0xE09E, 0), Ok(()));
    assert_eq!(emu.get_program_counter(), 0x202);
    assert_eq!(emu.execute(0xE0A1, 0), Ok(()));
    assert_eq!(emu.get_program_counter(), 0x204);
    assert_eq!(emu.execute(0xE000, 0), Err(Error::UnknownOpcode));
}

#[test]
fn timer_opcodes_get_and_set() {
    let mut emu = Emulator::new();
    emu.set_delay_timer(0x37);
    assert_eq!(emu.execute(0xF207, 0), Ok(()));
    assert_eq!(emu.get_vregister(2), Ok(0x37));
    emu.set_vregister(3, 0x44).unwrap();
    assert_eq!(emu.execute(0xF315, 0), Ok(()));
    assert_eq!(emu.get_delay_timer(), 0x44);
    assert_eq!(emu.execute(0xF318, 0), Ok(()));
    assert_eq!(emu.get_sound_timer(), 0x44);
}

#[test]
fn wait_for_key_suspends_until_a_press() {
    let mut emu = running(&[0xF1, 0x0A, 0x60, 0x07]);
    assert_eq!(emu.tick(0), Ok(()));
    assert_eq!(emu.awaiting_key, Some(1));
    let pc = emu.get_program_counter();
    // No key held: the machine keeps waiting, pc does not move.
    assert_eq!(emu.tick(0), Ok(()));
    assert_eq!(emu.get_program_counter(), pc);
    assert_eq!(emu.awaiting_key, Some(1));
    // The lowest held key is stored and the wait ends.
    emu.keypress(9, true).unwrap();
    emu.keypress(0xC, true).unwrap();
    assert_eq!(emu.tick(0), Ok(()));
    assert_eq!(emu.get_vregister(1), Ok(9));
    assert_eq!(emu.awaiting_key, None);
    // Normal ticking resumes.
    assert_eq!(emu.tick(0), Ok(()));
    assert_eq!(emu.get_vregister(0), Ok(0x07));
}

#[test]
fn font_address_and_bcd() {
    let mut emu = Emulator::new();
    emu.set_vregister(0, 0x0A).unwrap();
    assert_eq!(emu.execute(0xF029, 0), Ok(()));
    // Glyph 'A' is the eleventh five-byte glyph.
    assert_eq!(emu.get_iregister(), 50);
    emu.set_vregister(5, 123).unwrap();
    emu.set_iregister(0x300);
    assert_eq!(emu.execute(0xF533, 0), Ok(()));
    assert_eq!(emu.get_ram_value_at(0x300), Ok(1));
    assert_eq!(emu.get_ram_value_at(0x301), Ok(2));
    assert_eq!(emu.get_ram_value_at(0x302), Ok(3));
    // A BCD write at the very edge of RAM is refused.
    emu.set_iregister(4094);
    assert_eq!(emu.execute(0xF533, 0), Err(Error::MemoryOutOfBounds));
    assert_eq!(emu.get_ram_value_at(4094), Ok(0));
}

#[test]
fn register_dump_and_load_roundtrip() {
    let mut emu = Emulator::new();
    for k in 0..4u8 {
        emu.set_vregister(k, 0x10 + k).unwrap();
    }
    emu.set_iregister(0x400);
    assert_eq!(emu.execute(0xF355, 0), Ok(()));
    for k in 0..4u16 {
        assert_eq!(emu.get_ram_value_at(0x400 + k), Ok(0x10 + k as u8));
    }
    // V4 was not dumped.
    assert_eq!(emu.get_ram_value_at(0x404), Ok(0));
    for k in 0..4u8 {
        emu.set_vregister(k, 0).unwrap();
    }
    assert_eq!(emu.execute(0xF365, 0), Ok(()));
    for k in 0..4u8 {
        assert_eq!(emu.get_vregister(k), Ok(0x10 + k));
    }
    // A dump that would run past RAM is refused.
    emu.set_iregister(4093);
    assert_eq!(emu.execute(0xF355, 0), Err(Error::MemoryOutOfBounds));
}

#[test]
fn unknown_opcodes_are_reported() {
    let mut emu = Emulator::new();
    assert_eq!(emu.execute(0x0000, 0), Err(Error::UnknownOpcode));
    assert_eq!(emu.execute(0x0123, 0), Err(Error::UnknownOpcode));
    assert_eq!(emu.execute(0xF0FF, 0), Err(Error::UnknownOpcode));
    // Nothing changed.
    assert_eq!(emu.get_program_counter(), 0x200);
    assert!(emu.is_display_cleared());
}

#[test]
fn draw_xors_and_reports_collisions() {
    let mut emu = Emulator::new();
    // I = 0: the '0' glyph; draw five rows at (0, 0).
    emu.set_iregister(0);
    assert_eq!(emu.execute(0xD005, 0), Ok(()));
    let d = emu.get_get_display();
    assert_eq!(&[d[0], d[8], d[16], d[24], d[32]], &[0xF0, 0x90, 0x90, 0x90, 0xF0]);
    assert_eq!(emu.get_vregister(0xF), Ok(0));
    // Drawing the same sprite again erases it; every lit sprite pixel
    // collides with what the first draw lit.
    assert_eq!(emu.execute(0xD005, 0), Ok(()));
    assert!(emu.is_display_cleared());
    assert_eq!(emu.get_vregister(0xF), Ok(1));
}

#[test]
fn draw_twice_without_prior_overlap_reports_none_the_second_time() {
    let mut emu = Emulator::new();
    // Light every pixel the '0' glyph covers, first.
    for t in 0..5u16 {
        for b in 0..8u16 {
            let row = emu.get_ram_value_at(t).unwrap();
            if (row >> (7 - b)) & 1 == 1 {
                emu.set_screen_pixel(t * 64 + b, true).unwrap();
            }
        }
    }
    emu.set_iregister(0);
    // The first draw collides everywhere and turns those pixels off.
    assert_eq!(emu.execute(0xD005, 0), Ok(()));
    assert_eq!(emu.get_vregister(0xF), Ok(1));
    assert!(emu.is_display_cleared());
    // The second draw hits only dark pixels: no collision, and the
    // original picture is back.
    assert_eq!(emu.execute(0xD005, 0), Ok(()));
    assert_eq!(emu.get_vregister(0xF), Ok(0));
    let d = emu.get_get_display();
    assert_eq!(&[d[0], d[8], d[16], d[24], d[32]], &[0xF0, 0x90, 0x90, 0x90, 0xF0]);
}

#[test]
fn draw_wraps_at_the_screen_edges() {
    let mut emu = Emulator::new();
    emu.set_ram_value_at(0x300, 0xFF).unwrap();
    emu.set_iregister(0x300);
    // Draw one full row at column 60, row 31: wraps both ways.
    emu.set_vregister(0, 60).unwrap();
    emu.set_vregister(1, 31).unwrap();
    assert_eq!(emu.execute(0xD011, 0), Ok(()));
    let d = emu.get_get_display();
    // Row 31 occupies bytes 248..256: the last half-byte of column 60
    // and the wrapped first half-byte of column 0.
    assert_eq!(d[255], 0x0F);
    assert_eq!(d[248], 0xF0);
}

#[test]
fn draw_out_of_ram_is_refused() {
    let mut emu = Emulator::new();
    emu.set_iregister(4095);
    assert_eq!(emu.execute(0xD002, 0), Err(Error::MemoryOutOfBounds));
    assert!(emu.is_display_cleared());
}

#[test]
fn end_to_end_draw_the_zero_glyph() {
    // F029: point I at the glyph for V0 (= 0); D005: draw its five
    // rows at (V0, V1) = (0, 0). After two ticks the first five
    // row-bytes hold the '0' glyph and no collision was reported.
    let mut emu = running(&[0xF0, 0x29, 0xD0, 0x05]);
    assert_eq!(emu.tick(0), Ok(()));
    assert_eq!(emu.tick(0), Ok(()));
    let d = emu.get_get_display();
    assert_eq!(&[d[0], d[8], d[16], d[24], d[32]], &[0xF0, 0x90, 0x90, 0x90, 0xF0]);
    assert_eq!(emu.get_vregister(0xF), Ok(0));
}

use chip8_cpu::cpu::Cpu;
use chip8_cpu::cpu::LoadError;
use chip8_cpu::instruction::Instruction;
use chip8_cpu::keyboard::key_state_from_indices;

#[test]
fn test_add_carry() {
    let mut cpu = Cpu::new();
    cpu.registers[2] = 200;
    cpu.registers[3] = 100;
    cpu.run_op(Instruction::Add { regx: 2, regy: 3 });
    assert_eq!(cpu.registers[2], 44); // (200 + 100) mod 256
    assert_eq!(cpu.registers[0xF], 1); // carry raised
    cpu.registers[4] = 1;
    cpu.run_op(Instruction::Add { regx: 4, regy: 3 });
    assert_eq!(cpu.registers[4], 101);
    assert_eq!(cpu.registers[0xF], 0); // carry cleared
}

#[test]
fn test_sub_borrow() {
    let mut cpu = Cpu::new();
    cpu.registers[2] = 12;
    cpu.registers[3] = 20;
    cpu.run_op(Instruction::Sub { regx: 2, regy: 3 });
    assert_eq!(cpu.registers[2], 248); // (12 - 20) mod 256
    assert_eq!(cpu.registers[0xF], 0); // borrow: no flag
    cpu.registers[4] = 20;
    cpu.registers[5] = 20;
    cpu.run_op(Instruction::Sub { regx: 4, regy: 5 });
    assert_eq!(cpu.registers[4], 0);
    assert_eq!(cpu.registers[0xF], 0); // equal values: no flag either
}

#[test]
fn test_shr_odd() {
    let mut cpu = Cpu::new();
    cpu.registers[1] = 11;
    cpu.run_op(Instruction::Shr { reg: 1 });
    assert_eq!(cpu.registers[1], 5);
    assert_eq!(cpu.registers[0xF], 1); // shifted-out low bit
}

#[test]
fn test_shl_msb() {
    let mut cpu = Cpu::new();
    cpu.registers[1] = 0x90;
    cpu.run_op(Instruction::Shl { reg: 1 });
    assert_eq!(cpu.registers[1], 0x20); // truncated to 8 bits
    assert_eq!(cpu.registers[0xF], 1); // shifted-out high bit
}

#[test]
fn test_load_rom_roundtrip() {
    let mut cpu = Cpu::new();
    let rom = vec![0xDE, 0xAD, 0xBE, 0xEF];
    assert_eq!(cpu.load_rom(rom), Ok(()));
    assert_eq!(cpu.memory[0x200], 0xDE);
    assert_eq!(cpu.memory[0x201], 0xAD);
    assert_eq!(cpu.memory[0x202], 0xBE);
    assert_eq!(cpu.memory[0x203], 0xEF);
    assert_eq!(cpu.memory[0x204], 0);
}

#[test]
fn test_load_rom_max_length() {
    let mut cpu = Cpu::new();
    let rom = vec![0xAB; 3584];
    assert_eq!(cpu.load_rom(rom), Ok(()));
    assert_eq!(cpu.memory[0x200], 0xAB);
    assert_eq!(cpu.memory[4095], 0xAB);
}

#[test]
fn test_load_rom_too_big() {
    let mut cpu = Cpu::new();
    let rom = vec![0xAB; 3585];
    assert_eq!(cpu.load_rom(rom), Err(LoadError::RomTooBig));
    // Rejected before any state changes.
    assert_eq!(cpu.memory[0x200], 0);
    assert_eq!(cpu.pc, 0x200);
}

#[test]
fn test_font_loaded_at_construction() {
    let cpu = Cpu::new();
    assert_eq!(cpu.memory[0], 0xF0); // first byte of the 0 glyph
    assert_eq!(cpu.memory[79], 0x80); // last byte of the F glyph
    assert_eq!(cpu.memory[80], 0);
    assert_eq!(cpu.pc, 0x200);
    assert_eq!(cpu.sp, 0);
}

#[test]
fn test_font_addr() {
    let mut cpu = Cpu::new();
    cpu.registers[3] = 0xA;
    cpu.run_op(Instruction::LdFont { reg: 3 });
    assert_eq!(cpu.i, 50); // glyph A sits at 0xA * 5
}

#[test]
fn test_draw_sets_pixels() {
    let mut cpu = Cpu::new();
    cpu.memory[200] = 0b1010_0000;
    cpu.i = 200;
    cpu.registers[0] = 4; // x
    cpu.registers[1] = 2; // y
    cpu.run_op(Instruction::Draw { x: 0, y: 1, n: 1 });
    assert_eq!(cpu.screen[2][4], 1);
    assert_eq!(cpu.screen[2][5], 0);
    assert_eq!(cpu.screen[2][6], 1);
    assert_eq!(cpu.screen[2][7], 0);
    assert_eq!(cpu.registers[0xF], 0);
    assert!(cpu.drawn);
}

#[test]
fn test_draw_twice_erases_and_flags() {
    let mut cpu = Cpu::new();
    cpu.memory[200] = 0xFF;
    cpu.memory[201] = 0x81;
    cpu.i = 200;
    cpu.registers[0] = 10;
    cpu.registers[1] = 5;
    cpu.run_op(Instruction::Draw { x: 0, y: 1, n: 2 });
    assert_eq!(cpu.registers[0xF], 0); // blank screen: no collision
    assert_eq!(cpu.screen[5][10], 1);
    assert_eq!(cpu.screen[6][10], 1);
    assert_eq!(cpu.screen[6][11], 0);
    cpu.run_op(Instruction::Draw { x: 0, y: 1, n: 2 });
    assert_eq!(cpu.registers[0xF], 1); // second draw erases, so it collides
    for r in 0..32 {
        for c in 0..64 {
            assert_eq!(cpu.screen[r][c], 0); // classic XOR erase
        }
    }
}

#[test]
fn test_draw_wraparound() {
    let mut cpu = Cpu::new();
    cpu.memory[200] = 0xFF; // 8 bits in one row
    cpu.i = 200;
    cpu.registers[0] = 63; // x: last column
    cpu.registers[1] = 31; // y: last row
    cpu.run_op(Instruction::Draw { x: 0, y: 1, n: 1 });
    assert_eq!(cpu.screen[31][63], 1);
    // The remaining seven bits wrap back to columns 0..=6 of row 31.
    for c in 0..7 {
        assert_eq!(cpu.screen[31][c], 1);
    }
    assert_eq!(cpu.screen[31][7], 0);
    assert_eq!(cpu.screen[0][63], 0); // row did not spill downward
    assert!(!cpu.halted);
}

#[test]
fn test_draw_row_wraparound() {
    let mut cpu = Cpu::new();
    cpu.memory[200] = 0x80;
    cpu.memory[201] = 0x80;
    cpu.i = 200;
    cpu.registers[0] = 0;
    cpu.registers[1] = 31;
    cpu.run_op(Instruction::Draw { x: 0, y: 1, n: 2 });
    assert_eq!(cpu.screen[31][0], 1);
    assert_eq!(cpu.screen[0][0], 1); // second row wraps to the top
}

#[test]
fn test_clear() {
    let mut cpu = Cpu::new();
    cpu.memory[200] = 0xFF;
    cpu.i = 200;
    cpu.run_op(Instruction::Draw { x: 0, y: 1, n: 1 });
    cpu.run_op(Instruction::Clear);
    for r in 0..32 {
        for c in 0..64 {
            assert_eq!(cpu.screen[r][c], 0);
        }
    }
    assert!(cpu.drawn);
}

#[test]
fn test_step_jump_no_double_advance() {
    let mut cpu = Cpu::new();
    // Opcode 0x1501 sits at 0x501 - 2; after one step the PC is exactly
    // 0x501, with no implicit +2 on top of the jump target.
    cpu.pc = 0x501 - 2;
    cpu.memory[0x4FF] = 0x15;
    cpu.memory[0x500] = 0x01;
    let state = cpu.step([false; 16]);
    assert_eq!(cpu.pc, 0x501);
    assert!(!state.finished);
}

#[test]
fn test_step_set_then_add_imm() {
    let mut cpu = Cpu::new();
    // 0x6314: V3 = 0x14; 0x7305: V3 += 5.
    assert_eq!(cpu.load_rom(vec![0x63, 0x14, 0x73, 0x05]), Ok(())) ;
    cpu.step([false; 16]);
    assert_eq!(cpu.registers[3], 0x14);
    cpu.step([false; 16]);
    assert_eq!(cpu.registers[3], 0x19);
    assert_eq!(cpu.registers[0xF], 0); // VF untouched
    assert_eq!(cpu.pc, 0x204);
}

#[test]
fn test_step_call_then_return() {
    let mut cpu = Cpu::new();
    // At 0x200: call 0x300. At 0x300: return.
    cpu.memory[0x200] = 0x23;
    cpu.memory[0x201] = 0x00;
    cpu.memory[0x300] = 0x00;
    cpu.memory[0x301] = 0xEE;
    cpu.step([false; 16]);
    assert_eq!(cpu.pc, 0x300);
    assert_eq!(cpu.sp, 1);
    cpu.step([false; 16]);
    // Back at the instruction immediately after the call.
    assert_eq!(cpu.pc, 0x202);
    assert_eq!(cpu.sp, 0);
}

#[test]
fn test_step_skip_advances_over_next() {
    let mut cpu = Cpu::new();
    // 0x3000: skip next when V0 == 0, which holds; the PC lands two
    // instructions ahead.
    assert_eq!(cpu.load_rom(vec![0x30, 0x00]), Ok(()));
    cpu.step([false; 16]);
    assert_eq!(cpu.pc, 0x204);
}

#[test]
fn test_step_reports_display_change() {
    let mut cpu = Cpu::new();
    // 0x00E0: clear; 0x6301: an ordinary register load.
    assert_eq!(cpu.load_rom(vec![0x00, 0xE0, 0x63, 0x01]), Ok(()));
    let s1 = cpu.step([false; 16]);
    assert!(s1.drawn);
    let s2 = cpu.step([false; 16]);
    assert!(!s2.drawn);
}

#[test]
fn test_step_screen_snapshot() {
    let mut cpu = Cpu::new();
    cpu.memory[0x200] = 0xD0; // draw at (V0, V1), one row
    cpu.memory[0x201] = 0x11;
    cpu.memory[200] = 0x80;
    cpu.i = 200;
    let state = cpu.step([false; 16]);
    assert!(state.drawn);
    assert_eq!(state.screen[0][0], 1);
    assert_eq!(state.screen, cpu.screen);
}

#[test]
fn test_step_halts_on_out_of_bounds_fetch() {
    let mut cpu = Cpu::new();
    cpu.pc = 4095; // the second fetch byte would sit outside memory
    let state = cpu.step([false; 16]);
    assert!(state.finished);
    assert!(cpu.halted);
}

#[test]
fn test_step_finishes_past_end() {
    let mut cpu = Cpu::new();
    cpu.pc = 4094; // an ordinary opcode here advances the PC to 4096
    let state = cpu.step([false; 16]);
    assert!(state.finished);
    assert_eq!(cpu.pc, 4096);
}

#[test]
fn test_stack_overflow_halts() {
    let mut cpu = Cpu::new();
    cpu.sp = 16;
    let pc = cpu.pc;
    cpu.run_op(Instruction::Call { location: 0x300 });
    assert!(cpu.halted);
    assert_eq!(cpu.pc, pc); // nothing else changed
    assert_eq!(cpu.sp, 16);
}

#[test]
fn test_return_underflow_halts() {
    let mut cpu = Cpu::new();
    let pc = cpu.pc;
    cpu.run_op(Instruction::Ret);
    assert!(cpu.halted);
    assert_eq!(cpu.pc, pc);
    assert_eq!(cpu.sp, 0);
}

#[test]
fn test_delay_timer_ticks_per_step() {
    let mut cpu = Cpu::new();
    cpu.registers[2] = 3;
    cpu.run_op(Instruction::SetDelay { reg: 2 });
    assert_eq!(cpu.delay_timer, 3);
    cpu.step([false; 16]); // opcode 0x0000 is Unknown: a no-op
    assert_eq!(cpu.delay_timer, 2);
    cpu.run_op(Instruction::LdDelay { reg: 5 });
    assert_eq!(cpu.registers[5], 2);
    cpu.step([false; 16]);
    cpu.step([false; 16]);
    cpu.step([false; 16]); // already zero: stays at zero
    assert_eq!(cpu.delay_timer, 0);
}

#[test]
fn test_random_masked() {
    let mut cpu = Cpu::new();
    cpu.registers[2] = 77;
    cpu.run_op(Instruction::Random { reg: 2, byte: 0x00 });
    assert_eq!(cpu.registers[2], 0); // masked down to nothing
    cpu.run_op(Instruction::Random { reg: 2, byte: 0x0F });
    assert!(cpu.registers[2] <= 0x0F);
}

#[test]
fn test_key_state_from_indices() {
    let keys = key_state_from_indices(&vec![1, 5, 5, 0xF]);
    for k in 0..16 {
        let expected = k == 1 || k == 5 || k == 0xF;
        assert_eq!(keys[k], expected);
    }
    let none = key_state_from_indices(&vec![]);
    assert_eq!(none, [false; 16]);
    // Indices past the keypad name no key.
    let high = key_state_from_indices(&vec![16, 200]);
    assert_eq!(high, [false; 16]);
}

#[test]
fn test_key_skips() {
    let mut cpu = Cpu::new();
    cpu.keys = key_state_from_indices(&vec![5]);
    cpu.registers[0] = 5;
    cpu.registers[1] = 6;
    let pc = cpu.pc;
    cpu.run_op(Instruction::Skp { key: 0 }); // key 5 held: skip
    assert_eq!(cpu.pc, pc + 4);
    cpu.run_op(Instruction::Skp { key: 1 }); // key 6 not held: no skip
    assert_eq!(cpu.pc, pc + 4);
    cpu.run_op(Instruction::Sknp { key: 1 }); // key 6 not held: skip
    assert_eq!(cpu.pc, pc + 8);
    cpu.run_op(Instruction::Sknp { key: 0 }); // key 5 held: no skip
    assert_eq!(cpu.pc, pc + 8);
}

#[test]
fn test_key_index_out_of_range_halts() {
    let mut cpu = Cpu::new();
    cpu.registers[0] = 200; // names no key
    cpu.run_op(Instruction::Skp { key: 0 });
    assert!(cpu.halted);
}

#[test]
fn test_bcd_bounds() {
    let mut cpu = Cpu::new();
    cpu.registers[4] = 255;
    cpu.i = 300;
    cpu.run_op(Instruction::LdB { reg: 4 });
    assert_eq!(cpu.memory[300], 2);
    assert_eq!(cpu.memory[301], 5);
    assert_eq!(cpu.memory[302], 5);
}

#[test]
fn test_bcd_out_of_bounds_halts() {
    let mut cpu = Cpu::new();
    cpu.i = 4094; // the three digits would run past memory
    cpu.run_op(Instruction::LdB { reg: 0 });
    assert!(cpu.halted);
}

#[test]
fn test_register_block_transfers() {
    let mut cpu = Cpu::new();
    cpu.registers[0] = 7;
    cpu.registers[1] = 8;
    cpu.registers[2] = 9;
    cpu.i = 1000;
    cpu.run_op(Instruction::SetLong { reg: 2 });
    assert_eq!(cpu.memory[1000], 7);
    assert_eq!(cpu.memory[1001], 8);
    assert_eq!(cpu.memory[1002], 9);
    assert_eq!(cpu.memory[1003], 0);
    let mut cpu2 = Cpu::new();
    cpu2.memory[1000] = 7;
    cpu2.memory[1001] = 8;
    cpu2.memory[1002] = 9;
    cpu2.i = 1000;
    cpu2.registers[3] = 42;
    cpu2.run_op(Instruction::LdLong { reg: 2 });
    assert_eq!(cpu2.registers[0], 7);
    assert_eq!(cpu2.registers[1], 8);
    assert_eq!(cpu2.registers[2], 9);
    assert_eq!(cpu2.registers[3], 42); // untouched past reg
}

#[test]
fn test_block_transfer_out_of_bounds_halts() {
    let mut cpu = Cpu::new();
    cpu.i = 4090;
    cpu.run_op(Instruction::SetLong { reg: 15 });
    assert!(cpu.halted);
}

#[test]
fn test_add_index_wraps() {
    let mut cpu = Cpu::new();
    cpu.i = 0xFFFF;
    cpu.registers[0] = 2;
    cpu.run_op(Instruction::AddI { reg: 0 });
    assert_eq!(cpu.i, 1); // 16-bit wraparound
}

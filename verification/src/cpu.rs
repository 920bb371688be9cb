use vstd::prelude::*;

use crate::instruction::Instruction;
use crate::instruction::wf_instruction;
use crate::rng::fresh_rng;
use crate::rng::random_byte;
use vstd::arithmetic::div_mod::lemma_fundamental_div_mod;
use vstd::arithmetic::div_mod::lemma_mod_multiples_vanish;
use vstd::arithmetic::div_mod::lemma_small_mod;

verus! {

broadcast use vstd::arithmetic::div_mod::lemma_mod_bound;

/// Spec-level image of the machine: every field the contracts speak of.
/// The random generator handle is deliberately not part of the image, so
/// two machines that differ only in generator state are equal models.
#[verifier::ext_equal]
pub struct Machine {
    pub memory: Seq<u8>,
    pub registers: Seq<u8>,
    pub i: u16,
    pub pc: u16,
    pub sp: u16,
    pub stack: Seq<u16>,
    pub screen: Seq<Seq<u8>>,
    pub keys: Seq<bool>,
    pub delay_timer: u8,
    pub drawn: bool,
    pub opcode: u16,
    pub halted: bool,
}

impl Machine {
    /// Shape of a valid machine: fixed-capacity memory, register file,
    /// stack and display, a stack pointer within its 16 slots, and a
    /// display holding only 0/1 pixels.
    pub open spec fn wf(self) -> bool {
        &&& self.memory.len() == 4096
        &&& self.registers.len() == 16
        &&& self.stack.len() == 16
        &&& self.keys.len() == 16
        &&& self.sp <= 16
        &&& self.screen.len() == 32
        &&& forall|r: int| 0 <= r < 32 ==> (#[trigger] self.screen[r]).len() == 64
        &&& forall|r: int, c: int|
            0 <= r < 32 && 0 <= c < 64 ==> (#[trigger] self.screen[r][c]) == 0
                || self.screen[r][c] == 1
    }
}

/// The display rows of the executable machine, as a sequence of pixel rows.
pub open spec fn screen_view(s: Vec<Vec<u8>>) -> Seq<Seq<u8>> {
    Seq::new(s@.len(), |r: int| s@[r]@)
}

/// An all-zero display buffer.
pub open spec fn blank_screen() -> Seq<Seq<u8>> {
    Seq::new(32, |r: int| Seq::new(64, |c: int| 0u8))
}

/// The 80-byte font table: one 5-byte glyph per hexadecimal digit,
/// preloaded at address 0 when the machine is built.
pub open spec fn spec_font() -> Seq<u8> {
    seq![
        0xF0u8, 0x90, 0x90, 0x90, 0xF0,
        0x20, 0x60, 0x20, 0x20, 0x70,
        0xF0, 0x10, 0xF0, 0x80, 0xF0,
        0xF0, 0x10, 0xF0, 0x10, 0xF0,
        0x90, 0x90, 0xF0, 0x10, 0x10,
        0xF0, 0x80, 0xF0, 0x10, 0xF0,
        0xF0, 0x80, 0xF0, 0x90, 0xF0,
        0xF0, 0x10, 0x20, 0x40, 0x40,
        0xF0, 0x90, 0xF0, 0x90, 0xF0,
        0xF0, 0x90, 0xF0, 0x10, 0xF0,
        0xF0, 0x90, 0xF0, 0x90, 0x90,
        0xE0, 0x90, 0xE0, 0x90, 0xE0,
        0xF0, 0x80, 0x80, 0x80, 0xF0,
        0xE0, 0x90, 0x90, 0x90, 0xE0,
        0xF0, 0x80, 0xF0, 0x80, 0xF0,
        0xF0, 0x80, 0xF0, 0x80, 0x80,
    ]
}

/// Memory as the machine starts: the font table at address 0, zeroes above.
pub open spec fn initial_memory() -> Seq<u8> {
    Seq::new(4096, |j: int| if j < 80 { spec_font()[j] } else { 0u8 })
}

/// The machine as `Cpu::new` builds it: zeroed state, PC at 0x200, the
/// font table in low memory, running.
pub open spec fn initial_machine() -> Machine {
    Machine {
        memory: initial_memory(),
        registers: Seq::new(16, |j: int| 0u8),
        i: 0,
        pc: 0x200,
        sp: 0,
        stack: Seq::new(16, |j: int| 0u16),
        screen: blank_screen(),
        keys: Seq::new(16, |j: int| false),
        delay_timer: 0,
        drawn: false,
        opcode: 0,
        halted: false,
    }
}

/// A program image too long for the 3584 bytes of program memory.
#[derive(PartialEq, Eq, Structural, Clone, Copy, Debug)]
pub enum LoadError {
    RomTooBig,
}

/// Memory after a program image lands at 0x200: bytes below 0x200 and
/// beyond the image keep their old values.
pub open spec fn loaded_memory(mem: Seq<u8>, rom: Seq<u8>) -> Seq<u8> {
    Seq::new(
        4096,
        |j: int| if 0x200 <= j < 0x200 + rom.len() { rom[j - 0x200] } else { mem[j] },
    )
}

/// Bit `bit` of a sprite row byte, counting the most significant bit as 0.
pub open spec fn sprite_bit(b: u8, bit: int) -> u8 {
    (b >> ((7 - bit) as u8)) & 1
}

/// How far below sprite row 0 the display row `r` lies, on the wrapped
/// 32-row axis: `r == (vy + row_offset) mod 32`.
pub open spec fn row_offset(vy: int, r: int) -> int {
    (r - vy) % 32
}

/// How far right of sprite bit 0 the display column `c` lies, on the
/// wrapped 64-column axis: `c == (vx + col_offset) mod 64`.
pub open spec fn col_offset(vx: int, c: int) -> int {
    (c - vx) % 64
}

/// Pixel (r, c) after part of a sprite draw at (vx, vy): the first `rows`
/// sprite rows fully applied, plus the first `bits` bits of row `rows`.
/// A sprite bit lands on each display cell at most once, so one XOR per
/// affected cell describes any prefix of the draw.
pub open spec fn draw_pixel_upto(
    pix: u8,
    mem: Seq<u8>,
    i: int,
    vx: int,
    vy: int,
    rows: int,
    bits: int,
    r: int,
    c: int,
) -> u8 {
    let ro = row_offset(vy, r);
    let co = col_offset(vx, c);
    if co < 8 && (ro < rows || (ro == rows && co < bits)) {
        pix ^ sprite_bit(mem[i + ro], co)
    } else {
        pix
    }
}

/// The display after part of a sprite draw (see `draw_pixel_upto`).
pub open spec fn draw_screen_upto(
    s: Seq<Seq<u8>>,
    mem: Seq<u8>,
    i: int,
    vx: int,
    vy: int,
    rows: int,
    bits: int,
) -> Seq<Seq<u8>> {
    Seq::new(
        32,
        |r: int| Seq::new(64, |c: int| draw_pixel_upto(s[r][c], mem, i, vx, vy, rows, bits, r, c)),
    )
}

/// The display after an n-row sprite from `mem[i..]` is XORed in at
/// (vx, vy), with both axes wrapping.
pub open spec fn spec_draw_screen(
    s: Seq<Seq<u8>>,
    mem: Seq<u8>,
    i: int,
    vx: int,
    vy: int,
    n: int,
) -> Seq<Seq<u8>> {
    draw_screen_upto(s, mem, i, vx, vy, n, 0)
}

/// Sprite bit (row, bit) is set and lands on a set display pixel.
pub open spec fn collides_at(
    s: Seq<Seq<u8>>,
    mem: Seq<u8>,
    i: int,
    vx: int,
    vy: int,
    row: int,
    bit: int,
) -> bool {
    s[(vy + row) % 32][(vx + bit) % 64] == 1 && sprite_bit(mem[i + row], bit) == 1
}

/// A collision somewhere in the prefix of the draw: a full row below
/// `rows`, or one of the first `bits` bits of row `rows`.
pub open spec fn collision_upto(
    s: Seq<Seq<u8>>,
    mem: Seq<u8>,
    i: int,
    vx: int,
    vy: int,
    rows: int,
    bits: int,
) -> bool {
    exists|row: int, bit: int|
        0 <= row && 0 <= bit < 8 && (row < rows || (row == rows && bit < bits))
            && #[trigger] collides_at(s, mem, i, vx, vy, row, bit)
}

/// Whether drawing an n-row sprite at (vx, vy) erases any set pixel.
pub open spec fn spec_draw_collision(
    s: Seq<Seq<u8>>,
    mem: Seq<u8>,
    i: int,
    vx: int,
    vy: int,
    n: int,
) -> bool {
    collision_upto(s, mem, i, vx, vy, n, 0)
}

/// Whether the instruction can execute without stepping outside the
/// machine's fixed bounds. When it cannot — a call on a full stack, a
/// return on an empty one, a key index past the 16 keys, or a memory
/// window past the 4096 bytes — the machine halts instead of executing.
pub open spec fn op_guard(m: Machine, instr: Instruction) -> bool {
    match instr {
        Instruction::Call { .. } => m.sp < 16,
        Instruction::Ret => m.sp >= 1,
        Instruction::Skp { key } => m.registers[key as int] < 16,
        Instruction::Sknp { key } => m.registers[key as int] < 16,
        Instruction::Draw { x, y, n } => n == 0 || m.i + n <= 4096,
        Instruction::LdB { .. } => m.i + 3 <= 4096,
        Instruction::SetLong { reg } => m.i + reg + 1 <= 4096,
        Instruction::LdLong { reg } => m.i + reg + 1 <= 4096,
        _ => true,
    }
}

/// A machine about to skip the next instruction: when `cond` holds the PC
/// moves to the definitive target two instructions ahead (16-bit
/// wraparound) and the flag reports that the PC was set.
pub open spec fn skipped(m: Machine, cond: bool) -> (Machine, bool) {
    if cond {
        (Machine { pc: vstd::wrapping::u16_specs::wrapping_add(m.pc, 4), ..m }, true)
    } else {
        (m, false)
    }
}

/// The machine after one decoded instruction executes, together with
/// whether the instruction set the PC to a definitive target (when it did
/// not, the step cycle advances the PC by 2 afterwards).
///
/// `rnd` is the byte the random source hands out this cycle; only
/// `Random` reads it. When the instruction's guard fails (see `op_guard`)
/// the machine halts with no other change.
pub open spec fn run_op_model(m: Machine, instr: Instruction, rnd: u8) -> (Machine, bool) {
    if !op_guard(m, instr) {
        (Machine { halted: true, ..m }, false)
    } else {
        match instr {
            Instruction::Jmp { location } => (Machine { pc: location, ..m }, true),
            Instruction::Call { location } => (
                Machine {
                    stack: m.stack.update(
                        m.sp as int,
                        vstd::wrapping::u16_specs::wrapping_add(m.pc, 2),
                    ),
                    sp: (m.sp + 1) as u16,
                    pc: location,
                    ..m
                },
                true,
            ),
            Instruction::Ret => (
                Machine { sp: (m.sp - 1) as u16, pc: m.stack[m.sp - 1], ..m },
                true,
            ),
            Instruction::Se { x, y } => skipped(
                m,
                m.registers[x as int] == m.registers[y as int],
            ),
            Instruction::Sne { regx, regy } => skipped(
                m,
                m.registers[regx as int] != m.registers[regy as int],
            ),
            Instruction::ConstantSe { reg, byte } => skipped(m, m.registers[reg as int] == byte),
            Instruction::ConstantSne { reg, byte } => skipped(m, m.registers[reg as int] != byte),
            Instruction::Skp { key } => skipped(
                m,
                m.keys[m.registers[key as int] as int],
            ),
            Instruction::Sknp { key } => skipped(
                m,
                !m.keys[m.registers[key as int] as int],
            ),
            Instruction::AddO { reg, byte } => (
                Machine {
                    registers: m.registers.update(
                        reg as int,
                        ((m.registers[reg as int] + byte) % 256) as u8,
                    ),
                    ..m
                },
                false,
            ),
            Instruction::Load { regx, regy } => (
                Machine {
                    registers: m.registers.update(regx as int, m.registers[regy as int]),
                    ..m
                },
                false,
            ),
            Instruction::Or { regx, regy } => (
                Machine {
                    registers: m.registers.update(
                        regx as int,
                        m.registers[regx as int] | m.registers[regy as int],
                    ),
                    ..m
                },
                false,
            ),
            Instruction::And { regx, regy } => (
                Machine {
                    registers: m.registers.update(
                        regx as int,
                        m.registers[regx as int] & m.registers[regy as int],
                    ),
                    ..m
                },
                false,
            ),
            Instruction::Xor { regx, regy } => (
                Machine {
                    registers: m.registers.update(
                        regx as int,
                        m.registers[regx as int] ^ m.registers[regy as int],
                    ),
                    ..m
                },
                false,
            ),
            Instruction::Add { regx, regy } => (
                ({
                    let sum = m.registers[regx as int] + m.registers[regy as int];
                    Machine {
                        registers: m.registers.update(15, if sum > 255 { 1u8 } else { 0u8 }).update(
                            regx as int,
                            (sum % 256) as u8,
                        ),
                        ..m
                    }
                }),
                false,
            ),
            Instruction::Sub { regx, regy } => (
                ({
                    let a = m.registers[regx as int];
                    let b = m.registers[regy as int];
                    Machine {
                        registers: m.registers.update(15, if a > b { 1u8 } else { 0u8 }).update(
                            regx as int,
                            ((a - b) % 256) as u8,
                        ),
                        ..m
                    }
                }),
                false,
            ),
            Instruction::Subn { regx, regy } => (
                ({
                    let a = m.registers[regx as int];
                    let b = m.registers[regy as int];
                    Machine {
                        registers: m.registers.update(15, if b > a { 1u8 } else { 0u8 }).update(
                            regx as int,
                            ((b - a) % 256) as u8,
                        ),
                        ..m
                    }
                }),
                false,
            ),
            Instruction::Shr { reg } => (
                ({
                    let a = m.registers[reg as int];
                    Machine {
                        registers: m.registers.update(15, a % 2).update(reg as int, a / 2),
                        ..m
                    }
                }),
                false,
            ),
            Instruction::Shl { reg } => (
                ({
                    let a = m.registers[reg as int];
                    Machine {
                        registers: m.registers.update(15, a / 128).update(
                            reg as int,
                            ((a * 2) % 256) as u8,
                        ),
                        ..m
                    }
                }),
                false,
            ),
            Instruction::LdI { loc } => (Machine { i: loc, ..m }, false),
            Instruction::JmpA { loc } => (
                Machine { pc: (m.registers[0] + loc) as u16, ..m },
                true,
            ),
            Instruction::AddI { reg } => (
                Machine {
                    i: vstd::wrapping::u16_specs::wrapping_add(
                        m.i,
                        m.registers[reg as int] as u16,
                    ),
                    ..m
                },
                false,
            ),
            Instruction::LdB { reg } => (
                ({
                    let v = m.registers[reg as int];
                    Machine {
                        memory: m.memory.update(m.i as int, v / 100).update(
                            m.i + 1,
                            (v / 10) % 10,
                        ).update(m.i + 2, v % 10),
                        ..m
                    }
                }),
                false,
            ),
            Instruction::LdFont { reg } => (
                Machine { i: (m.registers[reg as int] * 5) as u16, ..m },
                false,
            ),
            Instruction::SetLong { reg } => (
                Machine {
                    memory: Seq::new(
                        4096,
                        |j: int| if m.i <= j <= m.i + reg {
                            m.registers[j - m.i]
                        } else {
                            m.memory[j]
                        },
                    ),
                    ..m
                },
                false,
            ),
            Instruction::LdLong { reg } => (
                Machine {
                    registers: Seq::new(
                        16,
                        |j: int| if j <= reg {
                            m.memory[m.i + j]
                        } else {
                            m.registers[j]
                        },
                    ),
                    ..m
                },
                false,
            ),
            Instruction::SetImm { reg, byte } => (
                Machine { registers: m.registers.update(reg as int, byte), ..m },
                false,
            ),
            Instruction::LdDelay { reg } => (
                Machine { registers: m.registers.update(reg as int, m.delay_timer), ..m },
                false,
            ),
            Instruction::SetDelay { reg } => (
                Machine { delay_timer: m.registers[reg as int], ..m },
                false,
            ),
            Instruction::Random { reg, byte } => (
                Machine { registers: m.registers.update(reg as int, byte & rnd), ..m },
                false,
            ),
            Instruction::Draw { x, y, n } => (
                ({
                    let vx = m.registers[x as int] as int;
                    let vy = m.registers[y as int] as int;
                    Machine {
                        drawn: true,
                        registers: m.registers.update(
                            15,
                            if spec_draw_collision(
                                m.screen,
                                m.memory,
                                m.i as int,
                                vx,
                                vy,
                                n as int,
                            ) {
                                1u8
                            } else {
                                0u8
                            },
                        ),
                        screen: spec_draw_screen(m.screen, m.memory, m.i as int, vx, vy, n as int),
                        ..m
                    }
                }),
                false,
            ),
            Instruction::Clear => (Machine { drawn: true, screen: blank_screen(), ..m }, false),
            Instruction::Unknown => (m, false),
        }
    }
}

/// A masked bit is 0 or 1, and XOR keeps values below 2.
proof fn lemma_bits01()
    by (bit_vector)
    ensures
        forall|b: u8, s: u8| #[trigger] ((b >> s) & 1) < 2,
        forall|a: u8, b: u8| a < 2 && b < 2 ==> #[trigger] (a ^ b) < 2,
{
}

/// On a wrapped axis of length `modulus`, the cell reached from `base` by
/// offset `off` lies at offset `off` of `base`: wrapping then measuring
/// the offset gives `off` back.
proof fn lemma_offset_roundtrip(base: int, off: int, modulus: int)
    requires
        modulus > 0,
        0 <= off < modulus,
    ensures
        ((base + off) % modulus - base) % modulus == off,
{
    lemma_fundamental_div_mod(base + off, modulus);
    let q = (base + off) / modulus;
    assert(modulus * (-q) == -(modulus * q)) by (nonlinear_arith);
    assert((base + off) % modulus - base == modulus * (-q) + off);
    lemma_mod_multiples_vanish(-q, off, modulus);
    lemma_small_mod(off as nat, modulus as nat);
}

/// A cell on a wrapped axis determines the offset that reaches it:
/// adding the measured offset back to the base lands on the cell.
proof fn lemma_offset_inverse(base: int, cell: int, modulus: int)
    requires
        modulus > 0,
        0 <= cell < modulus,
    ensures
        (base + ((cell - base) % modulus)) % modulus == cell,
{
    lemma_fundamental_div_mod(cell - base, modulus);
    let q = (cell - base) / modulus;
    assert(modulus * (-q) == -(modulus * q)) by (nonlinear_arith);
    assert(base + ((cell - base) % modulus) == modulus * (-q) + cell);
    lemma_mod_multiples_vanish(-q, cell, modulus);
    lemma_small_mod(cell as nat, modulus as nat);
}

/// Executing any well-formed instruction on a valid machine leaves a
/// valid machine, whichever byte the random source hands out.
pub proof fn lemma_run_op_model_wf(m: Machine, instr: Instruction, rnd: u8)
    requires
        m.wf(),
        wf_instruction(instr),
    ensures
        run_op_model(m, instr, rnd).0.wf(),
{
    lemma_bits01();
    let m2 = run_op_model(m, instr, rnd).0;
    match instr {
        Instruction::Draw { x, y, n } => {
            if op_guard(m, instr) {
                let vx = m.registers[x as int] as int;
                let vy = m.registers[y as int] as int;
                let s2 = spec_draw_screen(m.screen, m.memory, m.i as int, vx, vy, n as int);
                assert forall|r: int, c: int| 0 <= r < 32 && 0 <= c < 64 implies (
                #[trigger] s2[r][c]) == 0 || s2[r][c] == 1 by {
                    assert(s2[r][c] == draw_pixel_upto(
                        m.screen[r][c],
                        m.memory,
                        m.i as int,
                        vx,
                        vy,
                        n as int,
                        0,
                        r,
                        c,
                    ));
                    assert(m.screen[r][c] == 0 || m.screen[r][c] == 1);
                }
                assert(m2.wf());
            }
        },
        _ => {},
    }
    assert(m2.wf());
}

/// One whole machine cycle: replace the key state, fetch the big-endian
/// word at PC (a fetch outside memory halts the machine), tick the delay
/// timer down, execute the decoded instruction, and advance the PC by 2
/// unless the instruction set it to a definitive target or halted the
/// machine. `rnd` is the byte the random source hands out this cycle.
pub open spec fn step_model(m: Machine, keys: Seq<bool>, rnd: u8) -> Machine {
    let m1 = Machine { keys: keys, drawn: false, ..m };
    if m.pc + 1 >= 4096 {
        Machine { halted: true, ..m1 }
    } else {
        let op = (m.memory[m.pc as int] * 256 + m.memory[m.pc as int + 1]) as u16;
        let m2 = Machine {
            opcode: op,
            delay_timer: if m.delay_timer > 0 {
                (m.delay_timer - 1) as u8
            } else {
                0
            },
            ..m1
        };
        let mr = run_op_model(m2, crate::instruction::spec_decode(op), rnd);
        if mr.0.halted || mr.1 {
            mr.0
        } else {
            Machine { pc: (mr.0.pc + 2) as u16, ..mr.0 }
        }
    }
}

/// An instruction that does not report setting the PC leaves it alone.
pub proof fn lemma_run_op_model_pc(m: Machine, instr: Instruction, rnd: u8)
    ensures
        !run_op_model(m, instr, rnd).1 ==> run_op_model(m, instr, rnd).0.pc == m.pc,
{
}

/// What one `step` call reports back to the driving loop.
pub struct ExecutionState {
    pub finished: bool,
    pub screen: Vec<Vec<u8>>,
    pub drawn: bool,
}

/// The interpreter: all mutable machine state plus the random source.
pub struct Cpu {
    pub drawn: bool,
    pub opcode: u16,
    pub memory: Vec<u8>,
    pub registers: Vec<u8>,
    pub i: u16,
    pub pc: u16,
    pub sp: u16,
    pub stack: Vec<u16>,
    pub screen: Vec<Vec<u8>>,
    pub keys: [bool; 16],
    pub delay_timer: u8,
    pub halted: bool,
    pub rng: rand::rngs::ThreadRng,
}

impl View for Cpu {
    type V = Machine;

    open spec fn view(&self) -> Machine {
        Machine {
            memory: self.memory@,
            registers: self.registers@,
            i: self.i,
            pc: self.pc,
            sp: self.sp,
            stack: self.stack@,
            screen: screen_view(self.screen),
            keys: self.keys@,
            delay_timer: self.delay_timer,
            drawn: self.drawn,
            opcode: self.opcode,
            halted: self.halted,
        }
    }
}

/// The font table as bytes, in glyph order.
fn font_data() -> (r: Vec<u8>)
    ensures
        r@ == spec_font(),
{
    let r: Vec<u8> = vec![
        0xF0u8, 0x90, 0x90, 0x90, 0xF0,
        0x20, 0x60, 0x20, 0x20, 0x70,
        0xF0, 0x10, 0xF0, 0x80, 0xF0,
        0xF0, 0x10, 0xF0, 0x10, 0xF0,
        0x90, 0x90, 0xF0, 0x10, 0x10,
        0xF0, 0x80, 0xF0, 0x10, 0xF0,
        0xF0, 0x80, 0xF0, 0x90, 0xF0,
        0xF0, 0x10, 0x20, 0x40, 0x40,
        0xF0, 0x90, 0xF0, 0x90, 0xF0,
        0xF0, 0x90, 0xF0, 0x10, 0xF0,
        0xF0, 0x90, 0xF0, 0x90, 0x90,
        0xE0, 0x90, 0xE0, 0x90, 0xE0,
        0xF0, 0x80, 0x80, 0x80, 0xF0,
        0xE0, 0x90, 0x90, 0x90, 0xE0,
        0xF0, 0x80, 0xF0, 0x80, 0xF0,
        0xF0, 0x80, 0xF0, 0x80, 0x80,
    ];
    proof {
        assert(r@ =~= spec_font());
    }
    r
}

/// A vector of `n` zero bytes.
fn zero_bytes(n: usize) -> (r: Vec<u8>)
    ensures
        r@ == Seq::new(n as nat, |j: int| 0u8),
{
    let mut r: Vec<u8> = Vec::new();
    let mut j: usize = 0;
    while j < n
        invariant
            j <= n,
            r@.len() == j,
            forall|k: int| 0 <= k < j ==> r@[k] == 0u8,
        decreases n - j,
    {
        r.push(0);
        j += 1;
    }
    proof {
        assert(r@ =~= Seq::new(n as nat, |j: int| 0u8));
    }
    r
}

/// A fresh all-zero display buffer.
fn make_blank_screen() -> (r: Vec<Vec<u8>>)
    ensures
        screen_view(r) == blank_screen(),
{
    let mut r: Vec<Vec<u8>> = Vec::new();
    let mut row: usize = 0;
    while row < 32
        invariant
            row <= 32,
            r@.len() == row,
            forall|k: int| 0 <= k < row ==> (#[trigger] r@[k])@ == Seq::new(64, |c: int| 0u8),
        decreases 32 - row,
    {
        r.push(zero_bytes(64));
        row += 1;
    }
    proof {
        assert(screen_view(r) =~~= blank_screen());
    }
    r
}

impl Cpu {
    /// Build the machine in its start state: everything zeroed, PC at
    /// 0x200, the font glyphs copied into low memory.
    pub fn new() -> (r: Cpu)
        ensures
            r@ == initial_machine(),
            r@.wf(),
    {
        let mut memory: Vec<u8> = font_data();
        let mut j: usize = 80;
        while j < 4096
            invariant
                80 <= j <= 4096,
                memory@.len() == j,
                forall|k: int|
                    0 <= k < j ==> memory@[k] == (if k < 80 {
                        spec_font()[k]
                    } else {
                        0u8
                    }),
            decreases 4096 - j,
        {
            memory.push(0);
            j += 1;
        }
        proof {
            assert(memory@ =~= initial_memory());
        }
        let mut stack: Vec<u16> = Vec::new();
        let mut s: usize = 0;
        while s < 16
            invariant
                s <= 16,
                stack@.len() == s,
                forall|k: int| 0 <= k < s ==> stack@[k] == 0u16,
            decreases 16 - s,
        {
            stack.push(0);
            s += 1;
        }
        let cpu = Cpu {
            drawn: false,
            opcode: 0,
            memory,
            registers: zero_bytes(16),
            i: 0,
            pc: 512,
            sp: 0,
            stack,
            screen: make_blank_screen(),
            keys: [false; 16],
            delay_timer: 0,
            halted: false,
            rng: fresh_rng(),
        };
        proof {
            assert(cpu@ =~~= initial_machine());
        }
        cpu
    }

    /// Load a program image at address 0x200.
    ///
    /// An image longer than the 3584 bytes of program memory is rejected
    /// with `LoadError::RomTooBig` before any state changes; otherwise the
    /// image lands verbatim at 0x200 and all other memory keeps its value.
    pub fn load_rom(&mut self, rom: Vec<u8>) -> (r: Result<(), LoadError>)
        requires
            old(self)@.wf(),
        ensures
            final(self)@.wf(),
            rom@.len() > 3584 ==> r == Result::<(), LoadError>::Err(LoadError::RomTooBig)
                && final(self)@ == old(self)@,
            rom@.len() <= 3584 ==> r == Result::<(), LoadError>::Ok(())
                && final(self)@ == (Machine {
                    memory: loaded_memory(old(self)@.memory, rom@),
                    ..old(self)@
                }),
    {
        if rom.len() > 4096 - 0x200 {
            return Err(LoadError::RomTooBig);
        }
        let mut k: usize = 0;
        while k < rom.len()
            invariant
                old(self)@.wf(),
                rom@.len() <= 3584,
                k <= rom@.len(),
                self.memory@.len() == 4096,
                forall|j: int|
                    0 <= j < 4096 ==> self.memory@[j] == (if 0x200 <= j < 0x200 + k {
                        rom@[j - 0x200]
                    } else {
                        old(self)@.memory[j]
                    }),
                self.registers == old(self).registers,
                self.i == old(self).i,
                self.pc == old(self).pc,
                self.sp == old(self).sp,
                self.stack == old(self).stack,
                self.screen == old(self).screen,
                self.keys == old(self).keys,
                self.delay_timer == old(self).delay_timer,
                self.drawn == old(self).drawn,
                self.opcode == old(self).opcode,
                self.halted == old(self).halted,
            decreases rom@.len() - k,
        {
            let b = rom[k];
            self.memory.set(0x200 + k, b);
            k += 1;
        }
        proof {
            assert(self.memory@ =~= loaded_memory(old(self)@.memory, rom@));
            assert(self@ =~~= (Machine {
                memory: loaded_memory(old(self)@.memory, rom@),
                ..old(self)@
            }));
        }
        Ok(())
    }

    /// Copy registers V[0..=reg] into memory at I..=I+reg.
    #[verifier::loop_isolation(false)]
    fn dump_register_file(&mut self, reg: u8)
        requires
            old(self)@.wf(),
            reg < 16,
            old(self)@.i + reg + 1 <= 4096,
        ensures
            final(self)@ == (Machine {
                memory: Seq::new(
                    4096,
                    |j: int| if old(self)@.i <= j <= old(self)@.i + reg {
                        old(self)@.registers[j - old(self)@.i]
                    } else {
                        old(self)@.memory[j]
                    },
                ),
                ..old(self)@
            }),
    {
        let ghost m0 = old(self)@;
        let base: usize = self.i as usize;
        let mut j: usize = 0;
        while j < reg as usize + 1
            invariant
                j <= reg as usize + 1,
                self.memory@.len() == 4096,
                forall|k: int|
                    0 <= k < 4096 ==> #[trigger] self.memory@[k] == (if m0.i <= k < m0.i + j {
                        m0.registers[k - m0.i]
                    } else {
                        m0.memory[k]
                    }),
                self.registers == old(self).registers,
                self.i == old(self).i,
                self.pc == old(self).pc,
                self.sp == old(self).sp,
                self.stack == old(self).stack,
                self.screen == old(self).screen,
                self.keys == old(self).keys,
                self.delay_timer == old(self).delay_timer,
                self.drawn == old(self).drawn,
                self.opcode == old(self).opcode,
                self.halted == old(self).halted,
            decreases reg as usize + 1 - j,
        {
            let v: u8 = self.registers[j];
            self.memory.set(base + j, v);
            j += 1;
        }
        proof {
            assert(self.memory@ =~= Seq::new(
                4096,
                |j: int| if m0.i <= j <= m0.i + reg {
                    m0.registers[j - m0.i]
                } else {
                    m0.memory[j]
                },
            ));
            assert(self@ =~~= (Machine {
                memory: Seq::new(
                    4096,
                    |j: int| if m0.i <= j <= m0.i + reg {
                        m0.registers[j - m0.i]
                    } else {
                        m0.memory[j]
                    },
                ),
                ..m0
            }));
        }
    }

    /// Fill registers V[0..=reg] from memory at I..=I+reg.
    #[verifier::loop_isolation(false)]
    fn load_register_file(&mut self, reg: u8)
        requires
            old(self)@.wf(),
            reg < 16,
            old(self)@.i + reg + 1 <= 4096,
        ensures
            final(self)@ == (Machine {
                registers: Seq::new(
                    16,
                    |j: int| if j <= reg {
                        old(self)@.memory[old(self)@.i + j]
                    } else {
                        old(self)@.registers[j]
                    },
                ),
                ..old(self)@
            }),
    {
        let ghost m0 = old(self)@;
        let base: usize = self.i as usize;
        let mut j: usize = 0;
        while j < reg as usize + 1
            invariant
                j <= reg as usize + 1,
                self.registers@.len() == 16,
                forall|k: int|
                    0 <= k < 16 ==> #[trigger] self.registers@[k] == (if k < j {
                        m0.memory[m0.i + k]
                    } else {
                        m0.registers[k]
                    }),
                self.memory == old(self).memory,
                self.i == old(self).i,
                self.pc == old(self).pc,
                self.sp == old(self).sp,
                self.stack == old(self).stack,
                self.screen == old(self).screen,
                self.keys == old(self).keys,
                self.delay_timer == old(self).delay_timer,
                self.drawn == old(self).drawn,
                self.opcode == old(self).opcode,
                self.halted == old(self).halted,
            decreases reg as usize + 1 - j,
        {
            let b: u8 = self.memory[base + j];
            self.registers.set(j, b);
            j += 1;
        }
        proof {
            assert(self.registers@ =~= Seq::new(
                16,
                |j: int| if j <= reg {
                    m0.memory[m0.i + j]
                } else {
                    m0.registers[j]
                },
            ));
            assert(self@ =~~= (Machine {
                registers: Seq::new(
                    16,
                    |j: int| if j <= reg {
                        m0.memory[m0.i + j]
                    } else {
                        m0.registers[j]
                    },
                ),
                ..m0
            }));
        }
    }

    /// XOR an `n`-row sprite read from memory at I onto the display at
    /// (V[x], V[y]); both axes wrap, and VF becomes the collision flag.
    #[verifier::loop_isolation(false)]
    fn draw_sprite(&mut self, x: u8, y: u8, n: u16)
        requires
            old(self)@.wf(),
            x < 16,
            y < 16,
            n <= 15,
            n == 0 || old(self)@.i + n <= 4096,
        ensures
            final(self)@ == (Machine {
                drawn: true,
                registers: old(self)@.registers.update(
                    15,
                    if spec_draw_collision(
                        old(self)@.screen,
                        old(self)@.memory,
                        old(self)@.i as int,
                        old(self)@.registers[x as int] as int,
                        old(self)@.registers[y as int] as int,
                        n as int,
                    ) {
                        1u8
                    } else {
                        0u8
                    },
                ),
                screen: spec_draw_screen(
                    old(self)@.screen,
                    old(self)@.memory,
                    old(self)@.i as int,
                    old(self)@.registers[x as int] as int,
                    old(self)@.registers[y as int] as int,
                    n as int,
                ),
                ..old(self)@
            }),
    {
        let ghost m0 = old(self)@;
        let vx: u8 = self.registers[x as usize];
        let vy: u8 = self.registers[y as usize];
        let ghost vxi: int = vx as int;
        let ghost vyi: int = vy as int;
        let ghost i0: int = m0.i as int;
        self.drawn = true;
        self.registers.set(15, 0);
        proof {
            lemma_bits01();
            assert(self.registers@ =~= m0.registers.update(15, 0u8));
            assert(self.screen@.len() == 32);
            assert forall|r: int| 0 <= r < 32 implies (#[trigger] self.screen@[r])@.len()
                == 64 by {
                assert(m0.screen[r] == self.screen@[r]@);
            };
            assert forall|r: int, c: int| 0 <= r < 32 && 0 <= c < 64 implies (
            #[trigger] self.screen@[r]@[c]) == draw_pixel_upto(
                m0.screen[r][c],
                m0.memory,
                i0,
                vxi,
                vyi,
                0,
                0,
                r,
                c,
            ) by {
                assert(m0.screen[r] == self.screen@[r]@);
            };
        }
        let nn: usize = n as usize;
        let mut row: usize = 0;
        while row < nn
            invariant
                row <= nn,
                self.memory == old(self).memory,
                self.i == old(self).i,
                self.pc == old(self).pc,
                self.sp == old(self).sp,
                self.stack == old(self).stack,
                self.keys == old(self).keys,
                self.delay_timer == old(self).delay_timer,
                self.opcode == old(self).opcode,
                self.halted == old(self).halted,
                self.drawn == true,
                self.registers@ == m0.registers.update(
                    15,
                    if collision_upto(m0.screen, m0.memory, i0, vxi, vyi, row as int, 0) {
                        1u8
                    } else {
                        0u8
                    },
                ),
                self.screen@.len() == 32,
                forall|r: int| 0 <= r < 32 ==> (#[trigger] self.screen@[r])@.len() == 64,
                forall|r: int, c: int|
                    0 <= r < 32 && 0 <= c < 64 ==> (#[trigger] self.screen@[r]@[c])
                        == draw_pixel_upto(
                        m0.screen[r][c],
                        m0.memory,
                        i0,
                        vxi,
                        vyi,
                        row as int,
                        0,
                        r,
                        c,
                    ),
            decreases nn - row,
        {
            let addr: usize = self.i as usize + row;
            let mem_byte: u8 = self.memory[addr];
            let yy: usize = (vy as usize + row) % 32;
            proof {
                lemma_offset_roundtrip(vyi, row as int, 32);
                assert(row_offset(vyi, yy as int) == row as int);
                assert(mem_byte == m0.memory[i0 + row]);
            }
            let mut row_buf: Vec<u8> = Vec::new();
            let mut cc: usize = 0;
            while cc < 64
                invariant
                    cc <= 64,
                    row_buf@.len() == cc,
                    forall|k: int| 0 <= k < cc ==> #[trigger] row_buf@[k] == self.screen@[yy as int]@[k],
                decreases 64 - cc,
            {
                let pixv: u8 = self.screen[yy][cc];
                row_buf.push(pixv);
                cc += 1;
            }
            let mut bit: usize = 0;
            while bit < 8
                invariant
                    bit <= 8,
                    row_buf@.len() == 64,
                    self.memory == old(self).memory,
                    self.i == old(self).i,
                    self.pc == old(self).pc,
                    self.sp == old(self).sp,
                    self.stack == old(self).stack,
                    self.keys == old(self).keys,
                    self.delay_timer == old(self).delay_timer,
                    self.opcode == old(self).opcode,
                    self.halted == old(self).halted,
                    self.drawn == true,
                    self.screen@.len() == 32,
                    forall|r: int| 0 <= r < 32 ==> (#[trigger] self.screen@[r])@.len() == 64,
                    forall|r: int, c: int|
                        0 <= r < 32 && 0 <= c < 64 ==> (#[trigger] self.screen@[r]@[c])
                            == draw_pixel_upto(
                            m0.screen[r][c],
                            m0.memory,
                            i0,
                            vxi,
                            vyi,
                            row as int,
                            0,
                            r,
                            c,
                        ),
                    self.registers@ == m0.registers.update(
                        15,
                        if collision_upto(m0.screen, m0.memory, i0, vxi, vyi, row as int, bit as int) {
                            1u8
                        } else {
                            0u8
                        },
                    ),
                    forall|c: int|
                        0 <= c < 64 ==> #[trigger] row_buf@[c] == draw_pixel_upto(
                            m0.screen[yy as int][c],
                            m0.memory,
                            i0,
                            vxi,
                            vyi,
                            row as int,
                            bit as int,
                            yy as int,
                            c,
                        ),
                decreases 8 - bit,
            {
                let xx: usize = (vx as usize + bit) % 64;
                let sh: u8 = 7 - (bit as u8);
                let color: u8 = (mem_byte >> sh) & 1;
                let cur: u8 = row_buf[xx];
                proof {
                    lemma_offset_roundtrip(vxi, bit as int, 64);
                    assert(col_offset(vxi, xx as int) == bit as int);
                    assert(cur == m0.screen[yy as int][xx as int]);
                    assert(color == sprite_bit(m0.memory[i0 + row], bit as int));
                }
                if cur == 1 && color == 1 {
                    self.registers.set(15, 1);
                    proof {
                        assert(collides_at(m0.screen, m0.memory, i0, vxi, vyi, row as int, bit as int));
                        assert(collision_upto(
                            m0.screen,
                            m0.memory,
                            i0,
                            vxi,
                            vyi,
                            row as int,
                            bit as int + 1,
                        ));
                        assert(self.registers@ =~= m0.registers.update(15, 1u8));
                    }
                } else {
                    proof {
                        assert(!collides_at(m0.screen, m0.memory, i0, vxi, vyi, row as int, bit as int));
                        if collision_upto(m0.screen, m0.memory, i0, vxi, vyi, row as int, bit as int + 1) {
                            let (r2, b2): (int, int) = choose|r2: int, b2: int|
                                0 <= r2 && 0 <= b2 < 8 && (r2 < row as int || (r2 == row as int && b2
                                    < bit as int + 1)) && #[trigger] collides_at(
                                    m0.screen,
                                    m0.memory,
                                    i0,
                                    vxi,
                                    vyi,
                                    r2,
                                    b2,
                                );
                            assert(r2 < row as int || (r2 == row as int && b2 < bit as int));
                            assert(collision_upto(m0.screen, m0.memory, i0, vxi, vyi, row as int, bit as int));
                        }
                    }
                }
                let newpix: u8 = cur ^ color;
                row_buf.set(xx, newpix);
                bit += 1;
                proof {
                    assert forall|c: int| 0 <= c < 64 implies #[trigger] row_buf@[c]
                        == draw_pixel_upto(
                        m0.screen[yy as int][c],
                        m0.memory,
                        i0,
                        vxi,
                        vyi,
                        row as int,
                        bit as int,
                        yy as int,
                        c,
                    ) by {
                        if c != xx as int {
                            if col_offset(vxi, c) == bit as int - 1 {
                                lemma_offset_inverse(vxi, c, 64);
                            }
                        }
                    };
                }
            }
            self.screen.set(yy, row_buf);
            row += 1;
            proof {
                assert forall|r: int, c: int| 0 <= r < 32 && 0 <= c < 64 implies (
                #[trigger] self.screen@[r]@[c]) == draw_pixel_upto(
                    m0.screen[r][c],
                    m0.memory,
                    i0,
                    vxi,
                    vyi,
                    row as int,
                    0,
                    r,
                    c,
                ) by {
                    if r != yy as int {
                        if row_offset(vyi, r) == row as int - 1 {
                            lemma_offset_inverse(vyi, r, 32);
                        }
                    }
                };
                assert(collision_upto(m0.screen, m0.memory, i0, vxi, vyi, row as int - 1, 8)
                    == collision_upto(m0.screen, m0.memory, i0, vxi, vyi, row as int, 0)) by {
                    if collision_upto(m0.screen, m0.memory, i0, vxi, vyi, row as int - 1, 8) {
                        let (r2, b2): (int, int) = choose|r2: int, b2: int|
                            0 <= r2 && 0 <= b2 < 8 && (r2 < row as int - 1 || (r2 == row as int - 1
                                && b2 < 8)) && #[trigger] collides_at(
                                m0.screen,
                                m0.memory,
                                i0,
                                vxi,
                                vyi,
                                r2,
                                b2,
                            );
                        assert(r2 < row as int);
                        assert(collision_upto(m0.screen, m0.memory, i0, vxi, vyi, row as int, 0));
                    }
                    if collision_upto(m0.screen, m0.memory, i0, vxi, vyi, row as int, 0) {
                        let (r2, b2): (int, int) = choose|r2: int, b2: int|
                            0 <= r2 && 0 <= b2 < 8 && (r2 < row as int || (r2 == row as int && b2
                                < 0)) && #[trigger] collides_at(
                                m0.screen,
                                m0.memory,
                                i0,
                                vxi,
                                vyi,
                                r2,
                                b2,
                            );
                        assert(r2 < row as int - 1 || (r2 == row as int - 1 && b2 < 8));
                        assert(collision_upto(m0.screen, m0.memory, i0, vxi, vyi, row as int - 1, 8));
                    }
                };
            }
        }
        proof {
            assert(screen_view(self.screen) =~~= spec_draw_screen(
                m0.screen,
                m0.memory,
                i0,
                vxi,
                vyi,
                n as int,
            ));
            assert(self@ =~~= (Machine {
                drawn: true,
                registers: m0.registers.update(
                    15,
                    if spec_draw_collision(m0.screen, m0.memory, i0, vxi, vyi, n as int) {
                        1u8
                    } else {
                        0u8
                    },
                ),
                screen: spec_draw_screen(m0.screen, m0.memory, i0, vxi, vyi, n as int),
                ..m0
            }));
        }
    }

    /// Skip the next instruction when `cond` holds: the PC moves to the
    /// definitive target two instructions ahead.
    fn skip_if(&mut self, cond: bool) -> (pc_set: bool)
        ensures
            pc_set == cond,
            (final(self)@, pc_set) == skipped(old(self)@, cond),
    {
        if cond {
            self.pc = self.pc.wrapping_add(4);
            proof {
                assert(self@ =~~= skipped(old(self)@, true).0);
            }
            true
        } else {
            false
        }
    }

    /// Halt the machine on a guard violation, changing nothing else.
    fn halt(&mut self)
        ensures
            final(self)@ == (Machine { halted: true, ..old(self)@ }),
    {
        self.halted = true;
        proof {
            assert(self@ =~~= (Machine { halted: true, ..old(self)@ }));
        }
    }

    /// Control-flow opcodes: jumps, calls, returns and the four skips.
    #[verifier::rlimit(60)]
    fn exec_flow(&mut self, instr: Instruction) -> (pc_set: bool)
        requires
            old(self)@.wf(),
            wf_instruction(instr),
            instr is Jmp || instr is Call || instr is Ret || instr is Se || instr is Sne
                || instr is ConstantSe || instr is ConstantSne || instr is Skp || instr is Sknp
                || instr is JmpA,
        ensures
            exists|rnd: u8|
                (final(self)@, pc_set) == #[trigger] run_op_model(old(self)@, instr, rnd),
    {
        match instr {
            Instruction::Jmp { location } => {
                self.pc = location;
                proof {
                    assert(self@ =~~= run_op_model(old(self)@, instr, 0u8).0);
                    assert((self@, true) == run_op_model(old(self)@, instr, 0u8));
                }
                true
            },
            Instruction::Call { location } => {
                if self.sp >= 16 {
                    self.halt();
                    proof {
                        assert((self@, false) == run_op_model(old(self)@, instr, 0u8));
                    }
                    false
                } else {
                    let ret_addr: u16 = self.pc.wrapping_add(2);
                    self.stack.set(self.sp as usize, ret_addr);
                    self.sp = self.sp + 1;
                    self.pc = location;
                    proof {
                        assert(self@ =~~= run_op_model(old(self)@, instr, 0u8).0);
                        assert((self@, true) == run_op_model(old(self)@, instr, 0u8));
                    }
                    true
                }
            },
            Instruction::Ret => {
                if self.sp == 0 {
                    self.halt();
                    proof {
                        assert((self@, false) == run_op_model(old(self)@, instr, 0u8));
                    }
                    false
                } else {
                    self.sp = self.sp - 1;
                    self.pc = self.stack[self.sp as usize];
                    proof {
                        assert(self@ =~~= run_op_model(old(self)@, instr, 0u8).0);
                        assert((self@, true) == run_op_model(old(self)@, instr, 0u8));
                    }
                    true
                }
            },
            Instruction::Se { x, y } => {
                let cond: bool = self.registers[x as usize] == self.registers[y as usize];
                let r: bool = self.skip_if(cond);
                proof {
                    assert((self@, r) == run_op_model(old(self)@, instr, 0u8));
                }
                r
            },
            Instruction::Sne { regx, regy } => {
                let cond: bool = self.registers[regx as usize] != self.registers[regy as usize];
                let r: bool = self.skip_if(cond);
                proof {
                    assert((self@, r) == run_op_model(old(self)@, instr, 0u8));
                }
                r
            },
            Instruction::ConstantSe { reg, byte } => {
                let cond: bool = self.registers[reg as usize] == byte;
                let r: bool = self.skip_if(cond);
                proof {
                    assert((self@, r) == run_op_model(old(self)@, instr, 0u8));
                }
                r
            },
            Instruction::ConstantSne { reg, byte } => {
                let cond: bool = self.registers[reg as usize] != byte;
                let r: bool = self.skip_if(cond);
                proof {
                    assert((self@, r) == run_op_model(old(self)@, instr, 0u8));
                }
                r
            },
            Instruction::Skp { key } => {
                let vk: u8 = self.registers[key as usize];
                if vk >= 16 {
                    self.halt();
                    proof {
                        assert((self@, false) == run_op_model(old(self)@, instr, 0u8));
                    }
                    false
                } else {
                    let cond: bool = self.keys[vk as usize];
                    let r: bool = self.skip_if(cond);
                    proof {
                        assert((self@, r) == run_op_model(old(self)@, instr, 0u8));
                    }
                    r
                }
            },
            Instruction::Sknp { key } => {
                let vk: u8 = self.registers[key as usize];
                if vk >= 16 {
                    self.halt();
                    proof {
                        assert((self@, false) == run_op_model(old(self)@, instr, 0u8));
                    }
                    false
                } else {
                    let cond: bool = !self.keys[vk as usize];
                    let r: bool = self.skip_if(cond);
                    proof {
                        assert((self@, r) == run_op_model(old(self)@, instr, 0u8));
                    }
                    r
                }
            },
            Instruction::JmpA { loc } => {
                let v0: u16 = self.registers[0] as u16;
                self.pc = v0 + loc;
                proof {
                    assert(self@ =~~= run_op_model(old(self)@, instr, 0u8).0);
                    assert((self@, true) == run_op_model(old(self)@, instr, 0u8));
                }
                true
            },
            _ => unreached(),
        }
    }

    /// Register-file opcodes: moves, bitwise operations, the flagged
    /// arithmetic, the shifts, the delay-timer transfers, and the
    /// random-masked load.
    #[verifier::rlimit(60)]
    fn exec_alu(&mut self, instr: Instruction) -> (pc_set: bool)
        requires
            old(self)@.wf(),
            wf_instruction(instr),
            instr is AddO || instr is Load || instr is Or || instr is And || instr is Xor
                || instr is Add || instr is Sub || instr is Subn || instr is Shr || instr is Shl
                || instr is SetImm || instr is LdDelay || instr is SetDelay || instr is Random,
        ensures
            exists|rnd: u8|
                (final(self)@, pc_set) == #[trigger] run_op_model(old(self)@, instr, rnd),
    {
        match instr {
            Instruction::AddO { reg, byte } => {
                let v: u8 = self.registers[reg as usize];
                let sum: u16 = v as u16 + byte as u16;
                self.registers.set(reg as usize, (sum % 256) as u8);
                proof {
                    assert(self@ =~~= run_op_model(old(self)@, instr, 0u8).0);
                    assert((self@, false) == run_op_model(old(self)@, instr, 0u8));
                }
                false
            },
            Instruction::Load { regx, regy } => {
                let v: u8 = self.registers[regy as usize];
                self.registers.set(regx as usize, v);
                proof {
                    assert(self@ =~~= run_op_model(old(self)@, instr, 0u8).0);
                    assert((self@, false) == run_op_model(old(self)@, instr, 0u8));
                }
                false
            },
            Instruction::Or { regx, regy } => {
                let a: u8 = self.registers[regx as usize];
                let b: u8 = self.registers[regy as usize];
                self.registers.set(regx as usize, a | b);
                proof {
                    assert(self@ =~~= run_op_model(old(self)@, instr, 0u8).0);
                    assert((self@, false) == run_op_model(old(self)@, instr, 0u8));
                }
                false
            },
            Instruction::And { regx, regy } => {
                let a: u8 = self.registers[regx as usize];
                let b: u8 = self.registers[regy as usize];
                self.registers.set(regx as usize, a & b);
                proof {
                    assert(self@ =~~= run_op_model(old(self)@, instr, 0u8).0);
                    assert((self@, false) == run_op_model(old(self)@, instr, 0u8));
                }
                false
            },
            Instruction::Xor { regx, regy } => {
                let a: u8 = self.registers[regx as usize];
                let b: u8 = self.registers[regy as usize];
                self.registers.set(regx as usize, a ^ b);
                proof {
                    assert(self@ =~~= run_op_model(old(self)@, instr, 0u8).0);
                    assert((self@, false) == run_op_model(old(self)@, instr, 0u8));
                }
                false
            },
            Instruction::Add { regx, regy } => {
                let a: u8 = self.registers[regx as usize];
                let b: u8 = self.registers[regy as usize];
                let sum: u16 = a as u16 + b as u16;
                let vf: u8 = if sum > 255 {
                    1
                } else {
                    0
                };
                self.registers.set(15, vf);
                self.registers.set(regx as usize, (sum % 256) as u8);
                proof {
                    assert(self@ =~~= run_op_model(old(self)@, instr, 0u8).0);
                    assert((self@, false) == run_op_model(old(self)@, instr, 0u8));
                }
                false
            },
            Instruction::Sub { regx, regy } => {
                let a: u8 = self.registers[regx as usize];
                let b: u8 = self.registers[regy as usize];
                let vf: u8 = if a > b {
                    1
                } else {
                    0
                };
                let diff: u16 = (a as u16 + 256) - (b as u16);
                self.registers.set(15, vf);
                self.registers.set(regx as usize, (diff % 256) as u8);
                proof {
                    vstd::arithmetic::div_mod::lemma_mod_add_multiples_vanish(
                        a as int - b as int,
                        256,
                    );
                    assert(self@ =~~= run_op_model(old(self)@, instr, 0u8).0);
                    assert((self@, false) == run_op_model(old(self)@, instr, 0u8));
                }
                false
            },
            Instruction::Subn { regx, regy } => {
                let a: u8 = self.registers[regx as usize];
                let b: u8 = self.registers[regy as usize];
                let vf: u8 = if b > a {
                    1
                } else {
                    0
                };
                let diff: u16 = (b as u16 + 256) - (a as u16);
                self.registers.set(15, vf);
                self.registers.set(regx as usize, (diff % 256) as u8);
                proof {
                    vstd::arithmetic::div_mod::lemma_mod_add_multiples_vanish(
                        b as int - a as int,
                        256,
                    );
                    assert(self@ =~~= run_op_model(old(self)@, instr, 0u8).0);
                    assert((self@, false) == run_op_model(old(self)@, instr, 0u8));
                }
                false
            },
            Instruction::Shr { reg } => {
                let a: u8 = self.registers[reg as usize];
                self.registers.set(15, a % 2);
                self.registers.set(reg as usize, a / 2);
                proof {
                    assert(self@ =~~= run_op_model(old(self)@, instr, 0u8).0);
                    assert((self@, false) == run_op_model(old(self)@, instr, 0u8));
                }
                false
            },
            Instruction::Shl { reg } => {
                let a: u8 = self.registers[reg as usize];
                let doubled: u16 = a as u16 * 2;
                self.registers.set(15, a / 128);
                self.registers.set(reg as usize, (doubled % 256) as u8);
                proof {
                    assert(self@ =~~= run_op_model(old(self)@, instr, 0u8).0);
                    assert((self@, false) == run_op_model(old(self)@, instr, 0u8));
                }
                false
            },
            Instruction::SetImm { reg, byte } => {
                self.registers.set(reg as usize, byte);
                proof {
                    assert(self@ =~~= run_op_model(old(self)@, instr, 0u8).0);
                    assert((self@, false) == run_op_model(old(self)@, instr, 0u8));
                }
                false
            },
            Instruction::LdDelay { reg } => {
                let d: u8 = self.delay_timer;
                self.registers.set(reg as usize, d);
                proof {
                    assert(self@ =~~= run_op_model(old(self)@, instr, 0u8).0);
                    assert((self@, false) == run_op_model(old(self)@, instr, 0u8));
                }
                false
            },
            Instruction::SetDelay { reg } => {
                self.delay_timer = self.registers[reg as usize];
                proof {
                    assert(self@ =~~= run_op_model(old(self)@, instr, 0u8).0);
                    assert((self@, false) == run_op_model(old(self)@, instr, 0u8));
                }
                false
            },
            Instruction::Random { reg, byte } => {
                let rb: u8 = random_byte(&mut self.rng);
                self.registers.set(reg as usize, byte & rb);
                proof {
                    assert(self@ =~~= run_op_model(old(self)@, instr, rb).0);
                    assert((self@, false) == run_op_model(old(self)@, instr, rb));
                }
                false
            },
            _ => unreached(),
        }
    }

    /// Memory and display opcodes: the index register loads, BCD, the
    /// register-file block transfers, the sprite draw and the clear.
    #[verifier::rlimit(60)]
    fn exec_mem(&mut self, instr: Instruction) -> (pc_set: bool)
        requires
            old(self)@.wf(),
            wf_instruction(instr),
            instr is LdI || instr is AddI || instr is LdB || instr is LdFont
                || instr is SetLong || instr is LdLong || instr is Draw || instr is Clear
                || instr is Unknown,
        ensures
            exists|rnd: u8|
                (final(self)@, pc_set) == #[trigger] run_op_model(old(self)@, instr, rnd),
    {
        match instr {
            Instruction::LdI { loc } => {
                self.i = loc;
                proof {
                    assert(self@ =~~= run_op_model(old(self)@, instr, 0u8).0);
                    assert((self@, false) == run_op_model(old(self)@, instr, 0u8));
                }
                false
            },
            Instruction::AddI { reg } => {
                let v: u16 = self.registers[reg as usize] as u16;
                self.i = self.i.wrapping_add(v);
                proof {
                    assert(self@ =~~= run_op_model(old(self)@, instr, 0u8).0);
                    assert((self@, false) == run_op_model(old(self)@, instr, 0u8));
                }
                false
            },
            Instruction::LdB { reg } => {
                if self.i > 4093 {
                    self.halt();
                    proof {
                        assert((self@, false) == run_op_model(old(self)@, instr, 0u8));
                    }
                    false
                } else {
                    let v: u8 = self.registers[reg as usize];
                    let base: usize = self.i as usize;
                    self.memory.set(base, v / 100);
                    self.memory.set(base + 1, (v / 10) % 10);
                    self.memory.set(base + 2, v % 10);
                    proof {
                        assert(self@ =~~= run_op_model(old(self)@, instr, 0u8).0);
                        assert((self@, false) == run_op_model(old(self)@, instr, 0u8));
                    }
                    false
                }
            },
            Instruction::LdFont { reg } => {
                let v: u16 = self.registers[reg as usize] as u16;
                self.i = v * 5;
                proof {
                    assert(self@ =~~= run_op_model(old(self)@, instr, 0u8).0);
                    assert((self@, false) == run_op_model(old(self)@, instr, 0u8));
                }
                false
            },
            Instruction::SetLong { reg } => {
                if self.i as usize + (reg as usize + 1) > 4096 {
                    self.halt();
                    proof {
                        assert((self@, false) == run_op_model(old(self)@, instr, 0u8));
                    }
                    false
                } else {
                    self.dump_register_file(reg);
                    proof {
                        assert(self@ =~~= run_op_model(old(self)@, instr, 0u8).0);
                        assert((self@, false) == run_op_model(old(self)@, instr, 0u8));
                    }
                    false
                }
            },
            Instruction::LdLong { reg } => {
                if self.i as usize + (reg as usize + 1) > 4096 {
                    self.halt();
                    proof {
                        assert((self@, false) == run_op_model(old(self)@, instr, 0u8));
                    }
                    false
                } else {
                    self.load_register_file(reg);
                    proof {
                        assert(self@ =~~= run_op_model(old(self)@, instr, 0u8).0);
                        assert((self@, false) == run_op_model(old(self)@, instr, 0u8));
                    }
                    false
                }
            },
            Instruction::Draw { x, y, n } => {
                if n > 0 && self.i as usize + n as usize > 4096 {
                    self.halt();
                    proof {
                        assert((self@, false) == run_op_model(old(self)@, instr, 0u8));
                    }
                    false
                } else {
                    self.draw_sprite(x, y, n);
                    proof {
                        assert(self@ =~~= run_op_model(old(self)@, instr, 0u8).0);
                        assert((self@, false) == run_op_model(old(self)@, instr, 0u8));
                    }
                    false
                }
            },
            Instruction::Clear => {
                self.drawn = true;
                self.screen = make_blank_screen();
                proof {
                    assert(self@ =~~= run_op_model(old(self)@, instr, 0u8).0);
                    assert((self@, false) == run_op_model(old(self)@, instr, 0u8));
                }
                false
            },
            Instruction::Unknown => {
                proof {
                    assert(self@ =~~= run_op_model(old(self)@, instr, 0u8).0);
                    assert((self@, false) == run_op_model(old(self)@, instr, 0u8));
                }
                false
            },
            _ => unreached(),
        }
    }

    /// Execute one decoded instruction against the machine state, exactly
    /// as `run_op_model` describes it.
    ///
    /// Returns true when the instruction set the PC to a definitive
    /// target (jumps, calls, returns and taken skips); the step cycle
    /// advances the PC by 2 only when this is false. An instruction whose
    /// guard fails (see `op_guard`) halts the machine and changes nothing
    /// else.
    pub fn run_op(&mut self, instr: Instruction) -> (pc_set: bool)
        requires
            old(self)@.wf(),
            wf_instruction(instr),
        ensures
            final(self)@.wf(),
            exists|rnd: u8|
                (final(self)@, pc_set) == #[trigger] run_op_model(old(self)@, instr, rnd),
    {
        let pc_set: bool = match instr {
            Instruction::Jmp { .. } | Instruction::Call { .. } | Instruction::Ret
            | Instruction::Se { .. } | Instruction::Sne { .. } | Instruction::ConstantSe { .. }
            | Instruction::ConstantSne { .. } | Instruction::Skp { .. }
            | Instruction::Sknp { .. } | Instruction::JmpA { .. } => self.exec_flow(instr),
            Instruction::AddO { .. } | Instruction::Load { .. } | Instruction::Or { .. }
            | Instruction::And { .. } | Instruction::Xor { .. } | Instruction::Add { .. }
            | Instruction::Sub { .. } | Instruction::Subn { .. } | Instruction::Shr { .. }
            | Instruction::Shl { .. } | Instruction::SetImm { .. } | Instruction::LdDelay { .. }
            | Instruction::SetDelay { .. } | Instruction::Random { .. } => self.exec_alu(instr),
            Instruction::LdI { .. } | Instruction::AddI { .. } | Instruction::LdB { .. }
            | Instruction::LdFont { .. } | Instruction::SetLong { .. }
            | Instruction::LdLong { .. } | Instruction::Draw { .. } | Instruction::Clear
            | Instruction::Unknown => self.exec_mem(instr),
        };
        proof {
            let rnd_w: u8 = choose|rnd: u8|
                (self@, pc_set) == #[trigger] run_op_model(old(self)@, instr, rnd);
            lemma_run_op_model_wf(old(self)@, instr, rnd_w);
        }
        pc_set
    }

    /// Run one fetch-decode-execute-advance cycle against the supplied
    /// key state, exactly as `step_model` describes it.
    ///
    /// The report carries a snapshot of the display, whether this cycle
    /// touched it, and whether the machine has halted: either the machine
    /// hit a fault (see `op_guard`), the fetch fell outside memory, or
    /// the advanced PC fell outside memory.
    #[verifier::rlimit(60)]
    pub fn step(&mut self, keys: [bool; 16]) -> (r: ExecutionState)
        requires
            old(self)@.wf(),
            !old(self)@.halted,
        ensures
            final(self)@.wf(),
            exists|rnd: u8| final(self)@ == #[trigger] step_model(old(self)@, keys@, rnd),
            r.finished == (final(self)@.halted || final(self)@.pc >= 4096),
            r.drawn == final(self)@.drawn,
            screen_view(r.screen) == final(self)@.screen,
    {
        self.keys = keys;
        self.drawn = false;
        if self.pc >= 4095 {
            self.halted = true;
            proof {
                assert(self@ =~~= step_model(old(self)@, keys@, 0u8));
            }
            let scr: Vec<Vec<u8>> = clone_screen(&self.screen);
            return ExecutionState { finished: true, screen: scr, drawn: false };
        }
        let pc_now: usize = self.pc as usize;
        let hi: u8 = self.memory[pc_now];
        let lo: u8 = self.memory[pc_now + 1];
        let op: u16 = (hi as u16) * 256 + (lo as u16);
        self.opcode = op;
        if self.delay_timer > 0 {
            self.delay_timer = self.delay_timer - 1;
        }
        let ghost m2 = self@;
        let instr: Instruction = crate::instruction::convert_op(op);
        let pc_set: bool = self.run_op(instr);
        let ghost m3 = self@;
        let ghost rnd_w: u8 = choose|rnd: u8|
            (m3, pc_set) == #[trigger] run_op_model(m2, instr, rnd);
        proof {
            lemma_run_op_model_pc(m2, instr, rnd_w);
        }
        if !pc_set && !self.halted {
            self.pc = self.pc + 2;
        }
        proof {
            assert(self@ =~~= step_model(old(self)@, keys@, rnd_w));
        }
        let finished: bool = self.halted || self.pc >= 4096;
        let scr: Vec<Vec<u8>> = clone_screen(&self.screen);
        ExecutionState { finished, screen: scr, drawn: self.drawn }
    }
}

/// A deep copy of the display buffer.
#[verifier::loop_isolation(false)]
fn clone_screen(s: &Vec<Vec<u8>>) -> (r: Vec<Vec<u8>>)
    ensures
        screen_view(r) == screen_view(*s),
{
    let mut r: Vec<Vec<u8>> = Vec::new();
    let mut i: usize = 0;
    while i < s.len()
        invariant
            i <= s@.len(),
            r@.len() == i,
            forall|k: int| 0 <= k < i ==> (#[trigger] r@[k])@ == s@[k]@,
        decreases s@.len() - i,
    {
        let srow: &Vec<u8> = &s[i];
        let mut row: Vec<u8> = Vec::new();
        let mut j: usize = 0;
        while j < srow.len()
            invariant
                j <= srow@.len(),
                row@.len() == j,
                forall|k: int| 0 <= k < j ==> #[trigger] row@[k] == srow@[k],
            decreases srow@.len() - j,
        {
            let b: u8 = srow[j];
            row.push(b);
            j += 1;
        }
        proof {
            assert(row@ =~= srow@);
        }
        r.push(row);
        i += 1;
    }
    proof {
        assert(screen_view(*s).len() == s@.len());
        assert(screen_view(r) =~~= screen_view(*s));
    }
    r
}


/// Some bit of the sprite's drawn window is set.
pub open spec fn sprite_visible(mem: Seq<u8>, i: int, n: int) -> bool {
    exists|row: int, bit: int|
        0 <= row < n && 0 <= bit < 8 && #[trigger] sprite_bit(mem[i + row], bit) == 1
}

/// Adding register y into register x stores the 8-bit wrapped sum and
/// raises VF exactly when the true sum exceeds 255. Stated for x other
/// than the flag register itself, which the stored sum would overwrite.
pub proof fn lemma_add_reg_flag(m: Machine, x: u8, y: u8, rnd: u8)
    requires
        m.wf(),
        x < 15,
        y < 16,
    ensures
        ({
            let m2 = run_op_model(m, Instruction::Add { regx: x, regy: y }, rnd).0;
            let a = m.registers[x as int];
            let b = m.registers[y as int];
            &&& m2.registers[x as int] == (a + b) % 256
            &&& (m2.registers[15] == 1 <==> a + b > 255)
            &&& (m2.registers[15] == 0 <==> a + b <= 255)
        }),
{
}

/// Subtracting register y from register x stores the 8-bit wrapped
/// difference and raises VF exactly when no borrow occurs (x's value
/// strictly exceeds y's). Stated for x other than the flag register.
pub proof fn lemma_sub_reg_flag(m: Machine, x: u8, y: u8, rnd: u8)
    requires
        m.wf(),
        x < 15,
        y < 16,
    ensures
        ({
            let m2 = run_op_model(m, Instruction::Sub { regx: x, regy: y }, rnd).0;
            let a = m.registers[x as int];
            let b = m.registers[y as int];
            &&& m2.registers[x as int] == (a - b) % 256
            &&& (m2.registers[15] == 1 <==> a > b)
            &&& (m2.registers[15] == 0 <==> a <= b)
        }),
{
}

/// A right shift moves the shifted-out low bit into VF and stores the
/// value halved. Stated for a register other than the flag register.
pub proof fn lemma_shift_right_flag(m: Machine, reg: u8, rnd: u8)
    requires
        m.wf(),
        reg < 15,
    ensures
        ({
            let m2 = run_op_model(m, Instruction::Shr { reg }, rnd).0;
            let a = m.registers[reg as int];
            &&& m2.registers[15] == a % 2
            &&& m2.registers[reg as int] == a / 2
        }),
{
}

/// A left shift moves the shifted-out high bit into VF and stores the
/// value doubled, truncated to 8 bits. Stated for a register other than
/// the flag register.
pub proof fn lemma_shift_left_flag(m: Machine, reg: u8, rnd: u8)
    requires
        m.wf(),
        reg < 15,
    ensures
        ({
            let m2 = run_op_model(m, Instruction::Shl { reg }, rnd).0;
            let a = m.registers[reg as int];
            &&& m2.registers[15] == a / 128
            &&& m2.registers[reg as int] == (a * 2) % 256
        }),
{
}

/// A Call followed by a Return leaves the PC at the instruction
/// immediately after the Call, with the stack pointer restored. Stated
/// for a PC whose return address does not wrap the 16-bit register.
pub proof fn lemma_call_return(m: Machine, location: u16, rnd1: u8, rnd2: u8)
    requires
        m.wf(),
        m.sp < 16,
        m.pc <= 0xFFFD,
    ensures
        ({
            let m1 = run_op_model(m, Instruction::Call { location }, rnd1).0;
            let m2 = run_op_model(m1, Instruction::Ret, rnd2).0;
            &&& m1.pc == location
            &&& m2.pc == m.pc + 2
            &&& m2.sp == m.sp
            &&& m2.halted == m.halted
            &&& m2.registers == m.registers
            &&& m2.memory == m.memory
        }),
{
}

/// Drawing a sprite onto a blank screen reports no collision; drawing
/// the same sprite again at the same position erases every pixel, and
/// reports a collision exactly when the sprite's window has a set bit.
pub proof fn lemma_draw_twice_erases(mem: Seq<u8>, i: int, vx: int, vy: int, n: int)
    requires
        0 <= i,
        0 <= n <= 15,
        i + n <= mem.len(),
        0 <= vx,
        0 <= vy,
    ensures
        ({
            let s1 = spec_draw_screen(blank_screen(), mem, i, vx, vy, n);
            let s2 = spec_draw_screen(s1, mem, i, vx, vy, n);
            &&& !spec_draw_collision(blank_screen(), mem, i, vx, vy, n)
            &&& (spec_draw_collision(s1, mem, i, vx, vy, n) <==> sprite_visible(mem, i, n))
            &&& forall|r: int, c: int| 0 <= r < 32 && 0 <= c < 64 ==> (#[trigger] s2[r][c]) == 0
        }),
{
    assert(forall|b: u8| #[trigger] (0u8 ^ b) == b) by (bit_vector);
    assert(forall|b: u8| #[trigger] (b ^ b) == 0u8) by (bit_vector);
    let s1 = spec_draw_screen(blank_screen(), mem, i, vx, vy, n);
    let s2 = spec_draw_screen(s1, mem, i, vx, vy, n);

    // No pixel of a blank screen is set, so the first draw cannot collide.
    assert(!spec_draw_collision(blank_screen(), mem, i, vx, vy, n));

    // After the first draw, each cell of the window holds its sprite bit.
    assert forall|r: int, c: int| 0 <= r < 32 && 0 <= c < 64 implies (#[trigger] s1[r][c])
        == draw_pixel_upto(0u8, mem, i, vx, vy, n, 0, r, c) by {};

    // The second draw XORs the same bit back out of every window cell.
    assert forall|r: int, c: int| 0 <= r < 32 && 0 <= c < 64 implies (#[trigger] s2[r][c])
        == 0 by {
        assert(s2[r][c] == draw_pixel_upto(s1[r][c], mem, i, vx, vy, n, 0, r, c));
        assert(s1[r][c] == draw_pixel_upto(0u8, mem, i, vx, vy, n, 0, r, c));
    };

    // A second-draw collision is exactly a set bit in the window.
    if spec_draw_collision(s1, mem, i, vx, vy, n) {
        let (row, bit): (int, int) = choose|row: int, bit: int|
            0 <= row && 0 <= bit < 8 && (row < n || (row == n && bit < 0))
                && #[trigger] collides_at(s1, mem, i, vx, vy, row, bit);
        lemma_offset_roundtrip(vy, row, 32);
        lemma_offset_roundtrip(vx, bit, 64);
        assert(s1[(vy + row) % 32][(vx + bit) % 64] == sprite_bit(mem[i + row], bit));
        assert(sprite_bit(mem[i + row], bit) == 1);
        assert(sprite_visible(mem, i, n));
    }
    if sprite_visible(mem, i, n) {
        let (row, bit): (int, int) = choose|row: int, bit: int|
            0 <= row < n && 0 <= bit < 8 && #[trigger] sprite_bit(mem[i + row], bit) == 1;
        lemma_offset_roundtrip(vy, row, 32);
        lemma_offset_roundtrip(vx, bit, 64);
        assert(s1[(vy + row) % 32][(vx + bit) % 64] == sprite_bit(mem[i + row], bit));
        assert(collides_at(s1, mem, i, vx, vy, row, bit));
        assert(spec_draw_collision(s1, mem, i, vx, vy, n));
    }
}

} // verus!

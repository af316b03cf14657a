use vstd::prelude::*;

use crate::error::Chip8Error;
use crate::font::font_seq;

verus! {

/// Bytes of addressable memory.
pub const RAM_SIZE: usize = 4096;
/// Display width in pixels.
pub const SCREEN_WIDTH: usize = 64;
/// Display height in pixels.
pub const SCREEN_HEIGHT: usize = 32;
/// Pixels in the display buffer, row-major.
pub const SCREEN_SIZE: usize = 2048;
/// General-purpose registers V0..VF.
pub const REG_COUNT: usize = 16;
/// Slots of the call stack.
pub const STACK_DEPTH: usize = 16;
/// Keys of the hexadecimal keypad.
pub const KEY_COUNT: usize = 16;
/// Address where programs are loaded and execution starts.
pub const START_ADDR: u16 = 0x200;
/// Largest program that fits above the load address.
pub const MAX_ROM_SIZE: usize = 3584;
/// Highest program counter from which a full instruction word can be read.
pub const LAST_FETCH_ADDR: u16 = 4094;
/// Initial state of the pseudo-random generator behind `Cxkk`.
pub const RNG_SEED: u32 = 0x2545_F491;

/// The whole machine state as mathematical values.
pub struct Machine {
    pub pc: u16,
    pub ram: Seq<u8>,
    pub screen: Seq<bool>,
    pub reg: Seq<u8>,
    pub i_reg: u16,
    pub sp: u16,
    pub stack: Seq<u16>,
    pub keys: Seq<bool>,
    pub delay_timer: u8,
    pub sound_timer: u8,
    /// `Some(x)` while a key-wait instruction holds execution, storing into Vx.
    pub key_wait: Option<u8>,
    pub rng: u32,
    /// Whether `Fx1E` reports an index past 0xFFF in VF.
    pub index_carry: bool,
}

impl Machine {
    /// Sizes of all buffers are fixed and the stack pointer is in range.
    pub open spec fn wf(self) -> bool {
        &&& self.ram.len() == RAM_SIZE
        &&& self.screen.len() == SCREEN_SIZE
        &&& self.reg.len() == REG_COUNT
        &&& self.stack.len() == STACK_DEPTH
        &&& self.keys.len() == KEY_COUNT
        &&& self.sp <= STACK_DEPTH
        &&& (self.key_wait matches Some(x) ==> x < REG_COUNT)
    }

    /// The state of a freshly built machine.
    pub open spec fn initial() -> Machine {
        Machine {
            pc: START_ADDR,
            ram: Seq::new(
                RAM_SIZE as nat,
                |a: int|
                    if a < font_seq().len() {
                        font_seq()[a]
                    } else {
                        0u8
                    },
            ),
            screen: Seq::new(SCREEN_SIZE as nat, |i: int| false),
            reg: Seq::new(REG_COUNT as nat, |i: int| 0u8),
            i_reg: 0,
            sp: 0,
            stack: Seq::new(STACK_DEPTH as nat, |i: int| 0u16),
            keys: Seq::new(KEY_COUNT as nat, |i: int| false),
            delay_timer: 0,
            sound_timer: 0,
            key_wait: None,
            rng: RNG_SEED,
            index_carry: false,
        }
    }

    /// Vx set to `v`.
    pub open spec fn with_reg(self, x: int, v: u8) -> Machine {
        Machine { reg: self.reg.update(x, v), ..self }
    }

    /// VF set to `v`.
    pub open spec fn with_flag(self, v: u8) -> Machine {
        self.with_reg(0xF, v)
    }

    /// The program counter set to `pc`.
    pub open spec fn with_pc(self, pc: int) -> Machine {
        Machine { pc: pc as u16, ..self }
    }

    /// Skips the next instruction when `c` holds.
    pub open spec fn skip_if(self, c: bool) -> Machine {
        if c {
            self.with_pc(self.pc + 2)
        } else {
            self
        }
    }
}

/// Bits 12-15 of an opcode.
pub open spec fn op_kind(op: u16) -> int {
    op as int / 0x1000
}

/// Bits 8-11: the first register index.
pub open spec fn op_x(op: u16) -> int {
    (op as int / 0x100) % 16
}

/// Bits 4-7: the second register index.
pub open spec fn op_y(op: u16) -> int {
    (op as int / 0x10) % 16
}

/// Bits 0-3.
pub open spec fn op_n(op: u16) -> int {
    op as int % 16
}

/// The low eight bits: an immediate byte.
pub open spec fn op_kk(op: u16) -> int {
    op as int % 0x100
}

/// The low twelve bits: an address.
pub open spec fn op_nnn(op: u16) -> int {
    op as int % 0x1000
}

/// The word stored big-endian at `a` and `a + 1`.
pub open spec fn word_at(ram: Seq<u8>, a: int) -> u16 {
    (ram[a] as int * 256 + ram[a + 1] as int) as u16
}

/// One step of the xorshift generator.
pub open spec fn next_rng(s: u32) -> u32 {
    let a = s ^ (s << 13u32);
    let b = a ^ (a >> 17u32);
    b ^ (b << 5u32)
}

/// The lowest index of a pressed key, if any key is pressed.
pub open spec fn lowest_pressed(keys: Seq<bool>) -> Option<u8> {
    if exists|k: int| 0 <= k < KEY_COUNT && keys[k] {
        Some(
            (choose|k: int|
                0 <= k < KEY_COUNT && keys[k] && forall|j: int| 0 <= j < k ==> !keys[j]) as u8,
        )
    } else {
        None
    }
}

/// Whether key `v` is pressed; a value beyond the keypad names no key.
pub open spec fn key_down(keys: Seq<bool>, v: u8) -> bool {
    v < KEY_COUNT && keys[v as int]
}

/// Whether column `col` (0 = leftmost) of a sprite row is set.
pub open spec fn sprite_bit(byte: u8, col: int) -> bool {
    byte & (0x80u8 >> col as u8) != 0
}

/// Column of pixel `idx` relative to a sprite drawn at x-coordinate `vx`.
pub open spec fn sprite_col(vx: u8, idx: int) -> int {
    (idx % 64 - vx as int % 64) % 64
}

/// Row of pixel `idx` relative to a sprite drawn at y-coordinate `vy`.
pub open spec fn sprite_row(vy: u8, idx: int) -> int {
    (idx / 64 - vy as int % 32) % 32
}

/// Whether an `n`-row sprite read from `i` and drawn at `(vx, vy)` flips pixel
/// `idx`; coordinates wrap around both edges.
pub open spec fn sprite_hit(ram: Seq<u8>, i: int, n: int, vx: u8, vy: u8, idx: int) -> bool {
    let row = sprite_row(vy, idx);
    let col = sprite_col(vx, idx);
    row < n && col < 8 && sprite_bit(ram[i + row], col)
}

/// `00E0`.
pub open spec fn clear_screen(m: Machine) -> Machine {
    Machine { screen: Seq::new(SCREEN_SIZE as nat, |i: int| false), ..m }
}

/// `00EE`.
pub open spec fn return_spec(m: Machine) -> Result<Machine, Chip8Error> {
    if m.sp == 0 {
        Err(Chip8Error::StackUnderflow)
    } else {
        Ok(Machine { pc: m.stack[m.sp - 1], sp: (m.sp - 1) as u16, ..m })
    }
}

/// `2nnn`.
pub open spec fn call_spec(m: Machine, nnn: int) -> Result<Machine, Chip8Error> {
    if m.sp >= STACK_DEPTH {
        Err(Chip8Error::StackOverflow)
    } else {
        Ok(
            Machine {
                stack: m.stack.update(m.sp as int, m.pc),
                sp: (m.sp + 1) as u16,
                pc: nnn as u16,
                ..m
            },
        )
    }
}

/// `8xyn`: register-to-register arithmetic and logic.
pub open spec fn alu_spec(m: Machine, op: u16) -> Result<Machine, Chip8Error> {
    let x = op_x(op);
    let vx = m.reg[x];
    let vy = m.reg[op_y(op)];
    let n = op_n(op);
    if n == 0 {
        Ok(m.with_reg(x, vy))
    } else if n == 1 {
        Ok(m.with_reg(x, vx | vy))
    } else if n == 2 {
        Ok(m.with_reg(x, vx & vy))
    } else if n == 3 {
        Ok(m.with_reg(x, vx ^ vy))
    } else if n == 4 {
        Ok(m.with_reg(x, ((vx + vy) % 256) as u8).with_flag(if vx + vy > 255 { 1 } else { 0 }))
    } else if n == 5 {
        Ok(m.with_reg(x, ((vx - vy + 256) % 256) as u8).with_flag(if vx >= vy { 1 } else { 0 }))
    } else if n == 6 {
        Ok(m.with_reg(x, (vx / 2) as u8).with_flag((vx % 2) as u8))
    } else if n == 7 {
        Ok(m.with_reg(x, ((vy - vx + 256) % 256) as u8).with_flag(if vy >= vx { 1 } else { 0 }))
    } else if n == 0xE {
        Ok(m.with_reg(x, ((vx * 2) % 256) as u8).with_flag((vx / 128) as u8))
    } else {
        Err(Chip8Error::UnknownOpcode(op))
    }
}

/// `Dxyn`: XOR-draws an `n`-row sprite from `ram[i_reg..]` at `(Vx, Vy)`;
/// VF tells whether a lit pixel was erased.
pub open spec fn draw_spec(m: Machine, op: u16) -> Result<Machine, Chip8Error> {
    let vx = m.reg[op_x(op)];
    let vy = m.reg[op_y(op)];
    let n = op_n(op);
    let i = m.i_reg as int;
    if i + n > RAM_SIZE {
        Err(Chip8Error::AddressOutOfBounds(m.i_reg))
    } else {
        let collided = exists|idx: int|
            0 <= idx < SCREEN_SIZE && #[trigger] sprite_hit(m.ram, i, n, vx, vy, idx)
                && m.screen[idx];
        Ok(
            Machine {
                screen: Seq::new(
                    SCREEN_SIZE as nat,
                    |idx: int| m.screen[idx] != sprite_hit(m.ram, i, n, vx, vy, idx),
                ),
                ..m
            }.with_flag(if collided { 1 } else { 0 }),
        )
    }
}

/// `Ex9E` and `ExA1`.
pub open spec fn key_skip_spec(m: Machine, op: u16) -> Result<Machine, Chip8Error> {
    let down = key_down(m.keys, m.reg[op_x(op)]);
    if op_kk(op) == 0x9E {
        Ok(m.skip_if(down))
    } else if op_kk(op) == 0xA1 {
        Ok(m.skip_if(!down))
    } else {
        Err(Chip8Error::UnknownOpcode(op))
    }
}

/// `Fx33`: hundreds, tens and ones of Vx at `i_reg`, `i_reg + 1`, `i_reg + 2`.
pub open spec fn bcd_spec(m: Machine, x: int) -> Result<Machine, Chip8Error> {
    let i = m.i_reg as int;
    let v = m.reg[x];
    if i + 3 > RAM_SIZE {
        Err(Chip8Error::AddressOutOfBounds(m.i_reg))
    } else {
        Ok(
            Machine {
                ram: m.ram.update(i, v / 100).update(i + 1, (v / 10) % 10).update(i + 2, v % 10),
                ..m
            },
        )
    }
}

/// `Fx55`: V0..Vx to `ram[i_reg..=i_reg + x]`.
pub open spec fn store_regs_spec(m: Machine, x: int) -> Result<Machine, Chip8Error> {
    let i = m.i_reg as int;
    if i + x + 1 > RAM_SIZE {
        Err(Chip8Error::AddressOutOfBounds(m.i_reg))
    } else {
        Ok(
            Machine {
                ram: Seq::new(
                    RAM_SIZE as nat,
                    |a: int|
                        if i <= a <= i + x {
                            m.reg[a - i]
                        } else {
                            m.ram[a]
                        },
                ),
                ..m
            },
        )
    }
}

/// `Fx65`: `ram[i_reg..=i_reg + x]` into V0..Vx.
pub open spec fn load_regs_spec(m: Machine, x: int) -> Result<Machine, Chip8Error> {
    let i = m.i_reg as int;
    if i + x + 1 > RAM_SIZE {
        Err(Chip8Error::AddressOutOfBounds(m.i_reg))
    } else {
        Ok(
            Machine {
                reg: Seq::new(
                    REG_COUNT as nat,
                    |r: int|
                        if r <= x {
                            m.ram[i + r]
                        } else {
                            m.reg[r]
                        },
                ),
                ..m
            },
        )
    }
}

/// `Fx1E`: adds Vx to the index register modulo 2^16; with the compatibility
/// flag on, VF tells whether the sum passed 0xFFF.
pub open spec fn add_index_spec(m: Machine, x: int) -> Machine {
    let sum = m.i_reg + m.reg[x];
    let m2 = Machine { i_reg: (sum % 0x10000) as u16, ..m };
    if m.index_carry {
        m2.with_flag(if sum > 0xFFF { 1 } else { 0 })
    } else {
        m2
    }
}

/// `Fxkk`: timers, key wait, index arithmetic and memory transfers.
pub open spec fn misc_spec(m: Machine, op: u16) -> Result<Machine, Chip8Error> {
    let x = op_x(op);
    let vx = m.reg[x];
    let kk = op_kk(op);
    if kk == 0x07 {
        Ok(m.with_reg(x, m.delay_timer))
    } else if kk == 0x0A {
        Ok(Machine { key_wait: Some(x as u8), ..m })
    } else if kk == 0x15 {
        Ok(Machine { delay_timer: vx, ..m })
    } else if kk == 0x18 {
        Ok(Machine { sound_timer: vx, ..m })
    } else if kk == 0x1E {
        Ok(add_index_spec(m, x))
    } else if kk == 0x29 {
        Ok(Machine { i_reg: (5 * vx) as u16, ..m })
    } else if kk == 0x33 {
        bcd_spec(m, x)
    } else if kk == 0x55 {
        store_regs_spec(m, x)
    } else if kk == 0x65 {
        load_regs_spec(m, x)
    } else {
        Err(Chip8Error::UnknownOpcode(op))
    }
}

/// The effect of opcode `op` on a machine whose program counter has already
/// moved past it.
pub open spec fn execute_spec(m: Machine, op: u16) -> Result<Machine, Chip8Error> {
    let kind = op_kind(op);
    let x = op_x(op);
    let vx = m.reg[x];
    let vy = m.reg[op_y(op)];
    let kk = op_kk(op);
    let nnn = op_nnn(op);
    if op == 0x00E0 {
        Ok(clear_screen(m))
    } else if op == 0x00EE {
        return_spec(m)
    } else if kind == 0x1 {
        Ok(m.with_pc(nnn))
    } else if kind == 0x2 {
        call_spec(m, nnn)
    } else if kind == 0x3 {
        Ok(m.skip_if(vx == kk))
    } else if kind == 0x4 {
        Ok(m.skip_if(vx != kk))
    } else if kind == 0x5 && op_n(op) == 0 {
        Ok(m.skip_if(vx == vy))
    } else if kind == 0x6 {
        Ok(m.with_reg(x, kk as u8))
    } else if kind == 0x7 {
        Ok(m.with_reg(x, ((vx + kk) % 256) as u8))
    } else if kind == 0x8 {
        alu_spec(m, op)
    } else if kind == 0x9 && op_n(op) == 0 {
        Ok(m.skip_if(vx != vy))
    } else if kind == 0xA {
        Ok(Machine { i_reg: nnn as u16, ..m })
    } else if kind == 0xB {
        Ok(m.with_pc(nnn + m.reg[0]))
    } else if kind == 0xC {
        let r = next_rng(m.rng);
        Ok(Machine { rng: r, ..m }.with_reg(x, (r as u8) & (kk as u8)))
    } else if kind == 0xD {
        draw_spec(m, op)
    } else if kind == 0xE {
        key_skip_spec(m, op)
    } else if kind == 0xF {
        misc_spec(m, op)
    } else {
        Err(Chip8Error::UnknownOpcode(op))
    }
}

/// One instruction cycle. While a key wait is pending the cycle only watches
/// the keypad: the lowest pressed key is stored and execution resumes.
/// Otherwise the word at `pc` is fetched, `pc` moves past it and it is executed.
pub open spec fn step(m: Machine) -> Result<Machine, Chip8Error> {
    if let Some(x) = m.key_wait {
        match lowest_pressed(m.keys) {
            Some(k) => Ok(Machine { key_wait: None, ..m.with_reg(x as int, k) }),
            None => Ok(m),
        }
    } else if m.pc > LAST_FETCH_ADDR {
        Err(Chip8Error::PcOutOfBounds(m.pc))
    } else {
        execute_spec(m.with_pc(m.pc + 2), word_at(m.ram, m.pc as int))
    }
}

/// One timer tick: each nonzero timer counts down by one.
pub open spec fn tick_spec(m: Machine) -> Machine {
    Machine {
        delay_timer: if m.delay_timer > 0 { (m.delay_timer - 1) as u8 } else { 0 },
        sound_timer: if m.sound_timer > 0 { (m.sound_timer - 1) as u8 } else { 0 },
        ..m
    }
}

/// A program copied into memory at the load address.
pub open spec fn load_spec(m: Machine, rom: Seq<u8>) -> Machine {
    Machine {
        ram: Seq::new(
            RAM_SIZE as nat,
            |a: int|
                if START_ADDR <= a < START_ADDR + rom.len() {
                    rom[a - START_ADDR]
                } else {
                    m.ram[a]
                },
        ),
        ..m
    }
}

} // verus!

verus! {

/// Relates an operation's returned status and its before/after states to
/// the modelled outcome: on success the state becomes the modelled one, on
/// failure the modelled error is returned and nothing changes.
pub open spec fn follows(
    expected: Result<Machine, Chip8Error>,
    r: Result<(), Chip8Error>,
    before: Machine,
    after: Machine,
) -> bool {
    match expected {
        Ok(m) => r is Ok && after == m,
        Err(e) => r == Err::<(), Chip8Error>(e) && after == before,
    }
}

/// Whether pixel `idx` is flipped by one of the sprite's cells that come before
/// (`row`, `col`) in row-major order.
pub open spec fn drawn_before(
    ram: Seq<u8>,
    i: int,
    n: int,
    vx: u8,
    vy: u8,
    row: int,
    col: int,
    idx: int,
) -> bool {
    &&& sprite_hit(ram, i, n, vx, vy, idx)
    &&& (sprite_row(vy, idx) < row || (sprite_row(vy, idx) == row && sprite_col(vx, idx) < col))
}

} // verus!

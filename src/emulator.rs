use vstd::prelude::*;

use vstd::arithmetic::div_mod::{
    lemma_add_mod_noop, lemma_fundamental_div_mod, lemma_fundamental_div_mod_converse_div,
    lemma_fundamental_div_mod_converse_mod, lemma_mod_pos_bound,
};

use crate::error::Chip8Error;
use crate::font::{font_byte, font_seq, FONT_SIZE};
use crate::model::{
    add_index_spec, alu_spec, bcd_spec, call_spec, clear_screen, draw_spec, drawn_before,
    execute_spec, follows, key_skip_spec, load_regs_spec, load_spec, lowest_pressed, misc_spec,
    next_rng, op_kind, op_kk, op_n, op_nnn, op_x, op_y, return_spec, sprite_bit, sprite_col,
    sprite_hit, sprite_row, step, store_regs_spec, tick_spec, word_at, Machine, KEY_COUNT,
    LAST_FETCH_ADDR, MAX_ROM_SIZE, RAM_SIZE, REG_COUNT, RNG_SEED, SCREEN_SIZE, STACK_DEPTH,
    START_ADDR,
};

verus! {

/// A CHIP-8 machine: memory, registers, call stack, keypad, display and timers.
pub struct Emulator {
    pc: u16,
    ram: Vec<u8>,
    screen: Vec<bool>,
    reg: Vec<u8>,
    i_reg: u16,
    sp: u16,
    stack: Vec<u16>,
    keys: Vec<bool>,
    delay_timer: u8,
    sound_timer: u8,
    key_wait: Option<u8>,
    rng: u32,
    index_carry: bool,
}

impl View for Emulator {
    type V = Machine;

    closed spec fn view(&self) -> Machine {
        Machine {
            pc: self.pc,
            ram: self.ram@,
            screen: self.screen@,
            reg: self.reg@,
            i_reg: self.i_reg,
            sp: self.sp,
            stack: self.stack@,
            keys: self.keys@,
            delay_timer: self.delay_timer,
            sound_timer: self.sound_timer,
            key_wait: self.key_wait,
            rng: self.rng,
            index_carry: self.index_carry,
        }
    }
}

/// Memory holding the glyph table and zeros elsewhere.
fn fresh_ram() -> (r: Vec<u8>)
    ensures
        r@ == Machine::initial().ram,
{
    let mut ram: Vec<u8> = vec![0u8; RAM_SIZE];
    let mut i: usize = 0;
    while i < FONT_SIZE
        invariant
            i <= FONT_SIZE,
            ram@.len() == RAM_SIZE,
            forall|a: int| 0 <= a < i ==> ram@[a] == font_seq()[a],
            forall|a: int| i <= a < RAM_SIZE ==> ram@[a] == 0u8,
        decreases FONT_SIZE - i,
    {
        let b = font_byte(i);
        ram.set(i, b);
        i = i + 1;
    }
    assert(ram@ =~= Machine::initial().ram);
    ram
}

impl Emulator {
    /// A machine with the glyph table in low memory, everything else zeroed,
    /// and the program counter at the load address.
    pub fn new() -> (r: Emulator)
        ensures
            r@ == Machine::initial(),
            r@.wf(),
    {
        let r = Emulator {
            pc: START_ADDR,
            ram: fresh_ram(),
            screen: vec![false; SCREEN_SIZE],
            reg: vec![0u8; REG_COUNT],
            i_reg: 0,
            sp: 0,
            stack: vec![0u16; STACK_DEPTH],
            keys: vec![false; KEY_COUNT],
            delay_timer: 0,
            sound_timer: 0,
            key_wait: None,
            rng: RNG_SEED,
            index_carry: false,
        };
        assert(r.screen@ =~= Machine::initial().screen);
        assert(r.reg@ =~= Machine::initial().reg);
        assert(r.stack@ =~= Machine::initial().stack);
        assert(r.keys@ =~= Machine::initial().keys);
        r
    }

    /// Puts every part of the machine back to its freshly built state,
    /// discarding any loaded program.
    pub fn reset(&mut self)
        ensures
            final(self)@ == Machine::initial(),
            final(self)@.wf(),
    {
        *self = Emulator::new();
    }

    /// Copies a program into memory at the load address; a program longer than
    /// the memory above that address is refused and nothing changes.
    pub fn load(&mut self, rom: &[u8]) -> (r: Result<(), Chip8Error>)
        requires
            old(self)@.wf(),
        ensures
            final(self)@.wf(),
            rom@.len() > MAX_ROM_SIZE ==> r == Err::<(), Chip8Error>(Chip8Error::RomTooLarge)
                && final(self)@ == old(self)@,
            rom@.len() <= MAX_ROM_SIZE ==> r is Ok && final(self)@ == load_spec(old(self)@, rom@),
    {
        if rom.len() > MAX_ROM_SIZE {
            return Err(Chip8Error::RomTooLarge);
        }
        let ghost m = self@;
        let mut k: usize = 0;
        while k < rom.len()
            invariant
                rom@.len() <= MAX_ROM_SIZE,
                k <= rom@.len(),
                m.wf(),
                self@ == (Machine { ram: self@.ram, ..m }),
                self.ram@.len() == RAM_SIZE,
                forall|a: int|
                    0 <= a < RAM_SIZE ==> self.ram@[a] == if START_ADDR <= a < START_ADDR + k {
                        rom@[a - START_ADDR]
                    } else {
                        m.ram[a]
                    },
            decreases rom@.len() - k,
        {
            self.ram.set(START_ADDR as usize + k, rom[k]);
            k = k + 1;
        }
        assert(self.ram@ =~= load_spec(m, rom@).ram);
        Ok(())
    }

    /// Counts each nonzero timer down by one. Returns whether the tone stops
    /// now, that is whether the sound timer went from one to zero.
    pub fn tick_timer(&mut self) -> (tone_stopped: bool)
        requires
            old(self)@.wf(),
        ensures
            final(self)@ == tick_spec(old(self)@),
            final(self)@.wf(),
            tone_stopped == (old(self)@.sound_timer == 1),
    {
        if self.delay_timer > 0 {
            self.delay_timer = self.delay_timer - 1;
        }
        let mut tone_stopped = false;
        if self.sound_timer > 0 {
            self.sound_timer = self.sound_timer - 1;
            if self.sound_timer == 0 {
                tone_stopped = true;
            }
        }
        tone_stopped
    }

    /// Records whether key `index` is held; an index beyond the keypad is ignored.
    pub fn set_key(&mut self, index: usize, pressed: bool)
        requires
            old(self)@.wf(),
        ensures
            final(self)@.wf(),
            index < KEY_COUNT ==> final(self)@ == (Machine {
                keys: old(self)@.keys.update(index as int, pressed),
                ..old(self)@
            }),
            index >= KEY_COUNT ==> final(self)@ == old(self)@,
    {
        if index < KEY_COUNT {
            self.keys.set(index, pressed);
        }
    }

    /// Chooses whether `Fx1E` reports in VF an index that passed 0xFFF.
    pub fn set_index_carry(&mut self, on: bool)
        requires
            old(self)@.wf(),
        ensures
            final(self)@ == (Machine { index_carry: on, ..old(self)@ }),
            final(self)@.wf(),
    {
        self.index_carry = on;
    }

    /// The 64x32 display buffer, row-major.
    pub fn get_display(&self) -> (r: &[bool])
        ensures
            r@ == self@.screen,
    {
        self.screen.as_slice()
    }

    /// Whether a tone should be playing.
    pub fn get_sound_flag(&self) -> (r: bool)
        ensures
            r == (self@.sound_timer > 0),
    {
        self.sound_timer > 0
    }

    /// Whether a key-wait instruction is holding execution.
    pub fn is_awaiting_key(&self) -> (r: bool)
        ensures
            r == self@.key_wait is Some,
    {
        self.key_wait.is_some()
    }

    /// The program counter.
    pub fn pc(&self) -> (r: u16)
        ensures
            r == self@.pc,
    {
        self.pc
    }

    /// The index register.
    pub fn i_reg(&self) -> (r: u16)
        ensures
            r == self@.i_reg,
    {
        self.i_reg
    }

    /// The number of return addresses on the call stack.
    pub fn sp(&self) -> (r: u16)
        ensures
            r == self@.sp,
    {
        self.sp
    }

    /// The delay timer.
    pub fn delay_timer(&self) -> (r: u8)
        ensures
            r == self@.delay_timer,
    {
        self.delay_timer
    }

    /// The sound timer.
    pub fn sound_timer(&self) -> (r: u8)
        ensures
            r == self@.sound_timer,
    {
        self.sound_timer
    }

    /// Register Vx.
    pub fn reg(&self, x: usize) -> (r: u8)
        requires
            self@.wf(),
            x < REG_COUNT,
        ensures
            r == self@.reg[x as int],
    {
        self.reg[x]
    }

    /// The memory byte at `addr`.
    pub fn ram_at(&self, addr: usize) -> (r: u8)
        requires
            self@.wf(),
            addr < RAM_SIZE,
        ensures
            r == self@.ram[addr as int],
    {
        self.ram[addr]
    }
}

/// One step of the xorshift generator.
fn next_random(s: u32) -> (r: u32)
    ensures
        r == next_rng(s),
{
    let a = s ^ (s << 13u32);
    let b = a ^ (a >> 17u32);
    b ^ (b << 5u32)
}

/// The shifted-and-masked fields of an opcode are its nibble-aligned fields.
proof fn lemma_decode(op: u16)
    ensures
        (op >> 12u16) as int == op_kind(op),
        ((op >> 8u16) & 0xFu16) as int == op_x(op),
        ((op >> 4u16) & 0xFu16) as int == op_y(op),
        (op & 0xFu16) as int == op_n(op),
        (op & 0xFFu16) as int == op_kk(op),
        (op & 0xFFFu16) as int == op_nnn(op),
{
    assert(op >> 12u16 == op / 0x1000u16) by (bit_vector);
    assert((op >> 8u16) & 0xFu16 == (op / 0x100u16) % 16u16) by (bit_vector);
    assert((op >> 4u16) & 0xFu16 == (op / 0x10u16) % 16u16) by (bit_vector);
    assert(op & 0xFu16 == op % 16u16) by (bit_vector);
    assert(op & 0xFFu16 == op % 0x100u16) by (bit_vector);
    assert(op & 0xFFFu16 == op % 0x1000u16) by (bit_vector);
}

/// Moving `c` steps to the right of `a` on a ring of `d` positions lands on the
/// one position that lies `c` steps past `a`.
proof fn lemma_wrap_offset(a: int, c: int, d: int)
    requires
        0 <= a,
        0 <= c < d,
    ensures
        ((a + c) % d - a % d) % d == c,
        forall|p: int| 0 <= p < d && #[trigger] ((p - a % d) % d) == c ==> p == (a + c) % d,
{
    let r = a % d;
    lemma_mod_pos_bound(a, d);
    lemma_mod_pos_bound(c, d);
    lemma_add_mod_noop(a, c, d);
    lemma_fundamental_div_mod_converse_mod(c, d, 0, c);
    if r + c < d {
        lemma_fundamental_div_mod_converse_mod(r + c, d, 0, r + c);
        lemma_fundamental_div_mod_converse_mod(c, d, 0, c);
    } else {
        lemma_fundamental_div_mod_converse_mod(r + c, d, 1, r + c - d);
        lemma_fundamental_div_mod_converse_mod(c - d, d, -1, c);
    }
    assert forall|p: int| 0 <= p < d && #[trigger] ((p - a % d) % d) == c implies p == (a + c) % d by {
        if p >= r {
            lemma_fundamental_div_mod_converse_mod(p - r, d, 0, p - r);
        } else {
            lemma_fundamental_div_mod_converse_mod(p - r, d, -1, p - r + d);
        }
    }
}

/// The sprite cell at (`row`, `col`) lands on exactly one pixel.
proof fn lemma_pixel_position(vx: u8, vy: u8, row: int, col: int)
    requires
        0 <= row < 16,
        0 <= col < 8,
    ensures
        ({
            let idx = ((vy + row) % 32) * 64 + (vx + col) % 64;
            &&& 0 <= idx < SCREEN_SIZE
            &&& sprite_row(vy, idx) == row
            &&& sprite_col(vx, idx) == col
            &&& forall|j: int|
                0 <= j < SCREEN_SIZE && #[trigger] sprite_row(vy, j) == row && sprite_col(vx, j)
                    == col ==> j == idx
        }),
{
    let px = (vx + col) % 64;
    let py = (vy + row) % 32;
    let idx = py * 64 + px;
    lemma_mod_pos_bound(vx + col, 64);
    lemma_mod_pos_bound(vy + row, 32);
    lemma_fundamental_div_mod_converse_mod(idx, 64, py, px);
    lemma_fundamental_div_mod_converse_div(idx, 64, py, px);
    lemma_wrap_offset(vx as int, col, 64);
    lemma_wrap_offset(vy as int, row, 32);
    assert forall|j: int|
        0 <= j < SCREEN_SIZE && #[trigger] sprite_row(vy, j) == row && sprite_col(vx, j)
            == col implies j == idx by {
        lemma_fundamental_div_mod(j, 64);
        lemma_mod_pos_bound(j, 64);
        assert(0 <= j / 64 < 32);
    }
}

impl Emulator {
    /// The lowest index of a pressed key, if any.
    fn first_pressed(&self) -> (r: Option<u8>)
        requires
            self@.wf(),
        ensures
            r == lowest_pressed(self@.keys),
    {
        let ghost ks = self@.keys;
        let mut k: usize = 0;
        while k < KEY_COUNT
            invariant
                k <= KEY_COUNT,
                ks == self.keys@,
                ks.len() == KEY_COUNT,
                forall|j: int| 0 <= j < k ==> !ks[j],
            decreases KEY_COUNT - k,
        {
            if self.keys[k] {
                proof {
                    assert(ks[k as int]);
                    let c = choose|c: int|
                        0 <= c < KEY_COUNT && ks[c] && forall|j: int| 0 <= j < c ==> !ks[j];
                    assert(0 <= c < KEY_COUNT && ks[c] && forall|j: int| 0 <= j < c ==> !ks[j]);
                    if c < k {
                        assert(!ks[c]);
                    } else if c > k {
                        assert(!ks[k as int]);
                    }
                }
                return Some(k as u8);
            }
            k = k + 1;
        }
        None
    }

    /// Reads the word at `pc` and moves `pc` past it.
    fn fetch(&mut self) -> (op: u16)
        requires
            old(self)@.wf(),
            old(self)@.pc <= LAST_FETCH_ADDR,
        ensures
            op == word_at(old(self)@.ram, old(self)@.pc as int),
            final(self)@ == old(self)@.with_pc(old(self)@.pc + 2),
    {
        let hi = self.ram[self.pc as usize] as u16;
        let lo = self.ram[self.pc as usize + 1] as u16;
        let op = (hi << 8u16) | lo;
        assert(op == hi * 256 + lo) by (bit_vector)
            requires
                hi < 256u16,
                lo < 256u16,
                op == (hi << 8u16) | lo,
        ;
        self.pc = self.pc + 2;
        op
    }

    /// Skips the next instruction when `c` holds.
    fn skip_if(&mut self, c: bool)
        requires
            old(self)@.pc <= RAM_SIZE,
        ensures
            final(self)@ == old(self)@.skip_if(c),
    {
        if c {
            self.pc = self.pc + 2;
        }
    }

    /// Writes VF.
    fn set_flag(&mut self, v: u8)
        requires
            old(self)@.wf(),
        ensures
            final(self)@ == old(self)@.with_flag(v),
    {
        self.reg.set(0xF, v);
    }

    /// Pushes `value` onto the call stack; a full stack is an overflow.
    fn push(&mut self, value: u16) -> (r: Result<(), Chip8Error>)
        requires
            old(self)@.wf(),
        ensures
            final(self)@.wf(),
            old(self)@.sp >= STACK_DEPTH ==> r == Err::<(), Chip8Error>(Chip8Error::StackOverflow)
                && final(self)@ == old(self)@,
            old(self)@.sp < STACK_DEPTH ==> r is Ok && final(self)@ == (Machine {
                stack: old(self)@.stack.update(old(self)@.sp as int, value),
                sp: (old(self)@.sp + 1) as u16,
                ..old(self)@
            }),
    {
        if self.sp as usize >= STACK_DEPTH {
            return Err(Chip8Error::StackOverflow);
        }
        self.stack.set(self.sp as usize, value);
        self.sp = self.sp + 1;
        Ok(())
    }

    /// Pops the top of the call stack; an empty stack is an underflow.
    fn pop(&mut self) -> (r: Result<u16, Chip8Error>)
        requires
            old(self)@.wf(),
        ensures
            final(self)@.wf(),
            old(self)@.sp == 0 ==> r == Err::<u16, Chip8Error>(Chip8Error::StackUnderflow)
                && final(self)@ == old(self)@,
            old(self)@.sp > 0 ==> r == Ok::<u16, Chip8Error>(old(self)@.stack[old(self)@.sp - 1])
                && final(self)@ == (Machine { sp: (old(self)@.sp - 1) as u16, ..old(self)@ }),
    {
        if self.sp == 0 {
            return Err(Chip8Error::StackUnderflow);
        }
        self.sp = self.sp - 1;
        Ok(self.stack[self.sp as usize])
    }

    /// `00EE`.
    fn return_from(&mut self) -> (r: Result<(), Chip8Error>)
        requires
            old(self)@.wf(),
        ensures
            final(self)@.wf(),
            follows(return_spec(old(self)@), r, old(self)@, final(self)@),
    {
        let addr = self.pop()?;
        self.pc = addr;
        Ok(())
    }

    /// `2nnn`.
    fn call(&mut self, nnn: u16) -> (r: Result<(), Chip8Error>)
        requires
            old(self)@.wf(),
        ensures
            final(self)@.wf(),
            follows(call_spec(old(self)@, nnn as int), r, old(self)@, final(self)@),
    {
        let ret = self.pc;
        self.push(ret)?;
        self.pc = nnn;
        Ok(())
    }

    /// `8xyn`.
    fn alu(&mut self, op: u16, x: usize, y: usize, n: u16) -> (r: Result<(), Chip8Error>)
        requires
            old(self)@.wf(),
            x == op_x(op),
            y == op_y(op),
            n == op_n(op),
        ensures
            final(self)@.wf(),
            follows(alu_spec(old(self)@, op), r, old(self)@, final(self)@),
    {
        let vx = self.reg[x];
        let vy = self.reg[y];
        if n == 0 {
            self.reg.set(x, vy);
        } else if n == 1 {
            self.reg.set(x, vx | vy);
        } else if n == 2 {
            self.reg.set(x, vx & vy);
        } else if n == 3 {
            self.reg.set(x, vx ^ vy);
        } else if n == 4 {
            let sum = vx as u16 + vy as u16;
            self.reg.set(x, (sum % 256) as u8);
            self.set_flag(if sum > 255 { 1 } else { 0 });
        } else if n == 5 {
            self.reg.set(x, ((vx as u16 + 256 - vy as u16) % 256) as u8);
            self.set_flag(if vx >= vy { 1 } else { 0 });
        } else if n == 6 {
            self.reg.set(x, vx / 2);
            self.set_flag(vx % 2);
        } else if n == 7 {
            self.reg.set(x, ((vy as u16 + 256 - vx as u16) % 256) as u8);
            self.set_flag(if vy >= vx { 1 } else { 0 });
        } else if n == 0xE {
            self.reg.set(x, ((vx as u16 * 2) % 256) as u8);
            self.set_flag(vx / 128);
        } else {
            return Err(Chip8Error::UnknownOpcode(op));
        }
        Ok(())
    }
}
impl Emulator {
    /// `Dxyn`: flips each pixel under a set sprite bit, row by row, and records
    /// whether a lit pixel was turned off.
    fn draw(&mut self, op: u16, x: usize, y: usize, n: usize) -> (r: Result<(), Chip8Error>)
        requires
            old(self)@.wf(),
            x == op_x(op),
            y == op_y(op),
            n == op_n(op),
        ensures
            final(self)@.wf(),
            follows(draw_spec(old(self)@, op), r, old(self)@, final(self)@),
    {
        let i = self.i_reg as usize;
        if i + n > RAM_SIZE {
            return Err(Chip8Error::AddressOutOfBounds(self.i_reg));
        }
        let vx = self.reg[x];
        let vy = self.reg[y];
        let ghost m = self@;
        let ghost ii = i as int;
        let ghost nn = n as int;
        let mut collided = false;
        let mut row: usize = 0;
        while row < n
            invariant
                m.wf(),
                n < 16,
                i + n <= RAM_SIZE,
                ii == i,
                nn == n,
                row <= n,
                self@ == (Machine { screen: self@.screen, ..m }),
                self.screen@.len() == SCREEN_SIZE,
                forall|idx: int|
                    0 <= idx < SCREEN_SIZE ==> self.screen@[idx] == (m.screen[idx]
                        != drawn_before(m.ram, ii, nn, vx, vy, row as int, 0, idx)),
                collided == exists|idx: int|
                    0 <= idx < SCREEN_SIZE && #[trigger] drawn_before(
                        m.ram,
                        ii,
                        nn,
                        vx,
                        vy,
                        row as int,
                        0,
                        idx,
                    ) && m.screen[idx],
            decreases n - row,
        {
            let byte = self.ram[i + row];
            let mut col: usize = 0;
            while col < 8
                invariant
                    m.wf(),
                    n < 16,
                    i + n <= RAM_SIZE,
                    ii == i,
                    nn == n,
                    row < n,
                    col <= 8,
                    byte == m.ram[ii + row],
                    self@ == (Machine { screen: self@.screen, ..m }),
                    self.screen@.len() == SCREEN_SIZE,
                    forall|idx: int|
                        0 <= idx < SCREEN_SIZE ==> self.screen@[idx] == (m.screen[idx]
                            != drawn_before(m.ram, ii, nn, vx, vy, row as int, col as int, idx)),
                    collided == exists|idx: int|
                        0 <= idx < SCREEN_SIZE && #[trigger] drawn_before(
                            m.ram,
                            ii,
                            nn,
                            vx,
                            vy,
                            row as int,
                            col as int,
                            idx,
                        ) && m.screen[idx],
                decreases 8 - col,
            {
                let ghost before = self.screen@;
                let ghost was_collided = collided;
                if byte & (0x80u8 >> col as u8) != 0 {
                    let px = (vx as usize + col) % 64;
                    let py = (vy as usize + row) % 32;
                    let idx = py * 64 + px;
                    proof {
                        lemma_pixel_position(vx, vy, row as int, col as int);
                    }
                    let lit = self.screen[idx];
                    if lit {
                        collided = true;
                    }
                    self.screen.set(idx, !lit);
                    proof {
                        assert(sprite_hit(m.ram, ii, nn, vx, vy, idx as int));
                        assert forall|j: int| 0 <= j < SCREEN_SIZE implies self.screen@[j] == (
                        m.screen[j] != drawn_before(
                            m.ram,
                            ii,
                            nn,
                            vx,
                            vy,
                            row as int,
                            col + 1,
                            j,
                        )) by {
                            if sprite_row(vy, j) == row && sprite_col(vx, j) == col {
                                assert(j == idx);
                            }
                        }
                        if exists|j: int|
                            0 <= j < SCREEN_SIZE && #[trigger] drawn_before(
                                m.ram,
                                ii,
                                nn,
                                vx,
                                vy,
                                row as int,
                                col + 1,
                                j,
                            ) && m.screen[j] {
                            let j = choose|j: int|
                                0 <= j < SCREEN_SIZE && #[trigger] drawn_before(
                                    m.ram,
                                    ii,
                                    nn,
                                    vx,
                                    vy,
                                    row as int,
                                    col + 1,
                                    j,
                                ) && m.screen[j];
                            if sprite_row(vy, j) == row && sprite_col(vx, j) == col {
                                assert(j == idx);
                            } else {
                                assert(drawn_before(m.ram, ii, nn, vx, vy, row as int, col as int, j));
                            }
                        }
                        if lit {
                            assert(drawn_before(m.ram, ii, nn, vx, vy, row as int, col + 1, idx as int));
                        }
                        if was_collided {
                            let j = choose|j: int|
                                0 <= j < SCREEN_SIZE && #[trigger] drawn_before(
                                    m.ram,
                                    ii,
                                    nn,
                                    vx,
                                    vy,
                                    row as int,
                                    col as int,
                                    j,
                                ) && m.screen[j];
                            assert(drawn_before(m.ram, ii, nn, vx, vy, row as int, col + 1, j));
                        }
                    }
                } else {
                    proof {
                        assert forall|j: int| 0 <= j < SCREEN_SIZE implies drawn_before(
                            m.ram,
                            ii,
                            nn,
                            vx,
                            vy,
                            row as int,
                            col + 1,
                            j,
                        ) == drawn_before(m.ram, ii, nn, vx, vy, row as int, col as int, j) by {
                            if sprite_row(vy, j) == row && sprite_col(vx, j) == col {
                                assert(!sprite_bit(byte, col as int));
                            }
                        }
                    }
                }
                col = col + 1;
            }
            proof {
                assert forall|j: int| 0 <= j < SCREEN_SIZE implies drawn_before(
                    m.ram,
                    ii,
                    nn,
                    vx,
                    vy,
                    row as int,
                    8,
                    j,
                ) == drawn_before(m.ram, ii, nn, vx, vy, row + 1, 0, j) by {}
            }
            row = row + 1;
        }
        proof {
            assert forall|j: int| 0 <= j < SCREEN_SIZE implies drawn_before(
                m.ram,
                ii,
                nn,
                vx,
                vy,
                nn,
                0,
                j,
            ) == sprite_hit(m.ram, ii, nn, vx, vy, j) by {}
            assert(self.screen@ =~= draw_spec(m, op)->Ok_0.screen);
            if collided {
                let j = choose|j: int|
                    0 <= j < SCREEN_SIZE && #[trigger] drawn_before(
                        m.ram,
                        ii,
                        nn,
                        vx,
                        vy,
                        nn,
                        0,
                        j,
                    ) && m.screen[j];
                assert(sprite_hit(m.ram, ii, nn, vx, vy, j));
            }
            if exists|j: int|
                0 <= j < SCREEN_SIZE && #[trigger] sprite_hit(m.ram, ii, nn, vx, vy, j)
                    && m.screen[j] {
                let j = choose|j: int|
                    0 <= j < SCREEN_SIZE && #[trigger] sprite_hit(m.ram, ii, nn, vx, vy, j)
                        && m.screen[j];
                assert(drawn_before(m.ram, ii, nn, vx, vy, nn, 0, j));
            }
        }
        self.set_flag(if collided { 1 } else { 0 });
        Ok(())
    }
}

impl Emulator {
    /// `Ex9E` and `ExA1`.
    fn key_skip(&mut self, op: u16, x: usize, kk: u16) -> (r: Result<(), Chip8Error>)
        requires
            old(self)@.wf(),
            old(self)@.pc <= RAM_SIZE,
            x == op_x(op),
            kk == op_kk(op),
        ensures
            final(self)@.wf(),
            follows(key_skip_spec(old(self)@, op), r, old(self)@, final(self)@),
    {
        let v = self.reg[x];
        let down = (v as usize) < KEY_COUNT && self.keys[v as usize];
        if kk == 0x9E {
            self.skip_if(down);
        } else if kk == 0xA1 {
            self.skip_if(!down);
        } else {
            return Err(Chip8Error::UnknownOpcode(op));
        }
        Ok(())
    }

    /// `Fx33`.
    fn store_bcd(&mut self, x: usize) -> (r: Result<(), Chip8Error>)
        requires
            old(self)@.wf(),
            x < REG_COUNT,
        ensures
            final(self)@.wf(),
            follows(bcd_spec(old(self)@, x as int), r, old(self)@, final(self)@),
    {
        let i = self.i_reg as usize;
        if i + 3 > RAM_SIZE {
            return Err(Chip8Error::AddressOutOfBounds(self.i_reg));
        }
        let v = self.reg[x];
        self.ram.set(i, v / 100);
        self.ram.set(i + 1, (v / 10) % 10);
        self.ram.set(i + 2, v % 10);
        Ok(())
    }

    /// `Fx55`.
    fn store_regs(&mut self, x: usize) -> (r: Result<(), Chip8Error>)
        requires
            old(self)@.wf(),
            x < REG_COUNT,
        ensures
            final(self)@.wf(),
            follows(store_regs_spec(old(self)@, x as int), r, old(self)@, final(self)@),
    {
        let i = self.i_reg as usize;
        if i + x + 1 > RAM_SIZE {
            return Err(Chip8Error::AddressOutOfBounds(self.i_reg));
        }
        let ghost m = self@;
        let mut k: usize = 0;
        while k <= x
            invariant
                m.wf(),
                x < REG_COUNT,
                i == m.i_reg,
                i + x + 1 <= RAM_SIZE,
                k <= x + 1,
                self@ == (Machine { ram: self@.ram, ..m }),
                self.ram@.len() == RAM_SIZE,
                forall|a: int|
                    0 <= a < RAM_SIZE ==> self.ram@[a] == if i <= a < i + k {
                        m.reg[a - i]
                    } else {
                        m.ram[a]
                    },
            decreases x + 1 - k,
        {
            let v = self.reg[k];
            self.ram.set(i + k, v);
            k = k + 1;
        }
        assert(self.ram@ =~= store_regs_spec(m, x as int)->Ok_0.ram);
        Ok(())
    }

    /// `Fx65`.
    fn load_regs(&mut self, x: usize) -> (r: Result<(), Chip8Error>)
        requires
            old(self)@.wf(),
            x < REG_COUNT,
        ensures
            final(self)@.wf(),
            follows(load_regs_spec(old(self)@, x as int), r, old(self)@, final(self)@),
    {
        let i = self.i_reg as usize;
        if i + x + 1 > RAM_SIZE {
            return Err(Chip8Error::AddressOutOfBounds(self.i_reg));
        }
        let ghost m = self@;
        let mut k: usize = 0;
        while k <= x
            invariant
                m.wf(),
                x < REG_COUNT,
                i == m.i_reg,
                i + x + 1 <= RAM_SIZE,
                k <= x + 1,
                self@ == (Machine { reg: self@.reg, ..m }),
                self.reg@.len() == REG_COUNT,
                forall|r: int|
                    0 <= r < REG_COUNT ==> self.reg@[r] == if r < k {
                        m.ram[i + r]
                    } else {
                        m.reg[r]
                    },
            decreases x + 1 - k,
        {
            let v = self.ram[i + k];
            self.reg.set(k, v);
            k = k + 1;
        }
        assert(self.reg@ =~= load_regs_spec(m, x as int)->Ok_0.reg);
        Ok(())
    }

    /// `Fx1E`.
    fn add_index(&mut self, x: usize)
        requires
            old(self)@.wf(),
            x < REG_COUNT,
        ensures
            final(self)@.wf(),
            final(self)@ == add_index_spec(old(self)@, x as int),
    {
        let sum = self.i_reg as u32 + self.reg[x] as u32;
        self.i_reg = (sum % 0x10000) as u16;
        if self.index_carry {
            self.set_flag(if sum > 0xFFF { 1 } else { 0 });
        }
    }

    /// `Fxkk`.
    fn misc(&mut self, op: u16, x: usize, kk: u16) -> (r: Result<(), Chip8Error>)
        requires
            old(self)@.wf(),
            x == op_x(op),
            kk == op_kk(op),
        ensures
            final(self)@.wf(),
            follows(misc_spec(old(self)@, op), r, old(self)@, final(self)@),
    {
        let vx = self.reg[x];
        if kk == 0x07 {
            self.reg.set(x, self.delay_timer);
        } else if kk == 0x0A {
            self.key_wait = Some(x as u8);
        } else if kk == 0x15 {
            self.delay_timer = vx;
        } else if kk == 0x18 {
            self.sound_timer = vx;
        } else if kk == 0x1E {
            self.add_index(x);
        } else if kk == 0x29 {
            self.i_reg = 5 * vx as u16;
        } else if kk == 0x33 {
            return self.store_bcd(x);
        } else if kk == 0x55 {
            return self.store_regs(x);
        } else if kk == 0x65 {
            return self.load_regs(x);
        } else {
            return Err(Chip8Error::UnknownOpcode(op));
        }
        Ok(())
    }

    /// Applies opcode `op` to a machine whose program counter has already
    /// moved past it.
    fn execute(&mut self, op: u16) -> (r: Result<(), Chip8Error>)
        requires
            old(self)@.wf(),
            old(self)@.pc <= RAM_SIZE,
        ensures
            final(self)@.wf(),
            follows(execute_spec(old(self)@, op), r, old(self)@, final(self)@),
    {
        let kind = op >> 12u16;
        let x = ((op >> 8u16) & 0xFu16) as usize;
        let y = ((op >> 4u16) & 0xFu16) as usize;
        let n = op & 0xFu16;
        let kk = op & 0xFFu16;
        let nnn = op & 0xFFFu16;
        proof {
            lemma_decode(op);
        }
        if op == 0x00E0 {
            self.screen = vec![false; SCREEN_SIZE];
            assert(self.screen@ =~= clear_screen(old(self)@).screen);
        } else if op == 0x00EE {
            return self.return_from();
        } else if kind == 0x1 {
            self.pc = nnn;
        } else if kind == 0x2 {
            return self.call(nnn);
        } else if kind == 0x3 {
            let c = self.reg[x] as u16 == kk;
            self.skip_if(c);
        } else if kind == 0x4 {
            let c = self.reg[x] as u16 != kk;
            self.skip_if(c);
        } else if kind == 0x5 && n == 0 {
            let c = self.reg[x] == self.reg[y];
            self.skip_if(c);
        } else if kind == 0x6 {
            self.reg.set(x, kk as u8);
        } else if kind == 0x7 {
            let v = ((self.reg[x] as u16 + kk) % 256) as u8;
            self.reg.set(x, v);
        } else if kind == 0x8 {
            return self.alu(op, x, y, n);
        } else if kind == 0x9 && n == 0 {
            let c = self.reg[x] != self.reg[y];
            self.skip_if(c);
        } else if kind == 0xA {
            self.i_reg = nnn;
        } else if kind == 0xB {
            self.pc = nnn + self.reg[0] as u16;
        } else if kind == 0xC {
            self.rng = next_random(self.rng);
            let v = (self.rng as u8) & (kk as u8);
            self.reg.set(x, v);
        } else if kind == 0xD {
            return self.draw(op, x, y, n as usize);
        } else if kind == 0xE {
            return self.key_skip(op, x, kk);
        } else if kind == 0xF {
            return self.misc(op, x, kk);
        } else {
            return Err(Chip8Error::UnknownOpcode(op));
        }
        Ok(())
    }

    /// Runs one instruction cycle. While a key wait is pending it only watches
    /// the keypad; otherwise it fetches the word at `pc`, moves `pc` past it
    /// and executes it. On a failure nothing changes and the error is returned.
    pub fn ticket(&mut self) -> (r: Result<(), Chip8Error>)
        requires
            old(self)@.wf(),
        ensures
            final(self)@.wf(),
            follows(step(old(self)@), r, old(self)@, final(self)@),
    {
        if let Some(x) = self.key_wait {
            if let Some(k) = self.first_pressed() {
                self.reg.set(x as usize, k);
                self.key_wait = None;
            }
            return Ok(());
        }
        if self.pc > LAST_FETCH_ADDR {
            return Err(Chip8Error::PcOutOfBounds(self.pc));
        }
        let op = self.fetch();
        let r = self.execute(op);
        if r.is_err() {
            self.pc = self.pc - 2;
        }
        r
    }
}

} // verus!

use vstd::prelude::*;

use vstd::arithmetic::div_mod::{
    lemma_fundamental_div_mod_converse_div, lemma_fundamental_div_mod_converse_mod,
};

use crate::font::font_seq;
use crate::model::{
    execute_spec, op_kind, op_kk, op_n, op_nnn, op_x, op_y, sprite_hit, step, word_at, Machine,
    LAST_FETCH_ADDR, RAM_SIZE, SCREEN_SIZE, STACK_DEPTH, START_ADDR,
};

verus! {

/// The opcode assembled from four nibbles decodes back into them.
pub proof fn lemma_op_fields(op: u16, k: int, x: int, y: int, n: int)
    requires
        0 <= k < 16,
        0 <= x < 16,
        0 <= y < 16,
        0 <= n < 16,
        op == k * 0x1000 + x * 0x100 + y * 0x10 + n,
    ensures
        op_kind(op) == k,
        op_x(op) == x,
        op_y(op) == y,
        op_n(op) == n,
        op_kk(op) == y * 0x10 + n,
        op_nnn(op) == x * 0x100 + y * 0x10 + n,
{
    let v = op as int;
    lemma_fundamental_div_mod_converse_div(v, 0x1000, k, x * 0x100 + y * 0x10 + n);
    lemma_fundamental_div_mod_converse_mod(v, 0x1000, k, x * 0x100 + y * 0x10 + n);
    lemma_fundamental_div_mod_converse_div(v, 0x100, k * 0x10 + x, y * 0x10 + n);
    lemma_fundamental_div_mod_converse_mod(v, 0x100, k * 0x10 + x, y * 0x10 + n);
    lemma_fundamental_div_mod_converse_mod(k * 0x10 + x, 0x10, k, x);
    lemma_fundamental_div_mod_converse_div(v, 0x10, k * 0x100 + x * 0x10 + y, n);
    lemma_fundamental_div_mod_converse_mod(v, 0x10, k * 0x100 + x * 0x10 + y, n);
    lemma_fundamental_div_mod_converse_mod(k * 0x100 + x * 0x10 + y, 0x10, k * 0x10 + x, y);
}

/// A fresh machine starts at the load address with the glyph table in the
/// first eighty bytes of memory.
pub proof fn lemma_fresh_machine()
    ensures
        Machine::initial().wf(),
        Machine::initial().pc == START_ADDR,
        Machine::initial().ram.subrange(0, 80) == font_seq(),
{
    assert(Machine::initial().ram.subrange(0, 80) =~= font_seq());
}

/// A call immediately followed by a return resumes right after the call
/// instruction, with the stack pointer back where it was.
pub proof fn lemma_call_then_return(m: Machine, target: u16)
    requires
        m.wf(),
        m.key_wait is None,
        m.pc <= LAST_FETCH_ADDR,
        m.sp < STACK_DEPTH,
        target <= LAST_FETCH_ADDR,
        word_at(m.ram, m.pc as int) == 0x2000 + target,
        word_at(m.ram, target as int) == 0x00EE,
    ensures
        step(m) is Ok,
        step(step(m)->Ok_0) is Ok,
        step(step(m)->Ok_0)->Ok_0.pc == m.pc + 2,
        step(step(m)->Ok_0)->Ok_0.sp == m.sp,
{
    let op = word_at(m.ram, m.pc as int);
    let t = target as int;
    lemma_fundamental_div_mod_converse_div(op as int, 0x1000, 2, t);
    lemma_fundamental_div_mod_converse_mod(op as int, 0x1000, 2, t);
    assert(op_kind(op) == 2 && op_nnn(op) == t);
    let m1 = step(m)->Ok_0;
    assert(m1.pc == target && m1.sp == m.sp + 1 && m1.stack[m.sp as int] == m.pc + 2);
    assert(m1.ram == m.ram && m1.key_wait is None && m1.wf());
    assert(step(m1) == execute_spec(m1.with_pc(t + 2), 0x00EE));
}

/// `8xy4` leaves the sum modulo 256 in Vx and sets VF exactly when the
/// unsigned sum of the two operands exceeds 255. (With x = F the flag
/// overwrites the sum, so VF is left out as a destination.)
pub proof fn lemma_add_carry(m: Machine, x: int, y: int)
    requires
        m.wf(),
        0 <= x < 15,
        0 <= y < 16,
    ensures
        ({
            let r = execute_spec(m, (0x8004 + x * 0x100 + y * 0x10) as u16);
            let sum = m.reg[x] + m.reg[y];
            &&& r is Ok
            &&& r->Ok_0.reg[x] == sum % 256
            &&& r->Ok_0.reg[15] == if sum > 255 { 1u8 } else { 0u8 }
        }),
{
    lemma_op_fields((0x8004 + x * 0x100 + y * 0x10) as u16, 8, x, y, 4);
}

/// `8xy5` and `8xy7` set VF exactly when no borrow occurs, that is when the
/// minuend is at least the subtrahend (equal operands included), and leave
/// the difference modulo 256 in Vx. (VF is left out as a destination.)
pub proof fn lemma_sub_borrow(m: Machine, x: int, y: int)
    requires
        m.wf(),
        0 <= x < 15,
        0 <= y < 16,
    ensures
        ({
            let sub = execute_spec(m, (0x8005 + x * 0x100 + y * 0x10) as u16);
            let subn = execute_spec(m, (0x8007 + x * 0x100 + y * 0x10) as u16);
            let vx = m.reg[x];
            let vy = m.reg[y];
            &&& sub is Ok
            &&& sub->Ok_0.reg[15] == if vx >= vy { 1u8 } else { 0u8 }
            &&& sub->Ok_0.reg[x] == (vx - vy) % 256
            &&& subn is Ok
            &&& subn->Ok_0.reg[15] == if vy >= vx { 1u8 } else { 0u8 }
            &&& subn->Ok_0.reg[x] == (vy - vx) % 256
        }),
{
    lemma_op_fields((0x8005 + x * 0x100 + y * 0x10) as u16, 8, x, y, 5);
    lemma_op_fields((0x8007 + x * 0x100 + y * 0x10) as u16, 8, x, y, 7);
    lemma_wrapped_difference(m.reg[x] as int, m.reg[y] as int);
    lemma_wrapped_difference(m.reg[y] as int, m.reg[x] as int);
}

/// A difference of bytes taken modulo 256, with or without an added 256.
proof fn lemma_wrapped_difference(a: int, b: int)
    requires
        0 <= a < 256,
        0 <= b < 256,
    ensures
        (a - b + 256) % 256 == (a - b) % 256,
{
    if a >= b {
        lemma_fundamental_div_mod_converse_mod(a - b + 256, 256, 1, a - b);
        lemma_fundamental_div_mod_converse_mod(a - b, 256, 0, a - b);
    } else {
        lemma_fundamental_div_mod_converse_mod(a - b + 256, 256, 0, a - b + 256);
        lemma_fundamental_div_mod_converse_mod(a - b, 256, -1, a - b + 256);
    }
}

/// Drawing the same sprite twice at the same place restores every pixel. The
/// first draw reports a collision exactly when a touched pixel was lit before
/// it; the second exactly when a touched pixel was dark before the first.
/// (The coordinate registers are not VF, which the first draw overwrites.)
pub proof fn lemma_draw_twice(m: Machine, x: int, y: int, n: int)
    requires
        m.wf(),
        0 <= x < 15,
        0 <= y < 15,
        0 <= n < 16,
        m.i_reg + n <= RAM_SIZE,
    ensures
        ({
            let op = (0xD000 + x * 0x100 + y * 0x10 + n) as u16;
            let first = execute_spec(m, op);
            let second = execute_spec(first->Ok_0, op);
            let touched = |idx: int|
                sprite_hit(m.ram, m.i_reg as int, n, m.reg[x], m.reg[y], idx);
            &&& first is Ok
            &&& second is Ok
            &&& second->Ok_0.screen == m.screen
            &&& first->Ok_0.reg[15] == 1 <==> exists|idx: int|
                0 <= idx < SCREEN_SIZE && touched(idx) && m.screen[idx]
            &&& second->Ok_0.reg[15] == 1 <==> exists|idx: int|
                0 <= idx < SCREEN_SIZE && touched(idx) && !m.screen[idx]
        }),
{
    let op = (0xD000 + x * 0x100 + y * 0x10 + n) as u16;
    lemma_op_fields(op, 0xD, x, y, n);
    let m1 = execute_spec(m, op)->Ok_0;
    let m2 = execute_spec(m1, op)->Ok_0;
    let i = m.i_reg as int;
    assert(m1.reg[x] == m.reg[x] && m1.reg[y] == m.reg[y]);
    assert(m2.screen =~= m.screen);
    if exists|idx: int|
        0 <= idx < SCREEN_SIZE && #[trigger] sprite_hit(m.ram, i, n, m.reg[x], m.reg[y], idx)
            && !m.screen[idx] {
        let idx = choose|idx: int|
            0 <= idx < SCREEN_SIZE && #[trigger] sprite_hit(m.ram, i, n, m.reg[x], m.reg[y], idx)
                && !m.screen[idx];
        assert(m1.screen[idx]);
    }
}

} // verus!

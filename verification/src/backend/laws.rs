use vstd::prelude::*;

use super::instruction::nn_of;
use super::instruction::nnn_of;
use super::instruction::op_of;
use super::instruction::x_of;
use super::interfaces::DisplayModel;
use super::interfaces::KeypadState;
use super::interfaces::first_released_from;
use super::interfaces::model_wf;
use super::model::Chip8Model;
use super::model::StepRes;
use super::model::TickRes;
use super::model::chip8_run;
use super::model::chip8_step;
use super::model::chip8_tick;
use super::model::chip8_wf;
use super::model::word_at;
use super::sprite::SpriteDraw;
use super::sprite::block_set;
use super::sprite::bit16;
use super::sprite::col_drawn;
use super::sprite::colx;
use super::sprite::byte_rows;
use super::sprite::draw_model;
use super::sprite::lemma_window;
use super::sprite::sprite_draw_of;
use super::sprite::words16;

verus! {

/// The program counter and the stacked return addresses are all even.
pub open spec fn aligned_state(s: Chip8Model) -> bool {
    &&& s.index % 2 == 0
    &&& forall|k: int| 0 <= k < s.stack.len() ==> #[trigger] (s.stack[k] as int) % 2 == 0
}

/// Every control transfer of the word aims at an even address: plain
/// and indexed jumps and calls; the other opcodes move the counter only
/// in steps of two.
pub open spec fn aligned_targets(s: Chip8Model, w: u16) -> bool {
    &&& (op_of(w) == 0x1 || op_of(w) == 0x2) ==> nnn_of(w) % 2 == 0
    &&& op_of(w) == 0xB ==> (s.v[if s.options.quirky_jump {
        x_of(w)
    } else {
        0
    }] + nnn_of(w)) % 2 == 0
}

/// The program counter and every stacked return address stay even
/// across any instruction whose control transfers aim at even targets:
/// plain fetches advance by two, skips by four, calls stack the even
/// address after themselves, and the key-wait rewind goes back by two.
/// An indexed jump or a jump to an odd address is the one way to leave
/// even alignment.
pub proof fn lemma_step_preserves_alignment(
    s: Chip8Model,
    pc: int,
    w: u16,
    kp: KeypadState,
    rnd: u8,
)
    requires
        chip8_wf(s),
        aligned_state(s),
        pc + 2 == s.index,
        aligned_targets(s, w),
    ensures
        match chip8_step(s, pc, w, kp, rnd) {
            StepRes::Cont(m) => aligned_state(m),
            StepRes::Brk(m) => aligned_state(m),
            StepRes::Fail(_) => true,
        },
{
    reveal(chip8_step);
}

/// Every state the step relation can reach from a well-formed state at
/// a fetched program counter is well formed again.
pub proof fn lemma_step_preserves_wf(s: Chip8Model, pc: int, w: u16, kp: KeypadState, rnd: u8)
    requires
        chip8_wf(s),
        0 <= pc,
        pc + 2 == s.index,
        s.index <= 4096,
    ensures
        match chip8_step(s, pc, w, kp, rnd) {
            StepRes::Cont(m) => chip8_wf(m),
            StepRes::Brk(m) => chip8_wf(m),
            StepRes::Fail(_) => true,
        },
{
    reveal(chip8_step);
    match chip8_step(s, pc, w, kp, rnd) {
        StepRes::Cont(m) => {
            if m.display is Some {
                let d = m.display->Some_0;
                assert(d.grid.len() == d.height && forall|i: int|
                    0 <= i < d.height ==> (#[trigger] d.grid[i]).len() == d.width);
            }
        },
        StepRes::Brk(m) => {
            if m.display is Some {
                let d = m.display->Some_0;
                assert(d.grid.len() == d.height && forall|i: int|
                    0 <= i < d.height ==> (#[trigger] d.grid[i]).len() == d.width);
            }
        },
        StepRes::Fail(_) => {},
    }
}

/// Whether the run, as it actually unfolds, executes a control transfer
/// to an odd address before it stops.
pub open spec fn run_strays_odd(s: Chip8Model, n: int, kp: KeypadState, rnds: Seq<u8>) -> bool
    decreases n,
{
    if n <= 0 || s.index + 1 >= 4096 {
        false
    } else {
        let pc = s.index;
        let w = word_at(s.memory, pc);
        let s2 = Chip8Model { index: pc + 2, ..s };
        !aligned_targets(s2, w) || (match chip8_step(s2, pc, w, kp, rnds[0]) {
            StepRes::Cont(m) => run_strays_odd(m, n - 1, kp, rnds.drop_first()),
            _ => false,
        })
    }
}

/// Along a run whose control transfers all aim at even addresses, the
/// program counter and the stack stay even and the state stays well
/// formed at every instruction boundary, up to and including the state
/// a failure aborts in. A fetch past memory is rejected before reading:
/// the one way the counter leaves memory is an error.
pub proof fn lemma_run_preserves_alignment(s: Chip8Model, n: int, kp: KeypadState, rnds: Seq<u8>)
    requires
        chip8_wf(s),
        aligned_state(s),
        !run_strays_odd(s, n, kp, rnds),
    ensures
        match chip8_run(s, n, kp, rnds) {
            TickRes::Done(m) => aligned_state(m) && chip8_wf(m),
            TickRes::Failed(m, _) => aligned_state(m) && chip8_wf(m),
        },
    decreases n,
{
    if n > 0 && s.index + 1 < 4096 {
        let pc = s.index;
        let w = word_at(s.memory, pc);
        let s2 = Chip8Model { index: pc + 2, ..s };
        lemma_step_preserves_alignment(s2, pc, w, kp, rnds[0]);
        lemma_step_preserves_wf(s2, pc, w, kp, rnds[0]);
        match chip8_step(s2, pc, w, kp, rnds[0]) {
            StepRes::Cont(m) => {
                lemma_run_preserves_alignment(m, n - 1, kp, rnds.drop_first());
            },
            _ => {},
        }
    }
}

/// One whole tick of a program whose control transfers aim at even
/// addresses keeps the program counter and the stack even at every
/// instruction boundary.
pub proof fn lemma_tick_preserves_alignment(s: Chip8Model, n: int, kp: KeypadState, rnds: Seq<u8>)
    requires
        s.loaded,
        chip8_wf(s),
        aligned_state(s),
        !run_strays_odd(
            Chip8Model {
                delay: if s.delay > 0 {
                    (s.delay - 1) as u8
                } else {
                    0
                },
                sound: if s.sound > 0 {
                    (s.sound - 1) as u8
                } else {
                    0
                },
                ..s
            },
            n,
            kp,
            rnds,
        ),
    ensures
        match chip8_tick(s, n, kp, rnds) {
            TickRes::Done(m) => aligned_state(m) && chip8_wf(m),
            TickRes::Failed(m, _) => aligned_state(m) && chip8_wf(m),
        },
{
    let s1 = Chip8Model {
        delay: if s.delay > 0 {
            (s.delay - 1) as u8
        } else {
            0
        },
        sound: if s.sound > 0 {
            (s.sound - 1) as u8
        } else {
            0
        },
        ..s
    };
    lemma_run_preserves_alignment(s1, n, kp, rnds);
}

/// The binary-coded-decimal opcode leaves the hundreds, tens and ones
/// digits of the register in three consecutive memory cells, and
/// nothing else changes.
pub proof fn lemma_bcd_digits(s: Chip8Model, pc: int, w: u16, kp: KeypadState, rnd: u8)
    requires
        chip8_wf(s),
        op_of(w) == 0xF,
        nn_of(w) == 0x33,
        s.address + 2 < 4096,
    ensures
        match chip8_step(s, pc, w, kp, rnd) {
            StepRes::Cont(m) => {
                let b = s.v[x_of(w)];
                &&& m.memory[s.address] == b / 100
                &&& m.memory[s.address + 1] == (b / 10) % 10
                &&& m.memory[s.address + 2] == b % 10
                &&& b == 100 * (b / 100) + 10 * ((b / 10) % 10) + b % 10
                &&& forall|a: int|
                    0 <= a < 4096 && !(s.address <= a <= s.address + 2)
                        ==> m.memory[a] == s.memory[a]
                &&& m == (Chip8Model { memory: m.memory, ..s })
            },
            _ => false,
        },
{
    reveal(chip8_step);
    let b = s.v[x_of(w)];
    assert(b == 100 * (b / 100) + 10 * ((b / 10) % 10) + b % 10) by (nonlinear_arith);
}

/// Saving registers to memory and loading them back restores the
/// register file exactly: what the save opcode wrote is what the load
/// opcode reads, from any intermediate state that kept that memory
/// block and the address register.
pub proof fn lemma_store_load_roundtrip(
    s: Chip8Model,
    s2: Chip8Model,
    pc1: int,
    w1: u16,
    pc2: int,
    w2: u16,
    kp: KeypadState,
    rnd: u8,
)
    requires
        chip8_wf(s),
        chip8_wf(s2),
        op_of(w1) == 0xF,
        nn_of(w1) == 0x55,
        op_of(w2) == 0xF,
        nn_of(w2) == 0x65,
        x_of(w2) == x_of(w1),
        s.address + x_of(w1) < 4096,
        !s.options.increment_address,
        !s2.options.increment_address,
        s2.address == s.address,
        s2.memory == match chip8_step(s, pc1, w1, kp, rnd) {
            StepRes::Cont(m1) => m1.memory,
            _ => s.memory,
        },
    ensures
        chip8_step(s, pc1, w1, kp, rnd) is Cont,
        match chip8_step(s2, pc2, w2, kp, rnd) {
            StepRes::Cont(m2) => forall|i: int|
                0 <= i <= x_of(w1) ==> #[trigger] m2.v[i] == s.v[i],
            _ => false,
        },
{
    reveal(chip8_step);
}

/// Counting rows none of which collides counts nothing.
proof fn lemma_coll_count_zero(p: SpriteDraw, k: int)
    requires
        forall|y: int| 0 <= y < k ==> !p.row_coll(y),
    ensures
        p.coll_count(k) == 0,
    decreases k,
{
    if k > 0 {
        lemma_coll_count_zero(p, k - 1);
    }
}

/// Clearing the display and then drawing an all-zero sprite leaves
/// every pixel off, and the display is marked dirty; a byte-row draw
/// also reports no collision (a 16 by 16 draw may still count rows the
/// bottom edge cut off).
pub proof fn lemma_clear_then_draw_blank(d: DisplayModel, sx: int, sy: int, sprite: Seq<u8>)
    requires
        model_wf(d),
        sprite.len() <= 15 || (sprite.len() == 32 && !d.half_resolution),
        forall|i: int| 0 <= i < sprite.len() ==> sprite[i] == 0,
    ensures
        ({
            let c = super::model::clear_display(d);
            let (d2, cnt) = draw_model(c, sx, sy, sprite);
            &&& d2.dirty
            &&& forall|i: int, j: int| 0 <= i < d.height && 0 <= j < d.width ==> !d2.grid[i][j]
            &&& sprite.len() <= 15 ==> cnt == 0
        }),
{
    let c = super::model::clear_display(d);
    let p = sprite_draw_of(c, sx, sy, sprite);
    assert(forall|sh: u16| sh < 16 ==> ((0u16 >> sh) & 1u16) != 1u16) by (bit_vector);
    assert forall|y: int, x: int| 0 <= y < p.rows.len() && 0 <= x < 16 implies !bit16(
        p.rows[y],
        x,
    ) by {
        assert(p.rows[y] == 0) by {
            if sprite.len() == 32 && !d.half_resolution {
                assert(words16(sprite)[y] == (sprite[2 * y] * 256 + sprite[2 * y + 1]) as u16);
            } else {
                assert(byte_rows(sprite)[y] == (sprite[y] * 256) as u16);
            }
        }
        assert(((15 - x) as u16) < 16);
    }
    assert forall|i: int, j: int| 0 <= i < d.height && 0 <= j < d.width implies !p.toggles(
        i,
        j,
    ) by {
        if p.toggles(i, j) {
            let y = choose|y: int|
                0 <= y < p.rows.len() && p.row_drawn(y) && #[trigger] p.rowy(y) <= i < p.rowy(y)
                    + p.s && p.hits(y, j);
            let x = choose|x: int|
                0 <= x < p.nbits && col_drawn(p.clip, p.cx0, p.s, p.w, x) && bit16(p.rows[y], x)
                    && #[trigger] colx(p.cx0, p.s, p.w, x) <= j < colx(p.cx0, p.s, p.w, x) + p.s;
            assert(false);
        }
    }
    if sprite.len() <= 15 {
        assert forall|y: int| 0 <= y < p.rows.len() implies !p.row_coll(y) by {
            if p.row_coll(y) {
                let x = choose|x: int|
                    0 <= x < p.nbits && col_drawn(p.clip, p.cx0, p.s, p.w, x) && bit16(
                        p.rows[y],
                        x,
                    ) && block_set(p.g0, p.rowy(y), #[trigger] colx(p.cx0, p.s, p.w, x), p.s);
                assert(false);
            }
        }
        lemma_coll_count_zero(p, p.rows.len() as int);
    }
}

/// Counting over more rows never lowers the count, and a drawn
/// colliding row makes it positive.
proof fn lemma_coll_count_pos(p: SpriteDraw, k: int, y: int)
    requires
        0 <= y < k,
        p.row_drawn(y),
        p.row_coll(y),
    ensures
        p.coll_count(k) >= 1,
    decreases k,
{
    super::sprite::lemma_coll_count_bound(p, k - 1);
    if y < k - 1 {
        lemma_coll_count_pos(p, k - 1, y);
    }
}

/// Drawing the same sprite twice at the same coordinates restores every
/// pixel, and the second draw reports a collision whenever the first
/// draw lit a pixel that was off.
#[verifier::rlimit(100)]
pub proof fn lemma_draw_twice_restores(d: DisplayModel, sx: int, sy: int, sprite: Seq<u8>)
    requires
        model_wf(d),
        sprite.len() <= 15 || (sprite.len() == 32 && !d.half_resolution),
    ensures
        ({
            let (d1, c1) = draw_model(d, sx, sy, sprite);
            let (d2, c2) = draw_model(d1, sx, sy, sprite);
            &&& d2.dirty
            &&& forall|i: int, j: int|
                0 <= i < d.height && 0 <= j < d.width ==> d2.grid[i][j] == d.grid[i][j]
            &&& (exists|i: int, j: int|
                0 <= i < d.height && 0 <= j < d.width && #[trigger] sprite_draw_of(
                    d,
                    sx,
                    sy,
                    sprite,
                ).toggles(i, j) && !d.grid[i][j]) ==> c2 >= 1
        }),
{
    let p1 = sprite_draw_of(d, sx, sy, sprite);
    let (d1, c1) = draw_model(d, sx, sy, sprite);
    let p2 = sprite_draw_of(d1, sx, sy, sprite);
    assert forall|i: int, j: int| 0 <= i < d.height && 0 <= j < d.width implies p2.toggles(i, j)
        == p1.toggles(i, j) by {
        if p1.toggles(i, j) {
            let y = choose|y: int|
                0 <= y < p1.rows.len() && p1.row_drawn(y) && #[trigger] p1.rowy(y) <= i < p1.rowy(
                    y,
                ) + p1.s && p1.hits(y, j);
            assert(p2.rowy(y) == p1.rowy(y));
            assert(p2.toggles(i, j));
        }
        if p2.toggles(i, j) {
            let y = choose|y: int|
                0 <= y < p2.rows.len() && p2.row_drawn(y) && #[trigger] p2.rowy(y) <= i < p2.rowy(
                    y,
                ) + p2.s && p2.hits(y, j);
            assert(p1.rowy(y) == p2.rowy(y));
            assert(p1.toggles(i, j));
        }
    }
    if exists|i: int, j: int|
        0 <= i < d.height && 0 <= j < d.width && #[trigger] p1.toggles(i, j) && !d.grid[i][j] {
        let (i, j) = choose|i: int, j: int|
            0 <= i < d.height && 0 <= j < d.width && #[trigger] p1.toggles(i, j) && !d.grid[i][j];
        let y = choose|y: int|
            0 <= y < p1.rows.len() && p1.row_drawn(y) && #[trigger] p1.rowy(y) <= i < p1.rowy(y)
                + p1.s && p1.hits(y, j);
        let x = choose|x: int|
            0 <= x < p1.nbits && col_drawn(p1.clip, p1.cx0, p1.s, p1.w, x) && bit16(p1.rows[y], x)
                && #[trigger] colx(p1.cx0, p1.s, p1.w, x) <= j < colx(p1.cx0, p1.s, p1.w, x)
                + p1.s;
        assert((x + 1) * p1.s <= p1.w) by (nonlinear_arith)
            requires
                0 <= x,
                p1.s == 1 || p1.s == 2,
                (p1.s == 1 && x < 16) || (p1.s == 2 && x < 8),
                p1.w >= 16,
        ;
        if p1.s == 2 {
            assert((sx * 2) % 2 == 0 && (sy * 2) % 2 == 0) by (nonlinear_arith);
            super::sprite::lemma_mod_parity(sx * 2, d.width);
            super::sprite::lemma_mod_parity(sy * 2, d.height);
        }
        lemma_window(p1.cx0, p1.s, p1.w, x);
        assert((y + 1) * p1.s <= p1.h) by (nonlinear_arith)
            requires
                0 <= y,
                p1.s == 1 || p1.s == 2,
                (p1.s == 1 && y < 16) || (p1.s == 2 && y < 15),
                p1.h >= 32,
        ;
        lemma_window(p1.cy0, p1.s, p1.h, y);
        assert(d1.grid[i][j]);
        assert(block_set(p2.g0, p2.rowy(y), colx(p2.cx0, p2.s, p2.w, x), p2.s)) by {
            assert(p2.rowy(y) <= i < p2.rowy(y) + p2.s);
            assert(colx(p2.cx0, p2.s, p2.w, x) <= j < colx(p2.cx0, p2.s, p2.w, x) + p2.s);
        }
        assert(p2.row_coll(y));
        lemma_coll_count_pos(p2, p2.rows.len() as int, y);
        super::sprite::lemma_coll_count_bound(p2, p2.rows.len() as int);
        assert(p2.penalty() >= 0) by {
            if p2.nbits == 16 && p2.clip && (p2.h - p2.cy0) % p2.s == 0 && (p2.h - p2.cy0) / p2.s
                < p2.rows.len() {
                vstd::arithmetic::div_mod::lemma_div_pos_is_pos(p2.h - p2.cy0, p2.s);
            }
        }
    }
}

/// No key shows a release edge exactly when the scan finds none.
pub proof fn lemma_no_edges_scan(kp: KeypadState, k: int)
    requires
        0 <= k <= 16,
        forall|j: int| k <= j < 16 ==> !kp.falling_edge(j),
    ensures
        first_released_from(kp, k) is None,
    decreases 16 - k,
{
    if k < 16 {
        lemma_no_edges_scan(kp, k + 1);
    }
}

/// A tick whose only executed instruction is wait-for-key, in a frame
/// where no key was released, leaves the program counter where it was:
/// the opcode re-executes next tick. The registers also stay.
pub proof fn lemma_wait_key_rewinds(s: Chip8Model, n: int, kp: KeypadState, rnds: Seq<u8>)
    requires
        chip8_wf(s),
        s.loaded,
        n >= 1,
        s.index + 1 < 4096,
        op_of(word_at(s.memory, s.index)) == 0xF,
        nn_of(word_at(s.memory, s.index)) == 0x0A,
        forall|k: int| 0 <= k < 16 ==> !kp.falling_edge(k),
    ensures
        match chip8_tick(s, n, kp, rnds) {
            TickRes::Done(m) => m.index == s.index && m.v == s.v && m.memory == s.memory,
            TickRes::Failed(_, _) => false,
        },
{
    reveal(chip8_step);
    lemma_no_edges_scan(kp, 0);
}

/// The word is one of the two timer-load opcodes.
pub open spec fn is_timer_write(w: u16) -> bool {
    op_of(w) == 0xF && (nn_of(w) == 0x15 || nn_of(w) == 0x18)
}

/// Whether the run, as it actually unfolds, fetches a timer-load
/// opcode before it stops.
pub open spec fn run_writes_timers(s: Chip8Model, n: int, kp: KeypadState, rnds: Seq<u8>) -> bool
    decreases n,
{
    if n <= 0 || s.index + 1 >= 4096 {
        false
    } else {
        let pc = s.index;
        let w = word_at(s.memory, pc);
        let s2 = Chip8Model { index: pc + 2, ..s };
        is_timer_write(w) || (match chip8_step(s2, pc, w, kp, rnds[0]) {
            StepRes::Cont(m) => run_writes_timers(m, n - 1, kp, rnds.drop_first()),
            _ => false,
        })
    }
}

/// No instruction but the two timer loads writes a timer.
pub proof fn lemma_step_preserves_timers(s: Chip8Model, pc: int, w: u16, kp: KeypadState, rnd: u8)
    requires
        !is_timer_write(w),
    ensures
        match chip8_step(s, pc, w, kp, rnd) {
            StepRes::Cont(m) => m.delay == s.delay && m.sound == s.sound,
            StepRes::Brk(m) => m.delay == s.delay && m.sound == s.sound,
            StepRes::Fail(_) => true,
        },
{
    reveal(chip8_step);
}

/// A run that fetches no timer-load opcode leaves both timers exactly
/// where they started, whether it finishes, breaks or fails.
pub proof fn lemma_run_preserves_timers(s: Chip8Model, n: int, kp: KeypadState, rnds: Seq<u8>)
    requires
        !run_writes_timers(s, n, kp, rnds),
    ensures
        match chip8_run(s, n, kp, rnds) {
            TickRes::Done(m) => m.delay == s.delay && m.sound == s.sound,
            TickRes::Failed(m, _) => m.delay == s.delay && m.sound == s.sound,
        },
    decreases n,
{
    if n > 0 && s.index + 1 < 4096 {
        let pc = s.index;
        let w = word_at(s.memory, pc);
        let s2 = Chip8Model { index: pc + 2, ..s };
        lemma_step_preserves_timers(s2, pc, w, kp, rnds[0]);
        match chip8_step(s2, pc, w, kp, rnds[0]) {
            StepRes::Cont(m) => {
                lemma_run_preserves_timers(m, n - 1, kp, rnds.drop_first());
            },
            _ => {},
        }
    }
}

/// One tick decrements each timer exactly once, stopping at zero,
/// whatever `n` asks for and however the tick ends, as long as the
/// instructions it runs do not themselves load a timer.
pub proof fn lemma_tick_decrements_timers(s: Chip8Model, n: int, kp: KeypadState, rnds: Seq<u8>)
    requires
        s.loaded,
        !run_writes_timers(
            Chip8Model {
                delay: if s.delay > 0 {
                    (s.delay - 1) as u8
                } else {
                    0
                },
                sound: if s.sound > 0 {
                    (s.sound - 1) as u8
                } else {
                    0
                },
                ..s
            },
            n,
            kp,
            rnds,
        ),
    ensures
        match chip8_tick(s, n, kp, rnds) {
            TickRes::Done(m) => m.delay == (if s.delay > 0 {
                (s.delay - 1) as u8
            } else {
                0
            }) && m.sound == (if s.sound > 0 {
                (s.sound - 1) as u8
            } else {
                0
            }),
            TickRes::Failed(m, _) => m.delay == (if s.delay > 0 {
                (s.delay - 1) as u8
            } else {
                0
            }) && m.sound == (if s.sound > 0 {
                (s.sound - 1) as u8
            } else {
                0
            }),
        },
{
    let s1 = Chip8Model {
        delay: if s.delay > 0 {
            (s.delay - 1) as u8
        } else {
            0
        },
        sound: if s.sound > 0 {
            (s.sound - 1) as u8
        } else {
            0
        },
        ..s
    };
    lemma_run_preserves_timers(s1, n, kp, rnds);
}

/// A call followed by a return comes back to the instruction right
/// after the call, with the stack as it was.
pub proof fn lemma_call_then_return(
    s: Chip8Model,
    pc1: int,
    w1: u16,
    kp: KeypadState,
    rnd: u8,
)
    requires
        chip8_wf(s),
        s.index <= 4096,
        pc1 + 2 == s.index,
        op_of(w1) == 0x2,
        s.stack.len() < 16,
    ensures
        match chip8_step(s, pc1, w1, kp, rnd) {
            StepRes::Cont(m1) => {
                &&& m1.index == nnn_of(w1)
                &&& m1.stack.len() == s.stack.len() + 1
                &&& match chip8_step(
                    Chip8Model { index: m1.index + 2, ..m1 },
                    m1.index,
                    0x00EE,
                    kp,
                    rnd,
                ) {
                    StepRes::Cont(m2) => m2.index == pc1 + 2 && m2.stack == s.stack,
                    _ => false,
                }
            },
            _ => false,
        },
{
    reveal(chip8_step);
    match chip8_step(s, pc1, w1, kp, rnd) {
        StepRes::Cont(m1) => {
            assert(m1.stack.last() == (s.index as u16));
            assert(m1.stack.drop_last() =~= s.stack);
        },
        _ => {
            assert(false);
        },
    }
}

} // verus!

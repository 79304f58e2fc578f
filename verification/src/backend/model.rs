use vstd::prelude::*;

use super::error::BackendError;
use super::error::BackendErrorKind;
use super::instruction::Instruction;
use super::instruction::n_of;
use super::instruction::nn_of;
use super::instruction::nnn_of;
use super::instruction::op_of;
use super::instruction::x_of;
use super::instruction::y_of;
use super::interfaces::DisplayModel;
use super::interfaces::KeypadState;
use super::interfaces::blank_grid;
use super::interfaces::first_released_from;
use super::interfaces::model_wf;
use super::sprite::draw_model;
use super::Options;

verus! {

/// Mathematical model of a classic interpreter core: the register file,
/// the address register `address`, the program counter `index`, memory,
/// the return stack, the timers, the quirk options and, when one is
/// attached, the display.
pub ghost struct Chip8Model {
    pub display: Option<DisplayModel>,
    pub index: int,
    pub loaded: bool,
    pub memory: Seq<u8>,
    pub options: Options,
    pub address: int,
    pub v: Seq<u8>,
    pub stack: Seq<u16>,
    pub delay: u8,
    pub sound: u8,
}

/// What one instruction did: went on to the next, broke off the frame,
/// or failed.
pub ghost enum StepRes {
    Cont(Chip8Model),
    Brk(Chip8Model),
    Fail(BackendErrorKind),
}

/// The sizes and ranges every reachable core state keeps: full memory,
/// sixteen registers, a bounded stack of return addresses, the address
/// register at most one past memory, and a program counter that stays
/// below the largest indexed-jump target.
pub open spec fn chip8_wf(m: Chip8Model) -> bool {
    &&& m.memory.len() == 4096
    &&& m.v.len() == 16
    &&& m.stack.len() <= 16
    &&& forall|k: int| 0 <= k < m.stack.len() ==> #[trigger] m.stack[k] <= 4096
    &&& 0 <= m.address <= 4096
    &&& 0 <= m.index <= 4352
    &&& match m.display {
        Some(d) => model_wf(d) && d.width == 64 && d.height == 32,
        None => true,
    }
}

/// An 8-bit sum with wrap-around.
pub open spec fn wrap_add8(a: u8, b: u8) -> u8 {
    ((a + b) % 256) as u8
}

/// An 8-bit difference with wrap-around.
pub open spec fn wrap_sub8(a: u8, b: u8) -> u8 {
    if a >= b {
        (a - b) as u8
    } else {
        (a - b + 256) as u8
    }
}

/// The display of the model cleared, leaving its options alone.
pub open spec fn clear_display(d: DisplayModel) -> DisplayModel {
    DisplayModel { grid: blank_grid(d.width, d.height), dirty: true, ..d }
}

/// The sequence with `bytes` copied in starting at `at`.
pub open spec fn write_block(mem: Seq<u8>, at: int, bytes: Seq<u8>) -> Seq<u8> {
    Seq::new(mem.len(), |i: int| if at <= i < at + bytes.len() { bytes[i - at] } else { mem[i] })
}

/// Memory with `v[0 ..= x]` copied in starting at `a`.
pub open spec fn store_regs(mem: Seq<u8>, a: int, v: Seq<u8>, x: int) -> Seq<u8> {
    Seq::new(mem.len(), |i: int| if a <= i <= a + x { v[i - a] } else { mem[i] })
}

/// The register file with `mem[a ..= a + x]` copied into `v[0 ..= x]`.
pub open spec fn load_regs(v: Seq<u8>, mem: Seq<u8>, a: int, x: int) -> Seq<u8> {
    Seq::new(v.len(), |i: int| if 0 <= i <= x { mem[a + i] } else { v[i] })
}

/// What one instruction of the classic core does. `pc` is the address
/// the word `w` was fetched from; `s.index` has already been advanced
/// past it. `kp` is the keypad snapshot of the tick and `rnd` the byte
/// that the random source of the interpreter produced, if the
/// instruction asked for one.
#[verifier::opaque]
pub open spec fn chip8_step(
    s: Chip8Model,
    pc: int,
    w: u16,
    kp: KeypadState,
    rnd: u8,
) -> StepRes {
    let op = op_of(w);
    let x = x_of(w);
    let y = y_of(w);
    let n = n_of(w);
    let nn = nn_of(w);
    let nnn = nnn_of(w);
    if op == 0x0 {
        if nnn == 0x0E0 {
            match s.display {
                None => StepRes::Fail(BackendErrorKind::DisplayNotConnected),
                Some(d) => StepRes::Cont(
                    Chip8Model { display: Some(clear_display(d)), ..s },
                ),
            }
        } else if nnn == 0x0EE {
            if s.stack.len() == 0 {
                StepRes::Fail(BackendErrorKind::StackUnderflow)
            } else {
                StepRes::Cont(
                    Chip8Model {
                        index: s.stack.last() as int,
                        stack: s.stack.drop_last(),
                        ..s
                    },
                )
            }
        } else {
            StepRes::Cont(s)
        }
    } else if op == 0x1 {
        StepRes::Cont(Chip8Model { index: nnn, ..s })
    } else if op == 0x2 {
        if s.stack.len() == 16 {
            StepRes::Fail(BackendErrorKind::StackOverflow)
        } else {
            StepRes::Cont(
                Chip8Model { index: nnn, stack: s.stack.push(s.index as u16), ..s },
            )
        }
    } else if op == 0x3 {
        if s.v[x] == nn {
            StepRes::Cont(Chip8Model { index: s.index + 2, ..s })
        } else {
            StepRes::Cont(s)
        }
    } else if op == 0x4 {
        if s.v[x] != nn {
            StepRes::Cont(Chip8Model { index: s.index + 2, ..s })
        } else {
            StepRes::Cont(s)
        }
    } else if op == 0x5 {
        if s.v[x] == s.v[y] {
            StepRes::Cont(Chip8Model { index: s.index + 2, ..s })
        } else {
            StepRes::Cont(s)
        }
    } else if op == 0x9 {
        if s.v[x] != s.v[y] {
            StepRes::Cont(Chip8Model { index: s.index + 2, ..s })
        } else {
            StepRes::Cont(s)
        }
    } else if op == 0x6 {
        StepRes::Cont(Chip8Model { v: s.v.update(x, nn as u8), ..s })
    } else if op == 0x7 {
        StepRes::Cont(
            Chip8Model { v: s.v.update(x, wrap_add8(s.v[x], nn as u8)), ..s },
        )
    } else if op == 0x8 {
        if n == 0x0 {
            StepRes::Cont(Chip8Model { v: s.v.update(x, s.v[y]), ..s })
        } else if n == 0x1 || n == 0x2 || n == 0x3 {
            let r = if n == 0x1 {
                s.v[x] | s.v[y]
            } else if n == 0x2 {
                s.v[x] & s.v[y]
            } else {
                s.v[x] ^ s.v[y]
            };
            let v1 = s.v.update(x, r);
            let v2 = if s.options.reset_flag {
                v1.update(15, 0u8)
            } else {
                v1
            };
            StepRes::Cont(Chip8Model { v: v2, ..s })
        } else if n == 0x4 {
            let carry: u8 = if s.v[x] + s.v[y] > 255 {
                1
            } else {
                0
            };
            StepRes::Cont(
                Chip8Model {
                    v: s.v.update(x, wrap_add8(s.v[x], s.v[y])).update(15, carry),
                    ..s
                },
            )
        } else if n == 0x5 {
            let flag: u8 = if s.v[x] >= s.v[y] {
                1
            } else {
                0
            };
            StepRes::Cont(
                Chip8Model {
                    v: s.v.update(x, wrap_sub8(s.v[x], s.v[y])).update(15, flag),
                    ..s
                },
            )
        } else if n == 0x7 {
            let flag: u8 = if s.v[y] >= s.v[x] {
                1
            } else {
                0
            };
            StepRes::Cont(
                Chip8Model {
                    v: s.v.update(x, wrap_sub8(s.v[y], s.v[x])).update(15, flag),
                    ..s
                },
            )
        } else if n == 0x6 {
            let src = if s.options.copy_and_shift {
                s.v[y]
            } else {
                s.v[x]
            };
            StepRes::Cont(
                Chip8Model {
                    v: s.v.update(x, src / 2).update(15, src % 2),
                    ..s
                },
            )
        } else if n == 0xE {
            let src = if s.options.copy_and_shift {
                s.v[y]
            } else {
                s.v[x]
            };
            StepRes::Cont(
                Chip8Model {
                    v: s.v.update(x, wrap_add8(src, src)).update(15, src / 128),
                    ..s
                },
            )
        } else {
            StepRes::Fail(BackendErrorKind::UnrecognizedInstruction)
        }
    } else if op == 0xA {
        StepRes::Cont(Chip8Model { address: nnn, ..s })
    } else if op == 0xB {
        let base = if s.options.quirky_jump {
            s.v[x]
        } else {
            s.v[0]
        };
        StepRes::Cont(Chip8Model { index: base + nnn, ..s })
    } else if op == 0xC {
        StepRes::Cont(Chip8Model { v: s.v.update(x, rnd & nn as u8), ..s })
    } else if op == 0xD {
        if s.address + n >= 4096 {
            StepRes::Fail(BackendErrorKind::MemoryOverflow)
        } else {
            match s.display {
                None => StepRes::Fail(BackendErrorKind::DisplayNotConnected),
                Some(d) => {
                    let sprite = s.memory.subrange(s.address, s.address + n);
                    let (d2, cnt) = draw_model(d, s.v[x] as int, s.v[y] as int, sprite);
                    let flag: u8 = if cnt > 0 {
                        1
                    } else {
                        0
                    };
                    StepRes::Brk(
                        Chip8Model {
                            display: Some(d2),
                            v: s.v.update(15, flag),
                            ..s
                        },
                    )
                },
            }
        }
    } else if op == 0xE {
        if nn == 0x9E {
            if s.v[x] >= 16 {
                StepRes::Fail(BackendErrorKind::UnrecognizedKey)
            } else if kp.held(s.v[x] as int) {
                StepRes::Cont(Chip8Model { index: s.index + 2, ..s })
            } else {
                StepRes::Cont(s)
            }
        } else if nn == 0xA1 {
            if s.v[x] >= 16 {
                StepRes::Fail(BackendErrorKind::UnrecognizedKey)
            } else if !kp.held(s.v[x] as int) {
                StepRes::Cont(Chip8Model { index: s.index + 2, ..s })
            } else {
                StepRes::Cont(s)
            }
        } else {
            StepRes::Fail(BackendErrorKind::UnrecognizedInstruction)
        }
    } else if op == 0xF {
        if nn == 0x07 {
            StepRes::Cont(Chip8Model { v: s.v.update(x, s.delay), ..s })
        } else if nn == 0x0A {
            match first_released_from(kp, 0) {
                Some(k) => StepRes::Brk(
                    Chip8Model { v: s.v.update(x, k as u8), ..s },
                ),
                None => StepRes::Brk(Chip8Model { index: pc, ..s }),
            }
        } else if nn == 0x15 {
            StepRes::Cont(Chip8Model { delay: s.v[x], ..s })
        } else if nn == 0x18 {
            StepRes::Cont(Chip8Model { sound: s.v[x], ..s })
        } else if nn == 0x1E {
            StepRes::Cont(
                Chip8Model { address: (s.address + s.v[x]) % 4096, ..s },
            )
        } else if nn == 0x29 {
            if s.v[x] >= 16 {
                StepRes::Fail(BackendErrorKind::UnrecognizedSprite)
            } else {
                StepRes::Cont(Chip8Model { address: s.v[x] * 5, ..s })
            }
        } else if nn == 0x33 {
            if s.address + 2 >= 4096 {
                StepRes::Fail(BackendErrorKind::MemoryOverflow)
            } else {
                let b = s.v[x];
                StepRes::Cont(
                    Chip8Model {
                        memory: s.memory.update(s.address, (b / 100) as u8).update(
                            s.address + 1,
                            ((b / 10) % 10) as u8,
                        ).update(s.address + 2, (b % 10) as u8),
                        ..s
                    },
                )
            }
        } else if nn == 0x55 {
            if s.address + x >= 4096 {
                StepRes::Fail(BackendErrorKind::MemoryOverflow)
            } else {
                let a2 = if s.options.increment_address {
                    s.address + x + 1
                } else {
                    s.address
                };
                StepRes::Cont(
                    Chip8Model {
                        memory: store_regs(s.memory, s.address, s.v, x),
                        address: a2,
                        ..s
                    },
                )
            }
        } else if nn == 0x65 {
            if s.address + x >= 4096 {
                StepRes::Fail(BackendErrorKind::MemoryOverflow)
            } else {
                let a2 = if s.options.increment_address {
                    s.address + x + 1
                } else {
                    s.address
                };
                StepRes::Cont(
                    Chip8Model {
                        v: load_regs(s.v, s.memory, s.address, x),
                        address: a2,
                        ..s
                    },
                )
            }
        } else {
            StepRes::Fail(BackendErrorKind::UnrecognizedInstruction)
        }
    } else {
        StepRes::Fail(BackendErrorKind::UnrecognizedInstruction)
    }
}

/// The result and state relation that the classic `execute` promises:
/// the machine moved exactly as `chip8_step` says, and an error names
/// the instruction and where it was fetched from.
pub open spec fn step_post(
    pre: Chip8Model,
    pc: int,
    w: u16,
    kp: KeypadState,
    rnd: u8,
    post: Chip8Model,
    r: Result<core::ops::ControlFlow<()>, BackendError>,
) -> bool {
    match chip8_step(pre, pc, w, kp, rnd) {
        StepRes::Cont(m) => r == Ok::<core::ops::ControlFlow<()>, BackendError>(
            core::ops::ControlFlow::Continue(()),
        ) && post == m,
        StepRes::Brk(m) => r == Ok::<core::ops::ControlFlow<()>, BackendError>(
            core::ops::ControlFlow::Break(()),
        ) && post == m,
        StepRes::Fail(k) => r == Err::<core::ops::ControlFlow<()>, BackendError>(
            BackendError { instruction: Some((pc as usize, Some(Instruction(w)))), kind: k },
        ) && post == pre,
    }
}

/// The 16-bit word stored big-endian at `a`.
pub open spec fn word_at(mem: Seq<u8>, a: int) -> u16 {
    (mem[a] * 256 + mem[a + 1]) as u16
}

/// What a whole tick produced: the final state, or the state at the
/// failing instruction together with the error.
pub ghost enum TickRes {
    Done(Chip8Model),
    Failed(Chip8Model, BackendError),
}

/// Run up to `n` fetch-execute steps of the classic core, drawing the
/// bytes of `rnds` as the random source: stop early when a step breaks
/// the frame, abort when one fails or the program counter leaves
/// memory.
pub open spec fn chip8_run(s: Chip8Model, n: int, kp: KeypadState, rnds: Seq<u8>) -> TickRes
    decreases n,
{
    if n <= 0 {
        TickRes::Done(s)
    } else if s.index + 1 >= 4096 {
        TickRes::Failed(
            s,
            BackendError {
                instruction: Some((s.index as usize, None)),
                kind: BackendErrorKind::MemoryOverflow,
            },
        )
    } else {
        let pc = s.index;
        let w = word_at(s.memory, pc);
        let s2 = Chip8Model { index: pc + 2, ..s };
        match chip8_step(s2, pc, w, kp, rnds[0]) {
            StepRes::Cont(m) => chip8_run(m, n - 1, kp, rnds.drop_first()),
            StepRes::Brk(m) => TickRes::Done(m),
            StepRes::Fail(k) => TickRes::Failed(
                s2,
                BackendError { instruction: Some((pc as usize, Some(Instruction(w)))), kind: k },
            ),
        }
    }
}

/// What a whole classic tick does: fail unloaded, decrement both timers
/// once, then run up to `n` instructions.
pub open spec fn chip8_tick(s: Chip8Model, n: int, kp: KeypadState, rnds: Seq<u8>) -> TickRes {
    if !s.loaded {
        TickRes::Failed(
            s,
            BackendError { instruction: None, kind: BackendErrorKind::ProgramNotLoaded },
        )
    } else {
        let s2 = Chip8Model {
            delay: if s.delay > 0 {
                (s.delay - 1) as u8
            } else {
                0
            },
            sound: if s.sound > 0 {
                (s.sound - 1) as u8
            } else {
                0
            },
            ..s
        };
        chip8_run(s2, n, kp, rnds)
    }
}

} // verus!
